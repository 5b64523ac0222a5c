use music_player::audio::AudioController;
use music_player::music::MusicController;
use music_player::player::{PlaybackStatus, SessionObservation};

fn obs(bus: &str, identity: &str, status: Option<PlaybackStatus>) -> SessionObservation {
    SessionObservation {
        bus_name: bus.to_string(),
        identity: identity.to_string(),
        title: None,
        artists: None,
        status,
        volume_percent: None,
        art_url: None,
    }
}

#[test]
fn discovery_builds_both_maps() {
    let mut mc = MusicController::new();
    mc.discover_all_players(vec![
        obs("spotify", "Spotify", Some(PlaybackStatus::Playing)),
        obs("vlc", "VLC media player", Some(PlaybackStatus::Stopped)),
    ]);
    let discovered = mc.get_discovered_players();
    assert_eq!(discovered.len(), 2);
    assert_eq!(discovered[0].identity, "Spotify");
    assert!(discovered[0].is_active);
    assert_eq!(discovered[1].identity, "VLC media player");
    assert!(!discovered[1].is_active);
}

#[test]
fn discovery_collapses_equal_identities() {
    // two sessions sharing one identity collapse into one discovery
    // entry, last write wins
    let mut mc = MusicController::new();
    mc.discover_all_players(vec![
        obs("ff.tab1", "Firefox", Some(PlaybackStatus::Stopped)),
        obs("ff.tab2", "Firefox", Some(PlaybackStatus::Playing)),
    ]);
    let discovered = mc.get_discovered_players();
    assert_eq!(discovered.len(), 1);
    assert!(discovered[0].is_active);
    // yet both sessions stay controllable by bus name
    assert!(mc.session_identity("ff.tab1").is_some());
    assert!(mc.session_identity("ff.tab2").is_some());
}

#[test]
fn discovery_replaces_rather_than_merges() {
    let mut mc = MusicController::new();
    mc.discover_all_players(vec![obs("a", "A", None)]);
    mc.discover_all_players(vec![obs("b", "B", None)]);
    let discovered = mc.get_discovered_players();
    assert_eq!(discovered.len(), 1);
    assert_eq!(discovered[0].identity, "B");
    assert!(mc.session_identity("a").is_none());
}

#[test]
fn find_specific_player_selects_exact_match() {
    let mut mc = MusicController::new();
    mc.find_specific_player(
        "Spotify",
        vec![obs("vlc", "VLC media player", None), obs("spotify", "Spotify", None)],
    );
    let info = mc.get_player_info(None);
    assert_eq!(info.identity, "Spotify");
    assert_eq!(info.bus_name, "spotify");
}

#[test]
fn find_specific_player_clears_selection_on_miss() {
    let mut mc = MusicController::new();
    mc.find_specific_player("Spotify", vec![obs("spotify", "Spotify", None)]);
    assert_eq!(mc.get_player_info(None).identity, "Spotify");
    // the player went away: selecting it again yields "no player",
    // not the previous player
    mc.find_specific_player("Spotify", vec![obs("vlc", "VLC media player", None)]);
    let info = mc.get_player_info(None);
    assert_eq!(info.title, "No music playing");
    assert_eq!(info.identity, "");
}

#[test]
fn extraction_defaults_every_missing_field() {
    let mut mc = MusicController::new();
    mc.find_active_player(Some(obs("spotify", "Spotify", None)));
    let info = mc.get_player_info(None);
    assert_eq!(info.title, "Unknown");
    assert_eq!(info.artist, "Unknown Artist");
    assert_eq!(info.status, PlaybackStatus::Stopped);
    assert_eq!(info.volume_percent, 50);
    assert!(info.art_url.is_none());
    assert!(info.can_control_volume);
}

#[test]
fn extraction_joins_artists() {
    let mut mc = MusicController::new();
    let mut o = obs("spotify", "Spotify", Some(PlaybackStatus::Playing));
    o.title = Some("Song".to_string());
    o.artists = Some(vec!["Alice".to_string(), "Bob".to_string()]);
    o.volume_percent = Some(80);
    mc.find_active_player(Some(o));
    let info = mc.get_player_info(None);
    assert_eq!(info.title, "Song");
    assert_eq!(info.artist, "Alice, Bob");
    assert_eq!(info.volume_percent, 80);
}

#[test]
fn mixer_match_overrides_native_volume() {
    // the override is unconditional when a fuzzy match exists, even
    // though the native read succeeded
    let mut ac = AudioController::new();
    ac.refresh_sink_inputs(b"Sink Input #4\n\tVolume: mono: 13 / 20%\n\tapplication.name = \"Firefox Web Browser\"\n");
    let mut mc = MusicController::new();
    let mut o = obs("ff", "Firefox", Some(PlaybackStatus::Playing));
    o.volume_percent = Some(95);
    mc.find_active_player(Some(o));
    let info = mc.get_player_info(Some(&ac));
    assert_eq!(info.volume_percent, 20);
}

#[test]
fn no_mixer_match_keeps_native_volume() {
    let mut ac = AudioController::new();
    ac.refresh_sink_inputs(b"Sink Input #4\n\tVolume: mono: 13 / 20%\n\tapplication.name = \"mpv\"\n");
    let mut mc = MusicController::new();
    let mut o = obs("spotify", "Spotify", None);
    o.volume_percent = Some(95);
    mc.find_active_player(Some(o));
    let info = mc.get_player_info(Some(&ac));
    assert_eq!(info.volume_percent, 95);
}

#[test]
fn all_players_info_aggregates_sessions() {
    let mut mc = MusicController::new();
    mc.discover_all_players(vec![
        obs("ff.tab1", "Firefox", Some(PlaybackStatus::Paused)),
        obs("ff.tab2", "Firefox", Some(PlaybackStatus::Playing)),
        obs("spotify", "Spotify", Some(PlaybackStatus::Stopped)),
    ]);
    let infos = mc.get_all_players_info(None);
    assert_eq!(infos.len(), 2);
    assert_eq!(infos[0].identity, "Firefox");
    assert_eq!(infos[0].status, PlaybackStatus::Playing);
    assert_eq!(infos[1].identity, "Spotify");
}

#[test]
fn volume_chain_stops_after_native_success() {
    let mut mc = MusicController::new();
    mc.discover_all_players(vec![obs("spotify", "Spotify", None)]);
    let mut ac = AudioController::new();
    ac.refresh_sink_inputs(b"Sink Input #1\n\tapplication.name = \"Spotify\"\n");
    assert!(mc.set_volume_player("spotify", true, Some(&ac), 80).is_none());
}

#[test]
fn volume_chain_falls_back_to_mixer() {
    let mut mc = MusicController::new();
    mc.discover_all_players(vec![obs("ff", "Firefox", None)]);
    let mut ac = AudioController::new();
    ac.refresh_sink_inputs(b"Sink Input #12\n\tapplication.name = \"Firefox Web Browser\"\n");
    let w = mc
        .set_volume_player("ff", false, Some(&ac), 70)
        .expect("fallback should find the stream");
    assert_eq!(w.index, 12);
    assert_eq!(w.percent, 70);
    // the write target is clamped
    let w = mc.set_volume_player("ff", false, Some(&ac), 500).unwrap();
    assert_eq!(w.percent, 150);
}

#[test]
fn volume_chain_is_a_silent_noop_without_a_match() {
    // a failing native call with no mixer match issues no command, so
    // the caller reports success
    let mut mc = MusicController::new();
    mc.discover_all_players(vec![obs("spotify", "Spotify", None)]);
    let mut ac = AudioController::new();
    ac.refresh_sink_inputs(b"Sink Input #1\n\tapplication.name = \"mpv\"\n");
    assert!(mc.set_volume_player("spotify", false, Some(&ac), 80).is_none());
    // likewise without any mixer, or for an unknown bus name
    assert!(mc.set_volume_player("spotify", false, None, 80).is_none());
    assert!(mc.set_volume_player("gone", false, Some(&ac), 80).is_none());
}

#[test]
fn selected_volume_chain_matches_by_identity() {
    let mut mc = MusicController::new();
    mc.find_active_player(Some(obs("ff", "Firefox", None)));
    let mut ac = AudioController::new();
    ac.refresh_sink_inputs(b"Sink Input #3\n\tapplication.name = \"firefox\"\n");
    let w = mc.set_volume(false, Some(&ac), 160).unwrap();
    assert_eq!(w.index, 3);
    assert_eq!(w.percent, 150);
    assert!(mc.set_volume(true, Some(&ac), 160).is_none());
}
