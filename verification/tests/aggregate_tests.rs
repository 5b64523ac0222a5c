use music_player::aggregate::aggregate;
use music_player::player::{PlaybackStatus, PlayerInfo};

fn info(identity: &str, title: &str, status: PlaybackStatus) -> PlayerInfo {
    PlayerInfo {
        title: title.to_string(),
        artist: String::new(),
        status,
        volume_percent: 50,
        art_url: None,
        bus_name: format!("bus.{title}"),
        identity: identity.to_string(),
        can_control_volume: true,
    }
}

#[test]
fn firefox_dedup_scenario() {
    // discovery yields {A: Firefox tab 1, Playing}, {B: Firefox tab 2, Paused},
    // {C: "Spotify", Stopped}; A wins the firefox dedup by Playing priority,
    // and the final order is alphabetical ("Firefox" < "Spotify").
    let a = info("Firefox", "tab 1", PlaybackStatus::Playing);
    let b = info("Firefox", "tab 2", PlaybackStatus::Paused);
    let c = info("Spotify", "song", PlaybackStatus::Stopped);
    let out = aggregate(vec![a, b, c]);
    assert_eq!(out.len(), 2);
    assert_eq!(out[0].identity, "Firefox");
    assert_eq!(out[0].title, "tab 1");
    assert_eq!(out[0].status, PlaybackStatus::Playing);
    assert_eq!(out[1].identity, "Spotify");
}

#[test]
fn no_dedup_with_single_firefox_entry() {
    // with at most one firefox entry, aggregation only reorders
    let out = aggregate(vec![
        info("Spotify", "s", PlaybackStatus::Playing),
        info("Firefox", "f", PlaybackStatus::Paused),
        info("VLC media player", "v", PlaybackStatus::Stopped),
    ]);
    assert_eq!(out.len(), 3);
    let identities: Vec<&str> = out.iter().map(|p| p.identity.as_str()).collect();
    assert_eq!(identities, vec!["Firefox", "Spotify", "VLC media player"]);
}

#[test]
fn no_dedup_without_firefox_entries() {
    let out = aggregate(vec![
        info("Spotify", "s", PlaybackStatus::Playing),
        info("VLC media player", "v", PlaybackStatus::Stopped),
    ]);
    assert_eq!(out.len(), 2);
    assert_eq!(out[0].identity, "Spotify");
    assert_eq!(out[1].identity, "VLC media player");
}

#[test]
fn dedup_keeps_minimum_priority_status() {
    // two firefox entries with distinct statuses: exactly one survives,
    // with the status of lowest priority value (Paused < Stopped)
    let out = aggregate(vec![
        info("Firefox", "stopped tab", PlaybackStatus::Stopped),
        info("Firefox", "paused tab", PlaybackStatus::Paused),
    ]);
    assert_eq!(out.len(), 1);
    assert_eq!(out[0].title, "paused tab");
    assert_eq!(out[0].status, PlaybackStatus::Paused);
}

#[test]
fn dedup_tie_keeps_earliest() {
    let out = aggregate(vec![
        info("Firefox", "first", PlaybackStatus::Playing),
        info("Firefox", "second", PlaybackStatus::Playing),
    ]);
    assert_eq!(out.len(), 1);
    assert_eq!(out[0].title, "first");
}

#[test]
fn firefox_match_is_case_insensitive_substring() {
    let out = aggregate(vec![
        info("Mozilla FIREFOX", "x", PlaybackStatus::Stopped),
        info("firefox-esr", "y", PlaybackStatus::Playing),
    ]);
    assert_eq!(out.len(), 1);
    assert_eq!(out[0].title, "y");
}

#[test]
fn sort_is_case_insensitive_ascending() {
    let out = aggregate(vec![
        info("spotify", "1", PlaybackStatus::Stopped),
        info("Amberol", "2", PlaybackStatus::Stopped),
        info("VLC", "3", PlaybackStatus::Stopped),
        info("amarok", "4", PlaybackStatus::Stopped),
    ]);
    let identities: Vec<&str> = out.iter().map(|p| p.identity.as_str()).collect();
    assert_eq!(identities, vec!["amarok", "Amberol", "spotify", "VLC"]);
}

#[test]
fn sort_ignores_input_order() {
    let mk = |ids: &[&str]| -> Vec<String> {
        let infos: Vec<PlayerInfo> = ids
            .iter()
            .map(|i| info(i, i, PlaybackStatus::Stopped))
            .collect();
        aggregate(infos).iter().map(|p| p.identity.clone()).collect()
    };
    let a = mk(&["Clementine", "Amberol", "Banshee"]);
    let b = mk(&["Banshee", "Clementine", "Amberol"]);
    assert_eq!(a, b);
    assert_eq!(a, vec!["Amberol", "Banshee", "Clementine"]);
}
