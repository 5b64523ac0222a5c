use music_player::player::{toggle_status, PlaybackStatus, PlayerInfo};
use music_player::ui::{any_playing, filter_inactive, icon_for_all, icon_for_status, AppIcon, PopupTab};

fn info(identity: &str, status: PlaybackStatus) -> PlayerInfo {
    PlayerInfo {
        title: identity.to_string(),
        artist: String::new(),
        status,
        volume_percent: 50,
        art_url: None,
        bus_name: identity.to_string(),
        identity: identity.to_string(),
        can_control_volume: true,
    }
}

#[test]
fn icon_names() {
    assert_eq!(AppIcon::Playing.to_str(), "media-playback-start-symbolic");
    assert_eq!(AppIcon::Paused.to_str(), "media-playback-pause-symbolic");
}

#[test]
fn single_player_icon_follows_status() {
    assert_eq!(icon_for_status(PlaybackStatus::Playing), AppIcon::Paused);
    assert_eq!(icon_for_status(PlaybackStatus::Paused), AppIcon::Playing);
    assert_eq!(icon_for_status(PlaybackStatus::Stopped), AppIcon::Playing);
}

#[test]
fn multi_player_icon_follows_any_playing() {
    let players = vec![
        info("a", PlaybackStatus::Stopped),
        info("b", PlaybackStatus::Playing),
    ];
    assert!(any_playing(&players));
    assert_eq!(icon_for_all(any_playing(&players)), AppIcon::Paused);
    let idle = vec![info("a", PlaybackStatus::Paused)];
    assert!(!any_playing(&idle));
    assert_eq!(icon_for_all(any_playing(&idle)), AppIcon::Playing);
}

#[test]
fn hide_inactive_drops_only_stopped() {
    let players = vec![
        info("a", PlaybackStatus::Playing),
        info("b", PlaybackStatus::Stopped),
        info("c", PlaybackStatus::Paused),
    ];
    let shown = filter_inactive(players, true);
    let ids: Vec<&str> = shown.iter().map(|p| p.identity.as_str()).collect();
    assert_eq!(ids, vec!["a", "c"]);
}

#[test]
fn hide_inactive_off_keeps_everything() {
    let players = vec![
        info("a", PlaybackStatus::Playing),
        info("b", PlaybackStatus::Stopped),
    ];
    let shown = filter_inactive(players, false);
    assert_eq!(shown.len(), 2);
}

#[test]
fn play_pause_toggles_shown_status() {
    assert_eq!(toggle_status(PlaybackStatus::Playing), PlaybackStatus::Paused);
    assert_eq!(toggle_status(PlaybackStatus::Paused), PlaybackStatus::Playing);
    assert_eq!(toggle_status(PlaybackStatus::Stopped), PlaybackStatus::Playing);
}

#[test]
fn popup_tabs_compare() {
    assert_eq!(PopupTab::Controls, PopupTab::Controls);
    assert_ne!(PopupTab::Controls, PopupTab::Settings);
}
