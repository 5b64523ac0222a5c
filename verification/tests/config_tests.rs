use music_player::config::AppConfig;

#[test]
fn default_settings() {
    let c = AppConfig::default();
    assert!(c.enabled_players.is_empty());
    assert!(c.auto_detect_new_players);
    assert!(c.selected_player.is_none());
    assert!(!c.show_all_players);
    assert!(!c.hide_inactive_players);
}

#[test]
fn setters_write_through() {
    let mut c = AppConfig::default();
    c.set_selected_player(Some("Spotify".to_string()));
    assert_eq!(c.get_selected_player(), Some("Spotify".to_string()));
    c.set_selected_player(None);
    assert_eq!(c.get_selected_player(), None);
    c.set_auto_detect_new_players(false);
    assert!(!c.get_auto_detect_new_players());
    c.set_show_all_players(true);
    assert!(c.get_show_all_players());
    c.set_hide_inactive_players(true);
    assert!(c.get_hide_inactive_players());
}

#[test]
fn discovered_players_accumulate_without_duplicates() {
    let mut c = AppConfig::default();
    c.add_discovered_player("Spotify".to_string());
    c.add_discovered_player("Firefox".to_string());
    c.add_discovered_player("Spotify".to_string());
    assert_eq!(c.enabled_players, vec!["Spotify".to_string(), "Firefox".to_string()]);
}

#[test]
fn auto_detect_off_ignores_discoveries() {
    let mut c = AppConfig::default();
    c.set_auto_detect_new_players(false);
    c.add_discovered_player("Spotify".to_string());
    assert!(c.enabled_players.is_empty());
}
