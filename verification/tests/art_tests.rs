use music_player::art::{
    art_transition, art_within_size_limit, classify_art_url, is_safe_album_art_path, ArtScheme,
    ArtTransition, MAX_ART_BYTES,
};

fn prefixes() -> Vec<String> {
    vec![
        "/home/user/.cache".to_string(),
        "/home/user/.local/share".to_string(),
        "/home/user/Music".to_string(),
        "/tmp".to_string(),
        "/var/tmp".to_string(),
    ]
}

#[test]
fn sensitive_file_is_rejected() {
    // file:///etc/passwd: a local reference, but outside the
    // allow-list, so no read may be attempted and there is no art
    assert_eq!(classify_art_url("file:///etc/passwd"), ArtScheme::LocalFile);
    assert!(!is_safe_album_art_path("/etc/passwd", &prefixes()));
}

#[test]
fn allowed_directories_pass() {
    let p = prefixes();
    assert!(is_safe_album_art_path("/home/user/.cache/art/cover.png", &p));
    assert!(is_safe_album_art_path("/tmp/cover.jpg", &p));
    assert!(is_safe_album_art_path("/home/user/Music/album/cover.jpg", &p));
}

#[test]
fn prefix_match_is_componentwise() {
    let p = prefixes();
    // "/tmpfoo" is not inside "/tmp"
    assert!(!is_safe_album_art_path("/tmpfoo/cover.png", &p));
    // the directory itself is covered
    assert!(is_safe_album_art_path("/tmp", &p));
}

#[test]
fn schemes_are_classified() {
    assert_eq!(classify_art_url("http://example.org/a.png"), ArtScheme::Remote);
    assert_eq!(classify_art_url("https://example.org/a.png"), ArtScheme::Remote);
    assert_eq!(classify_art_url("ftp://example.org/a.png"), ArtScheme::Unsupported);
    assert_eq!(classify_art_url("cover.png"), ArtScheme::Unsupported);
    assert_eq!(classify_art_url(""), ArtScheme::Unsupported);
}

#[test]
fn art_reload_follows_url_changes() {
    let old = Some("file:///tmp/a.png".to_string());
    let new = Some("file:///tmp/b.png".to_string());
    assert_eq!(art_transition(&None, &new), ArtTransition::Load);
    assert_eq!(art_transition(&old, &new), ArtTransition::Load);
    assert_eq!(art_transition(&old, &old.clone()), ArtTransition::Keep);
    assert_eq!(art_transition(&old, &None), ArtTransition::Clear);
    assert_eq!(art_transition(&None, &None), ArtTransition::Keep);
}

#[test]
fn size_ceiling_is_ten_mebibytes() {
    assert!(art_within_size_limit(0));
    assert!(art_within_size_limit(MAX_ART_BYTES));
    assert!(!art_within_size_limit(MAX_ART_BYTES + 1));
    assert_eq!(MAX_ART_BYTES, 10 * 1024 * 1024);
}
