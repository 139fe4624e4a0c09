use muscli::cli::{is_application_id, lyrics_import_name};

#[test]
fn imported_lyrics_are_named_by_track_or_by_tags() {
    assert_eq!(
        lyrics_import_name(Some("abc"), Some("A"), Some("T")),
        Ok("abc.lrc".to_string())
    );
    assert_eq!(
        lyrics_import_name(None, Some("Sigur Rós"), Some("Hoppípolla")),
        Ok("sigur ros - hoppipolla.lrc".to_string())
    );
    assert!(lyrics_import_name(None, Some("A"), None).is_err());
    assert!(lyrics_import_name(None, None, None).is_err());
}

#[test]
fn a_discord_application_id_is_digits() {
    assert!(is_application_id("1234567890"));
    assert!(!is_application_id(""));
    assert!(!is_application_id("12a4"));
    assert!(!is_application_id("١٢٣"));
}
