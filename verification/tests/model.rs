use muscli::i18n::{catalogues, set_language, Language, Translator};
use muscli::model::{
    normalize_text, parse_slash_number, RepeatMode, SmartMatch, SmartPlaylist, Track,
};

#[test]
fn parses_track_fraction() {
    assert_eq!(parse_slash_number(Some("03/12")), 3);
    assert_eq!(parse_slash_number(Some("nope")), 0);
    assert_eq!(parse_slash_number(None), 0);
}

#[test]
fn repeat_cycles() {
    assert_eq!(RepeatMode::Off.next(), RepeatMode::Track);
    assert_eq!(RepeatMode::Track.next(), RepeatMode::Queue);
    assert_eq!(RepeatMode::Queue.next(), RepeatMode::Off);
}

#[test]
fn normalizes_whitespace() {
    assert_eq!(normalize_text("  Miles   Davis\n"), "Miles Davis");
}

#[test]
fn the_default_repeat_mode_is_off() {
    assert_eq!(RepeatMode::default(), RepeatMode::Off);
}

#[test]
fn a_track_without_an_artist_is_shown_as_unknown() {
    let mut track = Track {
        id: "t".into(),
        source_id: "s".into(),
        relative_path: "t.flac".into(),
        path: "/t.flac".into(),
        title: "T".into(),
        artist: String::new(),
        album_artist: String::new(),
        album: "A".into(),
        genre: String::new(),
        year: None,
        disc_number: 0,
        track_number: 0,
        duration_ms: 0,
        cover_path: None,
        available: true,
        favorite: false,
    };
    assert_eq!(track.display_artist(), "Unknown Artist");
    track.artist = "Nina Simone".into();
    assert_eq!(track.display_artist(), "Nina Simone");
}

#[test]
fn slash_numbers_are_trimmed_and_bounded() {
    assert_eq!(parse_slash_number(Some(" 7 / 9")), 7);
    assert_eq!(parse_slash_number(Some("")), 0);
    assert_eq!(parse_slash_number(Some("99999999999")), 0);
}

#[test]
fn a_preset_playlist_follows_the_interface_language() {
    let english = "\"smart.recent\" = \"Recently added\"\n";
    let spanish = "\"smart.recent\" = \"Agregadas recientemente\"\n";
    let mut translator = Translator::new(catalogues(english, spanish).expect("catalogues parse"));
    let preset = SmartPlaylist {
        id: 1,
        name: "Recently added".into(),
        preset_key: Some("smart.recent".into()),
        match_mode: SmartMatch::All,
        rules: Vec::new(),
        sort_field: "added_at".into(),
        descending: true,
        limit: None,
    };
    let mine = SmartPlaylist {
        name: "Mi lista".into(),
        preset_key: None,
        ..preset.clone()
    };
    assert_eq!(preset.display_name(&translator), "Recently added");
    set_language(&mut translator, Language::Spanish);
    assert_eq!(preset.display_name(&translator), "Agregadas recientemente");
    assert_eq!(mine.display_name(&translator), "Mi lista");
}
