use muscli::lyrics::{
    descriptive_name, is_plain_file_name, lyrics_candidates, lyrics_path, parse_lrc, parse_timestamp,
};
use muscli::model::Track;

#[test]
fn timestamps_are_parsed_in_every_common_shape() {
    assert_eq!(parse_timestamp("00:00"), Some(0));
    assert_eq!(parse_timestamp("01:30"), Some(90_000));
    assert_eq!(parse_timestamp("01:30.5"), Some(90_500));
    assert_eq!(parse_timestamp("01:30.50"), Some(90_500));
    assert_eq!(parse_timestamp("01:30.500"), Some(90_500));
    assert_eq!(parse_timestamp("ar:Some Artist"), None);
    assert_eq!(parse_timestamp("nonsense"), None);
}

#[test]
fn a_synced_file_is_ordered_by_time() {
    let lyrics = parse_lrc("[00:10.00]second\n[00:05.00]first\n[00:20.00]third\n");
    assert!(!lyrics.unsynced);
    let texts: Vec<&str> = lyrics.lines.iter().map(|l| l.text.as_str()).collect();
    assert_eq!(texts, ["first", "second", "third"]);
}

#[test]
fn one_line_can_carry_several_timestamps() {
    let lyrics = parse_lrc("[00:10.00][01:10.00]chorus\n");
    assert_eq!(lyrics.lines.len(), 2);
    assert_eq!(lyrics.lines[0].at_ms, 10_000);
    assert_eq!(lyrics.lines[1].at_ms, 70_000);
    assert!(lyrics.lines.iter().all(|line| line.text == "chorus"));
}

#[test]
fn metadata_tags_are_not_shown_as_lyrics() {
    let lyrics = parse_lrc("[ar:Artist]\n[ti:Title]\n[00:01.00]real line\n");
    assert_eq!(lyrics.lines.len(), 1);
    assert_eq!(lyrics.lines[0].text, "real line");
}

#[test]
fn a_file_without_timestamps_is_kept_as_plain_text() {
    let lyrics = parse_lrc("first line\nsecond line\n");
    assert!(lyrics.unsynced);
    assert_eq!(lyrics.lines.len(), 2);
    assert_eq!(
        lyrics.line_at(5_000),
        None,
        "plain text cannot follow along"
    );
}

#[test]
fn the_current_line_is_the_last_one_reached() {
    let lyrics = parse_lrc("[00:00.00]a\n[00:10.00]b\n[00:20.00]c\n");
    assert_eq!(lyrics.line_at(0), Some(0));
    assert_eq!(lyrics.line_at(9_999), Some(0));
    assert_eq!(lyrics.line_at(10_000), Some(1));
    assert_eq!(
        lyrics.line_at(60_000),
        Some(2),
        "a long outro keeps the last line lit rather than going blank"
    );
}

#[test]
fn a_line_before_the_first_timestamp_highlights_nothing() {
    let lyrics = parse_lrc("[00:05.00]only\n");
    assert_eq!(lyrics.line_at(0), None);
    assert_eq!(lyrics.line_at(5_000), Some(0));
}

#[test]
fn an_empty_file_is_not_lyrics() {
    assert!(parse_lrc("").is_empty());
    assert!(parse_lrc("[ar:Only metadata]\n").is_empty());
}

#[test]
fn equal_times_keep_the_order_of_the_file() {
    let lyrics = parse_lrc("[00:05.00]one\n[00:01.00]zero\n[00:05.00]two\n");
    let texts: Vec<&str> = lyrics.lines.iter().map(|l| l.text.as_str()).collect();
    assert_eq!(texts, ["zero", "one", "two"]);
}

#[test]
fn a_time_too_large_for_milliseconds_is_not_a_time() {
    assert_eq!(parse_timestamp("99999999999999999999:00"), None);
    assert_eq!(parse_timestamp("1:02:3"), Some(62_300));
    assert_eq!(parse_timestamp("1:02."), None);
}

#[test]
fn text_after_an_unclosed_tag_is_plain_text() {
    let lyrics = parse_lrc("[00:01 no close\n");
    assert!(lyrics.unsynced);
    assert_eq!(lyrics.lines[0].text, "[00:01 no close");
}

#[test]
fn descriptive_names_are_stable_and_filesystem_safe() {
    assert_eq!(
        descriptive_name("Sigur Rós", "Hoppípolla"),
        "sigur ros - hoppipolla.lrc"
    );
    assert_eq!(
        descriptive_name("AC/DC", "T.N.T."),
        "ac-dc - t-n-t-.lrc",
        "path separators and dots must not survive into a filename"
    );
}

#[test]
fn lyrics_are_stored_under_the_track_id() {
    let track = sample_track("abc123", "Artist", "Song");
    assert_eq!(lyrics_path("/data/lyrics", &track), "/data/lyrics/abc123.lrc");
    assert_eq!(lyrics_path("/data/lyrics/", &track), "/data/lyrics/abc123.lrc");
}

#[test]
fn lyrics_are_looked_for_by_id_then_by_tags() {
    let track = sample_track("abc123", "Daft Punk", "One More Time");
    assert_eq!(
        lyrics_candidates("/l", &track),
        vec![
            "/l/abc123.lrc".to_string(),
            "/l/daft punk - one more time.lrc".to_string()
        ]
    );
}

#[test]
fn an_imported_name_must_stay_in_the_lyrics_directory() {
    assert!(is_plain_file_name("song.lrc"));
    assert!(!is_plain_file_name("../escape.lrc"));
    assert!(!is_plain_file_name("/tmp/escape.lrc"));
    assert!(!is_plain_file_name(""));
    assert!(!is_plain_file_name("."));
    assert!(!is_plain_file_name(".."));
    assert!(!is_plain_file_name("dir/"));
}

fn sample_track(id: &str, artist: &str, title: &str) -> Track {
    Track {
        id: id.into(),
        source_id: "s".into(),
        relative_path: format!("{id}.flac"),
        path: format!("/{id}.flac"),
        title: title.into(),
        artist: artist.into(),
        album_artist: artist.into(),
        album: "Album".into(),
        genre: String::new(),
        year: None,
        disc_number: 1,
        track_number: 1,
        duration_ms: 1000,
        cover_path: None,
        available: true,
        favorite: false,
    }
}
