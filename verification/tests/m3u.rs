use std::path::PathBuf;

use muscli::m3u::{parse, render};

fn base() -> PathBuf {
    PathBuf::from("/music")
}

fn base_str() -> String {
    base().to_string_lossy().into_owned()
}

fn joined(rel: &str) -> String {
    base().join(rel).to_string_lossy().into_owned()
}

#[test]
fn plain_paths_are_read() {
    let entries = parse("a.flac\nb.flac\n", &base_str());
    assert_eq!(
        entries.iter().map(|e| e.path.clone()).collect::<Vec<_>>(),
        [joined("a.flac"), joined("b.flac")]
    );
}

#[test]
fn relative_entries_resolve_against_the_playlist() {
    let entries = parse("Album/track.flac\n", &base_str());
    assert_eq!(entries[0].path, joined("Album/track.flac"));
}

#[test]
fn absolute_entries_are_left_alone() {
    let entries = parse("/elsewhere/track.flac\n", &base_str());
    assert_eq!(entries[0].path, "/elsewhere/track.flac");
}

#[test]
fn windows_drive_paths_are_absolute_even_on_unix() {
    let entries = parse("C:\\Music\\song.flac\n", &base_str());
    assert_eq!(entries[0].path, "C:/Music/song.flac");
}

#[test]
fn extinf_labels_attach_to_the_entry_that_follows() {
    let entries = parse("#EXTINF:210,Artist - Title\na.flac\n", &base_str());
    assert_eq!(entries.len(), 1);
    assert_eq!(entries[0].label.as_deref(), Some("Artist - Title"));
}

#[test]
fn a_label_containing_commas_survives() {
    let entries = parse("#EXTINF:210,Artist - Hello, Goodbye\na.flac\n", &base_str());
    assert_eq!(entries[0].label.as_deref(), Some("Artist - Hello, Goodbye"));
}

#[test]
fn comments_and_blank_lines_are_skipped() {
    let entries = parse("#EXTM3U\n\n# a note\na.flac\n", &base_str());
    assert_eq!(entries.len(), 1);
    assert_eq!(entries[0].label, None);
}

#[test]
fn a_malformed_extinf_costs_its_label_not_its_entry() {
    let entries = parse("#EXTINF:nonsense\na.flac\n", &base_str());
    assert_eq!(entries.len(), 1, "the track must still be read");
    assert_eq!(entries[0].label, None);
}

#[test]
fn backslash_separators_are_understood() {
    let entries = parse(r"Album\track.flac", &base_str());
    assert_eq!(entries[0].path, joined("Album/track.flac"));
}

#[test]
fn rendering_prefers_relative_paths_under_the_base() {
    let tracks = vec![(
        "/music/Album/one.flac".to_string(),
        "Artist - One".to_string(),
        185_000u64,
    )];
    let rendered = render(&tracks, Some(&base_str()));
    assert_eq!(
        rendered,
        "#EXTM3U\n#EXTINF:185,Artist - One\nAlbum/one.flac\n"
    );
}

#[test]
fn paths_outside_the_base_stay_absolute() {
    let tracks = vec![(
        "/elsewhere/two.flac".to_string(),
        "Artist - Two".to_string(),
        60_000u64,
    )];
    let rendered = render(&tracks, Some(&base_str()));
    assert!(rendered.contains("\n/elsewhere/two.flac\n"), "{rendered}");
}

#[test]
fn what_is_written_can_be_read_back() {
    let tracks = vec![
        ("/music/a.flac".to_string(), "A".to_string(), 1_000u64),
        (
            "/music/Album/b.flac".to_string(),
            "B, and more".to_string(),
            2_500u64,
        ),
    ];
    let rendered = render(&tracks, Some(&base_str()));
    let entries = parse(&rendered, &base_str());
    assert_eq!(
        entries.iter().map(|e| e.path.clone()).collect::<Vec<_>>(),
        ["/music/a.flac", "/music/Album/b.flac"]
    );
    assert_eq!(entries[1].label.as_deref(), Some("B, and more"));
}

#[test]
fn rendering_without_a_base_writes_every_path_as_it_is() {
    let tracks = vec![("/music/a.flac".to_string(), "A".to_string(), 59_999u64)];
    assert_eq!(render(&tracks, None), "#EXTM3U\n#EXTINF:59,A\n/music/a.flac\n");
}

#[test]
fn an_empty_playlist_is_only_its_header() {
    assert_eq!(render(&[], Some("/music")), "#EXTM3U\n");
    assert!(parse("#EXTM3U\n", "/music").is_empty());
}

#[test]
fn windows_line_endings_are_read() {
    let entries = parse("#EXTINF:1,A\r\na.flac\r\n", "/music");
    assert_eq!(entries.len(), 1);
    assert_eq!(entries[0].path, "/music/a.flac");
    assert_eq!(entries[0].label.as_deref(), Some("A"));
}

#[test]
fn a_base_with_a_trailing_slash_gets_no_second_one() {
    let entries = parse("a.flac\n", "/music/");
    assert_eq!(entries[0].path, "/music/a.flac");
}
