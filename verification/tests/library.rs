use muscli::db::ScannedTrack;
use muscli::library::{
    cover_key, default_extensions, eviction_order, hash_hex, is_audio_file, is_audio_name,
    scan_extensions, reuse_cached, source_id, source_identity,
    source_label, strip_track_prefix, track_from_tags, track_id, CachePruning, CachedCover,
    ScanReport, SourceScan, TagValues,
};
use muscli::model::Track;

#[test]
fn filename_fallback_removes_number() {
    assert_eq!(strip_track_prefix("01 - Hello"), "Hello");
    assert_eq!(strip_track_prefix("Song"), "Song");
}

#[test]
fn volume_identity_survives_a_different_mount_path() {
    let first = source_identity(
        Some("ABCD-1234"),
        Some("/run/media/me/MUSIC"),
        "/run/media/me/MUSIC/FLAC",
    );
    let second = source_identity(
        Some("ABCD-1234"),
        Some("/media/me/RENAMED"),
        "/media/me/RENAMED/FLAC",
    );
    assert_eq!(first, second);
}

#[test]
fn separate_folders_on_one_volume_have_separate_identities() {
    let root = "/run/media/me/MUSIC";
    assert_ne!(
        source_identity(Some("ABCD-1234"), Some(root), "/run/media/me/MUSIC/Jazz"),
        source_identity(Some("ABCD-1234"), Some(root), "/run/media/me/MUSIC/Rock"),
    );
}

#[test]
fn identities_name_the_volume_or_the_path() {
    assert_eq!(
        source_identity(Some("U"), Some("/m"), "/m/a/b"),
        "uuid:U\0a/b"
    );
    assert_eq!(source_identity(Some("U"), None, "/m/a"), "uuid:U\0/m/a");
    assert_eq!(source_identity(None, Some("/m"), "/m/a"), "path:/m/a");
    assert_eq!(strip_track_prefix("07"), "07");
    assert_eq!(strip_track_prefix("1. _-Intro"), "Intro");
}

#[test]
fn hashes_are_blake3_in_lower_case_hex() {
    assert_eq!(
        hash_hex(""),
        "af1349b9f5f9a1a6a0404dea36dcc9499bcb25c9adc112b7cc9a93cae41f3262"
    );
    assert_eq!(track_id("s", "a.flac"), hash_hex("s\0a.flac"));
    assert_eq!(cover_key("Artist", "Album"), hash_hex("Artist\0Album"));
    assert_eq!(
        source_id(None, None, "/music"),
        hash_hex("path:/music")
    );
    assert_eq!(hash_hex("abc").len(), 64);
}

#[test]
fn every_documented_format_is_a_track() {
    let all = default_extensions();
    for name in [
        "/music/a/01 Song.flac",
        "/music/a/LOUD.FLAC",
        "/music/a/b.mp3",
        "/music/a/b.M4A",
        "/music/a/b.aac",
        "/music/a/b.alac",
        "/music/a/b.ogg",
        "/music/a/b.opus",
        "/music/a/b.wav",
        "/music/a/b.aiff",
        "/music/a/b.aif",
        "/music/a/b.wv",
        "/music/a/b.ape",
    ] {
        assert!(is_audio_file(name, &all), "{name}");
    }
    assert!(!is_audio_file("/music/a/cover.jpg", &all));
    assert!(!is_audio_file("/music/a/.flac", &all));
    assert!(!is_audio_file("/music/a/flac", &all));
    assert!(!is_audio_file("/music/a/song.flac.part", &all));
    assert!(!is_audio_file("/music/a/notes.txt", &all));
}

#[test]
fn the_configured_list_narrows_the_formats() {
    let only_flac = scan_extensions(vec!["FLAC".to_string()]);
    assert_eq!(only_flac, vec!["FLAC".to_string()]);
    assert!(is_audio_file("/music/a/song.flac", &only_flac));
    assert!(!is_audio_file("/music/a/song.mp3", &only_flac));
    assert_eq!(scan_extensions(Vec::new()), default_extensions());
    assert_eq!(default_extensions().len(), 13);
    assert!(is_audio_name("x.Opus", &default_extensions()));
    assert!(!is_audio_name("x.opus", &[]));
}

#[test]
fn tags_win_and_the_path_fills_in() {
    let tags = TagValues {
        title: None,
        artist: Some("  Miles   Davis ".into()),
        album: Some(String::new()),
        album_artist: None,
        genre: Some("Jazz".into()),
        recording_date: Some("1959-08-17".into()),
        year: Some("2000".into()),
        disc_number: Some("1/2".into()),
        track_number: Some(" 4 / 5".into()),
    };
    let t = track_from_tags(
        "src",
        "/music",
        "/music/Miles Davis/Kind of Blue/04 - Flamenco Sketches.flac",
        &tags,
        565_000,
        Some("/covers/k.png".into()),
    );
    assert_eq!(t.title, "Flamenco Sketches");
    assert_eq!(t.artist, "Miles Davis");
    assert_eq!(t.album, "Kind of Blue");
    assert_eq!(t.album_artist, "Miles Davis");
    assert_eq!(t.genre, "Jazz");
    assert_eq!(t.year, Some(1959));
    assert_eq!(t.disc_number, 1);
    assert_eq!(t.track_number, 4);
    assert_eq!(t.relative_path, "Miles Davis/Kind of Blue/04 - Flamenco Sketches.flac");
    assert_eq!(
        t.id,
        track_id("src", "Miles Davis/Kind of Blue/04 - Flamenco Sketches.flac")
    );
    assert!(t.available);
    assert!(!t.favorite);
    let bare = TagValues {
        title: None,
        artist: None,
        album: None,
        album_artist: None,
        genre: None,
        recording_date: None,
        year: Some("-123".into()),
        disc_number: None,
        track_number: None,
    };
    let t = track_from_tags("src", "/elsewhere", "/song.flac", &bare, 0, None);
    assert_eq!(t.title, "song");
    assert_eq!(t.album, "Unknown Album");
    assert_eq!(t.artist, "Unknown Artist");
    assert_eq!(t.year, Some(-123));
    assert_eq!(t.relative_path, "/song.flac");
    assert_eq!(source_label("/run/media/me/MUSIC"), "MUSIC");
    assert_eq!(source_label("/"), "Music");
}

fn scanned(id: &str, album_artist: &str, album: &str, disc: u32, number: u32) -> ScannedTrack {
    ScannedTrack {
        track: Track {
            id: id.into(),
            source_id: "s".into(),
            relative_path: format!("{id}.flac"),
            path: format!("/old/{id}.flac"),
            title: id.into(),
            artist: album_artist.into(),
            album_artist: album_artist.into(),
            album: album.into(),
            genre: String::new(),
            year: None,
            disc_number: disc,
            track_number: number,
            duration_ms: 0,
            cover_path: None,
            available: false,
            favorite: true,
        },
        file_size: 10,
        modified_ns: 20,
    }
}

#[test]
fn an_unchanged_file_is_not_read_again() {
    let cached = scanned("a", "X", "Y", 1, 1);
    let reused = reuse_cached(Some(&cached), Some((10, 20)), false, "/new/a.flac").expect("reused");
    assert_eq!(reused.track.path, "/new/a.flac");
    assert!(reused.track.available);
    assert!(reused.track.favorite);
    assert!(reuse_cached(Some(&cached), Some((11, 20)), true, "/new/a.flac").is_none());
    assert!(reuse_cached(Some(&cached), None, true, "/new/a.flac").is_none());
    assert!(reuse_cached(None, Some((10, 20)), true, "/new/a.flac").is_none());
    let mut with_cover = scanned("b", "X", "Y", 1, 1);
    with_cover.track.cover_path = Some("/c.png".into());
    assert!(reuse_cached(Some(&with_cover), Some((10, 20)), false, "/b.flac").is_none());
    assert!(reuse_cached(Some(&with_cover), Some((10, 20)), true, "/b.flac").is_some());
}

#[test]
fn a_scan_lists_tracks_in_album_order() {
    let mut scan = SourceScan::new("id".into(), "/music".into(), "music".into());
    scan.see("b.flac".into());
    scan.see("a.flac".into());
    scan.see("b.flac".into());
    assert_eq!(scan.seen_paths, ["b.flac", "a.flac"]);
    scan.add_track(scanned("3", "B", "Z", 1, 1));
    scan.add_track(scanned("2", "A", "Y", 2, 1));
    scan.add_track(scanned("1", "A", "Y", 1, 9));
    scan.add_track(scanned("0", "A", "Y", 1, 9));
    scan.add_failure("broken.flac: unreadable".into());
    scan.sort_tracks();
    let order: Vec<&str> = scan.tracks.iter().map(|t| t.track.id.as_str()).collect();
    assert_eq!(order, ["0", "1", "2", "3"]);
    assert_eq!(scan.skipped, 1);
    let mut report = ScanReport::default();
    report.add_scan(&scan);
    report.add_error("/gone: cannot access".into());
    assert_eq!(report.sources, 1);
    assert_eq!(report.tracks, 4);
    assert_eq!(report.skipped, 1);
    assert_eq!(report.errors, ["broken.flac: unreadable", "/gone: cannot access"]);
}

#[test]
fn the_least_recently_used_covers_go_first() {
    let files = vec![
        CachedCover { path: "a".into(), len: 5, last_used: 30 },
        CachedCover { path: "b".into(), len: 7, last_used: 10 },
        CachedCover { path: "c".into(), len: 1, last_used: 30 },
        CachedCover { path: "d".into(), len: 2, last_used: 20 },
    ];
    assert_eq!(eviction_order(&files), vec![1, 3, 0, 2]);
    let mut pruning = CachePruning::new(&files, 8);
    assert_eq!(pruning.total, 15);
    assert!(pruning.over_limit());
    pruning.removed(7);
    assert!(!pruning.over_limit());
    pruning.removed(100);
    assert_eq!(pruning.total, 0);
}

fn png_of(width: u32, height: u32) -> Vec<u8> {
    let mut out = std::io::Cursor::new(Vec::new());
    image::DynamicImage::ImageRgb8(image::RgbImage::new(width, height))
        .write_to(&mut out, image::ImageFormat::Png)
        .unwrap();
    out.into_inner()
}

#[test]
fn covers_are_scaled_to_fit_the_cache() {
    let big = png_of(1024, 512);
    let png = muscli::library::cover_png(Some(&big), &[]).expect("a cover");
    assert_ne!(png, big);
    let decoded = image::load_from_memory(&png).unwrap();
    assert_eq!((decoded.width(), decoded.height()), (512, 256));
}

#[test]
fn a_broken_embedded_picture_falls_back_to_the_folder() {
    let broken = b"not a picture".to_vec();
    let folder = vec![b"junk".to_vec(), png_of(40, 30)];
    let png = muscli::library::cover_png(Some(&broken), &folder).expect("a cover");
    let decoded = image::load_from_memory(&png).unwrap();
    assert_eq!((decoded.width(), decoded.height()), (512, 384));
    assert_eq!(muscli::library::cover_png(Some(&broken), &[b"junk".to_vec()]), None);
    assert_eq!(muscli::library::cover_png(None, &[]), None);
}
