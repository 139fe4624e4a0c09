use muscli::db::{
    group_albums, group_artists, history_write, library_health, HealthRow, HistoryUpdate,
};
use muscli::model::Track;

fn track(id: &str, number: u32) -> Track {
    Track {
        id: id.into(),
        source_id: "s".into(),
        relative_path: format!("{id}.flac"),
        path: format!("/{id}.flac"),
        title: id.into(),
        artist: "Artist".into(),
        album_artist: "Artist".into(),
        album: "Album".into(),
        genre: String::new(),
        year: Some(2026),
        disc_number: 1,
        track_number: number,
        duration_ms: 1000,
        cover_path: None,
        available: true,
        favorite: false,
    }
}

#[test]
fn groups_album() {
    let albums = group_albums(&[track("one", 1), track("two", 2)]);
    assert_eq!(albums.len(), 1);
    assert_eq!(albums[0].track_ids.len(), 2);
}

#[test]
fn albums_are_keyed_case_insensitively_and_take_the_first_cover() {
    let mut a = track("a", 1);
    a.album = "Blue".into();
    a.available = false;
    let mut b = track("b", 2);
    b.album = "BLUE".into();
    b.album_artist = "ARTIST".into();
    b.cover_path = Some("/covers/b.png".into());
    let mut c = track("c", 3);
    c.album = "Abbey Road".into();
    c.album_artist = String::new();
    c.artist = "The Beatles".into();
    let albums = group_albums(&[a, b, c]);
    assert_eq!(albums.len(), 2);
    assert_eq!(albums[0].title, "Blue");
    assert_eq!(albums[0].key, "artist\u{1f}blue");
    assert_eq!(albums[0].track_ids, ["a", "b"]);
    assert_eq!(albums[0].available_tracks, 1);
    assert_eq!(albums[0].cover_path.as_deref(), Some("/covers/b.png"));
    assert_eq!(albums[1].artist, "The Beatles");
    assert_eq!(albums[1].key, "the beatles\u{1f}abbey road");
}

#[test]
fn artists_count_their_distinct_albums() {
    let mut a = track("a", 1);
    a.album = "One".into();
    let mut b = track("b", 2);
    b.album = "ONE".into();
    let mut c = track("c", 3);
    c.album = "Two".into();
    let mut d = track("d", 4);
    d.artist = String::new();
    let artists = group_artists(&[a, b, c, d]);
    assert_eq!(artists.len(), 2);
    assert_eq!(artists[0].name, "Artist");
    assert_eq!(artists[0].track_ids, ["a", "b", "c"]);
    assert_eq!(artists[0].album_count, 2);
    assert_eq!(artists[1].name, "Unknown Artist");
    assert_eq!(artists[1].album_count, 1);
}

#[test]
fn a_play_is_counted_once_and_a_finished_track_does_not_resume() {
    let update = HistoryUpdate {
        history_id: 1,
        track_id: "t",
        listened_delta_ms: u64::MAX,
        position_ms: 5_000,
        was_counted: false,
        count_now: true,
        completed: false,
    };
    let write = history_write(&update);
    assert_eq!(write.play_increment, 1);
    assert_eq!(write.listened_delta_ms, i64::MAX);
    assert_eq!(write.resume_position_ms, 5_000);
    let again = history_write(&HistoryUpdate {
        was_counted: true,
        completed: true,
        ..update
    });
    assert_eq!(again.play_increment, 0);
    assert_eq!(again.resume_position_ms, 0);
    assert_eq!(again.position_ms, 5_000);
}

#[test]
fn health_counts_missing_tracks_and_distinct_dangling_covers() {
    let rows = vec![
        HealthRow {
            source_available: true,
            source_mounted: true,
            file_present: false,
            cover: Some(("/c/x.png".into(), false)),
        },
        HealthRow {
            source_available: true,
            source_mounted: false,
            file_present: false,
            cover: Some(("/c/x.png".into(), false)),
        },
        HealthRow {
            source_available: true,
            source_mounted: true,
            file_present: true,
            cover: Some(("/c/y.png".into(), true)),
        },
        HealthRow {
            source_available: false,
            source_mounted: true,
            file_present: false,
            cover: Some(("/c/z.png".into(), false)),
        },
    ];
    let health = library_health(4, 1, vec![("/music".into(), true)], &rows);
    assert_eq!(health.tracks, 4);
    assert_eq!(health.unavailable_tracks, 1);
    assert_eq!(health.missing_tracks_on_available_sources, 1);
    assert_eq!(health.dangling_covers, 2);
    assert_eq!(health.sources, [("/music".to_string(), true)]);
}

fn row(id: &str, available: bool, title: &str, size: i64) -> muscli::db::TrackRow {
    muscli::db::TrackRow {
        id: id.to_string(),
        available,
        file_size: size,
        duration_ms: 180_000,
        title: title.to_string(),
        artist: "Artist".to_string(),
        album: "Album".to_string(),
        disc_number: 1,
        track_number: 3,
    }
}

#[test]
fn a_moved_file_is_matched_to_its_one_new_row() {
    let rows = vec![
        row("old", false, "Song", 1_000),
        row("new", true, "SONG", 1_000),
        row("other", true, "Other", 1_000),
    ];
    assert_eq!(
        muscli::db::moved_tracks(&rows),
        vec![("old".to_string(), "new".to_string())]
    );
}

#[test]
fn an_ambiguous_or_unknown_move_is_left_alone() {
    let twice = vec![row("old", false, "Song", 1_000), row("a", true, "Song", 1_000), row("b", true, "song", 1_000)];
    assert!(muscli::db::moved_tracks(&twice).is_empty());
    let no_size = vec![row("old", false, "Song", 0), row("new", true, "Song", 0)];
    assert!(muscli::db::moved_tracks(&no_size).is_empty());
    let still_there = vec![row("old", true, "Song", 1_000), row("new", true, "Song", 1_000)];
    assert!(muscli::db::moved_tracks(&still_there).is_empty());
    let other_size = vec![row("old", false, "Song", 1_000), row("new", true, "Song", 2_000)];
    assert!(muscli::db::moved_tracks(&other_size).is_empty());
}
