use muscli::discord::{activity_fields, limited, presence_for, presence_image, Presence};
use muscli::i18n::{catalogues, Translator};
use muscli::model::{PlaybackStatus, Track};

#[test]
fn discord_fields_are_safely_limited() {
    assert_eq!(limited("abcdef", 4), "abcd");
    assert_eq!(limited("música", 3), "mús");
}

#[test]
fn discord_image_follows_the_track_genre() {
    assert_eq!(
        presence_image("Metallica", "Heavy Metal", "peter"),
        "peter_metal"
    );
    assert_eq!(
        presence_image("Skrillex", "Electronic", "peter"),
        "peter_dj"
    );
    assert_eq!(
        presence_image("Artist", "Dance / House", "peter"),
        "peter_dj"
    );
    assert_eq!(presence_image("Artist", "Rock", "peter"), "peter");
}

#[test]
fn daft_punk_asset_has_priority_over_genre() {
    assert_eq!(
        presence_image("Daft Punk", "Electronic", "peter"),
        "daft_punk"
    );
    assert_eq!(
        presence_image("Daft Punk feat. Pharrell Williams", "Dance", "peter"),
        "daft_punk"
    );
}

#[test]
fn only_the_whole_words_daft_punk_count() {
    assert_eq!(presence_image("Daftpunk", "Rock", "peter"), "peter");
    assert_eq!(presence_image("Punk Daft", "Rock", "peter"), "peter");
    assert_eq!(presence_image("DAFT--PUNK", "Rock", "peter"), "daft_punk");
    assert_eq!(limited("short", 120), "short");
}

fn presence(status: PlaybackStatus) -> Presence {
    Presence {
        title: "Around the World".into(),
        artist: "Daft Punk".into(),
        album: "Homework".into(),
        genre: "House".into(),
        status,
        position_ms: 30_000,
        duration_ms: 200_000,
    }
}

#[test]
fn a_playing_track_shows_when_it_started_and_ends() {
    let translator =
        Translator::new(catalogues("\"label.paused_presence\" = \"Paused: {artist}\"", "").expect("catalogues"));
    let playing = activity_fields(&translator, &presence(PlaybackStatus::Playing), "peter", 1_000_000);
    assert_eq!(playing.details, "Around the World");
    assert_eq!(playing.state, "Daft Punk");
    assert_eq!(playing.large_image, "daft_punk");
    assert_eq!(playing.large_text, "Homework");
    assert_eq!(playing.timestamps, Some((970_000, 1_170_000)));
    let paused = activity_fields(&translator, &presence(PlaybackStatus::Paused), "peter", 1_000_000);
    assert_eq!(paused.state, "Paused: Daft Punk");
    assert_eq!(paused.timestamps, None);
    let early = activity_fields(&translator, &presence(PlaybackStatus::Playing), "peter", i64::MIN + 5);
    assert_eq!(early.timestamps, Some((i64::MIN, i64::MIN + 200_000)));
}

#[test]
fn a_stopped_player_clears_the_presence() {
    let track = Track {
        id: "t".into(),
        source_id: "s".into(),
        relative_path: "t.flac".into(),
        path: "/t.flac".into(),
        title: "Title".into(),
        artist: "Artist".into(),
        album_artist: "Artist".into(),
        album: "Album".into(),
        genre: "Genre".into(),
        year: None,
        disc_number: 1,
        track_number: 1,
        duration_ms: 1,
        cover_path: None,
        available: true,
        favorite: false,
    };
    assert!(presence_for(Some(&track), PlaybackStatus::Stopped, 0, 0).is_none());
    assert!(presence_for(None, PlaybackStatus::Playing, 0, 0).is_none());
    let shown = presence_for(Some(&track), PlaybackStatus::Paused, 5, 9).expect("shown");
    assert_eq!(shown.title, "Title");
    assert_eq!(shown.position_ms, 5);
    assert_eq!(shown.duration_ms, 9);
}
