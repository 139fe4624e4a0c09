use muscli::features::{
    evaluate_smart_playlist, fold, fuzzy_score, fuzzy_search, group_genres, levenshtein,
    rule_matches,
};
use muscli::model::{RuleValue, SmartMatch, SmartPlaylist, SmartRule, Track, TrackStats};

fn track(id: &str, genre: &str, favorite: bool) -> Track {
    Track {
        id: id.into(),
        source_id: "source".into(),
        relative_path: format!("{id}.flac"),
        path: format!("/{id}.flac"),
        title: id.into(),
        artist: "Artist".into(),
        album_artist: "Artist".into(),
        album: "Album".into(),
        genre: genre.into(),
        year: None,
        disc_number: 1,
        track_number: 1,
        duration_ms: 60_000,
        cover_path: None,
        available: true,
        favorite,
    }
}

#[test]
fn folding_removes_accents_and_extra_space() {
    assert_eq!(fold("  Música ÉLÉCTRÓNICA "), "musica electronica");
}

#[test]
fn fuzzy_score_tolerates_a_typo() {
    assert!(fuzzy_score("skrillex", "skrilex").is_some());
}

#[test]
fn smart_playlists_apply_all_any_sort_and_limit() {
    let tracks = vec![
        track("one", "Metal", true),
        track("two", "Metal", false),
        track("three", "Jazz", true),
    ];
    let rules = vec![
        SmartRule {
            field: "genre".into(),
            operator: "contains".into(),
            value: RuleValue::Text("metal".into()),
        },
        SmartRule {
            field: "favorite".into(),
            operator: "is".into(),
            value: RuleValue::Boolean(true),
        },
    ];
    let playlist = SmartPlaylist {
        id: 1,
        name: "test".into(),
        preset_key: None,
        match_mode: SmartMatch::All,
        rules: rules.clone(),
        sort_field: "title".into(),
        descending: false,
        limit: None,
    };
    assert_eq!(
        evaluate_smart_playlist(&playlist, &tracks, &[], &[], 0),
        ["one"]
    );
    let any = SmartPlaylist {
        match_mode: SmartMatch::Any,
        limit: Some(2),
        ..playlist
    };
    assert_eq!(
        evaluate_smart_playlist(&any, &tracks, &[], &[], 0),
        ["one", "three"]
    );
}

#[test]
fn exact_and_prefix_matches_score_highest() {
    assert_eq!(fuzzy_score("metal", "metal"), Some(10_000));
    assert_eq!(fuzzy_score("metallica", "metal"), Some(8_996));
    assert_eq!(fuzzy_score("heavy metal", "metal"), Some(7_994));
    assert_eq!(fuzzy_score("jazz", "metal"), None);
}

#[test]
fn edit_distance_counts_single_character_edits() {
    assert_eq!(levenshtein("kitten", "sitting"), 3);
    assert_eq!(levenshtein("", "abc"), 3);
    assert_eq!(levenshtein("same", "same"), 0);
    assert_eq!(levenshtein("ñu", "nu"), 1);
}

#[test]
fn search_ranks_best_first_and_keeps_library_order_among_equals() {
    let mut a = track("a", "Rock", false);
    a.title = "Metal Heart".into();
    let mut b = track("b", "Metal", false);
    b.title = "Song".into();
    let mut c = track("c", "Jazz", false);
    c.title = "Blue".into();
    let mut d = track("d", "Metal", false);
    d.title = "Other".into();
    let tracks = vec![a, b, c, d];
    assert_eq!(fuzzy_search(&tracks, "  METAL ", 10), vec![1, 3, 0]);
    assert_eq!(fuzzy_search(&tracks, "metal", 2), vec![1, 3]);
    assert_eq!(fuzzy_search(&tracks, "   ", 10), Vec::<usize>::new());
}

#[test]
fn genres_are_grouped_by_folded_name_in_order() {
    let tracks = vec![
        track("1", "Électronique", false),
        track("2", "  ", false),
        track("3", "electronique", false),
        track("4", "Ambient", false),
    ];
    let genres = group_genres(&tracks);
    let names: Vec<&str> = genres.iter().map(|g| g.name.as_str()).collect();
    assert_eq!(names, ["Ambient", "Électronique", "Sin género"]);
    assert_eq!(genres[1].track_ids, ["1", "3"]);
    assert_eq!(genres[2].track_ids, ["2"]);
}

#[test]
fn rules_read_statistics_and_dates() {
    let t = track("x", "Pop", false);
    let stats = TrackStats {
        track_id: "x".into(),
        play_count: 3,
        total_listen_ms: 0,
        last_played_at: Some(1_000_000),
        resume_position_ms: 0,
    };
    let played = SmartRule {
        field: "play_count".into(),
        operator: "gte".into(),
        value: RuleValue::Integer(3),
    };
    assert!(rule_matches(&played, &t, Some(&stats), &[], 0));
    assert!(!rule_matches(&played, &t, None, &[], 0));
    let recent = SmartRule {
        field: "added_days".into(),
        operator: "lte".into(),
        value: RuleValue::Integer(2),
    };
    let added = vec![("x".to_string(), 0i64)];
    assert!(rule_matches(&recent, &t, None, &added, 2 * 86_400));
    assert!(!rule_matches(&recent, &t, None, &added, 2 * 86_400 + 1));
    let unknown = SmartRule {
        field: "mood".into(),
        operator: "is".into(),
        value: RuleValue::Other,
    };
    assert!(!rule_matches(&unknown, &t, None, &[], 0));
}

#[test]
fn smart_playlists_sort_descending_by_play_count() {
    let tracks = vec![track("a", "", false), track("b", "", false), track("c", "", false)];
    let stats = vec![
        TrackStats {
            track_id: "b".into(),
            play_count: 5,
            total_listen_ms: 0,
            last_played_at: None,
            resume_position_ms: 0,
        },
        TrackStats {
            track_id: "c".into(),
            play_count: 1,
            total_listen_ms: 0,
            last_played_at: None,
            resume_position_ms: 0,
        },
    ];
    let playlist = SmartPlaylist {
        id: 2,
        name: "most".into(),
        preset_key: None,
        match_mode: SmartMatch::All,
        rules: Vec::new(),
        sort_field: "play_count".into(),
        descending: true,
        limit: None,
    };
    assert_eq!(
        evaluate_smart_playlist(&playlist, &tracks, &stats, &[], 0),
        ["b", "c", "a"]
    );
}
