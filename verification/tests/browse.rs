use muscli::browse::{Browser, Focus, NavFrame, NavTarget};
use muscli::features::Genre;
use muscli::i18n::{catalogues, Translator};
use muscli::model::{Album, Artist, HistoryEntry, Playlist, Track, TrackStats};
use muscli::tui::View;
use rand::rngs::StdRng;
use rand::SeedableRng;

fn track(id: &str, genre: &str, favorite: bool, available: bool) -> Track {
    Track {
        id: id.into(),
        source_id: "source".into(),
        relative_path: format!("{id}.flac"),
        path: format!("/{id}.flac"),
        title: id.into(),
        artist: "Artist".into(),
        album_artist: "Artist".into(),
        album: "Album".into(),
        genre: genre.into(),
        year: None,
        disc_number: 1,
        track_number: 1,
        duration_ms: 200_000,
        cover_path: None,
        available,
        favorite,
    }
}

fn ids(items: &[&str]) -> Vec<String> {
    items.iter().map(|s| s.to_string()).collect()
}

fn album(key: &str, tracks: &[&str]) -> Album {
    Album {
        key: key.into(),
        title: key.into(),
        artist: "Artist".into(),
        year: None,
        cover_path: None,
        track_ids: ids(tracks),
        available_tracks: tracks.len(),
    }
}

fn artist(name: &str, tracks: &[&str]) -> Artist {
    Artist { name: name.into(), track_ids: ids(tracks), album_count: 1 }
}

fn played(id: &str) -> HistoryEntry {
    HistoryEntry {
        id: 0,
        track_id: id.into(),
        started_at: 0,
        listened_ms: 0,
        position_ms: 0,
        counted: false,
        completed: false,
    }
}

fn library() -> Browser {
    Browser {
        tracks: vec![
            track("a", "Rock", false, true),
            track("b", "Rock", true, true),
            track("c", "Jazz", true, false),
            track("d", "Jazz", false, true),
        ],
        favorite_indices: vec![1, 2],
        albums: vec![album("one", &["a", "b"]), album("two", &["c", "d"])],
        artists: vec![artist("First", &["a", "b"]), artist("Second", &["d"])],
        genres: vec![
            Genre { name: "Jazz".into(), track_ids: ids(&["c", "d"]) },
            Genre { name: "Rock".into(), track_ids: ids(&["a", "b"]) },
        ],
        playlists: vec![Playlist { id: 1, name: "Mix".into(), track_ids: ids(&["d", "a"]) }],
        smart_playlists: Vec::new(),
        smart_matches: Vec::new(),
        history: vec![played("d"), played("a")],
        home_tracks: Vec::new(),
        search_matches: vec![3, 0],
        search_generation: 4,
        queue: Vec::new(),
        queue_index: None,
        view: View::Tracks,
        focus: Focus::Content,
        selected: 0,
        nav: Vec::new(),
        artist_release_keys: Vec::new(),
        genre_tab: 0,
        settings_len: 5,
        status: String::new(),
    }
}

fn translator() -> Translator {
    let english = "\"status.pick_release\" = \"Pick a release\"\n\"status.pick_track\" = \"Pick a track\"\n\"status.nothing_playable\" = \"Nothing to play\"\n";
    Translator::new(catalogues(english, "").expect("catalogues"))
}

#[test]
fn each_view_queues_its_own_tracks() {
    let mut b = library();
    assert_eq!(b.view_track_ids(), ids(&["a", "b", "c", "d"]));
    b.view = View::Favorites;
    assert_eq!(b.view_track_ids(), ids(&["b", "c"]));
    b.view = View::Search;
    assert_eq!(b.view_track_ids(), ids(&["d", "a"]));
    b.view = View::History;
    assert_eq!(b.view_track_ids(), ids(&["d", "a"]));
    b.view = View::Albums;
    b.selected = 1;
    assert_eq!(b.view_track_ids(), ids(&["c", "d"]));
    b.selected = 9;
    assert_eq!(b.view_track_ids(), Vec::<String>::new());
    b.view = View::Help;
    assert_eq!(b.item_count(), 0);
    b.view = View::Settings;
    assert_eq!(b.item_count(), 5);
}

#[test]
fn a_group_is_represented_by_its_first_track() {
    let mut b = library();
    b.view = View::Albums;
    b.selected = 1;
    assert_eq!(b.selected_track_id(), Some("c".to_string()));
    b.view = View::Playlists;
    b.selected = 0;
    assert_eq!(b.selected_track_id(), Some("d".to_string()));
    b.view = View::Search;
    assert_eq!(b.selected_track_id(), Some("d".to_string()));
    assert_eq!(b.track_index_at_view_position(1), Some(0));
    assert_eq!(b.track_index_at_view_position(2), None);
}

#[test]
fn moving_the_selection_stops_at_the_ends() {
    let mut b = library();
    b.move_selection(10);
    assert_eq!(b.selected, 3);
    b.move_selection(-10);
    assert_eq!(b.selected, 0);
}

#[test]
fn moving_in_the_sidebar_leaves_the_detail_view() {
    let mut b = library();
    b.focus = Focus::Sidebar;
    b.view = View::ArtistDetail;
    b.nav.push(NavFrame { target: NavTarget::Artist("First".into()), parent: View::Artists, selection: 0 });
    b.selected = 1;
    b.move_selection(1);
    assert_eq!(b.view, View::Genres);
    assert!(b.nav.is_empty());
    assert_eq!(b.selected, 0);
    b.move_selection(-10);
    assert_eq!(b.view, View::Home);
    b.move_selection(40);
    assert_eq!(b.view, View::Help);
}

#[test]
fn an_artist_opens_on_its_releases_and_closes_back_onto_itself() {
    let t = translator();
    let mut b = library();
    b.view = View::Artists;
    b.selected = 1;
    let mut rng = StdRng::seed_from_u64(1);
    assert!(!b.activate_or_open(&t, false, &mut rng));
    assert_eq!(b.view, View::ArtistDetail);
    assert_eq!(b.artist_release_keys, ids(&["two"]));
    assert_eq!(b.status, "Pick a release");
    assert_eq!(b.selected, 0);
    b.close_artist_detail();
    assert_eq!(b.view, View::Artists);
    assert_eq!(b.selected, 1);
    assert!(b.nav.is_empty());
    assert_eq!(b.status, "");
}

#[test]
fn an_album_opened_from_an_artist_closes_back_onto_the_release() {
    let t = translator();
    let mut b = library();
    b.view = View::Artists;
    b.selected = 0;
    b.open_selected_artist(&t);
    assert_eq!(b.artist_release_keys, ids(&["one"]));
    b.open_selected_album(&t);
    assert_eq!(b.view, View::AlbumDetail);
    assert_eq!(b.status, "Pick a track");
    assert_eq!(b.item_count(), 2);
    assert_eq!(b.opened_album_ids(), ids(&["a", "b"]));
    b.selected = 1;
    b.close_album_detail();
    assert_eq!(b.view, View::ArtistDetail);
    assert_eq!(b.selected, 0);
}

#[test]
fn a_genre_lists_the_albums_and_artists_with_a_track_in_it() {
    let mut b = library();
    b.view = View::Genres;
    b.selected = 0;
    let t = translator();
    let mut rng = StdRng::seed_from_u64(1);
    assert!(!b.activate_or_open(&t, false, &mut rng));
    assert_eq!(b.view, View::GenreDetail);
    assert_eq!(b.genre_album_indices(), vec![1]);
    assert_eq!(b.genre_artist_indices(), vec![1]);
    assert_eq!(b.genre_items_len(), 1);
    assert_eq!(b.selected_track_id(), Some("c".to_string()));
    b.genre_tab = 2;
    assert_eq!(b.genre_track_ids(), ids(&["c", "d"]));
    assert_eq!(b.genre_of(&"a".to_string()), Some(&"Rock".to_string()));
}

#[test]
fn playing_a_view_queues_only_what_can_be_played() {
    let t = translator();
    let mut b = library();
    b.selected = 3;
    let mut rng = StdRng::seed_from_u64(1);
    assert!(b.activate_selection(&t, false, &mut rng));
    assert_eq!(b.queue, ids(&["a", "b", "d"]));
    assert_eq!(b.queue_index, Some(2));
    assert_eq!(b.current_track().map(|t| t.id.clone()), Some("d".to_string()));
}

#[test]
fn a_shuffled_view_starts_with_the_selected_track() {
    let t = translator();
    let mut b = library();
    b.selected = 1;
    let mut rng = StdRng::seed_from_u64(3);
    assert!(b.activate_selection(&t, true, &mut rng));
    assert_eq!(b.queue_index, Some(0));
    assert_eq!(b.queue[0], "b");
    let mut sorted = b.queue.clone();
    sorted.sort();
    assert_eq!(sorted, ids(&["a", "b", "d"]));
}

#[test]
fn nothing_playable_leaves_the_queue_alone() {
    let t = translator();
    let mut b = library();
    b.queue = ids(&["a"]);
    b.queue_index = Some(0);
    b.view = View::Favorites;
    b.tracks[1].available = false;
    let mut rng = StdRng::seed_from_u64(1);
    assert!(!b.activate_selection(&t, false, &mut rng));
    assert_eq!(b.queue, ids(&["a"]));
    assert_eq!(b.status, "Nothing to play");
}

fn stats(id: &str, resume: u64, last: Option<i64>) -> TrackStats {
    TrackStats {
        track_id: id.into(),
        play_count: 1,
        total_listen_ms: 0,
        last_played_at: last,
        resume_position_ms: resume,
    }
}

#[test]
fn home_lists_tracks_to_go_on_with_then_recent_ones() {
    let mut b = library();
    let kept = vec![
        stats("a", 40_000, Some(10)),
        stats("b", 40_000, Some(20)),
        stats("c", 10_000, Some(30)),
        stats("d", 195_000, Some(40)),
    ];
    b.rebuild_home_tracks(&kept);
    assert_eq!(b.home_tracks, ids(&["b", "a", "d"]));
    b.view = View::Home;
    assert_eq!(b.item_count(), 3);
}

#[test]
fn only_the_latest_search_is_listed() {
    let mut b = library();
    b.view = View::Search;
    b.selected = 1;
    b.handle_search_result(3, vec![2]);
    assert_eq!(b.search_matches, vec![3, 0]);
    b.handle_search_result(4, vec![2]);
    assert_eq!(b.search_matches, vec![2]);
    assert_eq!(b.selected, 0);
}

#[test]
fn the_detail_pane_prefers_the_selection_inside_an_album() {
    let mut b = library();
    b.queue = ids(&["d"]);
    b.queue_index = Some(0);
    b.selected = 1;
    assert_eq!(b.detail_track().map(|t| t.id.clone()), Some("d".to_string()));
    b.view = View::AlbumDetail;
    b.nav.push(NavFrame { target: NavTarget::Album("one".into()), parent: View::Albums, selection: 0 });
    assert_eq!(b.selected_track(), Some(1));
    assert_eq!(b.detail_track().map(|t| t.id.clone()), Some("b".to_string()));
    b.selected = 7;
    assert_eq!(b.detail_track().map(|t| t.id.clone()), Some("d".to_string()));
}

#[test]
fn a_new_search_forgets_the_old_results() {
    let mut b = library();
    assert_eq!(b.begin_search("  "), None);
    assert_eq!(b.search_generation, 5);
    assert!(b.search_matches.is_empty());
    assert_eq!(b.begin_search("jazz"), Some(6));
    b.search_generation = u64::MAX;
    assert_eq!(b.begin_search("rock"), Some(0));
}
