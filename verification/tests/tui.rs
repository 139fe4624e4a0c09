use muscli::i18n::{catalogues, set_language, Language, Translator};
use muscli::tui::{
    bring_to_front, centered, cover_layout_requires_full_repaint, format_duration,
    prepare_shuffled_queue, shifted_index, track_viewport, Area, ImageProtocol, View,
};
use rand::rngs::StdRng;
use rand::SeedableRng;

#[test]
fn duration_is_human_readable() {
    assert_eq!(format_duration(185_000), "3:05");
}

#[test]
fn track_viewport_matches_table_scroll_behavior() {
    assert_eq!(track_viewport(100, 0, 10), 0..9);
    assert_eq!(track_viewport(100, 8, 10), 0..9);
    assert_eq!(track_viewport(100, 9, 10), 1..10);
    assert_eq!(track_viewport(100, 99, 10), 91..100);
    assert_eq!(track_viewport(3, 2, 10), 0..3);
    assert_eq!(track_viewport(3, 2, 1), 0..0);
}

#[test]
fn grid_navigation_moves_by_columns_and_clamps() {
    assert_eq!(shifted_index(2, 4, 10), 6);
    assert_eq!(shifted_index(2, -4, 10), 0);
    assert_eq!(shifted_index(8, 4, 10), 9);
    assert_eq!(shifted_index(0, 1, 0), 0);
}

#[test]
fn durations_pad_the_seconds() {
    assert_eq!(format_duration(0), "0:00");
    assert_eq!(format_duration(59_999), "0:59");
    assert_eq!(format_duration(3_600_000), "60:00");
}

#[test]
fn views_are_titled_in_the_interface_language() {
    let english = "\"view.home\" = \"Home\"\n\"view.album\" = \"Album\"\n";
    let spanish = "\"view.home\" = \"Inicio\"\n";
    let mut translator = Translator::new(catalogues(english, spanish).expect("catalogues"));
    assert_eq!(View::Home.title(&translator), "Home");
    assert_eq!(View::AlbumDetail.title(&translator), "Album");
    assert_eq!(View::Lyrics.title(&translator), "view.lyrics");
    set_language(&mut translator, Language::Spanish);
    assert_eq!(View::Home.title(&translator), "Inicio");
    assert_eq!(View::AlbumDetail.title(&translator), "Album");
    assert_eq!(View::Albums.icon(), View::AlbumDetail.icon());
    assert_eq!(View::Genres.icon(), View::GenreDetail.icon());
    assert_ne!(View::Home.icon(), View::Search.icon());
}

#[test]
fn the_chosen_track_leads_a_new_shuffled_queue() {
    let mut queue: Vec<String> = ["d", "a", "c", "b"].iter().map(|s| s.to_string()).collect();
    assert_eq!(bring_to_front(&mut queue, Some("c")), 0);
    assert_eq!(queue, ["c", "a", "d", "b"]);
    assert_eq!(bring_to_front(&mut queue, Some("zz")), 0);
    assert_eq!(queue, ["c", "a", "d", "b"]);
    assert_eq!(bring_to_front(&mut queue, None), 0);
    assert_eq!(queue, ["c", "a", "d", "b"]);
}

fn letters(items: &[&str]) -> Vec<String> {
    items.iter().map(|s| s.to_string()).collect()
}

#[test]
fn a_new_shuffled_group_starts_at_zero_and_keeps_every_track() {
    let mut queue = letters(&["a", "b", "c", "d", "e", "f"]);
    let original = queue.clone();
    let mut rng = StdRng::seed_from_u64(42);

    let start = prepare_shuffled_queue(&mut queue, None, &mut rng);

    assert_eq!(start, 0);
    assert_ne!(queue, original);

    let mut actual = queue;
    let mut expected = original;
    actual.sort_unstable();
    expected.sort_unstable();

    assert_eq!(actual, expected);
}

#[test]
fn a_selected_track_stays_first_in_a_new_shuffled_queue() {
    let mut queue = letters(&["a", "b", "c", "d", "e", "f"]);
    let original = queue.clone();
    let target = "c";
    let mut rng = StdRng::seed_from_u64(42);

    let start = prepare_shuffled_queue(&mut queue, Some(target), &mut rng);

    assert_eq!(start, 0);
    assert_eq!(queue.first().map(String::as_str), Some(target));

    let mut actual = queue;
    let mut expected = original;
    actual.sort_unstable();
    expected.sort_unstable();

    assert_eq!(actual, expected);
}

#[test]
fn a_chosen_track_missing_from_the_queue_changes_only_the_order() {
    let mut queue = letters(&["a", "b", "c"]);
    let mut rng = StdRng::seed_from_u64(7);
    assert_eq!(prepare_shuffled_queue(&mut queue, Some("zz"), &mut rng), 0);
    queue.sort_unstable();
    assert_eq!(queue, letters(&["a", "b", "c"]));
}

#[test]
fn centered_rect_is_inside_parent() {
    let parent = Area { x: 0, y: 0, width: 80, height: 24 };
    assert_eq!(centered(parent, 40, 10), Area { x: 20, y: 7, width: 40, height: 10 });
}

#[test]
fn a_rect_larger_than_its_parent_starts_at_the_corner() {
    let parent = Area { x: 3, y: 4, width: 10, height: 5 };
    assert_eq!(centered(parent, 40, 10), Area { x: 3, y: 4, width: 40, height: 10 });
}

#[test]
fn cover_layout_repaint_skips_cell_based_protocols() {
    assert!(!cover_layout_requires_full_repaint(ImageProtocol::Kitty));
    assert!(!cover_layout_requires_full_repaint(
        ImageProtocol::Halfblocks
    ));
    assert!(cover_layout_requires_full_repaint(ImageProtocol::Sixel));
    assert!(cover_layout_requires_full_repaint(ImageProtocol::Iterm2));
}
