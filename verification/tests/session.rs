use muscli::session::{
    maintenance_delay_ms, periodic_draw_due, restore_session, resume_position, scan_due,
    starts_compact, startup_notice,
};

fn ids(v: &[&str]) -> Vec<String> {
    v.iter().map(|s| s.to_string()).collect()
}

#[test]
fn tracks_the_library_lost_leave_the_queue() {
    let r = restore_session(ids(&["a", "gone", "b", "c"]), Some(2), &ids(&["c", "b", "a"]));
    assert_eq!(r.queue, ids(&["a", "b", "c"]));
    assert!(r.queue_dirty);
    assert_eq!(r.queue_index, Some(2));
}

#[test]
fn an_intact_queue_is_not_saved_again() {
    let r = restore_session(ids(&["a", "b"]), Some(1), &ids(&["a", "b", "x"]));
    assert_eq!(r.queue, ids(&["a", "b"]));
    assert!(!r.queue_dirty);
    assert_eq!(r.queue_index, Some(1));
}

#[test]
fn a_position_past_the_end_is_dropped() {
    let r = restore_session(ids(&["a", "gone"]), Some(1), &ids(&["a"]));
    assert_eq!(r.queue, ids(&["a"]));
    assert_eq!(r.queue_index, None);
    let empty = restore_session(Vec::new(), None, &[]);
    assert!(empty.queue.is_empty());
    assert!(!empty.queue_dirty);
    assert_eq!(empty.queue_index, None);
}

#[test]
fn restoring_twice_changes_nothing_more() {
    let known = ids(&["b", "d"]);
    let once = restore_session(ids(&["a", "b", "c", "d"]), Some(1), &known);
    let twice = restore_session(once.queue.clone(), once.queue_index, &known);
    assert_eq!(twice.queue, once.queue);
    assert!(!twice.queue_dirty);
    assert_eq!(twice.queue_index, once.queue_index);
}

#[test]
fn resume_prefers_the_statistics_then_the_session() {
    assert_eq!(resume_position(true, true, Some(42_000), 7_000), Some(42_000));
    assert_eq!(resume_position(true, true, Some(0), 7_000), Some(7_000));
    assert_eq!(resume_position(true, true, None, 7_000), Some(7_000));
    assert_eq!(resume_position(true, false, Some(42_000), 7_000), Some(0));
    assert_eq!(resume_position(false, true, Some(42_000), 7_000), None);
}

#[test]
fn rescans_wait_two_seconds_and_for_the_last_to_finish() {
    assert!(scan_due(true, false, 2_001));
    assert!(!scan_due(true, false, 2_000));
    assert!(!scan_due(true, true, 10_000));
    assert!(!scan_due(false, false, 10_000));
}

#[test]
fn the_loop_wakes_faster_while_playing() {
    assert_eq!(maintenance_delay_ms(true), 250);
    assert_eq!(maintenance_delay_ms(false), 1000);
    assert!(periodic_draw_due(true, 250));
    assert!(!periodic_draw_due(true, 249));
    assert!(!periodic_draw_due(false, 10_000));
}

#[test]
fn the_first_warning_wins_the_status_line() {
    let some = |s: &str| Some(s.to_string());
    assert_eq!(startup_notice(some("keys"), some("audio"), some("mpris")), some("keys"));
    assert_eq!(startup_notice(None, some("audio"), some("mpris")), some("audio"));
    assert_eq!(startup_notice(None, None, some("mpris")), some("mpris"));
    assert_eq!(startup_notice(None, None, None), None);
    assert!(starts_compact(true, false));
    assert!(starts_compact(false, true));
    assert!(!starts_compact(false, false));
}
