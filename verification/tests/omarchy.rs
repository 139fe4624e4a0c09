use muscli::omarchy::{
    compact_desktop_entry, desktop_entry, desktop_entry_is_ours, desktop_entry_is_outdated,
    legacy_desktop_entry, media_widget_is_intact, plan_managed_block, remove_block, setup,
    state_file, undo, BlockPlan, SetupOutcome, UndoOutcome, WidgetSlot, BINDINGS_BLOCK,
    LEGACY_BINDINGS_BLOCK, LEGACY_WINDOW_BLOCK, WINDOW_BLOCK,
};
use muscli::paths::AppPaths;

fn slot(id: &str, fields: usize) -> WidgetSlot {
    WidgetSlot {
        is_object: true,
        field_count: fields,
        id: Some(id.to_string()),
    }
}

#[test]
fn recognizes_only_the_intact_widget_placement() {
    let intact = [slot("omarchy.media", 1), slot("omarchy.clock", 1)];
    let moved = [slot("omarchy.clock", 1), slot("omarchy.media", 1)];
    let customized = [slot("omarchy.media", 2), slot("omarchy.clock", 1)];
    assert!(media_widget_is_intact(Some(&intact)));
    assert!(!media_widget_is_intact(Some(&moved)));
    assert!(!media_widget_is_intact(Some(&customized)));
}

#[test]
fn a_missing_layout_is_not_intact() {
    assert!(!media_widget_is_intact(None));
    assert!(!media_widget_is_intact(Some(&[slot("omarchy.media", 1)])));
}

#[test]
fn launchers_are_recognised() {
    assert!(desktop_entry_is_ours(desktop_entry()));
    assert!(!desktop_entry_is_ours(compact_desktop_entry()));
    assert!(desktop_entry_is_outdated(legacy_desktop_entry()));
    assert!(desktop_entry_is_outdated(compact_desktop_entry()));
    assert!(!desktop_entry_is_outdated(desktop_entry()));
    assert!(desktop_entry().contains("Exec=kitty --class muscli-compact --title muscli -e muscli\n"));
}

#[test]
fn a_block_is_added_once_and_taken_out_exactly() {
    let original = "bind = SUPER, Q, killactive";
    let installed = match plan_managed_block(original, BINDINGS_BLOCK, &[LEGACY_BINDINGS_BLOCK]) {
        BlockPlan::Install { contents } => contents,
        other => panic!("expected an install, got {other:?}"),
    };
    assert_eq!(installed, format!("{original}\n\n{BINDINGS_BLOCK}"));
    assert!(matches!(
        plan_managed_block(&installed, BINDINGS_BLOCK, &[LEGACY_BINDINGS_BLOCK]),
        BlockPlan::Present
    ));
    assert_eq!(
        remove_block(&installed, BINDINGS_BLOCK),
        Some(format!("{original}\n"))
    );
    assert_eq!(remove_block(original, BINDINGS_BLOCK), None);
}

#[test]
fn an_earlier_block_is_replaced_and_a_modified_one_kept() {
    let old = format!("a\n{LEGACY_WINDOW_BLOCK}b\n");
    match plan_managed_block(&old, WINDOW_BLOCK, &[LEGACY_WINDOW_BLOCK]) {
        BlockPlan::Install { contents } => assert_eq!(contents, format!("a\n{WINDOW_BLOCK}b\n")),
        other => panic!("expected an install, got {other:?}"),
    }
    let edited = "-- >>> muscli player window >>>\nmine\n";
    assert!(matches!(
        plan_managed_block(edited, WINDOW_BLOCK, &[LEGACY_WINDOW_BLOCK]),
        BlockPlan::Modified
    ));
}

#[test]
fn setup_and_undo_report_what_they_did() {
    assert_eq!(
        setup(SetupOutcome::Enabled {
            desktop_file: "/d/muscli.desktop".into(),
            backup: Some("/b".into())
        }),
        Ok("Omarchy integration enabled. Desktop entry: /d/muscli.desktop; backup: /b".to_string())
    );
    assert_eq!(
        setup(SetupOutcome::AlreadyConfigured {
            desktop_file: "/d".into()
        }),
        Ok("Omarchy integration already configured; verified /d and compact/global controls".to_string())
    );
    assert!(setup(SetupOutcome::Unsupported).is_err());
    assert_eq!(
        undo(UndoOutcome::NoRecord),
        Ok("No muscli Omarchy setup record was found; nothing changed.".to_string())
    );
    assert_eq!(
        undo(UndoOutcome::Undone {
            preserved: vec!["the modified desktop entry", "the Hyprland bindings"]
        }),
        Ok("Undid the intact muscli Omarchy integration. Backups were preserved. Preserved the modified desktop entry and the Hyprland bindings.".to_string())
    );
    assert_eq!(
        undo(UndoOutcome::Undone { preserved: vec![] }),
        Ok("Undid the intact muscli Omarchy integration. Backups were preserved.".to_string())
    );
    assert_eq!(
        undo(UndoOutcome::Unsupported),
        Err("Omarchy integration is only available on Linux".to_string())
    );
    let paths = AppPaths {
        config_dir: "/c".into(),
        data_dir: "/d".into(),
        cache_dir: "/k".into(),
        runtime_dir: "/r".into(),
    };
    assert_eq!(state_file(&paths), "/d/omarchy-setup.json");
}

#[test]
fn hyprland_is_clean_only_when_it_says_nothing() {
    assert!(muscli::omarchy::hyprland_reports_no_errors(true, b""));
    assert!(muscli::omarchy::hyprland_reports_no_errors(true, b" \n\t\r\n"));
    assert!(!muscli::omarchy::hyprland_reports_no_errors(true, b"error: bad bind\n"));
    assert!(!muscli::omarchy::hyprland_reports_no_errors(false, b""));
}

#[test]
fn undo_gives_back_a_file_that_ended_in_a_line_break() {
    let original = "bind = SUPER, Q, killactive\n";
    let installed = match plan_managed_block(original, WINDOW_BLOCK, &[LEGACY_WINDOW_BLOCK]) {
        BlockPlan::Install { contents } => contents,
        other => panic!("expected an install, got {other:?}"),
    };
    assert_eq!(installed, format!("{original}\n{WINDOW_BLOCK}"));
    assert_eq!(remove_block(&installed, WINDOW_BLOCK), Some(original.to_string()));
}
