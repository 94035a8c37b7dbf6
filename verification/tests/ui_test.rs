use filetree::app_state::{
    after_delete, after_save, clicked_row, cycle_view, edge_row, export_step, hit_action, hit_index,
    move_selection, next_sort_key, page_step, plan_delete, rect_contains, scroll_text, toggle_menu, Command,
    ExportStep, PendingAction, Rect, SaveOutcome, UiState,
};
use filetree::menu::{Action, Key, KeyPress, ViewMode};
use filetree::modal::{modal_key, Modal, ModalEffect, PathInputPurpose};
use filetree::models::{ScanNode, SortKey};
use filetree::paths::{delete_denied_prefixes, DeniedPrefix};
use filetree::theme::themes;

fn key(code: Key) -> KeyPress {
    KeyPress { code, shift: false }
}

fn ch(c: char) -> KeyPress {
    key(Key::Char(c))
}

#[test]
fn help_closes_on_escape_enter_or_question_mark() {
    for k in [key(Key::Esc), key(Key::Enter), ch('?')] {
        let (m, e) = modal_key(Modal::Help, k);
        assert!(matches!(m, Modal::Closed));
        assert!(matches!(e, ModalEffect::Nothing));
    }
    let (m, _) = modal_key(Modal::Help, ch('x'));
    assert!(matches!(m, Modal::Help));
}

#[test]
fn closed_dialog_leaves_key_unhandled() {
    let (m, e) = modal_key(Modal::Closed, ch('q'));
    assert!(matches!(m, Modal::Closed));
    assert!(matches!(e, ModalEffect::Unhandled));
}

#[test]
fn confirm_runs_only_on_yes() {
    let d = Modal::Confirm { title: "t".into(), message: "m".into(), selected: 0 };
    let (m, e) = modal_key(d.clone(), key(Key::Enter));
    assert!(matches!(m, Modal::Closed));
    assert!(matches!(e, ModalEffect::ExecutePending));
    let (m, _) = modal_key(d, ch('l'));
    let (_, e) = modal_key(m, key(Key::Enter));
    assert!(matches!(e, ModalEffect::DropPending));
}

#[test]
fn typed_confirm_needs_exact_text() {
    let mut d = Modal::TypedConfirm { message: "m".into(), confirm_text: "data".into(), input: String::new(), selected: 0 };
    for c in "dat".chars() {
        d = modal_key(d, ch(c)).0;
    }
    let (d2, e) = modal_key(d, key(Key::Enter));
    assert!(matches!(e, ModalEffect::Nothing));
    let (d3, _) = modal_key(d2, ch('x'));
    let (d4, _) = modal_key(d3, key(Key::Backspace));
    let (d5, _) = modal_key(d4, ch('a'));
    if let Modal::TypedConfirm { ref input, .. } = d5 {
        assert_eq!(input, "data");
    } else {
        panic!("dialog closed");
    }
    let (m, e) = modal_key(d5, key(Key::Enter));
    assert!(matches!(m, Modal::Closed));
    assert!(matches!(e, ModalEffect::ExecutePending));
}

#[test]
fn path_input_goto_and_filter() {
    let d = Modal::PathInput { prompt: "p".into(), input: "/tmp".into(), purpose: PathInputPurpose::Goto, selected: 0 };
    let (_, e) = modal_key(d, key(Key::Enter));
    assert!(matches!(e, ModalEffect::StartScan(ref p) if p == "/tmp"));
    let empty = Modal::PathInput { prompt: "p".into(), input: String::new(), purpose: PathInputPurpose::Goto, selected: 0 };
    let (_, e) = modal_key(empty, key(Key::Enter));
    assert!(matches!(e, ModalEffect::Nothing));
    let f = Modal::PathInput { prompt: "p".into(), input: "ab".into(), purpose: PathInputPurpose::Filter, selected: 0 };
    let (f, _) = modal_key(f, ch('h'));
    let (_, e) = modal_key(f, key(Key::Enter));
    assert!(matches!(e, ModalEffect::ApplyFilter(ref t) if t == "abh"));
}

#[test]
fn export_dialog_moves_and_submits() {
    let d = Modal::Export { path_input: "~/r.csv".into(), selected: 0 };
    let (d, _) = modal_key(d, key(Key::Right));
    let (d, _) = modal_key(d, key(Key::Right));
    let (_, e) = modal_key(d.clone(), key(Key::Enter));
    assert!(matches!(e, ModalEffect::Export { fmt: "csv", ref path_input, redact: true } if path_input == "~/r.csv"));
    let (d, _) = modal_key(d, key(Key::Right));
    let (d, _) = modal_key(d, key(Key::Right));
    let (_, e) = modal_key(d, key(Key::Enter));
    assert!(matches!(e, ModalEffect::Nothing));
}

#[test]
fn text_fields_take_h_and_l() {
    let d = Modal::Export { path_input: "~/r".into(), selected: 1 };
    let (d, _) = modal_key(d, ch('h'));
    let (d, _) = modal_key(d, ch('l'));
    assert!(matches!(d, Modal::Export { ref path_input, selected: 1 } if path_input == "~/rhl"));
    let t = Modal::TypedConfirm { message: "m".into(), confirm_text: "hello".into(), input: String::new(), selected: 0 };
    let mut t = t;
    for c in "hello".chars() {
        t = modal_key(t, ch(c)).0;
    }
    assert!(matches!(t, Modal::TypedConfirm { ref input, selected: 0, .. } if input == "hello"));
    let (t, _) = modal_key(t, key(Key::Right));
    assert!(matches!(t, Modal::TypedConfirm { selected: 1, .. }));
    let (t, _) = modal_key(t, key(Key::Left));
    let (_, e) = modal_key(t, key(Key::Enter));
    assert!(matches!(e, ModalEffect::ExecutePending));
}

#[test]
fn scan_errors_scroll_and_theme_picker() {
    let d = Modal::ScanErrors { errors: vec!["e".into()], scroll: 0 };
    let (d, _) = modal_key(d, key(Key::Up));
    let (d, _) = modal_key(d, ch('j'));
    assert!(matches!(d, Modal::ScanErrors { scroll: 1, .. }));
    let all = themes();
    let p = Modal::ThemePicker { selected: 0, original: all[2] };
    let (p, e) = modal_key(p, key(Key::Down));
    assert!(matches!(e, ModalEffect::SetTheme(t) if t == all[1]));
    let (_, e) = modal_key(p, key(Key::Esc));
    assert!(matches!(e, ModalEffect::SetTheme(t) if t == all[2]));
    let last = Modal::ThemePicker { selected: all.len() - 1, original: all[0] };
    let (last, _) = modal_key(last, key(Key::Down));
    assert!(matches!(last, Modal::ThemePicker { selected, .. } if selected == all.len() - 1));
}

#[test]
fn views_cycle_both_ways() {
    assert_eq!(cycle_view(ViewMode::Tree, 1), ViewMode::TopFiles);
    assert_eq!(cycle_view(ViewMode::Tree, -1), ViewMode::Volumes);
    assert_eq!(cycle_view(ViewMode::Volumes, 1), ViewMode::Tree);
    assert_eq!(cycle_view(ViewMode::Extensions, -5), ViewMode::TopFiles);
}

#[test]
fn sort_keys_cycle() {
    let mut k = SortKey::Name;
    for _ in 0..7 {
        k = next_sort_key(k);
    }
    assert_eq!(k, SortKey::Name);
    assert_eq!(next_sort_key(SortKey::Percent), SortKey::Name);
}

#[test]
fn page_and_scroll_helpers() {
    assert_eq!(page_step(ViewMode::Tree, 10, 24), 24);
    assert_eq!(page_step(ViewMode::TopFiles, 0, 24), 1);
    assert_eq!(scroll_text(0, 5, 30, 10), 5);
    assert_eq!(scroll_text(18, 5, 30, 10), 20);
    assert_eq!(scroll_text(3, -9, 30, 10), 0);
    assert_eq!(move_selection(None, 1, 5), Some(1));
    assert_eq!(move_selection(Some(4), 3, 5), Some(4));
    assert_eq!(move_selection(Some(2), -5, 5), Some(0));
    assert_eq!(move_selection(Some(7), 1, 0), Some(7));
    assert_eq!(edge_row(true, 3), Some(0));
    assert_eq!(edge_row(false, 3), Some(2));
    assert_eq!(edge_row(false, 0), None);
    assert_eq!(toggle_menu(Some(2), 2), None);
    assert_eq!(toggle_menu(Some(1), 2), Some(2));
    assert_eq!(toggle_menu(None, 0), Some(0));
}

#[test]
fn hit_testing() {
    let r = Rect { x: 2, y: 1, width: 3, height: 2 };
    assert!(rect_contains(r, 2, 1));
    assert!(rect_contains(r, 4, 2));
    assert!(!rect_contains(r, 5, 1));
    let boxes = vec![(r, 7usize), (Rect { x: 0, y: 0, width: 10, height: 10 }, 9usize)];
    assert_eq!(hit_index(&boxes, 3, 1), Some(7));
    assert_eq!(hit_index(&boxes, 8, 8), Some(9));
    assert_eq!(hit_index(&boxes, 20, 20), None);
    let acts = vec![(r, Action::Quit)];
    assert_eq!(hit_action(&acts, 2, 2), Some(Action::Quit));
    let area = Rect { x: 0, y: 5, width: 80, height: 10 };
    assert_eq!(clicked_row(area, 3, 7, 10), Some(5));
    assert_eq!(clicked_row(area, 3, 20, 10), None);
}

fn tree() -> ScanNode {
    let mut root = ScanNode::new("r", "/r", true);
    root.size = 10;
    let mut d = ScanNode::new("d", "/r/d", true);
    d.size = 10;
    root.add_child(d);
    root
}

#[test]
fn dispatch_changes_state_and_returns_commands() {
    let mut s = UiState::new(themes()[0]);
    let root = tree();
    let cmds = s.dispatch(Action::CycleSort, Some(&root), None, "/r", "/Users/t");
    assert_eq!(s.sort_key, SortKey::Allocated);
    assert!(matches!(cmds[..], [Command::Rebuild, Command::UpdateStatus]));

    let cmds = s.dispatch(Action::ToggleHidden, Some(&root), None, "/r", "/Users/t");
    assert!(s.show_hidden);
    assert!(matches!(cmds[..], [Command::UpdateStatus, Command::StartScan(ref p)] if p == "/r"));

    let cmds = s.dispatch(Action::SetView(ViewMode::TopFiles), None, None, "/r", "/Users/t");
    assert_eq!(s.view_mode, ViewMode::TopFiles);
    assert_eq!(s.alt_scroll, 0);
    assert!(matches!(cmds[..], [Command::Rebuild]));

    let cmds = s.dispatch(Action::Export, Some(&root), None, "/r", "/Users/t");
    assert!(cmds.is_empty());
    assert!(matches!(s.modal, Modal::Export { ref path_input, selected: 0 } if path_input == "/Users/t/filetree-report.txt"));

    let cmds = s.dispatch(Action::Export, None, None, "/r", "/Users/t");
    assert!(matches!(cmds[..], [Command::Notify(ref m, false)] if m == "Nothing to export"));

    s.scan_in_progress = true;
    let cmds = s.dispatch(Action::CancelScan, None, None, "/r", "/Users/t");
    assert!(s.cancel_requested);
    assert_eq!(s.status_message, "Cancelling scan…");
    assert!(matches!(cmds[..], [Command::CancelActiveScan, Command::MarkDirty]));

    let cmds = s.dispatch(Action::RescanSelected, Some(&root), Some(&root.children[0]), "/r", "/Users/t");
    assert!(matches!(cmds[..], [Command::Notify(_, false)]));
    s.scan_in_progress = false;
    let cmds = s.dispatch(Action::RescanSelected, Some(&root), Some(&root.children[0]), "/r", "/Users/t");
    assert!(matches!(cmds[..], [Command::StartRescan(ref p)] if p == "/r/d"));

    s.dispatch(Action::ThemePicker, None, None, "/r", "/Users/t");
    assert!(matches!(s.modal, Modal::ThemePicker { selected: 0, .. }));
    s.dispatch(Action::Quit, None, None, "/r", "/Users/t");
    assert!(s.should_quit);
}

fn denied() -> Vec<DeniedPrefix> {
    delete_denied_prefixes().into_iter().map(|p| DeniedPrefix { label: p.into(), resolved: p.into() }).collect()
}

#[test]
fn delete_plans() {
    let mut big = ScanNode::new("big", "/s/big", true);
    big.size = 2_000_000_000;
    match plan_delete(&big, "/s/big", "/s", "/Users/t", &denied(), false) {
        Ok((PendingAction::Delete { path, is_dir: true, size }, Modal::TypedConfirm { confirm_text, message, .. })) => {
            assert_eq!(path, "/s/big");
            assert_eq!(size, 2_000_000_000);
            assert_eq!(confirm_text, "big");
            assert!(message.starts_with("Permanently delete?\n\n/s/big\n\nSize: "));
        },
        _ => panic!("unexpected plan"),
    }
    let small = ScanNode::new("f.txt", "/s/f.txt", false);
    assert!(matches!(
        plan_delete(&small, "/s/f.txt", "/s", "/Users/t", &denied(), false),
        Ok((_, Modal::Confirm { ref title, .. })) if title == "Delete Item"
    ));
    assert_eq!(
        plan_delete(&small, "/s/f.txt", "/s", "/Users/t", &denied(), true).err().unwrap(),
        "Cannot delete while scan is in progress"
    );
    assert_eq!(plan_delete(&small, "/s", "/s", "/Users/t", &denied(), false).err().unwrap(), "Cannot delete the scan root");
}

#[test]
fn large_file_needs_typed_confirmation() {
    let mut big = ScanNode::new("disk.img", "/s/disk.img", false);
    big.size = 1_000_000_000;
    match plan_delete(&big, "/s/disk.img", "/s", "/Users/t", &denied(), false) {
        Ok((PendingAction::Delete { is_dir: false, .. }, Modal::TypedConfirm { confirm_text, message, input, selected })) => {
            assert_eq!(confirm_text, "disk.img");
            assert!(message.ends_with("Large file — type the file name to confirm."));
            assert_eq!(input, "");
            assert_eq!(selected, 0);
        },
        _ => panic!("a large file needs typed confirmation"),
    }
    let mut under = ScanNode::new("disk.img", "/s/disk.img", false);
    under.size = 999_999_999;
    assert!(matches!(plan_delete(&under, "/s/disk.img", "/s", "/Users/t", &denied(), false), Ok((_, Modal::Confirm { .. }))));
}

#[test]
fn after_delete_rescans_expanded_parent() {
    let cmds = after_delete("/s/a/f.txt", &vec!["/s/a".to_string()], Some("/s"));
    assert!(matches!(cmds[..], [Command::Notify(ref m, false), Command::StartRescan(ref p), Command::Rebuild]
        if m == "Deleted: /s/a/f.txt" && p == "/s/a"));
    let cmds = after_delete("/s/a/f.txt", &vec![], Some("/s"));
    assert!(matches!(cmds[..], [Command::Notify(_, false), Command::StartScan(ref p), Command::Rebuild] if p == "/s"));
}

#[test]
fn export_step_and_outcomes() {
    match export_step("csv".into(), "/Users/t/.ssh/x".into(), false, false, true) {
        ExportStep::Confirm(PendingAction::Export { overwrite: false, .. }, Modal::Confirm { title, message, .. }) => {
            assert_eq!(title, "Export Warning");
            assert_eq!(message, "Export to a sensitive location?\n\n/Users/t/.ssh/x");
        },
        _ => panic!("expected a confirmation"),
    }
    assert!(matches!(export_step("csv".into(), "/tmp/x".into(), false, false, false), ExportStep::Write));
    let (p, c) = after_save(SaveOutcome::AlreadyExists, "text".into(), "/tmp/r.txt".into(), false);
    assert!(c.is_none());
    assert!(matches!(p, Some((PendingAction::Export { overwrite: true, .. }, Modal::Confirm { .. }))));
    let (p, c) = after_save(SaveOutcome::Saved("/tmp/r.txt".into()), "text".into(), "/tmp/r.txt".into(), false);
    assert!(p.is_none());
    assert!(matches!(c, Some(Command::Notify(ref m, false)) if m == "Exported to /tmp/r.txt"));
    let (_, c) = after_save(SaveOutcome::Failed("disk full".into()), "text".into(), "/tmp/r.txt".into(), false);
    assert!(matches!(c, Some(Command::Notify(ref m, true)) if m == "Export failed: disk full"));
}

#[test]
fn dispatch_set_sort_changes_sort_key() {
    let mut s = UiState::new(themes()[0]);
    s.dispatch(Action::SetSort(SortKey::Name), None, None, "/", "/Users/t");
    assert_eq!(s.sort_key, SortKey::Name);
}

#[test]
fn page_step_tracks_table_viewport() {
    // The table viewport of a 120x40 frame has a positive number of rows;
    // before any frame it has none, and a page is still one row.
    assert_eq!(page_step(ViewMode::Tree, 0, 33), 33);
    assert!(page_step(ViewMode::Tree, 0, 0) >= 1);
}
