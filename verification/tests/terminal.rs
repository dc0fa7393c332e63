//! The terminal front ends.

use ferris_scan::classic;
use ferris_scan::front::{Edition, ExportOutcome, Key, Request, ScanOutcome};
use ferris_scan::tui::{App, NavigationState};
use ferris_scan::{Node, PartKind, PartText, PathPart, ScanPath, ScanReport};

fn path(names: &[&str]) -> ScanPath {
    ScanPath {
        parts: names
            .iter()
            .map(|n| PathPart {
                kind: PartKind::Normal,
                text: PartText::Bytes(n.as_bytes().to_vec()),
            })
            .collect(),
    }
}

fn leaf(names: &[&str], size: u64) -> Node {
    let mut node = Node::new(names[names.len() - 1].to_string(), path(names), false);
    node.size = size;
    node
}

fn folder(names: &[&str], children: Vec<Node>) -> Node {
    let mut node = Node::new(names[names.len() - 1].to_string(), path(names), true);
    node.size = children.iter().map(|c| c.size).sum();
    node.children = children;
    node
}

fn sample() -> Node {
    folder(
        &["r"],
        vec![
            folder(
                &["r", "a"],
                vec![
                    folder(&["r", "a", "b"], vec![leaf(&["r", "a", "b", "deep"], 40)]),
                    leaf(&["r", "a", "f"], 20),
                ],
            ),
            leaf(&["r", "g"], 5),
        ],
    )
}

fn viewing() -> App {
    let mut app = App::new();
    app.scan_finished(ScanOutcome::Finished(sample(), ScanReport::default()));
    app
}

fn saved() -> ExportOutcome {
    ExportOutcome::Saved("/x/ferris-scan-export.csv".to_string())
}

#[test]
fn opening_and_going_up() {
    let mut nav = NavigationState::new(sample());
    assert_eq!(nav.breadcrumb(), "r");
    assert!(!nav.drill_up());
    assert!(!nav.drill_down(1));
    assert!(!nav.drill_down(7));
    assert!(nav.drill_down(0));
    assert!(nav.drill_down(0));
    assert_eq!(nav.breadcrumb(), "r / a / b");
    assert_eq!(nav.current().path, path(&["r", "a", "b"]));
    assert!(nav.drill_up());
    assert_eq!(nav.breadcrumb(), "r / a");
}

#[test]
fn rebuilding_finds_the_same_directory() {
    let mut nav = NavigationState::new(sample());
    nav.drill_down(0);
    nav.drill_down(0);
    let mut changed = sample();
    changed
        .delete_node(&path(&["r", "a", "f"]), Ok(()))
        .unwrap();
    nav.rebuild_from_root(&changed);
    assert_eq!(nav.breadcrumb(), "r / a / b");
    assert_eq!(nav.path[1].children.len(), 1);
    changed.delete_node(&path(&["r", "a"]), Ok(())).unwrap();
    nav.rebuild_from_root(&changed);
    assert_eq!(nav.breadcrumb(), "r");
    let other = folder(&["elsewhere"], vec![]);
    nav.rebuild_from_root(&other);
    assert_eq!(nav.breadcrumb(), "elsewhere");
    nav.path.clear();
    nav.rebuild_from_root(&changed);
    assert_eq!(nav.breadcrumb(), "r");
}

#[test]
fn a_scan_that_ends() {
    let app = viewing();
    assert_eq!(app.list_selected, Some(0));
    assert_eq!(app.location(), "r");
    assert_eq!(app.current_node().unwrap().name, "r");

    let mut app = App::new();
    assert_eq!(app.location(), "Root");
    assert!(app.current_node().is_none());
    app.scan_finished(ScanOutcome::Failed("disk gone".to_string()));
    assert_eq!(app.popup_message, Some("Scan error: disk gone".to_string()));
    app.scan_finished(ScanOutcome::Panicked);
    assert_eq!(
        app.popup_message,
        Some("Internal error: scan thread panicked".to_string())
    );
    assert!(app.navigation.is_none());

    let mut app = viewing();
    app.scan_finished(ScanOutcome::Panicked);
    assert_eq!(app.popup_message, None);
}

#[test]
fn keys_move_the_highlight_around_the_list() {
    let mut app = viewing();
    assert_eq!(app.press(Key::Down), Request::Nothing);
    assert_eq!(app.list_selected, Some(1));
    app.press(Key::Char('j'));
    assert_eq!(app.list_selected, Some(0));
    app.press(Key::Up);
    assert_eq!(app.list_selected, Some(1));
    app.press(Key::Char('k'));
    assert_eq!(app.list_selected, Some(0));
    app.set_highlight(None);
    assert_eq!(app.selected_line(), 0);
    app.press(Key::Down);
    assert_eq!(app.list_selected, Some(1));
    let mut waiting = App::new();
    waiting.press(Key::Down);
    assert_eq!(waiting.list_selected, None);
}

#[test]
fn keys_browse_the_tree() {
    let mut app = viewing();
    app.press(Key::Enter);
    assert_eq!(app.location(), "r / a");
    app.press(Key::Char('l'));
    assert_eq!(app.location(), "r / a / b");
    app.press(Key::Enter);
    assert_eq!(app.location(), "r / a / b");
    app.press(Key::Backspace);
    assert_eq!(app.location(), "r / a");
    app.press(Key::Down);
    app.press(Key::Char('h'));
    assert_eq!(app.location(), "r");
    assert_eq!(app.list_selected, Some(0));
    app.press(Key::Enter);
    app.press(Key::Esc);
    assert_eq!(app.location(), "r");
    assert!(!app.should_quit);
    app.press(Key::Esc);
    assert!(app.should_quit);
    let mut app = viewing();
    app.press(Key::Char('q'));
    assert!(app.should_quit);
    let mut app = App::new();
    app.press(Key::Other);
    assert!(!app.should_quit);
    app.press(Key::Esc);
    assert!(app.should_quit);
}

#[test]
fn deleting_asks_first() {
    let mut app = viewing();
    app.press(Key::Down);
    assert_eq!(app.press(Key::Char('d')), Request::Nothing);
    assert!(app.show_delete_modal);
    assert_eq!(
        app.confirmation("r/g"),
        Some(
            "Are you sure you want to delete\ng\n\nThis cannot be undone.\n\n\
             [y/Enter] Confirm  [n/Esc] Cancel"
                .to_string()
        )
    );
    assert_eq!(app.press(Key::Char('x')), Request::Nothing);
    assert!(app.show_delete_modal);
    app.press(Key::Esc);
    assert!(!app.show_delete_modal);
    assert_eq!(app.pending_deletion, None);
    assert_eq!(app.confirmation("r/g"), None);
    app.press(Key::Char('d'));
    app.press(Key::Char('n'));
    assert!(!app.show_delete_modal);
    app.press(Key::Char('d'));
    assert_eq!(app.press(Key::Char('y')), Request::Delete);
    let task = app.deletion_task().unwrap();
    assert_eq!(task.path, path(&["r", "g"]));
    assert!(!task.is_dir);
    app.confirm_deletion(Ok(()), "r/g");
    assert!(!app.show_delete_modal);
    assert_eq!(
        app.popup_message,
        Some("✓ Successfully deleted: r/g".to_string())
    );
    assert_eq!(app.list_selected, Some(0));
    assert_eq!(app.current_node().unwrap().size, 60);
    assert!(app.deletion_task().is_none());
}

#[test]
fn deleting_the_last_item_clears_the_highlight() {
    let mut app = viewing();
    app.press(Key::Enter);
    app.press(Key::Enter);
    assert_eq!(app.location(), "r / a / b");
    app.press(Key::Char('d'));
    assert_eq!(app.press(Key::Enter), Request::Delete);
    app.confirm_deletion(Ok(()), "r/a/b/deep");
    assert_eq!(app.location(), "r / a / b");
    assert_eq!(app.list_selected, None);
    assert_eq!(app.navigation.unwrap().path[0].size, 25);
}

#[test]
fn a_deletion_that_fails_says_so() {
    let mut app = viewing();
    app.press(Key::Char('d'));
    app.confirm_deletion(Err("Permission denied (os error 13)".to_string()), "r/a");
    assert_eq!(
        app.popup_message,
        Some("✗ Deletion failed: Permission denied (os error 13)".to_string())
    );
    assert_eq!(app.current_node().unwrap().children.len(), 2);

    let mut app = viewing();
    app.pending_deletion = Some(path(&["r", "nowhere"]));
    assert!(app.deletion_task().is_none());
    app.confirm_deletion(Ok(()), "r/nowhere");
    assert_eq!(
        app.popup_message,
        Some("✗ Deletion failed: Node not found: r/nowhere".to_string())
    );
    app.confirm_deletion(Ok(()), "again");
    assert_eq!(
        app.popup_message,
        Some("✗ Deletion failed: Node not found: r/nowhere".to_string())
    );
}

#[test]
fn deleting_the_current_directory_goes_up() {
    let mut app = viewing();
    app.press(Key::Enter);
    assert_eq!(app.location(), "r / a");
    app.pending_deletion = Some(path(&["r", "a"]));
    assert!(app.deletion_task().unwrap().is_dir);
    app.confirm_deletion(Ok(()), "r/a");
    assert_eq!(app.location(), "r");
    assert_eq!(app.current_node().unwrap().children.len(), 1);
}

#[test]
fn a_message_takes_the_next_key() {
    let mut app = viewing();
    app.show_popup("hello".to_string());
    app.press(Key::Char('q'));
    assert_eq!(app.popup_message, None);
    assert!(!app.should_quit);
}

#[test]
fn export_in_the_terminal() {
    let mut app = viewing();
    assert_eq!(app.press(Key::Char('e')), Request::Export);
    assert!(app.export_document(Edition::Free).is_none());
    let document = app.export_document(Edition::Pro).unwrap();
    assert!(document.starts_with(b"Path,Name,Type,Size (bytes)\nr,r,Directory,65\n"));
    app.handle_export(Edition::Pro, &saved());
    assert_eq!(
        app.popup_message,
        Some("✓ Export successful!\n\nSaved to:\n/x/ferris-scan-export.csv".to_string())
    );
    app.handle_export(Edition::Pro, &ExportOutcome::Failed("full".to_string()));
    assert_eq!(
        app.popup_message,
        Some("✗ Export failed:\nfull".to_string())
    );
    app.handle_export(Edition::Free, &saved());
    assert_eq!(
        app.popup_message,
        Some(
            "⚠ This is a Pro Feature\n\n\
             CSV Export is only available in ferris-scan Pro.\n\n\
             Build with: cargo build --release --features pro"
                .to_string()
        )
    );
    let mut waiting = App::new();
    waiting.handle_export(Edition::Pro, &saved());
    assert_eq!(
        waiting.popup_message,
        Some("Please wait for scan to complete first.".to_string())
    );
    assert!(waiting.export_document(Edition::Pro).is_none());
}

#[test]
fn the_plain_front_end() {
    let mut app = classic::App::new();
    assert_eq!(app.press(Key::Char('e')), Request::Export);
    app.handle_export(Edition::Pro, &saved());
    assert_eq!(
        app.popup_message,
        Some("Please wait for scan to complete first.".to_string())
    );
    assert_eq!(app.press(Key::Char('q')), Request::Nothing);
    assert_eq!(app.popup_message, None);
    assert!(!app.should_quit);
    app.scan_finished(ScanOutcome::Failed("x".to_string()));
    assert_eq!(app.popup_message, Some("Scan error: x".to_string()));
    app.close_popup();
    app.scan_finished(ScanOutcome::Finished(sample(), ScanReport::default()));
    assert!(app.export_document(Edition::Pro).is_some());
    assert!(app.export_document(Edition::Free).is_none());
    app.scan_finished(ScanOutcome::Panicked);
    assert_eq!(app.popup_message, None);
    app.press(Key::Char('d'));
    assert!(!app.should_quit);
    app.press(Key::Esc);
    assert!(app.should_quit);
}
