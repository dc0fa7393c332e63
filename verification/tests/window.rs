//! The windowed front end.

use ferris_scan::front::{Edition, ExportOutcome, ScanOutcome};
use ferris_scan::gui::{list_name, tile_name, FerrisScanApp, NavigationState, ScanStatus};
use ferris_scan::{Node, ScanPath, ScanReport};

fn entry(name: &str, is_dir: bool, children: Vec<Node>) -> Node {
    let mut node = Node::new(name.to_string(), ScanPath::empty(), is_dir);
    node.children = children;
    node
}

fn sample() -> Node {
    entry(
        "r",
        true,
        vec![
            entry("d", true, vec![entry("x", false, vec![])]),
            entry("f", false, vec![]),
        ],
    )
}

fn viewing() -> FerrisScanApp {
    let mut app = FerrisScanApp::new("/home".to_string());
    app.start_scan(true);
    app.scan_finished(ScanOutcome::Finished(sample(), ScanReport::default()));
    app.prepare();
    app
}

#[test]
fn a_scan_needs_a_path_that_exists() {
    let mut app = FerrisScanApp::new("/nowhere".to_string());
    assert!(app.is_idle());
    assert!(!app.start_scan(false));
    assert_eq!(
        app.popup_message,
        Some("Path does not exist: /nowhere".to_string())
    );
    assert!(app.is_idle());
    app.close_popup();
    assert_eq!(app.popup_message, None);
    assert!(app.start_scan(true));
    assert!(!app.is_idle());
    app.scan_finished(ScanOutcome::Panicked);
    assert!(matches!(app.status, ScanStatus::Scanning));
    app.scan_finished(ScanOutcome::Failed("bad".to_string()));
    assert!(matches!(&app.status, ScanStatus::Error(e) if e == "bad"));
    assert!(app.current_node().is_none());
    app.apply(true, false, None);
    assert!(app.is_idle());
}

#[test]
fn results_are_opened_at_the_root() {
    let mut app = FerrisScanApp::new("/home".to_string());
    assert_eq!(app.location(), "Root");
    app.prepare();
    assert!(app.navigation.is_none());
    app.scan_finished(ScanOutcome::Finished(sample(), ScanReport::default()));
    assert_eq!(app.current_node().unwrap().name, "r");
    app.selected_index = 9;
    app.prepare();
    assert_eq!(app.location(), "r");
    assert_eq!(app.selected_index, 0);
    assert!(!app.can_go_up());
    app.select(9);
    app.prepare();
    assert_eq!(app.selected_index, 1);
}

#[test]
fn directories_can_be_entered_and_left() {
    let mut app = viewing();
    assert!(app.pick(1).is_none());
    assert!(app.pick(5).is_none());
    let child = app.pick(0);
    assert_eq!(app.get_item(1).unwrap().name, "f");
    assert!(app.get_item(2).is_none());
    app.select(1);
    app.apply(false, false, child);
    assert_eq!(app.location(), "r / d");
    assert_eq!(app.selected_index, 0);
    assert!(app.can_go_up());
    app.apply(false, true, None);
    assert_eq!(app.location(), "r");
    app.apply(false, true, None);
    assert_eq!(app.location(), "r");
    let child = app.pick(0);
    app.apply(true, true, child);
    assert!(app.navigation.is_none());
    assert!(app.is_idle());
}

#[test]
fn the_way_through_the_tree() {
    let mut nav = NavigationState::new(sample());
    assert!(!nav.drill_up());
    nav.drill_down(entry("d", true, vec![]));
    assert_eq!(nav.breadcrumb(), "r / d");
    assert_eq!(nav.current().name, "d");
    assert!(nav.drill_up());
    assert_eq!(nav.breadcrumb(), "r");
}

#[test]
fn export_in_the_window() {
    let mut app = viewing();
    assert!(app.export_document(Edition::Free).is_none());
    assert!(app
        .export_document(Edition::Pro)
        .unwrap()
        .starts_with(b"Path,Name,Type,Size (bytes)\nr,r,Directory,0\n"));
    app.handle_export(
        Edition::Pro,
        "+",
        "-",
        &ExportOutcome::Saved("out.csv".to_string()),
    );
    assert_eq!(
        app.popup_message,
        Some("+ Export successful!\n\nSaved to:\nout.csv".to_string())
    );
    app.handle_export(
        Edition::Pro,
        "+",
        "-",
        &ExportOutcome::Failed("full".to_string()),
    );
    assert_eq!(app.popup_message, Some("- Export failed:\nfull".to_string()));
    app.handle_export(
        Edition::Free,
        "+",
        "-",
        &ExportOutcome::Failed("unused".to_string()),
    );
    assert_eq!(
        app.popup_message,
        Some(
            "This is a Pro Feature\n\n\
             CSV Export is only available in ferris-scan Pro.\n\n\
             Build with: cargo build --release --features pro --bin ferris-scan-gui"
                .to_string()
        )
    );
    let idle = FerrisScanApp::new(String::new());
    assert!(idle.export_document(Edition::Pro).is_none());
}

#[test]
fn long_names_are_clipped() {
    let forty = "ä".repeat(40);
    assert_eq!(list_name(&forty), forty);
    assert_eq!(list_name(&"ä".repeat(41)), format!("{forty}…"));
    let twenty = "b".repeat(20);
    assert_eq!(tile_name(&twenty), twenty);
    assert_eq!(tile_name(&"b".repeat(30)), format!("{twenty}…"));
}
