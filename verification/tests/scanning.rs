//! Scanning: from a walk to a tree and a report.

use std::io::Write;
use std::path::{Component, Path};
use std::time::Duration;

use ferris_scan::scan::{is_permission_denied, IoKind, ScanRun, WalkEvent, WalkFailure};
use ferris_scan::{
    scan_directory, scan_directory_with_report, scan_directory_with_report_shared, Node, PartKind, PartText,
    PathPart, ScanPath, ScanProgress, ScanState, Scanner, SharedProgress,
};
use jwalk::WalkDir;
use tempfile::tempdir;

fn normal(text: &str) -> PathPart {
    PathPart {
        kind: PartKind::Normal,
        text: PartText::Bytes(text.as_bytes().to_vec()),
    }
}

fn path(names: &[&str]) -> ScanPath {
    ScanPath {
        parts: names.iter().map(|n| normal(n)).collect(),
    }
}

fn scan_path(path: &Path) -> ScanPath {
    let parts = path
        .components()
        .map(|c| PathPart {
            kind: match c {
                Component::Prefix(_) => PartKind::Prefix,
                Component::RootDir => PartKind::RootDir,
                Component::CurDir => PartKind::CurDir,
                Component::ParentDir => PartKind::ParentDir,
                Component::Normal(_) => PartKind::Normal,
            },
            text: PartText::Bytes(c.as_os_str().as_encoded_bytes().to_vec()),
        })
        .collect();
    ScanPath { parts }
}

fn failure(e: &jwalk::Error) -> WalkFailure {
    WalkFailure {
        io_kind: e.io_error().map(|io| match io.kind() {
            std::io::ErrorKind::PermissionDenied => IoKind::PermissionDenied,
            _ => IoKind::Other,
        }),
        message: e.to_string(),
    }
}

fn walk(root: &Path) -> Vec<WalkEvent> {
    let mut events = Vec::new();
    for entry in WalkDir::new(root).sort(true).skip_hidden(false) {
        events.push(match entry {
            Ok(entry) => WalkEvent::Entry {
                path: scan_path(&entry.path()),
                is_dir: entry.file_type().is_dir(),
                metadata: match entry.metadata() {
                    Ok(md) => Ok(md.len()),
                    Err(e) => Err(failure(&e)),
                },
                elapsed: Duration::from_millis(1),
            },
            Err(e) => WalkEvent::Failed(failure(&e)),
        });
    }
    events
}

fn dir(names: &[&str]) -> WalkEvent {
    WalkEvent::Entry {
        path: path(names),
        is_dir: true,
        metadata: Ok(0),
        elapsed: Duration::from_millis(1),
    }
}

fn file(names: &[&str], size: u64) -> WalkEvent {
    WalkEvent::Entry {
        path: path(names),
        is_dir: false,
        metadata: Ok(size),
        elapsed: Duration::from_millis(2),
    }
}

fn refused(message: &str) -> WalkFailure {
    WalkFailure {
        io_kind: Some(IoKind::PermissionDenied),
        message: message.to_string(),
    }
}

fn broken(message: &str) -> WalkFailure {
    WalkFailure {
        io_kind: Some(IoKind::Other),
        message: message.to_string(),
    }
}

fn names(node: &Node) -> Vec<&str> {
    node.children.iter().map(|c| c.name.as_str()).collect()
}

#[test]
fn test_scan_empty_directory() {
    let dir = tempdir().unwrap();
    let mut progress: Vec<ScanProgress> = Vec::new();
    let result = scan_directory(&scan_path(dir.path()), &walk(dir.path()), &mut progress);
    assert!(result.is_ok());
}

#[test]
fn test_scanner_api() {
    let dir = tempdir().unwrap();
    let scanner = Scanner::new();
    let result = scanner.scan(&scan_path(dir.path()), &walk(dir.path()));
    assert!(result.is_ok());
}

#[test]
fn scan_of_an_empty_directory_is_empty() {
    let dir = tempdir().unwrap();
    let mut progress: Vec<ScanProgress> = Vec::new();
    let root = scan_directory(&scan_path(dir.path()), &walk(dir.path()), &mut progress).unwrap();
    assert_eq!(root.name, dir.path().file_name().unwrap().to_str().unwrap());
    assert!(root.is_dir);
    assert_eq!(root.size, 0);
    assert!(root.children.is_empty());
    assert_eq!(root.path, scan_path(dir.path()));
    assert!(progress.is_empty());
}

#[test]
fn scan_of_files_on_disk() {
    let dir = tempdir().unwrap();
    let inner = tempfile::Builder::new()
        .prefix("inner")
        .rand_bytes(0)
        .tempdir_in(dir.path())
        .unwrap();
    let mut small = tempfile::Builder::new()
        .prefix("small.txt")
        .rand_bytes(0)
        .tempfile_in(dir.path())
        .unwrap();
    small.write_all(b"12345").unwrap();
    let mut large = tempfile::Builder::new()
        .prefix("large.bin")
        .rand_bytes(0)
        .tempfile_in(inner.path())
        .unwrap();
    large.write_all(&[0u8; 100]).unwrap();

    let mut shared = SharedProgress::default();
    let (root, report) = Scanner::new()
        .scan_with_progress(&scan_path(dir.path()), &walk(dir.path()), &mut shared)
        .unwrap();
    assert_eq!(root.size, 105);
    assert_eq!(names(&root), vec!["inner", "small.txt"]);
    assert!(root.children[0].is_dir);
    assert_eq!(root.children[0].size, 100);
    assert_eq!(names(&root.children[0]), vec!["large.bin"]);
    assert_eq!(root.children[1].size, 5);
    assert!(!root.children[1].is_dir);
    assert_eq!(root.children[1].path, scan_path(small.path()));
    assert_eq!(root.children[0].children[0].path, scan_path(large.path()));
    assert!(report.skipped.is_empty());
    assert_eq!(shared.files_scanned, 2);
}

#[test]
fn directories_add_up_and_the_largest_comes_first() {
    let events = vec![
        dir(&["r"]),
        dir(&["r", "a"]),
        file(&["r", "a", "one"], 10),
        file(&["r", "a", "two"], 30),
        dir(&["r", "b"]),
        file(&["r", "b", "three"], 100),
        file(&["r", "c"], 40),
        file(&["r", "d"], 40),
        dir(&["r", "e"]),
    ];
    let root = Scanner::new().scan(&path(&["r"]), &events).unwrap();
    assert_eq!(root.name, "r");
    assert_eq!(root.size, 220);
    assert_eq!(names(&root), vec!["b", "a", "c", "d", "e"]);
    assert_eq!(names(&root.children[1]), vec!["two", "one"]);
    assert_eq!(root.children[1].size, 40);
    assert_eq!(root.children[4].size, 0);
    assert!(root.children[4].is_dir);
    assert_eq!(root.children[0].children[0].path, path(&["r", "b", "three"]));
}

#[test]
fn missing_directories_are_added_on_the_way() {
    let events = vec![file(&["r", "x", "y", "z"], 7)];
    let root = Scanner::new().scan(&path(&["r"]), &events).unwrap();
    assert_eq!(names(&root), vec!["x"]);
    assert!(root.children[0].is_dir);
    assert_eq!(root.children[0].children[0].name, "y");
    assert!(root.children[0].children[0].is_dir);
    assert_eq!(root.children[0].children[0].children[0].size, 7);
    assert_eq!(root.size, 7);
}

#[test]
fn entries_outside_the_root_are_announced_but_not_placed() {
    let events = vec![file(&["other", "f"], 9), file(&["r", "f"], 1)];
    let mut progress: Vec<ScanProgress> = Vec::new();
    let root = scan_directory(&path(&["r"]), &events, &mut progress).unwrap();
    assert_eq!(names(&root), vec!["f"]);
    assert_eq!(root.size, 1);
    assert_eq!(progress.len(), 2);
    assert_eq!(progress[0].current_path, path(&["other", "f"]));
    assert_eq!(progress[0].files_scanned, 0);
    assert_eq!(progress[1].files_scanned, 0);
    assert_eq!(progress[1].elapsed, Duration::from_millis(2));
}

#[test]
fn updates_count_the_files_before_them() {
    let events = vec![
        dir(&["r"]),
        file(&["r", "a"], 1),
        dir(&["r", "d"]),
        file(&["r", "d", "b"], 2),
        file(&["r", "c"], 3),
    ];
    let mut progress: Vec<ScanProgress> = Vec::new();
    let mut shared = SharedProgress::default();
    let (root, _) =
        scan_directory_with_report_shared(&path(&["r"]), &events, &mut progress, &mut shared)
            .unwrap();
    let counts: Vec<usize> = progress.iter().map(|p| p.files_scanned).collect();
    assert_eq!(counts, vec![0, 1, 1, 2]);
    assert_eq!(progress[2].clone().current_path, path(&["r", "d", "b"]));
    assert_eq!(shared.files_scanned, 3);
    assert_eq!(shared.last_path, Some(path(&["r", "c"])));
    assert_eq!(root.size, 6);
}

#[test]
fn refused_permissions_are_reported_and_other_failures_are_not() {
    let events = vec![
        WalkEvent::Failed(refused("no entry")),
        WalkEvent::Failed(broken("gone")),
        WalkEvent::Failed(WalkFailure {
            io_kind: None,
            message: "loop".to_string(),
        }),
        WalkEvent::Entry {
            path: path(&["r", "locked"]),
            is_dir: false,
            metadata: Err(refused("no size")),
            elapsed: Duration::from_millis(1),
        },
        WalkEvent::Entry {
            path: path(&["r", "odd"]),
            is_dir: false,
            metadata: Err(broken("stale")),
            elapsed: Duration::from_millis(1),
        },
    ];
    let mut progress: Vec<ScanProgress> = Vec::new();
    let (root, report) =
        scan_directory_with_report(&path(&["r"]), &events, &mut progress).unwrap();
    assert!(root.children.is_empty());
    assert_eq!(report.skipped.len(), 2);
    assert_eq!(report.skipped[0].path, None);
    assert_eq!(report.skipped[0].message, "no entry");
    assert_eq!(report.skipped[1].path, Some(path(&["r", "locked"])));
    assert_eq!(report.skipped[1].message, "no size");
    assert_eq!(report.clone(), report);
    assert!(is_permission_denied(&refused("x")));
    assert!(!is_permission_denied(&broken("x")));
    assert_eq!(progress.len(), 2);
}

#[test]
fn a_walk_that_is_nothing_but_failures_fails() {
    let events = vec![
        WalkEvent::Failed(broken("no such path")),
        WalkEvent::Failed(refused("closed")),
    ];
    let root = path(&["nowhere"]);
    assert_eq!(
        Scanner::new().scan(&root, &events).unwrap_err(),
        "no such path"
    );
    let mut progress: Vec<ScanProgress> = Vec::new();
    assert!(scan_directory(&root, &events, &mut progress).is_err());
    assert!(scan_directory_with_report(&root, &events, &mut progress).is_err());
    let mut shared = SharedProgress::default();
    assert_eq!(
        Scanner::new()
            .scan_with_progress(&root, &events, &mut shared)
            .unwrap_err(),
        "no such path"
    );
    assert!(progress.is_empty());
    assert_eq!(shared.last_path, None);

    let entered = vec![
        WalkEvent::Failed(broken("first")),
        dir(&["nowhere"]),
        WalkEvent::Failed(broken("second")),
    ];
    assert!(Scanner::new().scan(&root, &entered).is_ok());
    assert!(Scanner::new().scan(&root, &vec![]).is_ok());
}

#[test]
fn a_path_that_does_not_exist_cannot_be_scanned() {
    let dir = tempdir().unwrap();
    let missing = dir.path().join("missing");
    let result = Scanner::new().scan(&scan_path(&missing), &walk(&missing));
    assert!(result.is_err());
}

#[test]
fn hidden_files_are_scanned_too() {
    let dir = tempdir().unwrap();
    let _hidden = tempfile::Builder::new()
        .prefix(".hidden")
        .rand_bytes(0)
        .tempfile_in(dir.path())
        .unwrap();
    let root = Scanner::new()
        .scan(&scan_path(dir.path()), &walk(dir.path()))
        .unwrap();
    assert_eq!(names(&root), vec![".hidden"]);
}

fn count_files(node: &Node) -> u64 {
    let own: u64 = if node.is_dir { 0 } else { 1 };
    own + node.children.iter().map(count_files).sum::<u64>()
}

#[test]
fn the_count_is_the_number_of_file_nodes() {
    let events = vec![
        dir(&["r"]),
        file(&["r", "a", "x"], 1),
        file(&["r", "a", "y"], 0),
        dir(&["r", "b"]),
        file(&["r", "z"], 9),
    ];
    let mut shared = SharedProgress::default();
    let (root, _) = Scanner::new()
        .scan_with_progress(&path(&["r"]), &events, &mut shared)
        .unwrap();
    assert_eq!(count_files(&root), 3);
    assert_eq!(shared.files_scanned, 3);
    assert_eq!(shared.last_path, Some(path(&["r", "z"])));
}

#[test]
fn sizes_stop_at_the_largest_value() {
    let events = vec![file(&["r", "a"], u64::MAX), file(&["r", "b"], 5)];
    let root = Scanner::new().scan(&path(&["r"]), &events).unwrap();
    assert_eq!(root.size, u64::MAX);
    assert_eq!(names(&root), vec!["a", "b"]);
}

#[test]
fn a_file_that_comes_twice_is_counted_twice() {
    let events = vec![file(&["r", "a"], 4), file(&["r", "a"], 5)];
    let root = Scanner::new().scan(&path(&["r"]), &events).unwrap();
    assert_eq!(names(&root), vec!["a"]);
    assert_eq!(root.children[0].size, 9);
}

#[test]
fn names_that_are_not_text_get_replacement_characters() {
    let events = vec![WalkEvent::Entry {
        path: ScanPath {
            parts: vec![
                normal("r"),
                PathPart {
                    kind: PartKind::Normal,
                    text: PartText::Bytes(vec![b'a', 0xff, b'b']),
                },
            ],
        },
        is_dir: false,
        metadata: Ok(1),
        elapsed: Duration::from_millis(1),
    }];
    let root = Scanner::new().scan(&path(&["r"]), &events).unwrap();
    assert_eq!(names(&root), vec!["a\u{fffd}b"]);
    assert_eq!(root.children[0].path, path(&["r", "a\u{fffd}b"]));
}

#[test]
fn a_lone_surrogate_becomes_one_replacement_character() {
    let events = vec![WalkEvent::Entry {
        path: ScanPath {
            parts: vec![
                normal("r"),
                PathPart::from_units(PartKind::Normal, vec![0x61, 0xd800, 0x62]),
            ],
        },
        is_dir: false,
        metadata: Ok(1),
        elapsed: Duration::from_millis(1),
    }];
    let root = Scanner::new().scan(&path(&["r"]), &events).unwrap();
    assert_eq!(names(&root), vec!["a\u{fffd}b"]);
    assert_eq!(root.children[0].path, path(&["r", "a\u{fffd}b"]));
}

#[test]
fn a_run_asks_for_the_size_of_files_only() {
    let mut shared = SharedProgress::default();
    let mut run = ScanRun::start(&path(&["r"]));
    let own = run.visit(&path(&["r"]), true, Duration::from_millis(0), &mut shared);
    assert!(own.progress.is_none());
    assert!(!own.wants_metadata);
    assert_eq!(shared.last_path, None);
    let folder = run.visit(&path(&["r", "d"]), true, Duration::from_millis(0), &mut shared);
    assert!(folder.progress.is_some());
    assert!(!folder.wants_metadata);
    let item = run.visit(&path(&["r", "f"]), false, Duration::from_millis(3), &mut shared);
    assert!(item.wants_metadata);
    assert_eq!(item.progress.unwrap().elapsed, Duration::from_millis(3));
    assert_eq!(shared.files_scanned, 0);
    run.metadata(&path(&["r", "f"]), &Ok(12), &mut shared);
    assert_eq!(shared.files_scanned, 1);
    run.failed(&refused("closed"));
    let (tree, report) = run.finish().unwrap();
    assert_eq!(names(&tree), vec!["f", "d"]);
    assert_eq!(tree.size, 12);
    assert_eq!(report.skipped.len(), 1);
}

#[test]
fn scan_state_starts_idle_and_can_be_copied() {
    assert_eq!(ScanState::default(), ScanState::Idle);
    let state = ScanState::Scanning {
        files_scanned: 3,
        current_path: Some(path(&["r"])),
    };
    assert_eq!(state.clone(), state);
    let failed = ScanState::Error("bad".to_string());
    assert_eq!(failed.clone(), failed);
    assert_ne!(failed, state);
}
