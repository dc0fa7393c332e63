//! The CSV export.

use std::io::{Read, Write};
use std::path::{Component, Path, MAIN_SEPARATOR};
use std::time::Duration;

use ferris_scan::export::{export_path, kind_label, node_fields};
use ferris_scan::scan::{IoKind, WalkEvent, WalkFailure};
use ferris_scan::{Node, PartKind, PartText, PathPart, ScanPath, Scanner};
use jwalk::WalkDir;
use tempfile::tempdir;

fn scan_path(path: &Path) -> ScanPath {
    let parts = path
        .components()
        .map(|c| PathPart {
            kind: match c {
                Component::Prefix(_) => PartKind::Prefix,
                Component::RootDir => PartKind::RootDir,
                Component::CurDir => PartKind::CurDir,
                Component::ParentDir => PartKind::ParentDir,
                Component::Normal(_) => PartKind::Normal,
            },
            text: PartText::Bytes(c.as_os_str().as_encoded_bytes().to_vec()),
        })
        .collect();
    ScanPath { parts }
}

fn failure(e: &jwalk::Error) -> WalkFailure {
    WalkFailure {
        io_kind: e.io_error().map(|io| match io.kind() {
            std::io::ErrorKind::PermissionDenied => IoKind::PermissionDenied,
            _ => IoKind::Other,
        }),
        message: e.to_string(),
    }
}

fn walk(root: &Path) -> Vec<WalkEvent> {
    let mut events = Vec::new();
    for entry in WalkDir::new(root).sort(true).skip_hidden(false) {
        events.push(match entry {
            Ok(entry) => WalkEvent::Entry {
                path: scan_path(&entry.path()),
                is_dir: entry.file_type().is_dir(),
                metadata: match entry.metadata() {
                    Ok(md) => Ok(md.len()),
                    Err(e) => Err(failure(&e)),
                },
                elapsed: Duration::from_millis(1),
            },
            Err(e) => WalkEvent::Failed(failure(&e)),
        });
    }
    events
}

fn node(name: &str, size: u64, is_dir: bool, children: Vec<Node>) -> Node {
    let mut node = Node::new(name.to_string(), ScanPath::empty(), is_dir);
    node.size = size;
    node.children = children;
    node
}

fn exported(root: &Node) -> String {
    String::from_utf8(Scanner::new().export_csv(root)).unwrap()
}

#[test]
fn test_csv_export() {
    let dir = tempdir().unwrap();
    let scanner = Scanner::new();
    let result = scanner
        .scan(&scan_path(dir.path()), &walk(dir.path()))
        .unwrap();

    let output_path = dir.path().join("export.csv");
    let mut file = tempfile::Builder::new()
        .prefix("export")
        .suffix(".csv")
        .rand_bytes(0)
        .tempfile_in(dir.path())
        .unwrap();
    let export_result = file.write_all(&scanner.export_csv(&result));
    assert!(export_result.is_ok());
    assert!(output_path.exists());
    let mut written = String::new();
    file.reopen().unwrap().read_to_string(&mut written).unwrap();
    assert_eq!(written, exported(&result));
}

#[test]
fn a_document_has_titles_and_a_record_for_each_node() {
    let root = node(
        "root",
        30,
        true,
        vec![
            node("sub", 20, true, vec![node("deep.txt", 20, false, vec![])]),
            node("top.txt", 10, false, vec![]),
        ],
    );
    let s = MAIN_SEPARATOR;
    assert_eq!(
        exported(&root),
        format!(
            "Path,Name,Type,Size (bytes)\n\
             root,root,Directory,30\n\
             root{s}sub,sub,Directory,20\n\
             root{s}sub{s}deep.txt,deep.txt,File,20\n\
             root{s}top.txt,top.txt,File,10\n"
        )
    );
}

#[test]
fn fields_are_quoted_where_they_have_to_be() {
    let root = node("a,\"b\"", 1, true, vec![]);
    assert_eq!(
        exported(&root),
        "Path,Name,Type,Size (bytes)\n\"a,\"\"b\"\"\",\"a,\"\"b\"\"\",Directory,1\n"
    );
    let root = node("two\nlines", 1, false, vec![]);
    assert_eq!(
        exported(&root),
        "Path,Name,Type,Size (bytes)\n\"two\nlines\",\"two\nlines\",File,1\n"
    );
    let root = node("back\rhere", 1, false, vec![]);
    assert_eq!(
        exported(&root),
        "Path,Name,Type,Size (bytes)\n\"back\rhere\",\"back\rhere\",File,1\n"
    );
    let root = node("blank name", 1, false, vec![]);
    assert_eq!(
        exported(&root),
        "Path,Name,Type,Size (bytes)\nblank name,blank name,File,1\n"
    );
    let root = node("", 0, false, vec![]);
    assert_eq!(exported(&root), "Path,Name,Type,Size (bytes)\n,,File,0\n");
}

#[test]
fn an_absolute_name_replaces_the_path_of_its_directory() {
    let name = format!("{MAIN_SEPARATOR}abs");
    let root = node("r", 0, true, vec![node(&name, 0, false, vec![])]);
    assert_eq!(
        exported(&root),
        format!(
            "Path,Name,Type,Size (bytes)\nr,r,Directory,0\n{},{name},File,0\n",
            Path::new("r").join(&name).display()
        )
    );
}

#[test]
fn the_root_is_listed_under_its_name() {
    let root = node("a:b", 1, true, vec![]);
    assert_eq!(
        exported(&root),
        "Path,Name,Type,Size (bytes)\na:b,a:b,Directory,1\n"
    );
}

#[test]
fn the_export_is_written_beside_what_was_scanned() {
    for scanned in ["a/b", "/a", "/", "..", ".", "a"] {
        assert_eq!(
            export_path(&scan_path(Path::new(scanned))),
            scan_path(&Path::new(scanned).with_file_name("ferris-scan-export.csv"))
        );
    }
}

#[test]
fn records_are_appended_below_a_path() {
    let mut out: Vec<u8> = b"x\n".to_vec();
    Scanner::new().write_node_csv(&mut out, &node("n", 7, false, vec![]), "p");
    assert_eq!(
        String::from_utf8(out).unwrap(),
        format!("x\np{MAIN_SEPARATOR}n,n,File,7\n")
    );
}

#[test]
fn the_fields_of_a_record() {
    let fields = node_fields(&node("n", u64::MAX, true, vec![]), "here");
    assert_eq!(
        fields,
        vec!["here", "n", "Directory", "18446744073709551615"]
    );
    assert_eq!(kind_label(true), "Directory");
    assert_eq!(kind_label(false), "File");
}
