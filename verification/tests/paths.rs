//! Paths by their components.

use ferris_scan::{PartKind, PartText, PathPart, ScanPath};

fn part(kind: PartKind, text: &[u8]) -> PathPart {
    PathPart {
        kind,
        text: PartText::Bytes(text.to_vec()),
    }
}

fn path(names: &[&str]) -> ScanPath {
    ScanPath {
        parts: names
            .iter()
            .map(|n| part(PartKind::Normal, n.as_bytes()))
            .collect(),
    }
}

#[test]
fn prefixes_go_by_whole_components() {
    assert!(path(&["a", "b"]).starts_with(&path(&["a"])));
    assert!(path(&["a", "b"]).starts_with(&path(&["a", "b"])));
    assert!(path(&["a", "b"]).starts_with(&ScanPath::empty()));
    assert!(!path(&["ab"]).starts_with(&path(&["a"])));
    assert!(!path(&["a"]).starts_with(&path(&["a", "b"])));
}

#[test]
fn stripping_a_prefix_leaves_the_rest() {
    assert_eq!(
        path(&["a", "b", "c"]).strip_prefix(&path(&["a"])),
        Some(path(&["b", "c"]))
    );
    assert_eq!(
        path(&["a"]).strip_prefix(&path(&["a"])),
        Some(ScanPath::empty())
    );
    assert_eq!(path(&["a"]).strip_prefix(&path(&["b"])), None);
}

#[test]
fn equality_goes_by_components() {
    assert!(path(&["a", "b"]).same(&path(&["a", "b"])));
    assert!(!path(&["a", "b"]).same(&path(&["a"])));
    assert!(!path(&["a"]).same(&path(&["a", "b"])));
    let dot = ScanPath {
        parts: vec![part(PartKind::CurDir, b".")],
    };
    assert!(!dot.same(&path(&["."])));
    assert_eq!(dot.clone(), dot);
}

#[test]
fn joining_a_component() {
    let base = path(&["a"]);
    assert_eq!(
        base.join(PartKind::Normal, &"b".to_string()),
        path(&["a", "b"])
    );
    assert_eq!(
        base.join(PartKind::RootDir, &"/".to_string()),
        ScanPath {
            parts: vec![part(PartKind::RootDir, b"/")]
        }
    );
    assert_eq!(base.join(PartKind::CurDir, &".".to_string()), base);
    assert_eq!(
        ScanPath::empty().join(PartKind::CurDir, &".".to_string()),
        ScanPath {
            parts: vec![part(PartKind::CurDir, b".")]
        }
    );
    assert_eq!(
        base.join(PartKind::ParentDir, &"..".to_string()).parts[1].kind,
        PartKind::ParentDir
    );
    let drive = ScanPath {
        parts: vec![part(PartKind::Prefix, b"C:")],
    };
    assert_eq!(
        drive.join(PartKind::RootDir, &"\\".to_string()).parts.len(),
        2
    );
    assert_eq!(base.join(PartKind::Prefix, &"C:".to_string()), drive);
}

#[test]
fn the_name_of_a_root() {
    assert_eq!(path(&["x", "home"]).root_name(), "home");
    assert_eq!(ScanPath::empty().root_name(), ".");
    let root = ScanPath {
        parts: vec![part(PartKind::RootDir, b"/")],
    };
    assert_eq!(root.root_name(), ".");
    assert_eq!(root.file_name(), None);
    let odd = ScanPath {
        parts: vec![part(PartKind::Normal, &[b'a', 0xff])],
    };
    assert_eq!(odd.root_name(), ".");
    assert_eq!(odd.file_name(), None);
    assert_eq!(path(&["é"]).file_name(), Some("é".to_string()));
}

#[test]
fn names_in_units() {
    let text = PathPart::from_units(PartKind::Normal, vec![0x61, 0xd83d, 0xde00]);
    assert_eq!(text, part(PartKind::Normal, "a😀".as_bytes()));
    let odd = PathPart::from_units(PartKind::Normal, vec![0x61, 0xd800, 0x62, 0xdc00]);
    assert_eq!(
        odd.text,
        PartText::Units(vec![0x61, 0xd800, 0x62, 0xdc00])
    );
    assert_eq!(odd.name(), "a\u{fffd}b\u{fffd}");
    assert_eq!(odd.text.strict(), None);
    assert!(odd.same(&odd.clone()));
    assert!(!odd.same(&text));
    let twice = PathPart::from_units(PartKind::Normal, vec![0xd800, 0xd83d, 0xde00]);
    assert_eq!(twice.name(), "\u{fffd}😀");
    let path = ScanPath { parts: vec![odd] };
    assert_eq!(path.file_name(), None);
    assert_eq!(path.root_name(), ".");
    let whole = PartText::Units(vec![0x62, 0xd83d, 0xde00]);
    assert_eq!(whole.strict(), Some("b😀".to_string()));
}

#[test]
fn the_text_of_a_component() {
    assert_eq!(part(PartKind::Normal, "grün".as_bytes()).name(), "grün");
    assert_eq!(
        part(PartKind::Normal, &[0xf0, 0x9f, b'x']).name(),
        "\u{fffd}x"
    );
    assert!(part(PartKind::Normal, b"a").same(&part(PartKind::Normal, b"a")));
    assert!(!part(PartKind::Normal, b"a").same(&part(PartKind::ParentDir, b"a")));
}
