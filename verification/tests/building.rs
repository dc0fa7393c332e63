//! Building the tree step by step.

use ferris_scan::tree::{add_file_to_tree, calculate_dir_sizes, ensure_dir_path, sort_tree};
use ferris_scan::{Node, PartKind, PartText, PathPart, ScanPath};

fn path(names: &[&str]) -> ScanPath {
    ScanPath {
        parts: names
            .iter()
            .map(|n| PathPart {
                kind: PartKind::Normal,
                text: PartText::Bytes(n.as_bytes().to_vec()),
            })
            .collect(),
    }
}

fn root() -> Node {
    Node::new("r".to_string(), path(&["r"]), true)
}

fn listed(node: &Node) -> Vec<(String, u64, bool)> {
    let mut list = vec![(node.name.clone(), node.size, node.is_dir)];
    for child in &node.children {
        list.extend(listed(child));
    }
    list
}

#[test]
fn a_directory_placed_twice_stands_once() {
    let mut once = root();
    ensure_dir_path(&mut once, &path(&["a", "b"]));
    let mut twice = once.clone();
    ensure_dir_path(&mut twice, &path(&["a", "b"]));
    assert_eq!(listed(&once), listed(&twice));
    assert_eq!(once.children[0].children[0].path, path(&["r", "a", "b"]));
}

#[test]
fn a_file_in_two_steps() {
    let mut steps = root();
    add_file_to_tree(&mut steps, &path(&["a", "f"]), 3);
    add_file_to_tree(&mut steps, &path(&["a", "f"]), 4);
    let mut whole = root();
    add_file_to_tree(&mut whole, &path(&["a", "f"]), 7);
    assert_eq!(listed(&steps), listed(&whole));
}

#[test]
fn the_directory_first_or_not() {
    let mut first = root();
    ensure_dir_path(&mut first, &path(&["a", "b"]));
    add_file_to_tree(&mut first, &path(&["a", "b", "f"]), 3);
    let mut alone = root();
    add_file_to_tree(&mut alone, &path(&["a", "b", "f"]), 3);
    assert_eq!(listed(&first), listed(&alone));
}

#[test]
fn sizing_and_sorting_again_change_nothing() {
    let mut tree = root();
    add_file_to_tree(&mut tree, &path(&["a", "small"]), 1);
    add_file_to_tree(&mut tree, &path(&["a", "large"]), 5);
    add_file_to_tree(&mut tree, &path(&["b"]), 10);
    assert_eq!(calculate_dir_sizes(&mut tree), 16);
    sort_tree(&mut tree);
    let before = listed(&tree);
    assert_eq!(before[1].0, "b");
    assert_eq!(calculate_dir_sizes(&mut tree), 16);
    sort_tree(&mut tree);
    assert_eq!(listed(&tree), before);
}
