//! Deleting nodes, and comparing them.

use std::cmp::Ordering;

use ferris_scan::{DeleteError, Node, PartKind, PartText, PathPart, ScanPath};

fn path(names: &[&str]) -> ScanPath {
    ScanPath {
        parts: names
            .iter()
            .map(|n| PathPart {
                kind: PartKind::Normal,
                text: PartText::Bytes(n.as_bytes().to_vec()),
            })
            .collect(),
    }
}

fn leaf(names: &[&str], size: u64) -> Node {
    let mut node = Node::new(names[names.len() - 1].to_string(), path(names), false);
    node.size = size;
    node
}

fn folder(names: &[&str], children: Vec<Node>) -> Node {
    let mut node = Node::new(names[names.len() - 1].to_string(), path(names), true);
    node.size = children.iter().map(|c| c.size).sum();
    node.children = children;
    node
}

fn sample() -> Node {
    folder(
        &["r"],
        vec![
            folder(
                &["r", "a"],
                vec![
                    folder(&["r", "a", "b"], vec![leaf(&["r", "a", "b", "deep"], 40)]),
                    leaf(&["r", "a", "f"], 20),
                ],
            ),
            leaf(&["r", "g"], 5),
        ],
    )
}

#[test]
fn a_new_node_is_empty() {
    let node = Node::new("n".to_string(), path(&["n"]), true);
    assert_eq!(node.name, "n");
    assert_eq!(node.size, 0);
    assert!(node.is_dir);
    assert!(node.children.is_empty());
}

#[test]
fn deleting_takes_the_size_off_every_directory_above_once() {
    let mut root = sample();
    assert_eq!(root.size, 65);
    let result = root.delete_node(&path(&["r", "a", "b", "deep"]), Ok(()));
    assert!(result.is_ok());
    assert_eq!(root.size, 25);
    assert_eq!(root.children[0].size, 20);
    assert_eq!(root.children[0].children[0].size, 0);
    assert!(root.children[0].children[0].children.is_empty());
    assert_eq!(root.children[1].size, 5);
}

#[test]
fn deleting_a_directory_takes_everything_below_it() {
    let mut root = sample();
    root.delete_node(&path(&["r", "a"]), Ok(())).unwrap();
    assert_eq!(root.size, 5);
    assert_eq!(root.children.len(), 1);
    assert_eq!(root.children[0].name, "g");
}

fn listed(node: &Node) -> Vec<(String, u64)> {
    let mut list = vec![(node.name.clone(), node.size)];
    for child in &node.children {
        list.extend(listed(child));
    }
    list
}

#[test]
fn deleting_leaves_everything_else() {
    let mut root = sample();
    root.delete_node(&path(&["r", "a", "b"]), Ok(())).unwrap();
    let expected: Vec<(String, u64)> = vec![
        ("r".to_string(), 25),
        ("a".to_string(), 20),
        ("f".to_string(), 20),
        ("g".to_string(), 5),
    ];
    assert_eq!(listed(&root), expected);
}

#[test]
fn a_file_with_children_can_break_the_sums() {
    let mut odd = leaf(&["r", "odd"], 1);
    odd.children.push(leaf(&["r", "odd", "big"], 10));
    let mut root = folder(&["r"], vec![odd, leaf(&["r", "rest"], 20)]);
    assert_eq!(root.size, 21);
    root.delete_node(&path(&["r", "odd", "big"]), Ok(()))
        .unwrap();
    assert_eq!(root.size, 11);
    assert_eq!(root.children[0].size, 0);
    assert_eq!(root.children[1].size, 20);
}

#[test]
fn deleting_what_is_not_there_fails() {
    let mut root = sample();
    match root.delete_node(&path(&["r", "zzz"]), Ok(())) {
        Err(DeleteError::NotFound(missing)) => assert_eq!(missing, path(&["r", "zzz"])),
        _ => panic!("the node does not exist"),
    }
    assert_eq!(root.size, 65);
    assert_eq!(root.children.len(), 2);
}

#[test]
fn the_root_itself_cannot_be_deleted() {
    let mut root = sample();
    assert!(root.delete_node(&path(&["r"]), Ok(())).is_err());
    assert_eq!(root.size, 65);
}

#[test]
fn a_failure_on_disk_leaves_the_tree_alone() {
    let mut root = sample();
    match root.delete_node(&path(&["r", "g"]), Err("busy".to_string())) {
        Err(DeleteError::Disk(message)) => assert_eq!(message, "busy"),
        _ => panic!("the entry is still on disk"),
    }
    assert_eq!(root.size, 65);
    assert_eq!(root.children.len(), 2);
}

#[test]
fn deleting_twice_is_deleting_once() {
    let mut root = sample();
    root.delete_node(&path(&["r", "g"]), Ok(())).unwrap();
    let once = root.clone();
    assert!(root.delete_node(&path(&["r", "g"]), Ok(())).is_err());
    assert_eq!(root.size, once.size);
    assert_eq!(root.children.len(), once.children.len());
}

#[test]
fn the_kind_of_what_is_to_be_deleted() {
    let root = sample();
    assert_eq!(root.deletion_kind(&path(&["r", "a", "b"])), Some(true));
    assert_eq!(root.deletion_kind(&path(&["r", "a", "f"])), Some(false));
    assert_eq!(root.deletion_kind(&path(&["r", "x"])), None);
}

#[test]
fn a_size_never_goes_below_zero() {
    let mut root = folder(&["r"], vec![leaf(&["r", "f"], 50)]);
    root.size = 10;
    root.delete_node(&path(&["r", "f"]), Ok(())).unwrap();
    assert_eq!(root.size, 0);
}

#[test]
fn nodes_are_ordered_by_size_and_equal_by_size_and_name() {
    let small = leaf(&["s"], 1);
    let large = leaf(&["l"], 2);
    assert_eq!(large.cmp(&small), Ordering::Less);
    assert_eq!(small.cmp(&large), Ordering::Greater);
    assert_eq!(small.cmp(&small), Ordering::Equal);
    assert!(large < small);
    assert_eq!(small.partial_cmp(&large), Some(Ordering::Greater));
    assert!(small == leaf(&["elsewhere", "s"], 1));
    assert!(small != leaf(&["s"], 2));
    assert!(small != leaf(&["t"], 1));
}
