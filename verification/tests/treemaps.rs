//! The whole-number part of treemaps.

use ferris_scan::treemap::{palette_index, tile, total_size, Tile};
use ferris_scan::{Node, ScanPath};

fn sized(size: u64) -> Node {
    let mut node = Node::new("n".to_string(), ScanPath::empty(), false);
    node.size = size;
    node
}

#[test]
fn totals() {
    assert_eq!(total_size(&vec![]), Some(0));
    assert_eq!(total_size(&vec![sized(3), sized(4)]), Some(7));
    assert_eq!(total_size(&vec![sized(u64::MAX), sized(0)]), Some(u64::MAX));
    assert_eq!(total_size(&vec![sized(u64::MAX), sized(1)]), None);
}

#[test]
fn neighbors_have_different_colors() {
    assert_eq!(palette_index(7, 5), 2);
    for i in 0..20 {
        assert_ne!(palette_index(i, 5), palette_index(i + 1, 5));
    }
}

#[test]
fn tiles_lie_side_by_side_inside_their_area() {
    let area = Tile {
        x: 10,
        y: 5,
        width: 20,
        height: 8,
    };
    let left = tile(area, 0, 0, 12, 8).unwrap();
    let right = tile(area, 12, 0, 25, 8).unwrap();
    assert_eq!(
        left,
        Tile {
            x: 10,
            y: 5,
            width: 12,
            height: 8
        }
    );
    assert_eq!(
        right,
        Tile {
            x: 22,
            y: 5,
            width: 8,
            height: 8
        }
    );
    assert_eq!(tile(area, 4, 0, 4, 8), None);
    assert_eq!(tile(area, 0, 8, 4, 8), None);
    assert_eq!(tile(area, 20, 0, 25, 8), None);
}
