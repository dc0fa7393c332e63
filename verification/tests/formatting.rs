//! Sizes, columns, clipped names and lines.

use ferris_scan::front::{edition_tag, stats, Edition};
use ferris_scan::rows::{
    caption, fit, icon, list_title, results_table, results_title, tile_label, tree_row, tree_rows,
};
use ferris_scan::text::{blank, byte_len, clip, decimal_text, format_size, pad_left, pad_right};
use ferris_scan::{Node, ScanPath, ScanReport, SkippedEntry};

/// Sizes by floating point, the way they are meant to look.
fn by_floats(bytes: u64) -> String {
    let units = ["B", "KB", "MB", "GB", "TB"];
    let mut size = bytes as f64;
    let mut unit: usize = 0;
    while size >= 1024.0 && unit < units.len() - 1 {
        size /= 1024.0;
        unit += 1;
    }
    if unit == 0 {
        format!("{} {}", bytes, units[unit])
    } else {
        format!("{:.2} {}", size, units[unit])
    }
}

fn entry(name: &str, size: u64, is_dir: bool) -> Node {
    let mut node = Node::new(name.to_string(), ScanPath::empty(), is_dir);
    node.size = size;
    node
}

#[test]
fn sizes_as_text() {
    assert_eq!(format_size(0), "0 B");
    assert_eq!(format_size(1023), "1023 B");
    assert_eq!(format_size(1024), "1.00 KB");
    assert_eq!(format_size(1536), "1.50 KB");
    assert_eq!(format_size(1048576), "1.00 MB");
    assert_eq!(format_size(1073741824), "1.00 GB");
    assert_eq!(format_size(1099511627776), "1.00 TB");
    assert_eq!(format_size(u64::MAX), "16777216.00 TB");
    assert_eq!(format_size(1048575), "1024.00 KB");
}

#[test]
fn sizes_are_rounded_to_the_even_hundredth() {
    assert_eq!(format_size(1152), "1.12 KB");
    assert_eq!(format_size(1408), "1.38 KB");
    assert_eq!(format_size(1152), by_floats(1152));
    assert_eq!(format_size(1408), by_floats(1408));
}

#[test]
fn sizes_agree_with_floating_point() {
    let mut bytes: u64 = 1;
    let mut i: u64 = 0;
    while i < 4000 {
        assert_eq!(format_size(bytes), by_floats(bytes));
        bytes = bytes
            .wrapping_mul(6364136223846793005)
            .wrapping_add(1442695040888963407);
        assert_eq!(
            format_size(bytes >> (i % 60)),
            by_floats(bytes >> (i % 60))
        );
        i += 1;
    }
    for shift in 0..64 {
        let power: u64 = 1 << shift;
        for near in [power - 1, power, power.wrapping_add(1), power | (power >> 1)] {
            assert_eq!(format_size(near), by_floats(near));
        }
    }
    for near in 0..2000u64 {
        assert_eq!(
            format_size(9007199254740992 + near),
            by_floats(9007199254740992 + near)
        );
        assert_eq!(format_size(u64::MAX - near), by_floats(u64::MAX - near));
    }
}

#[test]
fn numbers_in_decimal() {
    assert_eq!(decimal_text(0), "0");
    assert_eq!(decimal_text(10), "10");
    assert_eq!(decimal_text(9876543210), "9876543210");
    assert_eq!(decimal_text(u64::MAX), u64::MAX.to_string());
}

#[test]
fn columns_are_padded_by_characters() {
    assert_eq!(blank(3), "   ");
    assert_eq!(pad_right("é", 3), "é  ");
    assert_eq!(pad_left("é", 3), "  é");
    assert_eq!(pad_right("long", 2), "long");
    assert_eq!(pad_left("long", 2), "long");
    assert_eq!(pad_right("x", 5), format!("{:<5}", "x"));
    assert_eq!(pad_left("x", 5), format!("{:>5}", "x"));
}

#[test]
fn names_are_clipped_by_characters() {
    assert_eq!(clip("abcdef", 6, 3, "..."), "abcdef");
    assert_eq!(clip("abcdefg", 6, 3, "..."), "abc...");
    assert_eq!(clip("äöüß", 3, 2, "…"), "äö…");
    assert_eq!(byte_len("äa"), 3);
}

#[test]
fn text_is_cut_at_a_character_boundary() {
    assert_eq!(fit("äöü", 6), "äöü");
    assert_eq!(fit("äöü", 5), "äö");
    assert_eq!(fit("äöü", 1), "");
    assert_eq!(fit("abc", 2), "ab");
}

#[test]
fn lines_of_the_list() {
    let row = tree_row(&entry("src", 2048, true), 30);
    assert_eq!(row.name, "📁 src               ");
    assert_eq!(row.size, "2.00 KB");
    assert_eq!(row.name.len() + row.size.len(), 30);

    let row = tree_row(&entry("a-rather-long-name.txt", 10, false), 20);
    assert_eq!(row.size, "10 B");
    assert_eq!(row.name, "📄 a-rathe... ");
    assert_eq!(row.name.len() + row.size.len(), 20);

    let row = tree_row(&entry("x", 10, false), 0);
    assert_eq!(row.name, "📄 ");
    assert_eq!(row.size, "10 B");
}

#[test]
fn one_line_for_each_child() {
    let mut root = entry("r", 0, true);
    assert!(tree_rows(&root, 30).is_empty());
    root.children.push(entry("a", 1, true));
    root.children.push(entry("b", 2, false));
    let rows = tree_rows(&root, 30);
    assert_eq!(rows.len(), 2);
    assert_eq!(rows[0].name, tree_row(&root.children[0], 30).name);
    assert_eq!(rows[1].size, "2 B");
}

#[test]
fn lines_fill_the_width() {
    for width in 9..60 {
        let row = tree_row(&entry("größere-dateien-übersicht", 10, false), width);
        assert_eq!(row.name.len() + row.size.len(), width);
    }
}

#[test]
fn captions_and_titles() {
    assert_eq!(caption(30), format!("{:<17} {:>12}", "Name", "Size"));
    assert_eq!(caption(5), format!("{:<10} {:>12}", "Name", "Size"));
    assert_eq!(list_title(3), "Tree View | 3 items");
    assert_eq!(icon(true), "📁");
    assert_eq!(icon(false), "📄");
    assert_eq!(edition_tag(Edition::Pro), "[PRO]");
    assert_eq!(edition_tag(Edition::Free), "[FREE]");
}

#[test]
fn labels_of_tiles() {
    assert_eq!(tile_label("abc", 10, "12.5"), "abc (12.5%)");
    assert_eq!(tile_label("abcdefghij", 10, "12.5"), "abcdefg… (12.5%)");
    assert_eq!(tile_label("abcdefgh", 10, "0.0"), "abcdefgh (0.0%)");
}

#[test]
fn the_table_of_results() {
    let mut root = entry("r", 4096, true);
    for i in 0..25u64 {
        root.children.push(entry(&format!("f{i}"), i, i == 0));
    }
    let rows = results_table(&root);
    assert_eq!(rows.len(), 21);
    assert_eq!(rows[0].name, format!("{:<50}", "Name"));
    assert_eq!(rows[0].size, format!("{:>15}", "Size"));
    assert_eq!(rows[1].name, format!("📁 {:<47}", "f0"));
    assert_eq!(rows[2].name, format!("📄 {:<47}", "f1"));
    assert_eq!(rows[20].size, format!("{:>15}", "19 B"));
    root.children.truncate(2);
    assert_eq!(results_table(&root).len(), 3);
    let report = ScanReport {
        skipped: vec![SkippedEntry {
            path: None,
            message: "m".to_string(),
        }],
    };
    assert_eq!(
        results_title(&root, &report),
        "Results | Total: 4.00 KB | Skipped: 1"
    );
}

#[test]
fn the_figures_of_a_scan() {
    let mut root = entry("r", 5000, true);
    root.children.push(entry("d", 1, true));
    let figures = stats(&root, &ScanReport::default(), &root.children[0]);
    assert_eq!(figures.total_size, "4.88 KB");
    assert_eq!(figures.skipped, "0 entries");
    assert_eq!(figures.name, "d");
    assert_eq!(figures.size, "1 B");
    assert_eq!(figures.items, "0");
}
