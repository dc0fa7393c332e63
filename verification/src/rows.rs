//! The lines of the lists and the labels of the tiles, fitted to their space.

use vstd::prelude::*;
use vstd::string::{StrSliceExecFns, StringExecFns};
use vstd::utf8::encode_utf8;

use crate::node::{lemma_children_view, views, Node, NodeView};
use crate::scan::{ScanReport, SkippedView};
use crate::text::{
    blank, byte_len, clip, clipped, decimal, decimal_text, format_size, pad_left, pad_right,
    padded_left, padded_right, size_text, spaces,
};

verus! {

/// How many bytes a text takes in UTF-8.
pub open spec fn bytes_of(text: Seq<char>) -> nat {
    encode_utf8(text).len()
}

/// `a - b`, or zero.
pub open spec fn less_by(a: nat, b: nat) -> nat {
    if a > b {
        (a - b) as nat
    } else {
        0
    }
}

/// The larger of two numbers.
pub open spec fn at_least(a: nat, b: nat) -> nat {
    if a < b {
        b
    } else {
        a
    }
}

/// The symbol of a directory or a file.
pub open spec fn icon_of(is_dir: bool) -> Seq<char> {
    if is_dir {
        "📁"@
    } else {
        "📄"@
    }
}

/// The longest start of `text` that takes at most `room` bytes.
pub open spec fn fitting(text: Seq<char>, room: nat) -> Seq<char>
    decreases text.len(),
{
    if text.len() == 0 || bytes_of(text) <= room {
        text
    } else {
        fitting(text.drop_last(), room)
    }
}

/// The symbol and the name of an entry. The name is clipped to the characters
/// that are left of `width` behind the symbol and a size of `size_len` characters.
pub open spec fn entry_text(node: NodeView, width: nat, size_len: nat) -> Seq<char> {
    let room = at_least(less_by(width, 3 + size_len), 1);
    icon_of(node.is_dir) + " "@ + clipped(node.name, room, less_by(room, 3), "..."@)
}

/// An entry in at most `room` bytes, as long as that is more than an ellipsis takes.
pub open spec fn squeezed(entry: Seq<char>, room: nat) -> Seq<char> {
    if bytes_of(entry) <= room {
        entry
    } else if room > 3 {
        fitting(entry, (room - 3) as nat) + "..."@
    } else {
        entry.take(1)
    }
}

/// The part of a line in front of the size: the entry and the spaces behind it.
pub open spec fn name_part(node: NodeView, width: nat) -> Seq<char> {
    let size = size_text(node.size as nat);
    let entry = squeezed(
        entry_text(node, width, size.len()),
        less_by(width, bytes_of(size) + 1),
    );
    entry + spaces(at_least(less_by(width, bytes_of(entry) + bytes_of(size)), 1))
}

/// The caption over a list that is `width` characters wide.
pub open spec fn caption_of(width: nat) -> Seq<char> {
    padded_right("Name"@, at_least(less_by(width, 13), 10)) + " "@ + padded_left("Size"@, 12)
}

/// The title of a list of `n` items.
pub open spec fn list_title_of(n: nat) -> Seq<char> {
    "Tree View | "@ + decimal(n) + " items"@
}

/// The label of a tile that is `width` characters wide.
pub open spec fn label_of(name: Seq<char>, width: nat, percent: Seq<char>) -> Seq<char> {
    let room = less_by(width, 2);
    clipped(name, room, less_by(room, 1), "…"@) + " ("@ + percent + "%)"@
}

/// A line of a list, in the two parts that are shown in different styles.
#[derive(Debug)]
pub struct Row {
    pub name: String,
    pub size: String,
}

/// The mathematical value of a `Row`.
#[verifier::ext_equal]
pub struct RowView {
    pub name: Seq<char>,
    pub size: Seq<char>,
}

impl View for Row {
    type V = RowView;

    open spec fn view(&self) -> RowView {
        RowView { name: self.name@, size: self.size@ }
    }
}

/// The values of rows.
pub open spec fn row_views(rows: Seq<Row>) -> Seq<RowView> {
    Seq::new(rows.len(), |i: int| rows[i]@)
}

/// The line for `node` in a list that is `width` characters wide.
pub open spec fn tree_row_of(node: NodeView, width: nat) -> RowView {
    RowView { name: name_part(node, width), size: size_text(node.size as nat) }
}

/// The line for `node` in a table with fixed columns.
pub open spec fn table_row_of(node: NodeView) -> RowView {
    RowView {
        name: icon_of(node.is_dir) + " "@ + padded_right(node.name, 47),
        size: padded_left(size_text(node.size as nat), 15),
    }
}

/// The caption of a table with fixed columns.
pub open spec fn table_caption_of() -> RowView {
    RowView { name: padded_right("Name"@, 50), size: padded_left("Size"@, 15) }
}

/// How many of `n` entries a table with fixed columns shows.
pub open spec fn shown_entries(n: nat) -> nat {
    if n > 20 {
        20
    } else {
        n
    }
}

/// The lines of the table of results: the caption and the first entries.
pub open spec fn table_of(root: NodeView) -> Seq<RowView> {
    seq![table_caption_of()] + Seq::new(
        shown_entries(root.children.len()),
        |i: int| table_row_of(root.children[i]),
    )
}

/// The title of the table of results.
pub open spec fn table_title_of(root: NodeView, report: Seq<SkippedView>) -> Seq<char> {
    "Results | Total: "@ + size_text(root.size as nat) + " | Skipped: "@ + decimal(report.len())
}

/// The symbol of a directory or a file.
pub fn icon(is_dir: bool) -> (r: &'static str)
    ensures
        r@ == icon_of(is_dir),
{
    if is_dir {
        "📁"
    } else {
        "📄"
    }
}

/// The longest start of `text` that takes at most `room` bytes.
pub fn fit(text: &str, room: usize) -> (r: String)
    ensures
        r@ == fitting(text@, room as nat),
{
    let mut n = text.unicode_len();
    assert(text@.take(n as int) =~= text@);
    while n > 0
        invariant
            n <= text@.len(),
            fitting(text@, room as nat) == fitting(text@.take(n as int), room as nat),
        decreases n,
    {
        let head = text.substring_char(0, n);
        assert(head@ =~= text@.take(n as int));
        if byte_len(head) <= room {
            return head.to_owned();
        }
        assert(text@.take(n as int).drop_last() =~= text@.take(n - 1));
        n = n - 1;
    }
    assert(text@.take(0) =~= Seq::<char>::empty());
    String::new()
}

/// An entry in at most `room` bytes, as long as that is more than an ellipsis takes.
fn squeeze(entry: String, room: usize) -> (r: String)
    requires
        entry@.len() > 0,
    ensures
        r@ == squeezed(entry@, room as nat),
{
    if byte_len(entry.as_str()) <= room {
        entry
    } else if room > 3 {
        fit(entry.as_str(), room - 3).concat("...")
    } else {
        let first = entry.as_str().substring_char(0, 1);
        assert(first@ =~= entry@.take(1));
        first.to_owned()
    }
}

/// The line for `node` in a list that is `width` characters wide.
pub fn tree_row(node: &Node, width: usize) -> (r: Row)
    ensures
        r@ == tree_row_of(node@, width as nat),
{
    let size = format_size(node.size);
    let size_len = size.as_str().unicode_len();
    let size_bytes = byte_len(size.as_str());
    let mut room = width.saturating_sub(2).saturating_sub(1).saturating_sub(size_len);
    if room < 1 {
        room = 1;
    }
    let shown = clip(node.name.as_str(), room, room.saturating_sub(3), "...");
    let entry = icon(node.is_dir).to_owned().concat(" ").concat(shown.as_str());
    proof {
        reveal_strlit(" ");
    }
    assert(entry@ == entry_text(node@, width as nat, size_len as nat));
    let name = squeeze(entry, width.saturating_sub(size_bytes).saturating_sub(1));
    let mut gap = width.saturating_sub(byte_len(name.as_str())).saturating_sub(size_bytes);
    if gap < 1 {
        gap = 1;
    }
    Row { name: name.concat(blank(gap).as_str()), size }
}

/// The lines for the children of `node`, in a list that is `width` characters wide.
pub fn tree_rows(node: &Node, width: usize) -> (r: Vec<Row>)
    ensures
        row_views(r@) == Seq::new(
            node@.children.len(),
            |i: int| tree_row_of(node@.children[i], width as nat),
        ),
{
    broadcast use lemma_children_view;

    let mut rows: Vec<Row> = Vec::new();
    let mut i: usize = 0;
    while i < node.children.len()
        invariant
            i <= node.children@.len(),
            node@.children == views(node.children@),
            rows@.len() == i,
            forall|j: int|
                0 <= j < i ==> (#[trigger] rows@[j])@ == tree_row_of(
                    node@.children[j],
                    width as nat,
                ),
        decreases node.children@.len() - i,
    {
        rows.push(tree_row(&node.children[i], width));
        i = i + 1;
    }
    assert(row_views(rows@) =~= Seq::new(
        node@.children.len(),
        |i: int| tree_row_of(node@.children[i], width as nat),
    ));
    rows
}

/// The caption over a list that is `width` characters wide.
pub fn caption(width: usize) -> (r: String)
    ensures
        r@ == caption_of(width as nat),
{
    let mut name_width = width.saturating_sub(13);
    if name_width < 10 {
        name_width = 10;
    }
    pad_right("Name", name_width).concat(" ").concat(pad_left("Size", 12).as_str())
}

/// The title of a list of `n` items.
pub fn list_title(n: usize) -> (r: String)
    ensures
        r@ == list_title_of(n as nat),
{
    "Tree View | ".to_owned().concat(decimal_text(n as u64).as_str()).concat(" items")
}

/// The label of a tile that is `width` characters wide, for an entry that takes
/// the share `percent` of its directory.
pub fn tile_label(name: &str, width: usize, percent: &str) -> (r: String)
    ensures
        r@ == label_of(name@, width as nat, percent@),
{
    let room = width.saturating_sub(2);
    clip(name, room, room.saturating_sub(1), "…").concat(" (").concat(percent).concat("%)")
}

/// The lines of the table of results.
pub fn results_table(root: &Node) -> (r: Vec<Row>)
    ensures
        row_views(r@) == table_of(root@),
{
    broadcast use lemma_children_view;

    let mut rows: Vec<Row> = Vec::new();
    rows.push(Row { name: pad_right("Name", 50), size: pad_left("Size", 15) });
    let shown: usize = if root.children.len() > 20 {
        20
    } else {
        root.children.len()
    };
    let mut i: usize = 0;
    while i < shown
        invariant
            i <= shown <= root.children@.len(),
            shown == shown_entries(root@.children.len()),
            root@.children == views(root.children@),
            rows@.len() == i + 1,
            rows@[0]@ == table_caption_of(),
            forall|j: int|
                0 < j <= i ==> (#[trigger] rows@[j])@ == table_row_of(root@.children[j - 1]),
        decreases shown - i,
    {
        let child = &root.children[i];
        let name = icon(child.is_dir).to_owned().concat(" ").concat(
            pad_right(child.name.as_str(), 47).as_str(),
        );
        rows.push(Row { name, size: pad_left(format_size(child.size).as_str(), 15) });
        i = i + 1;
    }
    assert(row_views(rows@) =~= table_of(root@));
    rows
}

/// The title of the table of results.
pub fn results_title(root: &Node, report: &ScanReport) -> (r: String)
    ensures
        r@ == table_title_of(root@, report@),
{
    "Results | Total: ".to_owned().concat(format_size(root.size).as_str()).concat(
        " | Skipped: ",
    ).concat(decimal_text(report.skipped.len() as u64).as_str())
}

} // verus!
