//! Laws of the CSV export.

use vstd::prelude::*;

use crate::export::{
    all_plain, all_rows, csv_field, csv_fields, csv_record, csv_records, document, export_place,
    header, kind_text, lemma_one_record, lemma_records_concat, needs_quotes, path_joined, plain,
    plainly_joined, quotes_doubled, relative, row, rows, separator,
};
use crate::node::{node_at, on_tree, NodeView};
use crate::path::{beside, PartView};
use crate::text::decimal;

verus! {

/// How many nodes a tree has, the root among them.
pub open spec fn node_count(node: NodeView) -> nat
    decreases node,
{
    1 + node_counts(node.children)
}

/// How many nodes all of `kids` have together.
pub open spec fn node_counts(kids: Seq<NodeView>) -> nat
    decreases kids,
{
    if kids.len() == 0 {
        0
    } else {
        node_counts(kids.drop_last()) + node_count(kids.last())
    }
}

/// An export has one record for each node of the tree.
pub proof fn law_export_has_a_record_for_each_node(node: NodeView, parent_path: Seq<char>)
    ensures
        rows(node, parent_path).len() == node_count(node),
    decreases node,
{
    lemma_record_counts(node.children, path_joined(parent_path, node.name));
}

proof fn lemma_record_counts(kids: Seq<NodeView>, parent_path: Seq<char>)
    ensures
        all_rows(kids, parent_path).len() == node_counts(kids),
    decreases kids,
{
    if kids.len() > 0 {
        lemma_record_counts(kids.drop_last(), parent_path);
        law_export_has_a_record_for_each_node(kids.last(), parent_path);
    }
}

/// The path under which an export lists the node at the end of `trail`.
pub open spec fn listed_at(node: NodeView, parent_path: Seq<char>, trail: Seq<int>) -> Seq<char>
    decreases trail.len(),
{
    let here = path_joined(parent_path, node.name);
    if trail.len() == 0 {
        here
    } else {
        listed_at(node.children[trail[0]], here, trail.skip(1))
    }
}

proof fn lemma_kid_listed(kids: Seq<NodeView>, i: int, parent_path: Seq<char>, fields: Seq<
    Seq<char>,
>)
    requires
        0 <= i < kids.len(),
        rows(kids[i], parent_path).contains(fields),
    ensures
        all_rows(kids, parent_path).contains(fields),
    decreases kids.len(),
{
    let front = all_rows(kids.drop_last(), parent_path);
    let back = rows(kids.last(), parent_path);
    if i == kids.len() - 1 {
        let k = choose|k: int| 0 <= k < back.len() && back[k] == fields;
        assert((front + back)[front.len() + k] == fields);
    } else {
        lemma_kid_listed(kids.drop_last(), i, parent_path, fields);
        let k = choose|k: int| 0 <= k < front.len() && front[k] == fields;
        assert((front + back)[k] == fields);
    }
}

/// An export lists every node of the tree: its name, its kind and its size, and
/// the path of its directory joined with its name.
pub proof fn law_export_lists_every_node(node: NodeView, parent_path: Seq<char>, trail: Seq<int>)
    requires
        on_tree(node, trail),
    ensures
        rows(node, parent_path).contains(
            seq![
                listed_at(node, parent_path, trail),
                node_at(node, trail).name,
                kind_text(node_at(node, trail).is_dir),
                decimal(node_at(node, trail).size as nat),
            ],
        ),
    decreases trail.len(),
{
    let here = path_joined(parent_path, node.name);
    let fields = row(node_at(node, trail), listed_at(node, parent_path, trail));
    let first = seq![row(node, here)];
    if trail.len() == 0 {
        assert(rows(node, parent_path)[0] == fields);
    } else {
        let kid = node.children[trail[0]];
        law_export_lists_every_node(kid, here, trail.skip(1));
        lemma_kid_listed(node.children, trail[0], here, fields);
        let below = all_rows(node.children, here);
        let k = choose|k: int| 0 <= k < below.len() && below[k] == fields;
        assert(rows(node, parent_path)[k + 1] == fields);
    }
}

/// A record holds the path, the name, the kind and the size of a node, under
/// titles that say so.
pub proof fn law_record_shows_the_node(node: NodeView, path: Seq<char>)
    ensures
        header().len() == 4,
        header()[0] == "Path"@,
        header()[1] == "Name"@,
        header()[2] == "Type"@,
        header()[3] == "Size (bytes)"@,
        row(node, path).len() == 4,
        row(node, path)[0] == path,
        row(node, path)[1] == node.name,
        node.is_dir ==> row(node, path)[2] == "Directory"@,
        !node.is_dir ==> row(node, path)[2] == "File"@,
        row(node, path)[3] == decimal(node.size as nat),
        kind_text(true) == "Directory"@,
        kind_text(false) == "File"@,
{
}

proof fn lemma_records_of_kid(kids: Seq<NodeView>, parent_path: Seq<char>, i: int)
    requires
        0 <= i < kids.len(),
    ensures
        0 <= node_counts(kids.take(i)) <= node_counts(kids.take(i + 1)) <= all_rows(
            kids,
            parent_path,
        ).len(),
        all_rows(kids, parent_path).subrange(
            node_counts(kids.take(i)) as int,
            node_counts(kids.take(i + 1)) as int,
        ) == rows(kids[i], parent_path),
    decreases kids.len(),
{
    let front = kids.drop_last();
    let all = all_rows(kids, parent_path);
    let below = all_rows(front, parent_path);
    let (a, b) = (node_counts(kids.take(i)) as int, node_counts(kids.take(i + 1)) as int);
    lemma_record_counts(kids, parent_path);
    lemma_record_counts(front, parent_path);
    law_export_has_a_record_for_each_node(kids.last(), parent_path);
    if i == kids.len() - 1 {
        assert(kids.take(i) =~= front);
        assert(kids.take(i + 1) =~= kids);
        assert(all.subrange(a, b) =~= rows(kids[i], parent_path));
    } else {
        assert(front.take(i) =~= kids.take(i));
        assert(front.take(i + 1) =~= kids.take(i + 1));
        lemma_records_of_kid(front, parent_path, i);
        assert(all.subrange(a, b) =~= below.subrange(a, b));
    }
}

/// The first record of a node is its own; behind it stand the records of its
/// children, one after the other in their order.
pub proof fn law_records_follow_the_tree(node: NodeView, parent_path: Seq<char>, i: int)
    ensures
        ({
            let all = rows(node, parent_path);
            let here = path_joined(parent_path, node.name);
            let kids = node.children;
            &&& all.len() == node_count(node)
            &&& all[0] == row(node, here)
            &&& 0 <= i < kids.len() ==> {
                let start = 1 + node_counts(kids.take(i));
                let end = 1 + node_counts(kids.take(i + 1));
                &&& start <= end <= all.len()
                &&& all.subrange(start as int, end as int) == rows(kids[i], here)
            }
        }),
{
    let all = rows(node, parent_path);
    let here = path_joined(parent_path, node.name);
    let kids = node.children;
    law_export_has_a_record_for_each_node(node, parent_path);
    lemma_record_counts(kids, here);
    if 0 <= i < kids.len() {
        lemma_records_of_kid(kids, here, i);
        let start = node_counts(kids.take(i)) as int;
        let end = node_counts(kids.take(i + 1)) as int;
        assert(all.subrange(1 + start, 1 + end) =~= all_rows(kids, here).subrange(start, end));
    }
}

/// A field without commas, quotes and line ends is written as it is; another one
/// between quotes, with two quotes for each one in it.
pub proof fn law_fields_are_quoted_where_needed(field: Seq<u8>, byte: u8, k: int)
    ensures
        0 <= k < field.len() && (field[k] == ',' as u8 || field[k] == '"' as u8 || field[k]
            == '\r' as u8 || field[k] == '\n' as u8) ==> csv_field(field) == seq!['"' as u8]
            + quotes_doubled(field) + seq!['"' as u8],
        (forall|i: int|
            0 <= i < field.len() ==> #[trigger] field[i] != ',' as u8 && field[i] != '"' as u8
                && field[i] != '\r' as u8 && field[i] != '\n' as u8) ==> csv_field(field) == field,
        quotes_doubled(Seq::empty()).len() == 0,
        byte == '"' as u8 ==> quotes_doubled(field.push(byte)) == quotes_doubled(field) + seq![
            '"' as u8,
            '"' as u8,
        ],
        byte != '"' as u8 ==> quotes_doubled(field.push(byte)) == quotes_doubled(field).push(byte),
{
    assert(field.push(byte).drop_last() =~= field);
    if 0 <= k < field.len() && (field[k] == 44 || field[k] == 34 || field[k] == 13 || field[k]
        == 10) {
        assert(needs_quotes(field));
    }
}

/// The fields of a record stand one behind the other with commas between them,
/// and a line feed ends it. Records stand one behind the other.
pub proof fn law_fields_and_records_follow_one_another(
    fields: Seq<Seq<char>>,
    field: Seq<char>,
    records: Seq<Seq<Seq<char>>>,
)
    ensures
        csv_fields(seq![field]) == csv_field(vstd::utf8::encode_utf8(field)),
        fields.len() > 0 ==> csv_fields(fields.push(field)) == csv_fields(fields) + seq![',' as u8]
            + csv_field(vstd::utf8::encode_utf8(field)),
        csv_record(fields) == csv_fields(fields) + seq!['\n' as u8],
        csv_records(Seq::empty()).len() == 0,
        csv_records(records.push(fields)) == csv_records(records) + csv_record(fields),
{
    assert(fields.push(field).drop_last() =~= fields);
    assert(records.push(fields).drop_last() =~= records);
    assert(csv_fields(fields).push(10) =~= csv_fields(fields) + seq![10u8]);
}

/// Names without the marks of paths are ordinary; a path that holds no colon and
/// neither begins nor ends with a mark can be gone on with.
pub proof fn law_ordinary_names_hold_no_marks(node: NodeView, name: Seq<char>, path: Seq<char>)
    ensures
        plain(name) <==> name.len() > 0 && forall|i: int|
            0 <= i < name.len() ==> #[trigger] name[i] != '/' && name[i] != '\\' && name[i] != ':',
        relative(path) <==> {
            &&& path.len() > 0
            &&& path[0] != '/'
            &&& path[0] != '\\'
            &&& path.last() != '/'
            &&& path.last() != '\\'
            &&& forall|i: int| 0 <= i < path.len() ==> #[trigger] path[i] != ':'
        },
        all_plain(node) <==> plain(node.name) && forall|i: int|
            0 <= i < node.children.len() ==> all_plain(#[trigger] node.children[i]),
        plainly_joined(Seq::empty(), name) == name,
        path.len() > 0 ==> plainly_joined(path, name) == path + seq![separator()] + name,
{
    if path.len() > 0 {
        assert(path[path.len() - 1] == path.last());
    }
}

/// An export is written beside what was scanned, under its own name.
pub proof fn law_export_stands_beside_the_scan(scan_path: Seq<PartView>)
    ensures
        export_place(scan_path) == beside(scan_path, "ferris-scan-export.csv"@),
{
}

/// A document is the column titles followed by the records of the tree.
pub proof fn law_document_starts_with_the_titles(root: NodeView)
    ensures
        document(root) == csv_record(header()) + csv_records(rows(root, ""@)),
{
    lemma_one_record(header());
    lemma_records_concat(seq![header()], rows(root, ""@));
}

} // verus!
