//! Exporting a scanned tree as CSV.

use vstd::prelude::*;
use vstd::utf8::encode_utf8;

use crate::node::{lemma_children_view, views, Node, NodeView};
use crate::path::{beside, PartView, ScanPath};
use crate::scan::Scanner;
use crate::text::{decimal, decimal_text};

verus! {

/// Whether a field has to be quoted: it holds a comma, a quote, a carriage
/// return or a line feed.
pub open spec fn needs_quotes(field: Seq<u8>) -> bool {
    exists|i: int|
        0 <= i < field.len() && (#[trigger] field[i] == 44 || field[i] == 34 || field[i] == 13
            || field[i] == 10)
}

/// `field` with every quote in it doubled.
pub open spec fn quotes_doubled(field: Seq<u8>) -> Seq<u8>
    decreases field.len(),
{
    if field.len() == 0 {
        field
    } else if field.last() == 34 {
        quotes_doubled(field.drop_last()) + seq![34u8, 34u8]
    } else {
        quotes_doubled(field.drop_last()).push(field.last())
    }
}

/// A field as it stands in a record.
pub open spec fn csv_field(field: Seq<u8>) -> Seq<u8> {
    if needs_quotes(field) {
        seq![34u8] + quotes_doubled(field) + seq![34u8]
    } else {
        field
    }
}

/// Fields with commas between them.
pub open spec fn csv_fields(fields: Seq<Seq<char>>) -> Seq<u8>
    decreases fields.len(),
{
    if fields.len() == 0 {
        Seq::empty()
    } else {
        let last = csv_field(encode_utf8(fields.last()));
        if fields.len() == 1 {
            last
        } else {
            csv_fields(fields.drop_last()) + seq![44u8] + last
        }
    }
}

/// A record of at least two fields, with the line feed that ends it.
pub open spec fn csv_record(fields: Seq<Seq<char>>) -> Seq<u8> {
    csv_fields(fields).push(10)
}

/// The records one behind the other.
pub open spec fn csv_records(rows: Seq<Seq<Seq<char>>>) -> Seq<u8>
    decreases rows.len(),
{
    if rows.len() == 0 {
        Seq::empty()
    } else {
        csv_records(rows.drop_last()) + csv_record(rows.last())
    }
}

/// The texts of a list of strings.
pub open spec fn texts(strings: Seq<String>) -> Seq<Seq<char>> {
    Seq::new(strings.len(), |i: int| strings[i]@)
}

/// Calls `csv::Writer::write_record`, on a writer with the default settings that
/// writes into memory, and takes the bytes out again. The fields stand in order
/// with commas between them and a line feed at the end; a field that holds a
/// comma, a quote, a carriage return or a line feed is put in quotes, with the
/// quotes in it doubled.
#[verifier::external_body]
fn csv_line(fields: &Vec<String>) -> (r: Vec<u8>)
    requires
        fields@.len() >= 2,
    ensures
        r@ == csv_record(texts(fields@)),
{
    let mut writer = csv::Writer::from_writer(Vec::new());
    writer.write_record(fields).unwrap();
    writer.into_inner().unwrap()
}

/// The path `name` joined onto the path `parent`, both as text, under the path
/// rules of the platform that the program is built for.
pub uninterp spec fn path_joined(parent: Seq<char>, name: Seq<char>) -> Seq<char>;

/// The character that the platform puts between two components of a path.
pub open spec fn separator() -> char {
    path_joined("a"@, "b"@)[1]
}

/// Whether a character has a meaning of its own in the paths of some platform.
pub open spec fn is_path_mark(c: char) -> bool {
    c == '/' || c == '\\' || c == ':'
}

/// Whether `name` is an ordinary file name on every platform.
pub open spec fn plain(name: Seq<char>) -> bool {
    &&& name.len() > 0
    &&& forall|i: int| 0 <= i < name.len() ==> !is_path_mark(#[trigger] name[i])
}

/// Whether `path` is relative on every platform and can go on behind a separator.
pub open spec fn relative(path: Seq<char>) -> bool {
    &&& path.len() > 0
    &&& !is_path_mark(path[0])
    &&& !is_path_mark(path.last())
    &&& forall|i: int| 0 <= i < path.len() ==> #[trigger] path[i] != ':'
}

/// Calls `std::path::Path::join`. A name joined onto nothing is that name, and an
/// ordinary name goes behind a relative path and a separator. What else the
/// platform makes of its two texts (a name that is itself absolute replaces the
/// path, for one) is named, not spelled out.
#[verifier::external_body]
fn join_text(parent: &str, name: &str) -> (r: String)
    ensures
        r@ == path_joined(parent@, name@),
        parent@.len() == 0 ==> r@ == name@,
        relative(parent@) && plain(name@) ==> r@ == parent@ + seq![separator()] + name@,
        relative(parent@) && plain(name@) ==> (r@[parent@.len() as int] == '/'
            || r@[parent@.len() as int] == '\\'),
{
    std::path::Path::new(parent).join(name).display().to_string()
}

/// What the export calls the kind of a node.
pub open spec fn kind_text(is_dir: bool) -> Seq<char> {
    if is_dir {
        "Directory"@
    } else {
        "File"@
    }
}

/// What the export calls the kind of a node.
pub fn kind_label(is_dir: bool) -> (r: &'static str)
    ensures
        r@ == kind_text(is_dir),
{
    if is_dir {
        "Directory"
    } else {
        "File"
    }
}

/// The titles of the columns.
pub open spec fn header() -> Seq<Seq<char>> {
    seq!["Path"@, "Name"@, "Type"@, "Size (bytes)"@]
}

/// The fields of the record of a node that is shown at `current_path`.
pub open spec fn row(node: NodeView, current_path: Seq<char>) -> Seq<Seq<char>> {
    seq![current_path, node.name, kind_text(node.is_dir), decimal(node.size as nat)]
}

/// The records of a node below `parent_path` and of everything below it: each
/// node before its children, and the children in order.
pub open spec fn rows(node: NodeView, parent_path: Seq<char>) -> Seq<Seq<Seq<char>>>
    decreases node,
{
    let here = path_joined(parent_path, node.name);
    seq![row(node, here)] + all_rows(node.children, here)
}

/// The records of all of `kids`.
pub open spec fn all_rows(kids: Seq<NodeView>, parent_path: Seq<char>) -> Seq<Seq<Seq<char>>>
    decreases kids,
{
    if kids.len() == 0 {
        Seq::empty()
    } else {
        all_rows(kids.drop_last(), parent_path) + rows(kids.last(), parent_path)
    }
}

/// Whether all names of a tree are ordinary file names.
pub open spec fn all_plain(node: NodeView) -> bool
    decreases node,
{
    &&& plain(node.name)
    &&& forall|i: int| 0 <= i < node.children.len() ==> all_plain(#[trigger] node.children[i])
}

/// An ordinary name behind the path of its directory.
pub open spec fn plainly_joined(parent: Seq<char>, name: Seq<char>) -> Seq<char> {
    if parent.len() == 0 {
        name
    } else {
        parent + seq![separator()] + name
    }
}

/// The records of a tree of ordinary names: the path of each node is the names
/// from the root down to it, with separators between them.
pub open spec fn plain_rows(node: NodeView, parent_path: Seq<char>) -> Seq<Seq<Seq<char>>>
    decreases node,
{
    let here = plainly_joined(parent_path, node.name);
    seq![row(node, here)] + all_plain_rows(node.children, here)
}

/// The records of all of `kids`, trees of ordinary names.
pub open spec fn all_plain_rows(kids: Seq<NodeView>, parent_path: Seq<char>) -> Seq<Seq<Seq<char>>>
    decreases kids,
{
    if kids.len() == 0 {
        Seq::empty()
    } else {
        all_plain_rows(kids.drop_last(), parent_path) + plain_rows(kids.last(), parent_path)
    }
}

/// The exported document: the column titles and the records of the tree.
pub open spec fn document(root: NodeView) -> Seq<u8> {
    csv_records(seq![header()] + rows(root, ""@))
}

/// Records that follow one another are written one behind the other.
pub proof fn lemma_records_concat(a: Seq<Seq<Seq<char>>>, b: Seq<Seq<Seq<char>>>)
    ensures
        csv_records(a + b) == csv_records(a) + csv_records(b),
    decreases b.len(),
{
    if b.len() == 0 {
        assert(a + b =~= a);
        assert(csv_records(a) + csv_records(b) =~= csv_records(a));
    } else {
        lemma_records_concat(a, b.drop_last());
        assert((a + b).drop_last() =~= a + b.drop_last());
        assert(csv_records(a + b) =~= csv_records(a) + csv_records(b));
    }
}

/// One record alone is written as it is.
pub proof fn lemma_one_record(fields: Seq<Seq<char>>)
    ensures
        csv_records(seq![fields]) == csv_record(fields),
{
    reveal_with_fuel(csv_records, 2);
    assert(seq![fields].drop_last() =~= Seq::<Seq<Seq<char>>>::empty());
    assert(csv_records(seq![fields]) =~= csv_record(fields));
}

/// The fields of the record of `node`, shown at `current_path`.
pub fn node_fields(node: &Node, current_path: &str) -> (r: Vec<String>)
    ensures
        texts(r@) == row(node@, current_path@),
{
    let mut fields: Vec<String> = Vec::new();
    fields.push(current_path.to_owned());
    fields.push(node.name.clone());
    fields.push(kind_label(node.is_dir).to_owned());
    fields.push(decimal_text(node.size));
    assert(texts(fields@) =~= row(node@, current_path@));
    fields
}

/// Where the export of a scan of `scan_path` is written: beside what was scanned.
pub open spec fn export_place(scan_path: Seq<PartView>) -> Seq<PartView> {
    beside(scan_path, "ferris-scan-export.csv"@)
}

/// The path of the file to which the export of a scan of `scan_path` is written.
pub fn export_path(scan_path: &ScanPath) -> (r: ScanPath)
    ensures
        r@ == export_place(scan_path@),
{
    scan_path.with_file_name(&"ferris-scan-export.csv".to_owned())
}

impl Scanner {
    /// The CSV document with one record for each node of the tree.
    pub fn export_csv(&self, root: &Node) -> (r: Vec<u8>)
        ensures
            r@ == document(root@),
            path_joined(""@, root@.name) == root@.name,
            all_plain(root@) ==> rows(root@, ""@) == plain_rows(root@, ""@),
    {
        proof {
            reveal_strlit("");
        }
        let mut titles: Vec<String> = Vec::new();
        titles.push("Path".to_owned());
        titles.push("Name".to_owned());
        titles.push("Type".to_owned());
        titles.push("Size (bytes)".to_owned());
        assert(texts(titles@) =~= header());
        let mut out = csv_line(&titles);
        self.write_node_csv(&mut out, root, "");
        proof {
            lemma_one_record(header());
            lemma_records_concat(seq![header()], rows(root@, ""@));
        }
        out
    }

    /// Appends the records of `node`, which stands below `parent_path`, and of
    /// everything below it.
    pub fn write_node_csv(&self, out: &mut Vec<u8>, node: &Node, parent_path: &str)
        ensures
            final(out)@ == old(out)@ + csv_records(rows(node@, parent_path@)),
            parent_path@.len() == 0 ==> path_joined(parent_path@, node@.name) == node@.name,
            all_plain(node@) && (parent_path@.len() == 0 || relative(parent_path@)) ==> rows(
                node@,
                parent_path@,
            ) == plain_rows(node@, parent_path@),
        decreases node,
    {
        broadcast use lemma_children_view;

        let ghost before = out@;
        let current_path = join_text(parent_path, node.name.as_str());
        let fields = node_fields(node, current_path.as_str());
        let mut line = csv_line(&fields);
        out.append(&mut line);
        let ghost first = seq![row(node@, current_path@)];
        let ghost is_plain = all_plain(node@) && (parent_path@.len() == 0 || relative(
            parent_path@,
        ));
        proof {
            if is_plain {
                assert(current_path@ == plainly_joined(parent_path@, node@.name));
                assert(relative(current_path@));
            }
            lemma_one_record(row(node@, current_path@));
            assert(node@.children.take(0) =~= Seq::<NodeView>::empty());
            assert(out@ =~= before + csv_records(first) + csv_records(
                all_rows(node@.children.take(0), current_path@),
            ));
        }
        let mut i: usize = 0;
        while i < node.children.len()
            invariant
                i <= node.children@.len(),
                node@.children == views(node.children@),
                out@ == before + csv_records(first) + csv_records(
                    all_rows(node@.children.take(i as int), current_path@),
                ),
                is_plain ==> relative(current_path@) && all_plain(node@),
                is_plain ==> all_rows(node@.children.take(i as int), current_path@)
                    == all_plain_rows(node@.children.take(i as int), current_path@),
            decreases node.children@.len() - i,
        {
            let ghost done = all_rows(node@.children.take(i as int), current_path@);
            assert(decreases_to!(node.children => node.children[i as int]));
            self.write_node_csv(out, &node.children[i], current_path.as_str());
            proof {
                let next = node@.children.take(i + 1);
                let kid = rows(node@.children[i as int], current_path@);
                assert(next.drop_last() =~= node@.children.take(i as int));
                assert(next.last() == node@.children[i as int]);
                lemma_records_concat(done, kid);
                assert(out@ =~= before + csv_records(first) + csv_records(
                    all_rows(next, current_path@),
                ));
            }
            i = i + 1;
        }
        proof {
            assert(node@.children.take(i as int) =~= node@.children);
            lemma_records_concat(first, all_rows(node@.children, current_path@));
            assert(out@ =~= before + csv_records(rows(node@, parent_path@)));
        }
    }
}

} // verus!
