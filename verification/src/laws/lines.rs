//! Laws of lines, columns and labels: what stands at which place.

use vstd::prelude::*;
use vstd::utf8::encode_scalar;

use crate::laws::drawing::lemma_bytes_of_sum;
use crate::laws::numbers::{is_digit, law_decimal_can_be_read_back, read_number};
use crate::node::NodeView;
use crate::rows::{
    at_least, bytes_of, caption_of, entry_text, fitting, icon_of, label_of, less_by, list_title_of,
    name_part, squeezed, table_of, table_title_of, tree_row_of,
};
use crate::scan::SkippedView;
use crate::text::{clipped, decimal, padded_left, padded_right, size_text, spaces};

verus! {

/// Whether `text` stands at the start of `line` and only spaces stand behind it,
/// up to `width` characters.
pub open spec fn flush_left(line: Seq<char>, text: Seq<char>, width: nat) -> bool {
    &&& line.len() == (if text.len() > width {
        text.len()
    } else {
        width
    })
    &&& forall|i: int| 0 <= i < text.len() ==> #[trigger] line[i] == text[i]
    &&& forall|i: int| text.len() <= i < line.len() ==> #[trigger] line[i] == ' '
}

/// Whether `text` stands at the end of `line` and only spaces stand before it, up
/// to `width` characters.
pub open spec fn flush_right(line: Seq<char>, text: Seq<char>, width: nat) -> bool {
    let gap = line.len() - text.len();
    &&& line.len() == (if text.len() > width {
        text.len()
    } else {
        width
    })
    &&& forall|i: int| 0 <= i < text.len() ==> #[trigger] line[gap + i] == text[i]
    &&& forall|i: int| 0 <= i < gap ==> #[trigger] line[i] == ' '
}

/// Columns are filled up with spaces: behind the text in one that is flush left,
/// before it in one that is flush right.
pub proof fn law_columns_are_filled_with_spaces(text: Seq<char>, width: nat)
    ensures
        flush_left(padded_right(text, width), text, width),
        flush_right(padded_left(text, width), text, width),
        spaces(width).len() == width,
        forall|i: int| 0 <= i < width ==> #[trigger] spaces(width)[i] == ' ',
{
}

/// A name that is too long is cut off at the given place and ends in the
/// ellipsis; any other stays as it is.
pub proof fn law_names_are_cut_where_asked(
    name: Seq<char>,
    max: nat,
    keep: nat,
    ellipsis: Seq<char>,
)
    requires
        keep <= max,
    ensures
        name.len() <= max ==> clipped(name, max, keep, ellipsis) == name,
        name.len() > max ==> {
            let r = clipped(name, max, keep, ellipsis);
            &&& r.len() == keep + ellipsis.len()
            &&& forall|i: int| 0 <= i < keep ==> #[trigger] r[i] == name[i]
            &&& forall|i: int| 0 <= i < ellipsis.len() ==> #[trigger] r[keep + i] == ellipsis[i]
        },
{
}

/// Directories and files have symbols of their own, of one character each.
pub proof fn law_symbols_tell_the_kind(is_dir: bool)
    ensures
        icon_of(is_dir) == seq![
            if is_dir {
                '📁'
            } else {
                '📄'
            },
        ],
{
    reveal_strlit("📁");
    reveal_strlit("📄");
    assert(icon_of(is_dir) =~= seq![
        if is_dir {
            '📁'
        } else {
            '📄'
        },
    ]);
}

/// How many bytes a character takes in UTF-8.
pub open spec fn width_of(c: char) -> nat {
    let code = c as int;
    if code < 0x80 {
        1
    } else if code < 0x800 {
        2
    } else if code < 0x10000 {
        3
    } else {
        4
    }
}

/// The bytes of a text are those of its characters together.
pub proof fn law_bytes_add_up(text: Seq<char>, c: char)
    ensures
        bytes_of(Seq::<char>::empty()) == 0,
        bytes_of(text.push(c)) == bytes_of(text) + width_of(c),
{
    assert(text.push(c) =~= text + seq![c]);
    lemma_bytes_of_sum(text, seq![c]);
    assert(seq![c].drop_first() =~= Seq::<char>::empty());
    reveal_with_fuel(vstd::utf8::encode_utf8, 2);
    assert(encode_scalar(c as u32).len() == width_of(c));
    assert(bytes_of(seq![c]) == width_of(c));
}

/// An entry is its symbol, a space and its name; a name with more characters than
/// are left of the width behind the symbol, the gaps and the size is shortened to
/// these, its end replaced by three dots.
pub proof fn law_entries_show_symbol_and_name(node: NodeView, width: nat, size_len: nat)
    ensures
        ({
            let e = entry_text(node, width, size_len);
            let room = if width >= 4 + size_len {
                width - 3 - size_len
            } else {
                1
            };
            let kept = if room >= 3 {
                room - 3
            } else {
                0
            };
            &&& e[0] == (if node.is_dir {
                '📁'
            } else {
                '📄'
            })
            &&& e[1] == ' '
            &&& node.name.len() <= room ==> e.skip(2) == node.name
            &&& node.name.len() > room ==> e.skip(2) == node.name.take(kept) + seq!['.', '.', '.']
        }),
{
    law_symbols_tell_the_kind(node.is_dir);
    reveal_strlit(" ");
    reveal_strlit("...");
    let e = entry_text(node, width, size_len);
    let room = at_least(less_by(width, 3 + size_len), 1);
    let shown = clipped(node.name, room, less_by(room, 3), "..."@);
    assert("..."@ =~= seq!['.', '.', '.']);
    assert(e =~= icon_of(node.is_dir) + " "@ + shown);
    assert(e.skip(2) =~= shown);
}

/// An entry that fits stays as it is; of another as much is kept as leaves room
/// for three dots, and where not even these fit, its symbol alone.
pub proof fn law_entries_are_squeezed(entry: Seq<char>, room: nat)
    requires
        entry.len() > 0,
    ensures
        bytes_of(entry) <= room ==> squeezed(entry, room) == entry,
        bytes_of(entry) > room && room <= 3 ==> squeezed(entry, room) == seq![entry[0]],
        bytes_of(entry) > room && room > 3 ==> squeezed(entry, room) == fitting(
            entry,
            (room - 3) as nat,
        ) + seq!['.', '.', '.'],
{
    reveal_strlit("...");
    assert("..."@ =~= seq!['.', '.', '.']);
    assert(entry.take(1) =~= seq![entry[0]]);
}

/// A line shows the entry, spaces, and the size of the node, for directories as
/// for files. The entry gets what the size and one space leave of the width, and
/// the spaces fill the line up, with one at least.
pub proof fn law_lines_show_entry_and_size(node: NodeView, width: nat)
    ensures
        ({
            let line = tree_row_of(node, width);
            let size = size_text(node.size as nat);
            let room = if width > bytes_of(size) {
                (width - bytes_of(size) - 1) as nat
            } else {
                0
            };
            let entry = squeezed(entry_text(node, width, size.len()), room);
            let used = bytes_of(entry) + bytes_of(size);
            &&& line.size == size
            &&& line.name.len() == entry.len() + (if width > used + 1 {
                width - used
            } else {
                1
            })
            &&& forall|i: int| 0 <= i < entry.len() ==> #[trigger] line.name[i] == entry[i]
            &&& forall|i: int|
                entry.len() <= i < line.name.len() ==> #[trigger] line.name[i] == ' '
        }),
{
    assert(tree_row_of(node, width).name == name_part(node, width));
}

/// A line with room for everything shows the symbol and the whole name.
pub proof fn law_short_names_are_shown_whole(node: NodeView, width: nat)
    requires
        node.name.len() + 3 + size_text(node.size as nat).len() <= width,
        bytes_of(node.name) + 6 + bytes_of(size_text(node.size as nat)) <= width,
    ensures
        ({
            let line = tree_row_of(node, width);
            &&& line.name.len() > node.name.len() + 2
            &&& line.name[0] == (if node.is_dir {
                '📁'
            } else {
                '📄'
            })
            &&& line.name[1] == ' '
            &&& forall|i: int| 0 <= i < node.name.len() ==> line.name[i + 2] == #[trigger] node.name[i]
            &&& forall|i: int|
                node.name.len() + 2 <= i < line.name.len() ==> #[trigger] line.name[i] == ' '
        }),
{
    let size = size_text(node.size as nat);
    let e = entry_text(node, width, size.len());
    law_entries_show_symbol_and_name(node, width, size.len());
    law_lines_show_entry_and_size(node, width);
    law_symbols_tell_the_kind(node.is_dir);
    reveal_strlit(" ");
    reveal_strlit("...");
    let c = e[0];
    if node.name.len() == 0 {
        assert(e =~= seq![c, ' '] + node.name);
    } else {
        assert(e =~= seq![c, ' '] + node.name) by {
            assert(e =~= seq![e[0], e[1]] + e.skip(2));
        }
    }
    lemma_bytes_of_sum(seq![c, ' '], node.name);
    law_bytes_add_up(seq![c], ' ');
    law_bytes_add_up(Seq::empty(), c);
    assert(Seq::empty().push(c) =~= seq![c]);
    assert(seq![c].push(' ') =~= seq![c, ' ']);
    assert(bytes_of(e) == bytes_of(node.name) + 5);
    let entry = squeezed(e, (width - bytes_of(size) - 1) as nat);
    assert(entry == e);
    let line = tree_row_of(node, width);
    assert(line.name[0] == entry[0]);
    assert(line.name[1] == entry[1]);
    assert forall|i: int| 0 <= i < node.name.len() implies line.name[i + 2]
        == #[trigger] node.name[i] by {
        assert(line.name[i + 2] == entry[i + 2]);
        assert(e[i + 2] == node.name[i]);
    }
}

/// The caption has its two titles at the outer ends of the line.
pub proof fn law_caption_spans_the_line(width: nat)
    ensures
        ({
            let c = caption_of(width);
            let left = if width >= 23 {
                width - 13
            } else {
                10
            };
            &&& c.len() == left + 13
            &&& c.take(4) == seq!['N', 'a', 'm', 'e']
            &&& c.skip(c.len() - 4) == seq!['S', 'i', 'z', 'e']
            &&& forall|i: int| 4 <= i < c.len() - 4 ==> #[trigger] c[i] == ' '
        }),
{
    reveal_strlit("Name");
    reveal_strlit("Size");
    reveal_strlit(" ");
    let c = caption_of(width);
    assert(c.take(4) =~= seq!['N', 'a', 'm', 'e']);
    assert(c.skip(c.len() - 4) =~= seq!['S', 'i', 'z', 'e']);
}

/// The title of a list ends in its number of items, which can be read back.
pub proof fn law_list_title_counts(n: nat)
    ensures
        ({
            let t = list_title_of(n);
            let digits = t.subrange(12, t.len() - 6);
            &&& t.len() > 18
            &&& t.take(12) == "Tree View | "@
            &&& t.skip(t.len() - 6) == " items"@
            &&& forall|i: int| 0 <= i < digits.len() ==> is_digit(#[trigger] digits[i])
            &&& read_number(digits) == n
        }),
{
    reveal_strlit("Tree View | ");
    reveal_strlit(" items");
    law_decimal_can_be_read_back(n);
    let t = list_title_of(n);
    assert(t.subrange(12, t.len() - 6) =~= decimal(n));
    assert(t.take(12) =~= "Tree View | "@);
    assert(t.skip(t.len() - 6) =~= " items"@);
}

/// A label is the name, with the share in percent behind it; a name that has more
/// characters than the tile is wide, less two, is cut one character before that
/// and ends in an ellipsis, of which one is shown however narrow the tile is.
pub proof fn law_label_shows_name_and_share(name: Seq<char>, width: nat, percent: Seq<char>)
    ensures
        ({
            let l = label_of(name, width, percent);
            let shown = if name.len() == 0 || name.len() <= width - 2 {
                name
            } else if width >= 3 {
                name.take(width - 3).push('…')
            } else {
                seq!['…']
            };
            l == shown + seq![' ', '('] + percent + seq!['%', ')']
        }),
{
    reveal_strlit("…");
    reveal_strlit(" (");
    reveal_strlit("%)");
    assert("…"@ =~= seq!['…']);
    assert(" ("@ =~= seq![' ', '(']);
    assert("%)"@ =~= seq!['%', ')']);
    if name.len() > width - 2 {
        if width >= 3 {
            assert(name.take(width - 3) + seq!['…'] =~= name.take(width - 3).push('…'));
        } else if name.len() > 0 {
            assert(name.take(0) + seq!['…'] =~= seq!['…']);
        }
    }
}

/// The table of results has a caption and one line for each of the first twenty
/// children: its symbol and its name to the left, and its size, be it a directory
/// or a file, to the right in a column of fifteen characters.
pub proof fn law_table_lists_the_first_children(root: NodeView, i: int)
    requires
        0 <= i < root.children.len(),
        i < 20,
    ensures
        table_of(root).len() == 1 + (if root.children.len() < 20 {
            root.children.len()
        } else {
            20
        }),
        flush_left(table_of(root)[0].name, seq!['N', 'a', 'm', 'e'], 50),
        flush_right(table_of(root)[0].size, seq!['S', 'i', 'z', 'e'], 15),
        ({
            let child = root.children[i];
            let line = table_of(root)[i + 1];
            &&& flush_right(line.size, size_text(child.size as nat), 15)
            &&& line.name[0] == (if child.is_dir {
                '📁'
            } else {
                '📄'
            })
            &&& line.name[1] == ' '
            &&& flush_left(line.name.skip(2), child.name, 47)
        }),
{
    reveal_strlit("Name");
    reveal_strlit("Size");
    reveal_strlit(" ");
    assert("Name"@ =~= seq!['N', 'a', 'm', 'e']);
    assert("Size"@ =~= seq!['S', 'i', 'z', 'e']);
    let child = root.children[i];
    let line = table_of(root)[i + 1];
    law_symbols_tell_the_kind(child.is_dir);
    assert(line.name.skip(2) =~= padded_right(child.name, 47));
}

/// A table without children has only its caption.
pub proof fn law_empty_table_has_a_caption(root: NodeView)
    requires
        root.children.len() == 0,
    ensures
        table_of(root).len() == 1,
        flush_left(table_of(root)[0].name, "Name"@, 50),
        flush_right(table_of(root)[0].size, "Size"@, 15),
{
}

/// The title of the table gives the total size and the number of entries that
/// were skipped.
pub proof fn law_table_title_sums_up(root: NodeView, report: Seq<SkippedView>)
    ensures
        table_title_of(root, report) == "Results | Total: "@ + size_text(root.size as nat)
            + " | Skipped: "@ + decimal(report.len()),
{
}

} // verus!
