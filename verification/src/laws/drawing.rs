//! Laws of what is drawn: colors, tiles, lines and clipped names.

use vstd::prelude::*;
use vstd::utf8::encode_scalar;

use crate::node::NodeView;
use crate::rows::{
    at_least, bytes_of, entry_text, fitting, less_by, name_part, squeezed, tree_row_of,
};
use crate::text::{clipped, size_text, spaces};
use crate::treemap::{color_of, on_screen, tile_of, Tile};

verus! {

/// Neighbors have different colors, as long as there is more than one.
pub proof fn law_neighbors_differ_in_color(index: int, colors: int)
    requires
        index >= 0,
        colors > 1,
    ensures
        color_of(index, colors) != color_of(index + 1, colors),
{
    let (q, r) = (index / colors, index % colors);
    let (q2, r2) = ((index + 1) / colors, (index + 1) % colors);
    assert(index == q * colors + r && index + 1 == q2 * colors + r2) by (nonlinear_arith)
        requires
            colors > 1,
            q == index / colors,
            r == index % colors,
            q2 == (index + 1) / colors,
            r2 == (index + 1) % colors,
    ;
    if r == r2 {
        assert((q2 - q) * colors == 1) by (nonlinear_arith)
            requires
                index == q * colors + r,
                index + 1 == q2 * colors + r2,
                r == r2,
        ;
        assert(false) by (nonlinear_arith)
            requires
                (q2 - q) * colors == 1,
                colors > 1,
        ;
    }
}

/// The items of a list take the colors in order, and begin again where the
/// palette ends.
pub proof fn law_colors_go_round(index: int, colors: int)
    requires
        index >= 0,
        colors > 0,
    ensures
        0 <= color_of(index, colors) < colors,
        index < colors ==> color_of(index, colors) == index,
        color_of(index + colors, colors) == color_of(index, colors),
{
    vstd::arithmetic::div_mod::lemma_mod_bound(index, colors);
    if index < colors {
        vstd::arithmetic::div_mod::lemma_small_mod(index as nat, colors as nat);
    }
    vstd::arithmetic::div_mod::lemma_mod_add_multiples_vanish(index, colors);
}

/// A tile covers exactly the cells that lie in its area, at or behind its left
/// and upper edge and before its right and lower edge; where there is no tile
/// there is no such cell.
pub proof fn law_tile_covers_its_cells(
    area: Tile,
    left: u16,
    top: u16,
    right: u16,
    bottom: u16,
    x: int,
    y: int,
)
    requires
        on_screen(area, left, top, right, bottom),
    ensures
        ({
            let wanted = {
                &&& area.x + left <= x < area.x + right
                &&& x < area.x + area.width
                &&& area.y + top <= y < area.y + bottom
                &&& y < area.y + area.height
            };
            match tile_of(area, left, top, right, bottom) {
                Some(t) => wanted <==> t.x <= x < t.x + t.width && t.y <= y < t.y + t.height,
                None => !wanted,
            }
        }),
{
}

/// A tile can be drawn wherever its corners and those of its area have
/// coordinates.
pub proof fn law_corners_need_coordinates(
    area: Tile,
    left: u16,
    top: u16,
    right: u16,
    bottom: u16,
)
    ensures
        on_screen(area, left, top, right, bottom) <==> {
            &&& area.x + left <= 65535
            &&& area.x + right <= 65535
            &&& area.x + area.width <= 65535
            &&& area.y + top <= 65535
            &&& area.y + bottom <= 65535
            &&& area.y + area.height <= 65535
        },
{
}

/// A tile lies inside its area.
pub proof fn law_tile_stays_inside(area: Tile, left: u16, top: u16, right: u16, bottom: u16)
    requires
        on_screen(area, left, top, right, bottom),
    ensures
        tile_of(area, left, top, right, bottom) matches Some(t) ==> {
            &&& area.x <= t.x
            &&& t.x + t.width <= area.x + area.width
            &&& area.y <= t.y
            &&& t.y + t.height <= area.y + area.height
            &&& t.width > 0
            &&& t.height > 0
        },
{
}

/// Tiles side by side do not overlap: one that starts at the column where
/// another ends starts behind its last cell. The same holds of rows.
pub proof fn law_tiles_do_not_overlap(
    area: Tile,
    left: u16,
    top: u16,
    edge: u16,
    right: u16,
    bottom: u16,
)
    requires
        on_screen(area, left, top, edge, bottom),
        on_screen(area, edge, top, right, bottom),
        on_screen(area, left, edge, right, bottom),
        on_screen(area, left, top, right, edge),
    ensures
        tile_of(area, left, top, edge, bottom) matches Some(a) ==> tile_of(
            area,
            edge,
            top,
            right,
            bottom,
        ) matches Some(b) ==> a.x + a.width <= b.x,
        tile_of(area, left, top, right, edge) matches Some(a) ==> tile_of(
            area,
            left,
            edge,
            right,
            bottom,
        ) matches Some(b) ==> a.y + a.height <= b.y,
{
}

/// A clipped name has at most the characters that were asked for, with its ellipsis.
pub proof fn law_clipped_name_fits(name: Seq<char>, max: nat, keep: nat, ellipsis: Seq<char>)
    requires
        keep <= max,
    ensures
        clipped(name, max, keep, ellipsis).len() <= max + ellipsis.len(),
        keep + ellipsis.len() <= max ==> clipped(name, max, keep, ellipsis).len() <= max,
        name.len() <= max ==> clipped(name, max, keep, ellipsis) == name,
{
}

pub(crate) proof fn lemma_bytes_of_sum(a: Seq<char>, b: Seq<char>)
    ensures
        bytes_of(a + b) == bytes_of(a) + bytes_of(b),
    decreases a.len(),
{
    if a.len() == 0 {
        assert(a + b =~= b);
    } else {
        lemma_bytes_of_sum(a.drop_first(), b);
        assert((a + b).drop_first() =~= a.drop_first() + b);
    }
}

proof fn lemma_bytes_of_ascii(a: Seq<char>)
    requires
        forall|i: int| 0 <= i < a.len() ==> (#[trigger] a[i]) as u32 <= 0x7f,
    ensures
        bytes_of(a) == a.len(),
    decreases a.len(),
{
    if a.len() > 0 {
        assert(encode_scalar(a[0] as u32).len() == 1);
        lemma_bytes_of_ascii(a.drop_first());
    }
}

proof fn lemma_fitting_fits(text: Seq<char>, room: nat)
    ensures
        bytes_of(fitting(text, room)) <= room,
    decreases text.len(),
{
    if text.len() > 0 && bytes_of(text) > room {
        lemma_fitting_fits(text.drop_last(), room);
    }
}

/// The start of a text that was cut to a number of bytes takes no more than
/// these, and is the whole text where that fits.
pub proof fn law_cut_text_fits(text: Seq<char>, room: nat)
    ensures
        bytes_of(fitting(text, room)) <= room,
        fitting(text, room).is_prefix_of(text),
        bytes_of(text) <= room ==> fitting(text, room) == text,
    decreases text.len(),
{
    lemma_fitting_fits(text, room);
    if text.len() > 0 && bytes_of(text) > room {
        let shorter = text.drop_last();
        law_cut_text_fits(shorter, room);
        let cut = fitting(shorter, room);
        assert(cut =~= text.subrange(0, cut.len() as int));
    }
}

/// Nothing longer than the start of a text that was cut to a number of bytes
/// would fit.
pub proof fn law_cut_text_is_longest(text: Seq<char>, room: nat, n: int)
    requires
        fitting(text, room).len() < n <= text.len(),
    ensures
        bytes_of(text.take(n)) > room,
    decreases text.len(),
{
    if n == text.len() {
        assert(text.take(n) =~= text);
    } else {
        assert(text.drop_last().take(n) =~= text.take(n));
        law_cut_text_is_longest(text.drop_last(), room, n);
    }
}

/// A line of the list fills the width of the list exactly, counted in bytes, as
/// long as that leaves at least four bytes and a space for the entry.
pub proof fn law_line_fills_the_width(node: NodeView, width: nat)
    requires
        width >= bytes_of(size_text(node.size as nat)) + 5,
    ensures
        bytes_of(tree_row_of(node, width).name + tree_row_of(node, width).size) == width,
{
    let size = size_text(node.size as nat);
    let text = entry_text(node, width, size.len());
    let room = less_by(width, bytes_of(size) + 1);
    let entry = squeezed(text, room);
    let gap = at_least(less_by(width, bytes_of(entry) + bytes_of(size)), 1);
    if bytes_of(text) > room {
        let cut = fitting(text, (room - 3) as nat);
        lemma_fitting_fits(text, (room - 3) as nat);
        lemma_bytes_of_sum(cut, "..."@);
        reveal_strlit("...");
        lemma_bytes_of_ascii("..."@);
    }
    assert(bytes_of(entry) <= room);
    lemma_bytes_of_ascii(spaces(gap));
    lemma_bytes_of_sum(entry, spaces(gap));
    lemma_bytes_of_sum(name_part(node, width), size);
}

} // verus!
