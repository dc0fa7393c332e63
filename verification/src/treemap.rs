//! The whole-number part of drawing a treemap: totals, cells and colors.

use vstd::prelude::*;

use crate::node::{views, Node, NodeView};

verus! {

/// The sizes of `kids` added up.
pub open spec fn sum_of_sizes(kids: Seq<NodeView>) -> nat
    decreases kids.len(),
{
    if kids.len() == 0 {
        0
    } else {
        sum_of_sizes(kids.drop_last()) + kids.last().size as nat
    }
}

proof fn lemma_sum_grows(kids: Seq<NodeView>, n: int)
    requires
        0 <= n <= kids.len(),
    ensures
        sum_of_sizes(kids.take(n)) <= sum_of_sizes(kids),
    decreases kids.len(),
{
    if n < kids.len() {
        assert(kids.drop_last().take(n) =~= kids.take(n));
        lemma_sum_grows(kids.drop_last(), n);
    } else {
        assert(kids.take(n) =~= kids);
    }
}

/// The sizes of `children` added up, if that fits in a `u64`.
pub fn total_size(children: &Vec<Node>) -> (r: Option<u64>)
    ensures
        match r {
            Some(total) => total == sum_of_sizes(views(children@)),
            None => sum_of_sizes(views(children@)) > u64::MAX,
        },
{
    let ghost kids = views(children@);
    let mut total: u64 = 0;
    let mut i: usize = 0;
    assert(kids.take(0) =~= Seq::<NodeView>::empty());
    while i < children.len()
        invariant
            i <= children@.len(),
            kids == views(children@),
            total == sum_of_sizes(kids.take(i as int)),
        decreases children@.len() - i,
    {
        proof {
            assert(kids.take(i + 1).drop_last() =~= kids.take(i as int));
            assert(kids.take(i + 1).last() == children@[i as int]@);
            lemma_sum_grows(kids, i + 1);
        }
        match total.checked_add(children[i].size) {
            Some(sum) => {
                total = sum;
            },
            None => {
                return None;
            },
        }
        i = i + 1;
    }
    assert(kids.take(i as int) =~= kids);
    Some(total)
}

/// A rectangle of character cells.
#[derive(Debug, Clone, Copy, PartialEq, Eq, Structural)]
pub struct Tile {
    pub x: u16,
    pub y: u16,
    pub width: u16,
    pub height: u16,
}

/// The smaller of two numbers.
pub open spec fn at_most(a: int, b: int) -> int {
    if a < b {
        a
    } else {
        b
    }
}

/// The cells of `area` from the column `left` to the column `right` and from
/// the row `top` to the row `bottom`, counted from the corner of `area`; `None`
/// where there is no cell.
pub open spec fn tile_of(area: Tile, left: u16, top: u16, right: u16, bottom: u16) -> Option<
    Tile,
> {
    let x0 = area.x + left;
    let y0 = area.y + top;
    let x1 = at_most(area.x + right, area.x + area.width);
    let y1 = at_most(area.y + bottom, area.y + area.height);
    if x0 < x1 && y0 < y1 {
        Some(
            Tile {
                x: x0 as u16,
                y: y0 as u16,
                width: (x1 - x0) as u16,
                height: (y1 - y0) as u16,
            },
        )
    } else {
        None
    }
}

/// Whether the corners of a tile, and those of its area, lie on the screen.
pub open spec fn on_screen(area: Tile, left: u16, top: u16, right: u16, bottom: u16) -> bool {
    &&& area.x + left <= u16::MAX
    &&& area.x + right <= u16::MAX
    &&& area.x + area.width <= u16::MAX
    &&& area.y + top <= u16::MAX
    &&& area.y + bottom <= u16::MAX
    &&& area.y + area.height <= u16::MAX
}

/// The cells of `area` between the given columns and rows.
pub fn tile(area: Tile, left: u16, top: u16, right: u16, bottom: u16) -> (r: Option<Tile>)
    requires
        on_screen(area, left, top, right, bottom),
    ensures
        r == tile_of(area, left, top, right, bottom),
{
    let x0: u16 = area.x + left;
    let y0: u16 = area.y + top;
    let mut x1: u16 = area.x + right;
    if x1 > area.x + area.width {
        x1 = area.x + area.width;
    }
    let mut y1: u16 = area.y + bottom;
    if y1 > area.y + area.height {
        y1 = area.y + area.height;
    }
    if x0 >= x1 || y0 >= y1 {
        return None;
    }
    Some(Tile { x: x0, y: y0, width: x1 - x0, height: y1 - y0 })
}

/// The color of the item `index` in a palette of `colors`.
pub open spec fn color_of(index: int, colors: int) -> int
    recommends
        colors > 0,
{
    index % colors
}

/// The color of the item `index` in a palette of `colors`.
pub fn palette_index(index: usize, colors: usize) -> (r: usize)
    requires
        colors > 0,
    ensures
        r == color_of(index as int, colors as int),
        r < colors,
{
    index % colors
}

} // verus!
