//! Area accounting for the packer.
//!
//! Pairwise disjoint rectangles inside a canvas cover at most the canvas
//! area: each rectangle covers `width * height` unit cells, disjoint
//! rectangles cover disjoint cell sets, and every cell lies in the canvas
//! grid.  This bounds the fill rate at 100 percent.

use vstd::prelude::*;
use vstd::set_lib::{lemma_len_subset, lemma_set_disjoint_lens};
use crate::geom::{Rect, spec_intersects, rect_in_canvas};

verus! {

/// The set of unit cells covered by the rectangle `[x, x+w) x [y, y+h)`.
pub open spec fn cells(x: int, y: int, w: int, h: int) -> Set<(int, int)> {
    Set::new(|p: (int, int)| x <= p.0 < x + w && y <= p.1 < y + h)
}

/// The cells a `Rect` covers.
pub open spec fn rect_cells(r: Rect) -> Set<(int, int)> {
    cells(r.x as int, r.y as int, r.width as int, r.height as int)
}

proof fn lemma_col_card(x: int, y: int, h: int)
    requires
        h >= 0,
    ensures
        cells(x, y, 1, h).finite(),
        cells(x, y, 1, h).len() == h,
    decreases h,
{
    if h == 0 {
        assert(cells(x, y, 1, 0) =~= Set::<(int, int)>::empty());
    } else {
        lemma_col_card(x, y, h - 1);
        assert(cells(x, y, 1, h) =~= cells(x, y, 1, h - 1).insert((x, y + h - 1)));
        assert(!cells(x, y, 1, h - 1).contains((x, y + h - 1)));
    }
}

/// A `w` by `h` cell rectangle holds exactly `w * h` cells.
pub proof fn lemma_cells_card(x: int, y: int, w: int, h: int)
    requires
        w >= 0,
        h >= 0,
    ensures
        cells(x, y, w, h).finite(),
        cells(x, y, w, h).len() == w * h,
    decreases w,
{
    if w == 0 {
        assert(cells(x, y, 0, h) =~= Set::<(int, int)>::empty());
        assert(0 * h == 0) by (nonlinear_arith);
    } else {
        lemma_cells_card(x, y, w - 1, h);
        lemma_col_card(x + w - 1, y, h);
        let rest = cells(x, y, w - 1, h);
        let col = cells(x + w - 1, y, 1, h);
        assert(cells(x, y, w, h) =~= rest + col);
        assert(rest.disjoint(col));
        lemma_set_disjoint_lens(rest, col);
        assert((w - 1) * h + h == w * h) by (nonlinear_arith);
    }
}

/// Rectangles that do not intersect cover disjoint cell sets.
proof fn lemma_disjoint_rect_cells(a: Rect, b: Rect)
    requires
        !spec_intersects(a, b),
    ensures
        rect_cells(a).disjoint(rect_cells(b)),
{
    assert forall|p: (int, int)| rect_cells(a).contains(p)
        implies !rect_cells(b).contains(p) by {}
}

/// Total area of a list of rectangles.
pub open spec fn sum_areas(rects: Seq<Rect>) -> int
    decreases rects.len(),
{
    if rects.len() == 0 {
        0
    } else {
        sum_areas(rects.drop_last())
            + rects.last().width as int * rects.last().height as int
    }
}

spec fn union_cells(rects: Seq<Rect>) -> Set<(int, int)>
    decreases rects.len(),
{
    if rects.len() == 0 {
        Set::empty()
    } else {
        union_cells(rects.drop_last()) + rect_cells(rects.last())
    }
}

proof fn lemma_union_disjoint_single(rects: Seq<Rect>, r: Rect)
    requires
        forall|i: int| 0 <= i < rects.len() ==> !spec_intersects(#[trigger] rects[i], r),
    ensures
        union_cells(rects).disjoint(rect_cells(r)),
    decreases rects.len(),
{
    if rects.len() > 0 {
        lemma_union_disjoint_single(rects.drop_last(), r);
        lemma_disjoint_rect_cells(rects.last(), r);
    }
}

proof fn lemma_union_cells_props(rects: Seq<Rect>, w: int, h: int)
    requires
        forall|i: int| 0 <= i < rects.len() ==> rect_in_canvas(#[trigger] rects[i], w, h),
        forall|i: int, j: int| 0 <= i < j < rects.len()
            ==> !spec_intersects(rects[i], rects[j]),
    ensures
        union_cells(rects).finite(),
        union_cells(rects).len() == sum_areas(rects),
        union_cells(rects).subset_of(cells(0, 0, w, h)),
    decreases rects.len(),
{
    if rects.len() > 0 {
        let rest = rects.drop_last();
        let last = rects.last();
        lemma_union_cells_props(rest, w, h);
        lemma_union_disjoint_single(rest, last);
        lemma_cells_card(last.x as int, last.y as int, last.width as int, last.height as int);
        lemma_set_disjoint_lens(union_cells(rest), rect_cells(last));
        assert(rect_cells(last).subset_of(cells(0, 0, w, h)));
    }
}

/// Law: pairwise disjoint rectangles inside a `w` by `h` canvas cover at
/// most `w * h` cells, so their total area never exceeds the canvas area.
pub proof fn lemma_disjoint_rects_area_bound(rects: Seq<Rect>, w: int, h: int)
    requires
        w >= 0,
        h >= 0,
        forall|i: int| 0 <= i < rects.len() ==> rect_in_canvas(#[trigger] rects[i], w, h),
        forall|i: int, j: int| 0 <= i < j < rects.len()
            ==> !spec_intersects(rects[i], rects[j]),
    ensures
        0 <= sum_areas(rects) <= w * h,
{
    lemma_union_cells_props(rects, w, h);
    lemma_cells_card(0, 0, w, h);
    lemma_len_subset(union_cells(rects), cells(0, 0, w, h));
}

} // verus!
