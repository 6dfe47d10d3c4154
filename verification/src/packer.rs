//! MaxRects bin packer with the Best-Short-Side-Fit heuristic.
//!
//! The packer keeps a list of maximal free rectangles.  Each sprite is
//! placed into the free rectangle minimizing the shorter leftover side
//! (ties broken by the longer side), optionally rotated 90 degrees.  A
//! committed placement splits every intersecting free rectangle into up
//! to four residual slabs, and free rectangles contained in another are
//! pruned.  Placed rectangles never overlap and stay inside the canvas.

use vstd::prelude::*;
use crate::geom::{Rect, spec_intersects, spec_contained_in, rect_in_canvas};
use crate::area::{sum_areas, lemma_disjoint_rects_area_bound};
use crate::types::PackedSprite;

verus! {

/// Input to the packer: one sprite with its trimmed and original sizes.
#[derive(Debug, Clone)]
pub struct SpriteInput {
    pub id: String,
    pub name: String,
    /// Dimensions handed to the packer (after trimming).
    pub width: u32,
    pub height: u32,
    /// Dimensions before trimming.
    pub original_width: u32,
    pub original_height: u32,
    /// Centering offset from the trim.
    pub offset_x: i32,
    pub offset_y: i32,
    pub trimmed: bool,
}

/// A candidate placement with its Best-Short-Side-Fit scores.
#[derive(Debug, Clone, Copy)]
struct Placement {
    rect: Rect,
    rotated: bool,
    /// Shorter leftover side; smaller is better.
    score1: u64,
    /// Longer leftover side; tie-break.
    score2: u64,
}

/// The atlas rectangle a packed sprite occupies.
pub open spec fn rect_of(ps: PackedSprite) -> Rect {
    Rect { x: ps.x, y: ps.y, width: ps.width, height: ps.height }
}

/// How a placed output relates to its input: identity fields carried
/// over, dimensions swapped exactly when rotated, and the placement
/// inside the canvas with its padding gutter.
pub open spec fn placed_matches(
    ps: PackedSprite,
    inp: SpriteInput,
    allow_rotation: bool,
    w: int,
    h: int,
    padding: int,
) -> bool {
    &&& ps.id == inp.id
    &&& ps.name == inp.name
    &&& ps.original_width == inp.original_width
    &&& ps.original_height == inp.original_height
    &&& ps.trimmed == inp.trimmed
    &&& ps.offset_x == inp.offset_x
    &&& ps.offset_y == inp.offset_y
    &&& if ps.rotated {
            ps.width == inp.height && ps.height == inp.width
        } else {
            ps.width == inp.width && ps.height == inp.height
        }
    &&& !allow_rotation ==> !ps.rotated
    &&& ps.x + ps.width + padding <= w
    &&& ps.y + ps.height + padding <= h
}

/// A candidate placement in the spec model of the BSSF search.
pub struct BssfCandidate {
    pub rect: Rect,
    pub rotated: bool,
    /// Shorter leftover side; smaller is better.
    pub score1: int,
    /// Longer leftover side; tie-break.
    pub score2: int,
}

/// One step of the BSSF fold: tries the `width` by `height` footprint at
/// `free_rect`'s origin in the given orientation and keeps the better of
/// it and `best`: the strictly shorter short side wins, then the
/// strictly shorter long side; otherwise the earlier candidate stays.
pub open spec fn bssf_consider(
    best: Option<BssfCandidate>,
    free_rect: Rect,
    width: int,
    height: int,
    rotated: bool,
) -> Option<BssfCandidate> {
    let pw = if rotated { height } else { width };
    let ph = if rotated { width } else { height };
    if pw <= free_rect.width && ph <= free_rect.height {
        let lh = free_rect.width - pw;
        let lv = free_rect.height - ph;
        let s1 = if lh < lv { lh } else { lv };
        let s2 = if lh > lv { lh } else { lv };
        let cand = BssfCandidate {
            rect: Rect { x: free_rect.x, y: free_rect.y, width: pw as u32, height: ph as u32 },
            rotated,
            score1: s1,
            score2: s2,
        };
        match best {
            None => Some(cand),
            Some(b) => if s1 < b.score1 || (s1 == b.score1 && s2 < b.score2) {
                Some(cand)
            } else {
                Some(b)
            },
        }
    } else {
        best
    }
}

/// The BSSF fold over the free rectangles from index `i` on: each free
/// rectangle is tried unrotated and, when rotation is allowed, rotated.
pub open spec fn bssf_from(
    free: Seq<Rect>,
    i: int,
    width: int,
    height: int,
    allow_rotation: bool,
    best: Option<BssfCandidate>,
) -> Option<BssfCandidate>
    decreases free.len() - i,
{
    if i < 0 || i >= free.len() {
        best
    } else {
        let b1 = bssf_consider(best, free[i], width, height, false);
        let b2 = if allow_rotation {
            bssf_consider(b1, free[i], width, height, true)
        } else {
            b1
        };
        bssf_from(free, i + 1, width, height, allow_rotation, b2)
    }
}

/// The Best-Short-Side-Fit choice over the whole free list.
pub open spec fn spec_find_best(free: Seq<Rect>, width: int, height: int, allow_rotation: bool)
    -> Option<BssfCandidate> {
    bssf_from(free, 0, width, height, allow_rotation, None)
}

/// The outputs present in a per-input slot sequence, in input order.
pub open spec fn compress<T>(opts: Seq<Option<T>>) -> Seq<T>
    decreases opts.len(),
{
    if opts.len() == 0 {
        Seq::empty()
    } else {
        compress(opts.drop_last()) + match opts.last() {
            Some(t) => seq![t],
            None => Seq::empty(),
        }
    }
}

/// Every element of the compressed sequence is a value of some slot.
pub proof fn lemma_compress_elems<T>(opts: Seq<Option<T>>)
    ensures
        compress(opts).len() <= opts.len(),
        forall|i: int| 0 <= i < compress(opts).len()
            ==> exists|k: int| 0 <= k < opts.len()
                && opts[k] == Some(#[trigger] compress(opts)[i]),
    decreases opts.len(),
{
    if opts.len() > 0 {
        let dl = opts.drop_last();
        lemma_compress_elems(dl);
        assert forall|i: int| 0 <= i < compress(opts).len()
            implies exists|k: int| 0 <= k < opts.len()
                && opts[k] == Some(#[trigger] compress(opts)[i]) by {
            if i < compress(dl).len() {
                let k = choose|k: int| 0 <= k < dl.len()
                    && dl[k] == Some(#[trigger] compress(dl)[i]);
                assert(opts[k] == Some(compress(opts)[i]));
            } else {
                assert(opts.last() is Some);
                assert(opts[opts.len() - 1] == Some(compress(opts)[i]));
            }
        }
    }
}

/// Every pair of elements of the compressed sequence comes from a pair
/// of distinct slots, in the same order.
pub proof fn lemma_compress_pairs<T>(opts: Seq<Option<T>>)
    ensures
        forall|i: int, j: int| 0 <= i < j < compress(opts).len()
            ==> exists|k1: int, k2: int|
                0 <= k1 < k2 < opts.len()
                && opts[k1] == Some(#[trigger] compress(opts)[i])
                && opts[k2] == Some(#[trigger] compress(opts)[j]),
    decreases opts.len(),
{
    if opts.len() > 0 {
        let dl = opts.drop_last();
        lemma_compress_pairs(dl);
        lemma_compress_elems(dl);
        assert forall|i: int, j: int| 0 <= i < j < compress(opts).len()
            implies exists|k1: int, k2: int|
                0 <= k1 < k2 < opts.len()
                && opts[k1] == Some(#[trigger] compress(opts)[i])
                && opts[k2] == Some(#[trigger] compress(opts)[j]) by {
            if j < compress(dl).len() {
                let (k1, k2) = choose|k1: int, k2: int|
                    0 <= k1 < k2 < dl.len()
                    && dl[k1] == Some(#[trigger] compress(dl)[i])
                    && dl[k2] == Some(#[trigger] compress(dl)[j]);
                assert(opts[k1] == Some(compress(opts)[i]));
                assert(opts[k2] == Some(compress(opts)[j]));
            } else {
                assert(opts.last() is Some);
                let k1 = choose|k: int| 0 <= k < dl.len()
                    && dl[k] == Some(#[trigger] compress(dl)[i]);
                assert(opts[k1] == Some(compress(opts)[i]));
                assert(opts[opts.len() - 1] == Some(compress(opts)[j]));
            }
        }
    }
}

/// The residual slabs of a free rectangle split by a committed
/// placement: the parts of `free_rect` strictly above, below, left and
/// right of `placed`, in that order, each kept only when its dimension
/// is positive.
pub open spec fn split_free_rect(free_rect: Rect, placed: Rect) -> Seq<Rect> {
    let above: Seq<Rect> = if placed.y > free_rect.y {
        seq![(Rect {
            x: free_rect.x,
            y: free_rect.y,
            width: free_rect.width,
            height: (placed.y - free_rect.y) as u32,
        })]
    } else {
        Seq::empty()
    };
    let below: Seq<Rect> = if placed.y + placed.height < free_rect.y + free_rect.height {
        seq![(Rect {
            x: free_rect.x,
            y: (placed.y + placed.height) as u32,
            width: free_rect.width,
            height: (free_rect.y + free_rect.height - placed.y - placed.height) as u32,
        })]
    } else {
        Seq::empty()
    };
    let left: Seq<Rect> = if placed.x > free_rect.x {
        seq![(Rect {
            x: free_rect.x,
            y: free_rect.y,
            width: (placed.x - free_rect.x) as u32,
            height: free_rect.height,
        })]
    } else {
        Seq::empty()
    };
    let right: Seq<Rect> = if placed.x + placed.width < free_rect.x + free_rect.width {
        seq![(Rect {
            x: (placed.x + placed.width) as u32,
            y: free_rect.y,
            width: (free_rect.x + free_rect.width - placed.x - placed.width) as u32,
            height: free_rect.height,
        })]
    } else {
        Seq::empty()
    };
    above + below + left + right
}

/// The free rectangles the placement does not intersect, in order.
pub open spec fn split_kept(free: Seq<Rect>, placed: Rect) -> Seq<Rect>
    decreases free.len(),
{
    if free.len() == 0 {
        Seq::empty()
    } else {
        split_kept(free.drop_last(), placed) + (if !spec_intersects(placed, free.last()) {
            seq![free.last()]
        } else {
            Seq::empty()
        })
    }
}

/// The residual slabs of the free rectangles the placement intersects,
/// in order.
pub open spec fn split_fresh(free: Seq<Rect>, placed: Rect) -> Seq<Rect>
    decreases free.len(),
{
    if free.len() == 0 {
        Seq::empty()
    } else {
        split_fresh(free.drop_last(), placed) + (if spec_intersects(placed, free.last()) {
            split_free_rect(free.last(), placed)
        } else {
            Seq::empty()
        })
    }
}

/// The removal flags of the prune pass: indices advance exactly as the
/// pairwise containment scan does, dropping a rectangle contained in
/// another (the earlier of an equal pair wins as scanned).
pub open spec fn prune_flags(free: Seq<Rect>, flags: Seq<bool>, i: int, j: int) -> Seq<bool>
    decreases free.len() - i, free.len() - j,
{
    if i < 0 || i >= free.len() {
        flags
    } else if flags[i] || j >= free.len() {
        prune_flags(free, flags, i + 1, i + 2)
    } else if flags[j] {
        prune_flags(free, flags, i, j + 1)
    } else if spec_contained_in(free[i], free[j]) {
        prune_flags(free, flags.update(i, true), i + 1, i + 2)
    } else if spec_contained_in(free[j], free[i]) {
        prune_flags(free, flags.update(j, true), i, j + 1)
    } else {
        prune_flags(free, flags, i, j + 1)
    }
}

/// The rectangles whose flag is clear, in order.
pub open spec fn keep_unflagged(free: Seq<Rect>, flags: Seq<bool>) -> Seq<Rect>
    decreases free.len(),
{
    if free.len() == 0 {
        Seq::empty()
    } else {
        keep_unflagged(free.drop_last(), flags.drop_last())
            + (if free.len() <= flags.len() && !flags[free.len() - 1] {
                seq![free.last()]
            } else {
                Seq::empty()
            })
    }
}

/// What one prune pass leaves of the free list.
pub open spec fn spec_prune(free: Seq<Rect>) -> Seq<Rect> {
    keep_unflagged(free, prune_flags(free, Seq::new(free.len(), |k: int| false), 0, 1))
}

/// The free list after committing `placed`: the untouched free
/// rectangles, then every residual slab, then the prune pass.
pub open spec fn place_rect_spec(free: Seq<Rect>, placed: Rect) -> Seq<Rect> {
    spec_prune(split_kept(free, placed) + split_fresh(free, placed))
}

/// The spec view of an exec candidate.
spec fn abs_placement(p: Option<Placement>) -> Option<BssfCandidate> {
    match p {
        None => None,
        Some(pl) => Some(BssfCandidate {
            rect: pl.rect,
            rotated: pl.rotated,
            score1: pl.score1 as int,
            score2: pl.score2 as int,
        }),
    }
}

/// The MaxRects packer state over one canvas.
#[derive(Debug)]
pub struct MaxRectsPacker {
    pub width: u32,
    pub height: u32,
    /// Maximal free rectangles still available.
    pub free_rects: Vec<Rect>,
    /// Committed (padding-inflated) placements.
    pub used_rects: Vec<Rect>,
    pub allow_rotation: bool,
    /// Gutter reserved to the right and below each sprite.
    pub padding: u32,
}

impl MaxRectsPacker {
    /// Free rectangles lie in the canvas and never overlap a used
    /// rectangle; used rectangles lie in the canvas and are pairwise
    /// disjoint.
    pub open spec fn wf(self) -> bool {
        &&& forall|i: int| 0 <= i < self.free_rects@.len()
                ==> rect_in_canvas(#[trigger] self.free_rects@[i], self.width as int, self.height as int)
        &&& forall|i: int| 0 <= i < self.used_rects@.len()
                ==> rect_in_canvas(#[trigger] self.used_rects@[i], self.width as int, self.height as int)
        &&& forall|i: int, j: int|
                #![trigger self.free_rects@[i], self.used_rects@[j]]
                0 <= i < self.free_rects@.len() && 0 <= j < self.used_rects@.len()
                    ==> !spec_intersects(self.free_rects@[i], self.used_rects@[j])
        &&& forall|i: int, j: int|
                #![trigger self.used_rects@[i], self.used_rects@[j]]
                0 <= i < j < self.used_rects@.len()
                    ==> !spec_intersects(self.used_rects@[i], self.used_rects@[j])
    }

    /// A fresh packer whose whole canvas is one free rectangle.
    pub fn new(width: u32, height: u32, allow_rotation: bool, padding: u32) -> (p: MaxRectsPacker)
        ensures
            p.wf(),
            p.width == width,
            p.height == height,
            p.allow_rotation == allow_rotation,
            p.padding == padding,
            p.free_rects@.len() == 1,
            p.free_rects@ == seq![(Rect { x: 0u32, y: 0u32, width: width, height: height })],
            p.used_rects@.len() == 0,
    {
        let mut free_rects: Vec<Rect> = Vec::new();
        free_rects.push(Rect::new(0, 0, width, height));
        proof {
            assert(free_rects@ =~= seq![(Rect { x: 0u32, y: 0u32, width: width, height: height })]);
        }
        MaxRectsPacker {
            width,
            height,
            free_rects,
            used_rects: Vec::new(),
            allow_rotation,
            padding,
        }
    }

    /// Whether `new_placement` beats the best so far under BSSF: a
    /// strictly shorter short side, or an equal short side and a
    /// strictly shorter long side.
    fn is_better_placement(new_placement: &Placement, current_best: &Option<Placement>) -> (r: bool)
        ensures
            r == match current_best {
                None => true,
                Some(c) => new_placement.score1 < c.score1
                    || (new_placement.score1 == c.score1 && new_placement.score2 < c.score2),
            },
    {
        match current_best {
            None => true,
            Some(current) => {
                if new_placement.score1 < current.score1 {
                    true
                } else if new_placement.score1 == current.score1 {
                    new_placement.score2 < current.score2
                } else {
                    false
                }
            },
        }
    }

    /// Best-Short-Side-Fit search over the free list for a `width` by
    /// `height` footprint.  `Some` places the footprint at a free
    /// rectangle's origin, rotated only if rotation is allowed; `None`
    /// means no free rectangle fits it in any permitted orientation.
    #[verifier::loop_isolation(false)]
    fn find_best_position(&self, width: u32, height: u32) -> (r: Option<Placement>)
        requires
            self.wf(),
        ensures
            abs_placement(r) == spec_find_best(self.free_rects@, width as int, height as int,
                self.allow_rotation),
            match r {
                Some(p) => {
                    &&& exists|i: int| 0 <= i < self.free_rects@.len()
                        && spec_contained_in(p.rect, #[trigger] self.free_rects@[i])
                    &&& if p.rotated {
                            p.rect.width == height && p.rect.height == width
                        } else {
                            p.rect.width == width && p.rect.height == height
                        }
                    &&& !self.allow_rotation ==> !p.rotated
                },
                None => forall|i: int| 0 <= i < self.free_rects@.len() ==> {
                    &&& !(width <= (#[trigger] self.free_rects@[i]).width
                        && height <= self.free_rects@[i].height)
                    &&& self.allow_rotation ==> !(height <= self.free_rects@[i].width
                        && width <= self.free_rects@[i].height)
                },
            },
    {
        let mut best: Option<Placement> = None;
        let n = self.free_rects.len();
        let mut i: usize = 0;
        while i < n
            invariant
                self.wf(),
                n == self.free_rects@.len(),
                i <= n,
                spec_find_best(self.free_rects@, width as int, height as int,
                    self.allow_rotation)
                    == bssf_from(self.free_rects@, i as int, width as int, height as int,
                        self.allow_rotation, abs_placement(best)),
                match best {
                    Some(p) => {
                        &&& exists|k: int| 0 <= k < self.free_rects@.len()
                            && spec_contained_in(p.rect, #[trigger] self.free_rects@[k])
                        &&& if p.rotated {
                                p.rect.width == height && p.rect.height == width
                            } else {
                                p.rect.width == width && p.rect.height == height
                            }
                        &&& !self.allow_rotation ==> !p.rotated
                    },
                    None => forall|k: int| 0 <= k < i ==> {
                        &&& !(width <= (#[trigger] self.free_rects@[k]).width
                            && height <= self.free_rects@[k].height)
                        &&& self.allow_rotation ==> !(height <= self.free_rects@[k].width
                            && width <= self.free_rects@[k].height)
                    },
                },
            decreases n - i,
        {
            let rect = self.free_rects[i];
            let ghost b0 = abs_placement(best);

            if width <= rect.width && height <= rect.height {
                let leftover_h: u64 = (rect.width - width) as u64;
                let leftover_v: u64 = (rect.height - height) as u64;
                let short_side = if leftover_h < leftover_v { leftover_h } else { leftover_v };
                let long_side = if leftover_h > leftover_v { leftover_h } else { leftover_v };

                let placement = Placement {
                    rect: Rect::new(rect.x, rect.y, width, height),
                    rotated: false,
                    score1: short_side,
                    score2: long_side,
                };

                if Self::is_better_placement(&placement, &best) {
                    proof {
                        assert(spec_contained_in(placement.rect, self.free_rects@[i as int]));
                    }
                    best = Some(placement);
                }
            }
            proof {
                assert(abs_placement(best)
                    == bssf_consider(b0, rect, width as int, height as int, false));
            }
            let ghost b1 = abs_placement(best);

            if self.allow_rotation && height <= rect.width && width <= rect.height {
                let leftover_h: u64 = (rect.width - height) as u64;
                let leftover_v: u64 = (rect.height - width) as u64;
                let short_side = if leftover_h < leftover_v { leftover_h } else { leftover_v };
                let long_side = if leftover_h > leftover_v { leftover_h } else { leftover_v };

                let placement = Placement {
                    rect: Rect::new(rect.x, rect.y, height, width),
                    rotated: true,
                    score1: short_side,
                    score2: long_side,
                };

                if Self::is_better_placement(&placement, &best) {
                    proof {
                        assert(spec_contained_in(placement.rect, self.free_rects@[i as int]));
                    }
                    best = Some(placement);
                }
            }
            proof {
                if self.allow_rotation {
                    assert(abs_placement(best)
                        == bssf_consider(b1, rect, width as int, height as int, true));
                } else {
                    assert(abs_placement(best) == b1);
                }
            }

            i = i + 1;
        }
        best
    }

    /// Commits a placement: removes every free rectangle it intersects,
    /// adds the up to four residual slabs, prunes contained free
    /// rectangles, and records the placement as used.
    #[verifier::loop_isolation(false)]
    #[verifier::rlimit(60)]
    fn place_rect(&mut self, placed: Rect)
        requires
            old(self).wf(),
            exists|i: int| 0 <= i < old(self).free_rects@.len()
                && spec_contained_in(placed, #[trigger] old(self).free_rects@[i]),
        ensures
            final(self).wf(),
            final(self).width == old(self).width,
            final(self).height == old(self).height,
            final(self).allow_rotation == old(self).allow_rotation,
            final(self).padding == old(self).padding,
            final(self).used_rects@ == old(self).used_rects@.push(placed),
            final(self).free_rects@ == place_rect_spec(old(self).free_rects@, placed),
            // The pruned free list is an antichain under containment.
            forall|k1: int, k2: int|
                #![trigger final(self).free_rects@[k1], final(self).free_rects@[k2]]
                0 <= k1 < k2 < final(self).free_rects@.len()
                    ==> !spec_contained_in(final(self).free_rects@[k1],
                            final(self).free_rects@[k2])
                        && !spec_contained_in(final(self).free_rects@[k2],
                            final(self).free_rects@[k1]),
    {
        proof {
            let fi = choose|i: int| 0 <= i < old(self).free_rects@.len()
                && spec_contained_in(placed, #[trigger] old(self).free_rects@[i]);
            assert(rect_in_canvas(placed, old(self).width as int, old(self).height as int));
            assert forall|j: int| 0 <= j < old(self).used_rects@.len()
                implies !spec_intersects(placed, #[trigger] old(self).used_rects@[j]) by {
                assert(!spec_intersects(old(self).free_rects@[fi], old(self).used_rects@[j]));
            }
        }

        let w = self.width;
        let h = self.height;
        let n = self.free_rects.len();
        let mut kept: Vec<Rect> = Vec::new();
        let mut fresh: Vec<Rect> = Vec::new();
        let mut i: usize = 0;
        while i < n
            invariant
                self == old(self),
                n == self.free_rects@.len(),
                w == self.width,
                h == self.height,
                i <= n,
                rect_in_canvas(placed, w as int, h as int),
                forall|j: int| 0 <= j < self.used_rects@.len()
                    ==> !spec_intersects(placed, #[trigger] self.used_rects@[j]),
                forall|k: int| 0 <= k < kept@.len() ==> {
                    &&& rect_in_canvas(#[trigger] kept@[k], w as int, h as int)
                    &&& !spec_intersects(kept@[k], placed)
                },
                forall|k: int, j: int|
                    #![trigger kept@[k], self.used_rects@[j]]
                    0 <= k < kept@.len() && 0 <= j < self.used_rects@.len()
                        ==> !spec_intersects(kept@[k], self.used_rects@[j]),
                forall|k: int| 0 <= k < fresh@.len() ==> {
                    &&& rect_in_canvas(#[trigger] fresh@[k], w as int, h as int)
                    &&& !spec_intersects(fresh@[k], placed)
                },
                forall|k: int, j: int|
                    #![trigger fresh@[k], self.used_rects@[j]]
                    0 <= k < fresh@.len() && 0 <= j < self.used_rects@.len()
                        ==> !spec_intersects(fresh@[k], self.used_rects@[j]),
                kept@ == split_kept(self.free_rects@.subrange(0, i as int), placed),
                fresh@ == split_fresh(self.free_rects@.subrange(0, i as int), placed),
            decreases n - i,
        {
            let free_rect = self.free_rects[i];
            proof {
                let pre = self.free_rects@.subrange(0, i as int);
                let cur = self.free_rects@.subrange(0, i as int + 1);
                assert(cur.drop_last() =~= pre);
                assert(cur.last() == self.free_rects@[i as int]);
            }
            let ghost kept0 = kept@;
            let ghost fresh0 = fresh@;
            if !placed.intersects(&free_rect) {
                kept.push(free_rect);
                proof {
                    assert(kept@ =~= split_kept(self.free_rects@.subrange(0, i as int + 1),
                        placed));
                    assert(fresh@ =~= split_fresh(self.free_rects@.subrange(0, i as int + 1),
                        placed));
                }
            } else {
                // Residual slab above the placement.
                if placed.y > free_rect.y {
                    let slab = Rect::new(free_rect.x, free_rect.y, free_rect.width,
                        placed.y - free_rect.y);
                    proof {
                        assert(spec_contained_in(slab, self.free_rects@[i as int]));
                    }
                    fresh.push(slab);
                }
                // Residual slab below the placement.
                if placed.y + placed.height < free_rect.y + free_rect.height {
                    let slab = Rect::new(free_rect.x, placed.y + placed.height, free_rect.width,
                        free_rect.y + free_rect.height - placed.y - placed.height);
                    proof {
                        assert(spec_contained_in(slab, self.free_rects@[i as int]));
                    }
                    fresh.push(slab);
                }
                // Residual slab left of the placement.
                if placed.x > free_rect.x {
                    let slab = Rect::new(free_rect.x, free_rect.y,
                        placed.x - free_rect.x, free_rect.height);
                    proof {
                        assert(spec_contained_in(slab, self.free_rects@[i as int]));
                    }
                    fresh.push(slab);
                }
                // Residual slab right of the placement.
                if placed.x + placed.width < free_rect.x + free_rect.width {
                    let slab = Rect::new(placed.x + placed.width, free_rect.y,
                        free_rect.x + free_rect.width - placed.x - placed.width, free_rect.height);
                    proof {
                        assert(spec_contained_in(slab, self.free_rects@[i as int]));
                    }
                    fresh.push(slab);
                }
                proof {
                    assert(fresh@ =~= fresh0 + split_free_rect(free_rect, placed));
                    assert(kept@ =~= split_kept(self.free_rects@.subrange(0, i as int + 1),
                        placed));
                    assert(fresh@ =~= split_fresh(self.free_rects@.subrange(0, i as int + 1),
                        placed));
                }
            }
            i = i + 1;
        }

        proof {
            assert(self.free_rects@.subrange(0, n as int) =~= self.free_rects@);
        }
        kept.append(&mut fresh);
        proof {
            assert(kept@ == split_kept(old(self).free_rects@, placed)
                + split_fresh(old(self).free_rects@, placed));
        }
        self.free_rects = kept;
        self.prune_free_rects();
        self.used_rects.push(placed);

        proof {
            assert forall|a: int, b: int|
                #![trigger final(self).used_rects@[a], final(self).used_rects@[b]]
                0 <= a < b < final(self).used_rects@.len()
                    implies !spec_intersects(final(self).used_rects@[a], final(self).used_rects@[b]) by {
                if b == final(self).used_rects@.len() - 1 {
                    assert(final(self).used_rects@[a] == old(self).used_rects@[a]);
                    assert(!spec_intersects(placed, old(self).used_rects@[a]));
                }
            }
        }
    }

    /// Drops every free rectangle wholly contained in another; the
    /// remaining free rectangles all come from the current list.
    #[verifier::loop_isolation(false)]
    fn prune_free_rects(&mut self)
        ensures
            final(self).width == old(self).width,
            final(self).height == old(self).height,
            final(self).allow_rotation == old(self).allow_rotation,
            final(self).padding == old(self).padding,
            final(self).used_rects@ == old(self).used_rects@,
            final(self).free_rects@ == spec_prune(old(self).free_rects@),
            forall|k: int| 0 <= k < final(self).free_rects@.len()
                ==> old(self).free_rects@.contains(#[trigger] final(self).free_rects@[k]),
            // The survivors form an antichain under containment: no free
            // rectangle lies inside another.
            forall|k1: int, k2: int|
                #![trigger final(self).free_rects@[k1], final(self).free_rects@[k2]]
                0 <= k1 < k2 < final(self).free_rects@.len()
                    ==> !spec_contained_in(final(self).free_rects@[k1],
                            final(self).free_rects@[k2])
                        && !spec_contained_in(final(self).free_rects@[k2],
                            final(self).free_rects@[k1]),
    {
        let len = self.free_rects.len();
        let mut to_remove: Vec<bool> = Vec::new();
        let mut k: usize = 0;
        while k < len
            invariant
                to_remove@.len() == k,
                k <= len,
                forall|m: int| 0 <= m < k ==> !(#[trigger] to_remove@[m]),
            decreases len - k,
        {
            to_remove.push(false);
            k = k + 1;
        }
        let ghost target = prune_flags(self.free_rects@,
            Seq::new(self.free_rects@.len() as nat, |m: int| false), 0, 1);
        proof {
            assert(to_remove@ =~= Seq::new(self.free_rects@.len() as nat, |m: int| false));
        }

        let mut i: usize = 0;
        while i < len
            invariant
                self == old(self),
                len == self.free_rects@.len(),
                to_remove@.len() == len,
                i <= len,
                prune_flags(self.free_rects@, to_remove@, i as int, i as int + 1) == target,
                forall|a: int, b: int|
                    #![trigger self.free_rects@[a], self.free_rects@[b]]
                    0 <= a < i && a < b < len && !to_remove@[a] && !to_remove@[b]
                        ==> !spec_contained_in(self.free_rects@[a], self.free_rects@[b])
                            && !spec_contained_in(self.free_rects@[b], self.free_rects@[a]),
            decreases len - i,
        {
            if !to_remove[i] {
                let mut j: usize = i + 1;
                let mut removed_i = false;
                while j < len && !removed_i
                    invariant
                        self == old(self),
                        len == self.free_rects@.len(),
                        to_remove@.len() == len,
                        i < len,
                        i < j,
                        j <= len,
                        removed_i ==> to_remove@[i as int]
                            && prune_flags(self.free_rects@, to_remove@,
                                i as int + 1, i as int + 2) == target,
                        !removed_i ==> !to_remove@[i as int]
                            && prune_flags(self.free_rects@, to_remove@, i as int, j as int)
                                == target,
                        forall|a: int, b: int|
                            #![trigger self.free_rects@[a], self.free_rects@[b]]
                            0 <= a < i && a < b < len && !to_remove@[a] && !to_remove@[b]
                                ==> !spec_contained_in(self.free_rects@[a],
                                        self.free_rects@[b])
                                    && !spec_contained_in(self.free_rects@[b],
                                        self.free_rects@[a]),
                        forall|b: int| i < b < j && !to_remove@[i as int] && !to_remove@[b]
                            ==> !spec_contained_in(self.free_rects@[i as int],
                                    #[trigger] self.free_rects@[b])
                                && !spec_contained_in(self.free_rects@[b],
                                    self.free_rects@[i as int]),
                    decreases len - j + (if removed_i { 0int } else { 1int }),
                {
                    if !to_remove[j] {
                        if self.free_rects[i].is_contained_in(&self.free_rects[j]) {
                            to_remove.set(i, true);
                            removed_i = true;
                        } else if self.free_rects[j].is_contained_in(&self.free_rects[i]) {
                            to_remove.set(j, true);
                        }
                    }
                    if !removed_i {
                        j = j + 1;
                    }
                }
                proof {
                    assert forall|a: int, b: int|
                        #![trigger self.free_rects@[a], self.free_rects@[b]]
                        0 <= a < i + 1 && a < b < len && !to_remove@[a] && !to_remove@[b]
                            implies !spec_contained_in(self.free_rects@[a],
                                    self.free_rects@[b])
                                && !spec_contained_in(self.free_rects@[b],
                                    self.free_rects@[a]) by {
                        if a == i as int {
                            assert(!removed_i);
                        }
                    }
                }
            } else {
                proof {
                    assert forall|a: int, b: int|
                        #![trigger self.free_rects@[a], self.free_rects@[b]]
                        0 <= a < i + 1 && a < b < len && !to_remove@[a] && !to_remove@[b]
                            implies !spec_contained_in(self.free_rects@[a],
                                    self.free_rects@[b])
                                && !spec_contained_in(self.free_rects@[b],
                                    self.free_rects@[a]) by {
                        if a == i as int {
                            assert(to_remove@[a]);
                        }
                    }
                }
            }
            proof {
                assert(prune_flags(self.free_rects@, to_remove@,
                    i as int + 1, i as int + 2) == target);
            }
            i = i + 1;
        }
        proof {
            assert(to_remove@ == target);
        }
        let ghost flags = to_remove@;

        let mut kept: Vec<Rect> = Vec::new();
        let ghost mut src: Seq<int> = Seq::empty();
        let mut k2: usize = 0;
        while k2 < len
            invariant
                self == old(self),
                len == self.free_rects@.len(),
                to_remove@.len() == len,
                to_remove@ == target,
                to_remove@ == flags,
                k2 <= len,
                kept@ == keep_unflagged(self.free_rects@.subrange(0, k2 as int),
                    to_remove@.subrange(0, k2 as int)),
                forall|m: int| 0 <= m < kept@.len()
                    ==> old(self).free_rects@.contains(#[trigger] kept@[m]),
                src.len() == kept@.len(),
                forall|m: int| 0 <= m < src.len()
                    ==> 0 <= #[trigger] src[m] < k2 && !flags[src[m]]
                        && kept@[m] == self.free_rects@[src[m]],
                forall|m1: int, m2: int| 0 <= m1 < m2 < src.len()
                    ==> #[trigger] src[m1] < #[trigger] src[m2],
                forall|a: int, b: int|
                    #![trigger self.free_rects@[a], self.free_rects@[b]]
                    0 <= a < b < len && !flags[a] && !flags[b]
                        ==> !spec_contained_in(self.free_rects@[a], self.free_rects@[b])
                            && !spec_contained_in(self.free_rects@[b], self.free_rects@[a]),
            decreases len - k2,
        {
            proof {
                let fpre = self.free_rects@.subrange(0, k2 as int);
                let fcur = self.free_rects@.subrange(0, k2 as int + 1);
                let tpre = to_remove@.subrange(0, k2 as int);
                let tcur = to_remove@.subrange(0, k2 as int + 1);
                assert(fcur.drop_last() =~= fpre);
                assert(tcur.drop_last() =~= tpre);
                assert(fcur.last() == self.free_rects@[k2 as int]);
                assert(tcur[fcur.len() - 1] == to_remove@[k2 as int]);
            }
            if !to_remove[k2] {
                let r = self.free_rects[k2];
                kept.push(r);
                proof {
                    assert(old(self).free_rects@[k2 as int] == r);
                    assert(old(self).free_rects@.contains(r));
                    src = src.push(k2 as int);
                }
            }
            proof {
                assert(kept@ =~= keep_unflagged(self.free_rects@.subrange(0, k2 as int + 1),
                    to_remove@.subrange(0, k2 as int + 1)));
            }
            k2 = k2 + 1;
        }
        proof {
            assert forall|m1: int, m2: int|
                #![trigger kept@[m1], kept@[m2]]
                0 <= m1 < m2 < kept@.len()
                    implies !spec_contained_in(kept@[m1], kept@[m2])
                        && !spec_contained_in(kept@[m2], kept@[m1]) by {
                assert(src[m1] < src[m2]);
                assert(kept@[m1] == self.free_rects@[src[m1]]);
                assert(kept@[m2] == self.free_rects@[src[m2]]);
            }
        }
        proof {
            assert(self.free_rects@.subrange(0, len as int) =~= self.free_rects@);
            assert(to_remove@.subrange(0, len as int) =~= to_remove@);
        }
        self.free_rects = kept;
    }
}


/// Padding-inflated footprint area that orders the inputs.
pub open spec fn inflated_area(inp: SpriteInput, padding: int) -> int {
    (inp.width + padding) * (inp.height + padding)
}

fn area_key(sprite: &SpriteInput, padding: u32) -> (k: u64)
    requires
        sprite.width + padding <= u32::MAX,
        sprite.height + padding <= u32::MAX,
    ensures
        k == inflated_area(*sprite, padding as int),
{
    proof {
        assert((sprite.width + padding) * (sprite.height + padding) < 0x1_0000_0000_0000_0000)
            by (nonlinear_arith)
            requires sprite.width + padding <= u32::MAX && sprite.height + padding <= u32::MAX;
    }
    ((sprite.width + padding) as u64) * ((sprite.height + padding) as u64)
}

/// Inserts input position `v` into a sorted order: `v` moves left past
/// every entry of strictly smaller inflated area and no further, so
/// equal areas keep their input order.
pub open spec fn insert_by_area(s: Seq<usize>, v: usize, sprites: Seq<SpriteInput>, padding: int)
    -> Seq<usize>
    decreases s.len(),
{
    if s.len() > 0
        && inflated_area(sprites[s.last() as int], padding)
            < inflated_area(sprites[v as int], padding) {
        insert_by_area(s.drop_last(), v, sprites, padding).push(s.last())
    } else {
        s.push(v)
    }
}

/// The packing order of the first `n` inputs: descending inflated area,
/// stable on ties.
pub open spec fn sort_prefix(sprites: Seq<SpriteInput>, padding: int, n: int) -> Seq<usize>
    decreases n,
{
    if n <= 0 {
        Seq::empty()
    } else {
        insert_by_area(sort_prefix(sprites, padding, n - 1), (n - 1) as usize, sprites, padding)
    }
}

/// The packing order of all inputs.
pub open spec fn spec_sort_indices(sprites: Seq<SpriteInput>, padding: int) -> Seq<usize> {
    sort_prefix(sprites, padding, sprites.len() as int)
}

proof fn lemma_insert_by_area_props(s: Seq<usize>, v: usize, sprites: Seq<SpriteInput>,
    padding: int, bound: int)
    requires
        forall|k: int| 0 <= k < s.len() ==> (#[trigger] s[k] as int) < bound,
        (v as int) < bound,
    ensures
        insert_by_area(s, v, sprites, padding).len() == s.len() + 1,
        forall|k: int| 0 <= k < s.len() + 1
            ==> (#[trigger] insert_by_area(s, v, sprites, padding)[k] as int) < bound,
    decreases s.len(),
{
    if s.len() > 0
        && inflated_area(sprites[s.last() as int], padding)
            < inflated_area(sprites[v as int], padding) {
        lemma_insert_by_area_props(s.drop_last(), v, sprites, padding, bound);
    }
}

/// The packing order is one position per input, all in range.
pub proof fn lemma_sort_prefix_props(sprites: Seq<SpriteInput>, padding: int, n: int)
    requires
        0 <= n,
    ensures
        sort_prefix(sprites, padding, n).len() == n,
        forall|k: int| 0 <= k < n
            ==> (#[trigger] sort_prefix(sprites, padding, n)[k] as int) < n,
    decreases n,
{
    if n > 0 {
        lemma_sort_prefix_props(sprites, padding, n - 1);
        lemma_insert_by_area_props(sort_prefix(sprites, padding, n - 1), (n - 1) as usize,
            sprites, padding, n);
    }
}

/// When every entry from `p` on has a strictly smaller area than `v`'s
/// and the entry before `p` (if any) does not, the insertion lands
/// exactly at position `p`.
proof fn lemma_insert_decompose(s: Seq<usize>, v: usize, p: int, sprites: Seq<SpriteInput>,
    padding: int)
    requires
        0 <= p <= s.len(),
        forall|k: int| p <= k < s.len()
            ==> inflated_area(sprites[(#[trigger] s[k]) as int], padding)
                < inflated_area(sprites[v as int], padding),
        p > 0 ==> !(inflated_area(sprites[s[p - 1] as int], padding)
            < inflated_area(sprites[v as int], padding)),
    ensures
        insert_by_area(s, v, sprites, padding) == s.insert(p, v),
    decreases s.len(),
{
    if p == s.len() {
        assert(insert_by_area(s, v, sprites, padding) == s.push(v));
        assert(s.push(v) =~= s.insert(p, v));
    } else {
        lemma_insert_decompose(s.drop_last(), v, p, sprites, padding);
        assert(s.drop_last().insert(p, v).push(s.last()) =~= s.insert(p, v));
    }
}

/// Stable insertion sort of the input positions by descending inflated
/// area; equal areas keep their input order.
#[verifier::loop_isolation(false)]
fn sort_indices_by_area(sprites: &[SpriteInput], padding: u32) -> (order: Vec<usize>)
    requires
        forall|k: int| 0 <= k < sprites@.len()
            ==> (#[trigger] sprites@[k]).width + padding <= u32::MAX
                && sprites@[k].height + padding <= u32::MAX,
    ensures
        order@ == spec_sort_indices(sprites@, padding as int),
        order@.len() == sprites@.len(),
        forall|k: int| 0 <= k < order@.len() ==> (#[trigger] order@[k]) < sprites@.len(),
{
    let n = sprites.len();
    let mut order: Vec<usize> = Vec::new();
    let mut v: usize = 0;
    while v < n
        invariant
            v <= n,
            n == sprites@.len(),
            order@ == sort_prefix(sprites@, padding as int, v as int),
            order@.len() == v,
            forall|k: int| 0 <= k < v ==> (#[trigger] order@[k]) < n,
        decreases n - v,
    {
        let key_v = area_key(&sprites[v], padding);
        let mut p: usize = order.len();
        let mut stop = false;
        while p > 0 && !stop
            invariant
                p <= order@.len(),
                forall|k: int| p <= k < order@.len()
                    ==> inflated_area(sprites@[(#[trigger] order@[k]) as int], padding as int)
                        < inflated_area(sprites@[v as int], padding as int),
                stop ==> p > 0
                    && !(inflated_area(sprites@[order@[p - 1] as int], padding as int)
                        < inflated_area(sprites@[v as int], padding as int)),
            decreases p + (if stop { 0int } else { 1int }),
        {
            let prev = order[p - 1];
            if area_key(&sprites[prev], padding) < key_v {
                p = p - 1;
            } else {
                stop = true;
            }
        }
        let ghost pre = order@;
        order.insert(p, v);
        proof {
            lemma_insert_decompose(pre, v, p as int, sprites@, padding as int);
            assert(order@ == insert_by_area(pre, v, sprites@, padding as int));
            assert(order@ == sort_prefix(sprites@, padding as int, v as int + 1));
            lemma_sort_prefix_props(sprites@, padding as int, v as int + 1);
        }
        v = v + 1;
    }
    order
}

/// The output record of one committed placement.
pub open spec fn placed_sprite(inp: SpriteInput, rect: Rect, rotated: bool) -> PackedSprite {
    PackedSprite {
        id: inp.id,
        name: inp.name,
        x: rect.x,
        y: rect.y,
        width: if rotated { inp.height } else { inp.width },
        height: if rotated { inp.width } else { inp.height },
        rotated,
        original_width: inp.original_width,
        original_height: inp.original_height,
        trimmed: inp.trimmed,
        offset_x: inp.offset_x,
        offset_y: inp.offset_y,
    }
}

/// The padding-inflated footprint a placement reserves.
pub open spec fn inflated_rect(ps: PackedSprite, padding: int) -> Rect {
    Rect {
        x: ps.x,
        y: ps.y,
        width: (ps.width + padding) as u32,
        height: (ps.height + padding) as u32,
    }
}

/// The packing loop from position `t` of the order: each sprite's
/// inflated footprint goes to the BSSF choice when one fits, which
/// commits the placement and splits the free list; a sprite with no fit
/// is skipped and its slot stays empty.
pub open spec fn pack_loop(
    free: Seq<Rect>,
    used: Seq<Rect>,
    sprites: Seq<SpriteInput>,
    order: Seq<usize>,
    t: int,
    allow_rotation: bool,
    padding: int,
    slots: Seq<Option<PackedSprite>>,
) -> (Seq<Rect>, Seq<Rect>, Seq<Option<PackedSprite>>)
    decreases order.len() - t,
{
    if t < 0 || t >= order.len() {
        (free, used, slots)
    } else {
        let idx = order[t] as int;
        let inp = sprites[idx];
        let w = inp.width + padding;
        let h = inp.height + padding;
        match spec_find_best(free, w, h, allow_rotation) {
            Some(c) => pack_loop(
                place_rect_spec(free, c.rect),
                used.push(c.rect),
                sprites,
                order,
                t + 1,
                allow_rotation,
                padding,
                slots.update(idx, Some(placed_sprite(inp, c.rect, c.rotated))),
            ),
            None => pack_loop(free, used, sprites, order, t + 1, allow_rotation, padding, slots),
        }
    }
}

/// The whole pack run from a packer state: the free list, used list and
/// per-input slots after packing every input in sorted order.
pub open spec fn spec_pack(
    free: Seq<Rect>,
    used: Seq<Rect>,
    sprites: Seq<SpriteInput>,
    allow_rotation: bool,
    padding: int,
) -> (Seq<Rect>, Seq<Rect>, Seq<Option<PackedSprite>>) {
    pack_loop(free, used, sprites, spec_sort_indices(sprites, padding), 0, allow_rotation,
        padding, Seq::new(sprites.len(), |k: int| None))
}

/// The placements a pack run returns, in input order.
pub open spec fn spec_pack_result(
    free: Seq<Rect>,
    used: Seq<Rect>,
    sprites: Seq<SpriteInput>,
    allow_rotation: bool,
    padding: int,
) -> Seq<PackedSprite> {
    compress(spec_pack(free, used, sprites, allow_rotation, padding).2)
}

/// Collects the filled slots in order.
#[verifier::loop_isolation(false)]
fn compress_slots(slots: Vec<Option<PackedSprite>>) -> (result: Vec<PackedSprite>)
    ensures
        result@ == compress(slots@),
{
    let ghost final_slots = slots@;
    let n0 = slots.len();
    let ghost total = n0 as int;
    let mut slots = slots;
    let mut result: Vec<PackedSprite> = Vec::new();
    let mut consumed: usize = 0;
    while slots.len() > 0
        invariant
            final_slots.len() == total,
            consumed + slots@.len() == total,
            consumed <= total,
            slots@ == final_slots.subrange(consumed as int, total),
            result@ == compress(final_slots.subrange(0, consumed as int)),
        decreases slots@.len(),
    {
        let o = slots.remove(0);
        proof {
            let c = consumed as int;
            assert(final_slots.subrange(0, c + 1).drop_last() =~= final_slots.subrange(0, c));
            assert(final_slots.subrange(0, c + 1).last() == final_slots[c]);
            assert(o == final_slots[c]);
            assert(slots@ =~= final_slots.subrange(c + 1, total));
        }
        match o {
            Some(ps) => result.push(ps),
            None => {},
        }
        consumed = consumed + 1;
        proof {
            assert(result@ =~= compress(final_slots.subrange(0, consumed as int)));
        }
    }
    proof {
        assert(final_slots.subrange(0, total) =~= final_slots);
    }
    result
}

impl MaxRectsPacker {
    /// Packs the sprites, largest inflated footprint first, and returns
    /// the placements in the original input order.
    ///
    /// Placed rectangles never overlap, lie inside the canvas with their
    /// padding gutter, swap their dimensions exactly when rotated, and
    /// come back ordered as the inputs were; a sprite that fits nowhere
    /// is skipped.
    #[verifier::loop_isolation(false)]
    #[verifier::rlimit(100)]
    pub fn pack(&mut self, sprites: &[SpriteInput]) -> (result: Vec<PackedSprite>)
        requires
            old(self).wf(),
            forall|k: int| 0 <= k < sprites@.len()
                ==> (#[trigger] sprites@[k]).width + old(self).padding <= u32::MAX
                    && sprites@[k].height + old(self).padding <= u32::MAX,
        ensures
            final(self).wf(),
            final(self).width == old(self).width,
            final(self).height == old(self).height,
            final(self).allow_rotation == old(self).allow_rotation,
            final(self).padding == old(self).padding,
            result@.len() <= sprites@.len(),
            // No two placements overlap.
            forall|i: int, j: int|
                #![trigger result@[i], result@[j]]
                0 <= i < j < result@.len()
                    ==> !spec_intersects(rect_of(result@[i]), rect_of(result@[j])),
            // Every placement lies inside the canvas with its gutter.
            forall|i: int| 0 <= i < result@.len()
                ==> (#[trigger] result@[i]).x + result@[i].width + old(self).padding
                        <= old(self).width
                    && result@[i].y + result@[i].height + old(self).padding <= old(self).height,
            // No two inflated footprints overlap: the padding gutter is
            // reserved, not shared.
            forall|i: int, j: int|
                #![trigger result@[i], result@[j]]
                0 <= i < j < result@.len()
                    ==> !spec_intersects(inflated_rect(result@[i], old(self).padding as int),
                        inflated_rect(result@[j], old(self).padding as int)),
            // The run is exactly the greedy model: sort by inflated area,
            // BSSF choice, split, prune; one slot per input, in input
            // order, filled exactly when a footprint fit at its turn.
            ({
                let model = spec_pack(old(self).free_rects@, old(self).used_rects@, sprites@,
                    old(self).allow_rotation, old(self).padding as int);
                &&& final(self).free_rects@ == model.0
                &&& final(self).used_rects@ == model.1
                &&& result@ == compress(model.2)
                &&& forall|k: int| 0 <= k < sprites@.len() ==> match #[trigger] model.2[k] {
                        Some(ps) => placed_matches(ps, sprites@[k], old(self).allow_rotation,
                            old(self).width as int, old(self).height as int,
                            old(self).padding as int),
                        None => true,
                    }
            }),
    {
        let n = sprites.len();
        let order = sort_indices_by_area(sprites, self.padding);

        let mut slots: Vec<Option<PackedSprite>> = Vec::new();
        let mut t: usize = 0;
        while t < n
            invariant
                slots@.len() == t,
                t <= n,
                forall|k: int| 0 <= k < t ==> (#[trigger] slots@[k]) is None,
            decreases n - t,
        {
            slots.push(None);
            t = t + 1;
        }
        proof {
            assert(slots@ =~= Seq::new(sprites@.len(), |k: int| None::<PackedSprite>));
        }
        let ghost target = spec_pack(old(self).free_rects@, old(self).used_rects@, sprites@,
            old(self).allow_rotation, old(self).padding as int);

        let mut pos: usize = 0;
        while pos < order.len()
            invariant
                self.width == old(self).width,
                self.height == old(self).height,
                self.allow_rotation == old(self).allow_rotation,
                self.padding == old(self).padding,
                self.wf(),
                pos <= order@.len(),
                slots@.len() == n,
                forall|k: int| 0 <= k < n ==> match #[trigger] slots@[k] {
                    Some(ps) => placed_matches(ps, sprites@[k], old(self).allow_rotation,
                        old(self).width as int, old(self).height as int,
                        old(self).padding as int),
                    None => true,
                },
                forall|k: int| 0 <= k < n ==> match #[trigger] slots@[k] {
                    Some(ps) => exists|j: int| 0 <= j < self.used_rects@.len()
                        && #[trigger] self.used_rects@[j]
                            == inflated_rect(ps, old(self).padding as int),
                    None => true,
                },
                forall|k1: int, k2: int|
                    #![trigger slots@[k1], slots@[k2]]
                    0 <= k1 < n && 0 <= k2 < n && k1 != k2
                        && slots@[k1] is Some && slots@[k2] is Some
                        ==> !spec_intersects(rect_of(slots@[k1]->0), rect_of(slots@[k2]->0)),
                forall|k1: int, k2: int|
                    #![trigger slots@[k1], slots@[k2]]
                    0 <= k1 < n && 0 <= k2 < n && k1 != k2
                        && slots@[k1] is Some && slots@[k2] is Some
                        ==> !spec_intersects(
                            inflated_rect(slots@[k1]->0, old(self).padding as int),
                            inflated_rect(slots@[k2]->0, old(self).padding as int)),
                pack_loop(self.free_rects@, self.used_rects@, sprites@, order@, pos as int,
                    old(self).allow_rotation, old(self).padding as int, slots@) == target,
            decreases order@.len() - pos,
        {
            let idx = order[pos];
            let sprite = &sprites[idx];
            let w = sprite.width + self.padding;
            let h = sprite.height + self.padding;
            let ghost free_before = self.free_rects@;
            let ghost used_before = self.used_rects@;

            match self.find_best_position(w, h) {
                Some(placement) => {
                    let ps = PackedSprite {
                        id: sprite.id.clone(),
                        name: sprite.name.clone(),
                        x: placement.rect.x,
                        y: placement.rect.y,
                        width: if placement.rotated { sprite.height } else { sprite.width },
                        height: if placement.rotated { sprite.width } else { sprite.height },
                        rotated: placement.rotated,
                        original_width: sprite.original_width,
                        original_height: sprite.original_height,
                        trimmed: sprite.trimmed,
                        offset_x: sprite.offset_x,
                        offset_y: sprite.offset_y,
                    };
                    proof {
                        let ghost pad = old(self).padding as int;
                        let fi = choose|fi: int| 0 <= fi < self.free_rects@.len()
                            && spec_contained_in(placement.rect, #[trigger] self.free_rects@[fi]);
                        assert(spec_contained_in(rect_of(ps), placement.rect));
                        assert(inflated_rect(ps, pad) == placement.rect);
                        assert(rect_in_canvas(placement.rect, self.width as int,
                            self.height as int));
                        // The new placement cannot touch any earlier one:
                        // it sits in a free rectangle, earlier footprints
                        // are used rectangles, and free never overlaps used.
                        assert forall|k: int|
                            0 <= k < n && #[trigger] slots@[k] is Some
                                implies !spec_intersects(placement.rect,
                                    inflated_rect(slots@[k]->0, pad))
                                    && !spec_intersects(rect_of(ps), rect_of(slots@[k]->0)) by {
                            let uj = choose|j: int| 0 <= j < self.used_rects@.len()
                                && #[trigger] self.used_rects@[j]
                                    == inflated_rect(slots@[k]->0, pad);
                            assert(!spec_intersects(self.free_rects@[fi], self.used_rects@[uj]));
                            assert(spec_contained_in(rect_of(slots@[k]->0),
                                self.used_rects@[uj]));
                        }
                    }
                    let ghost old_used = self.used_rects@;
                    self.place_rect(placement.rect);
                    let ghost pre = slots@;
                    slots.set(idx, Some(ps));
                    proof {
                        let ghost pad = old(self).padding as int;
                        assert(self.used_rects@[self.used_rects@.len() - 1]
                            == inflated_rect(ps, pad));
                        assert forall|k: int| 0 <= k < n implies match #[trigger] slots@[k] {
                            Some(sp) => exists|j: int| 0 <= j < self.used_rects@.len()
                                && #[trigger] self.used_rects@[j] == inflated_rect(sp, pad),
                            None => true,
                        } by {
                            if k != idx && pre[k] is Some {
                                let j0 = choose|j: int| 0 <= j < old_used.len()
                                    && #[trigger] old_used[j]
                                        == inflated_rect(pre[k]->0, pad);
                                assert(self.used_rects@[j0] == old_used[j0]);
                            }
                        }
                        // One unfolding of the model matches this step.
                        let mdl = spec_find_best(free_before, w as int, h as int,
                            old(self).allow_rotation);
                        assert(mdl is Some);
                        assert(mdl->0.rect == placement.rect && mdl->0.rotated
                            == placement.rotated);
                        assert(w as int == sprites@[idx as int].width + pad);
                        assert(h as int == sprites@[idx as int].height + pad);
                        assert(ps == placed_sprite(sprites@[idx as int], placement.rect,
                            placement.rotated));
                        assert(slots@ == pre.update(idx as int, Some(ps)));
                        assert(pack_loop(self.free_rects@, self.used_rects@, sprites@, order@,
                            pos as int + 1, old(self).allow_rotation, pad, slots@) == target);
                    }
                },
                None => {
                    proof {
                        let ghost pad = old(self).padding as int;
                        let mdl = spec_find_best(free_before, w as int, h as int,
                            old(self).allow_rotation);
                        assert(mdl is None);
                        assert(pack_loop(self.free_rects@, self.used_rects@, sprites@, order@,
                            pos as int + 1, old(self).allow_rotation, pad, slots@) == target);
                    }
                },
            }
            pos = pos + 1;
        }

        proof {
            assert(pack_loop(self.free_rects@, self.used_rects@, sprites@, order@,
                order@.len() as int, old(self).allow_rotation, old(self).padding as int,
                slots@) == target);
            assert(target.0 == self.free_rects@);
            assert(target.1 == self.used_rects@);
            assert(target.2 == slots@);
        }
        let ghost final_slots = slots@;
        let result = compress_slots(slots);
        proof {
            assert(result@ == compress(final_slots));
            lemma_compress_elems(final_slots);
            lemma_compress_pairs(final_slots);
            assert forall|i: int, j: int|
                #![trigger result@[i], result@[j]]
                0 <= i < j < result@.len()
                    implies !spec_intersects(rect_of(result@[i]), rect_of(result@[j])) by {
                let (k1, k2) = choose|k1: int, k2: int|
                    0 <= k1 < k2 < final_slots.len()
                    && final_slots[k1] == Some(#[trigger] compress(final_slots)[i])
                    && final_slots[k2] == Some(#[trigger] compress(final_slots)[j]);
                assert(final_slots[k1] is Some && final_slots[k2] is Some);
            }
            assert forall|i: int, j: int|
                #![trigger result@[i], result@[j]]
                0 <= i < j < result@.len()
                    implies !spec_intersects(
                        inflated_rect(result@[i], old(self).padding as int),
                        inflated_rect(result@[j], old(self).padding as int)) by {
                let (k1, k2) = choose|k1: int, k2: int|
                    0 <= k1 < k2 < final_slots.len()
                    && final_slots[k1] == Some(#[trigger] compress(final_slots)[i])
                    && final_slots[k2] == Some(#[trigger] compress(final_slots)[j]);
                assert(final_slots[k1] is Some && final_slots[k2] is Some);
            }
            assert forall|i: int| 0 <= i < result@.len()
                implies (#[trigger] result@[i]).x + result@[i].width + old(self).padding
                        <= old(self).width
                    && result@[i].y + result@[i].height + old(self).padding
                        <= old(self).height by {
                let k = choose|k: int| 0 <= k < final_slots.len()
                    && final_slots[k] == Some(#[trigger] compress(final_slots)[i]);
                assert(final_slots[k] is Some);
            }
        }
        result
    }
}


/// Largest right edge among the rectangles.
pub open spec fn max_right(rects: Seq<Rect>) -> int
    decreases rects.len(),
{
    if rects.len() == 0 {
        0
    } else {
        let m = max_right(rects.drop_last());
        let v = rects.last().x + rects.last().width;
        if v > m { v } else { m }
    }
}

/// Largest bottom edge among the rectangles.
pub open spec fn max_bottom(rects: Seq<Rect>) -> int
    decreases rects.len(),
{
    if rects.len() == 0 {
        0
    } else {
        let m = max_bottom(rects.drop_last());
        let v = rects.last().y + rects.last().height;
        if v > m { v } else { m }
    }
}

/// Total padding-inflated area of the inputs.
pub open spec fn total_inflated_area(sprites: Seq<SpriteInput>, padding: int) -> int
    decreases sprites.len(),
{
    if sprites.len() == 0 {
        0
    } else {
        total_inflated_area(sprites.drop_last(), padding)
            + inflated_area(sprites.last(), padding)
    }
}

/// The power-of-two canvas sides the optimal-size search tries.
pub open spec fn pot_sizes() -> Seq<int> {
    seq![128int, 256, 512, 1024, 2048, 4096]
}

impl MaxRectsPacker {
    /// Percentage of the canvas covered by the used rectangles, rounded
    /// down; an empty canvas rates 0.  Because used rectangles are
    /// disjoint and inside the canvas, the rate never exceeds 100, and
    /// it is exactly 100 when their areas sum to the canvas area.
    #[verifier::loop_isolation(false)]
    pub fn fill_rate(&self) -> (r: u32)
        requires
            self.wf(),
        ensures
            ({
                let total = self.width as int * self.height as int;
                let used = sum_areas(self.used_rects@);
                &&& total == 0 ==> r == 0
                &&& total > 0 ==> r == used * 100 / total
                &&& r <= 100
                &&& (total > 0 && used == total) ==> r == 100
            }),
    {
        proof {
            lemma_disjoint_rects_area_bound(self.used_rects@, self.width as int,
                self.height as int);
        }
        if self.width == 0 || self.height == 0 {
            proof {
                assert(self.width as int * self.height as int == 0) by (nonlinear_arith)
                    requires self.width == 0 || self.height == 0;
            }
            return 0;
        }
        proof {
            assert(self.width as int * self.height as int > 0) by (nonlinear_arith)
                requires self.width >= 1 && self.height >= 1;
            assert((self.width as int) * (self.height as int)
                <= 0xFFFF_FFFFint * 0xFFFF_FFFF) by (nonlinear_arith)
                requires self.width <= u32::MAX && self.height <= u32::MAX;
        }

        let n = self.used_rects.len();
        let mut sum: u128 = 0;
        let mut i: usize = 0;
        while i < n
            invariant
                i <= n,
                n == self.used_rects@.len(),
                sum as int == sum_areas(self.used_rects@.subrange(0, i as int)),
                sum as int <= self.width as int * self.height as int,
            decreases n - i,
        {
            let rect = self.used_rects[i];
            proof {
                let pre = self.used_rects@.subrange(0, i as int);
                let cur = self.used_rects@.subrange(0, i as int + 1);
                assert(cur.drop_last() =~= pre);
                assert(cur.last() == self.used_rects@[i as int]);
                lemma_disjoint_rects_area_bound(cur, self.width as int, self.height as int);
            }
            sum = sum + (rect.width as u128) * (rect.height as u128);
            i = i + 1;
        }
        proof {
            assert(self.used_rects@.subrange(0, n as int) =~= self.used_rects@);
        }

        let total: u128 = (self.width as u128) * (self.height as u128);
        let q: u128 = sum * 100 / total;
        proof {
            let used = sum as int;
            let tot = total as int;
            assert(used * 100 / tot <= 100) by (nonlinear_arith)
                requires 0 <= used <= tot && tot > 0;
            assert(tot * 100 / tot == 100) by (nonlinear_arith)
                requires tot > 0;
        }
        q as u32
    }

    /// The tight bounds of the used region: the largest right and bottom
    /// edges over the used rectangles, or `(0, 0)` when none is placed.
    #[verifier::loop_isolation(false)]
    pub fn actual_bounds(&self) -> (r: (u32, u32))
        requires
            self.wf(),
        ensures
            r.0 == max_right(self.used_rects@),
            r.1 == max_bottom(self.used_rects@),
    {
        let n = self.used_rects.len();
        let mut mx: u32 = 0;
        let mut my: u32 = 0;
        let mut i: usize = 0;
        while i < n
            invariant
                i <= n,
                n == self.used_rects@.len(),
                mx == max_right(self.used_rects@.subrange(0, i as int)),
                my == max_bottom(self.used_rects@.subrange(0, i as int)),
                mx <= self.width,
                my <= self.height,
            decreases n - i,
        {
            let rect = self.used_rects[i];
            proof {
                let pre = self.used_rects@.subrange(0, i as int);
                let cur = self.used_rects@.subrange(0, i as int + 1);
                assert(cur.drop_last() =~= pre);
                assert(cur.last() == self.used_rects@[i as int]);
            }
            let right = rect.x + rect.width;
            let bottom = rect.y + rect.height;
            if right > mx {
                mx = right;
            }
            if bottom > my {
                my = bottom;
            }
            i = i + 1;
        }
        proof {
            assert(self.used_rects@.subrange(0, n as int) =~= self.used_rects@);
        }
        (mx, my)
    }
}

/// Searches the power-of-two canvas sizes, squares first and then every
/// width-height combination, for one whose area covers the total
/// inflated sprite area and into which a full pack succeeds.
/// Whether a full pack into a fresh `w` by `h` canvas places every
/// sprite.
pub open spec fn packs_all(sprites: Seq<SpriteInput>, w: int, h: int, allow_rotation: bool,
    padding: int) -> bool {
    spec_pack_result(
        seq![(Rect { x: 0u32, y: 0u32, width: w as u32, height: h as u32 })],
        Seq::empty(),
        sprites,
        allow_rotation,
        padding,
    ).len() == sprites.len()
}

/// The square phase of the size search from candidate `i` on: the first
/// listed square whose area covers the total inflated area and into
/// which a full pack succeeds; the scan stops at the first size over
/// `max_size`.
pub open spec fn square_search(sprites: Seq<SpriteInput>, max_size: int, allow_rotation: bool,
    padding: int, i: int) -> Option<(int, int)>
    decreases pot_sizes().len() - i,
{
    if i < 0 || i >= pot_sizes().len() {
        None
    } else {
        let size = pot_sizes()[i];
        if size > max_size {
            None
        } else if size * size >= total_inflated_area(sprites, padding)
            && packs_all(sprites, size, size, allow_rotation, padding) {
            Some((size, size))
        } else {
            square_search(sprites, max_size, allow_rotation, padding, i + 1)
        }
    }
}

/// The pair phase: every width-height combination in list order,
/// skipping the oversize and the insufficient-area pairs; the first
/// full pack wins.
pub open spec fn pair_search(sprites: Seq<SpriteInput>, max_size: int, allow_rotation: bool,
    padding: int, wi: int, hi: int) -> Option<(int, int)>
    decreases pot_sizes().len() - wi, pot_sizes().len() - hi,
{
    if wi < 0 || wi >= pot_sizes().len() {
        None
    } else if hi < 0 || hi >= pot_sizes().len() {
        pair_search(sprites, max_size, allow_rotation, padding, wi + 1, 0)
    } else {
        let w = pot_sizes()[wi];
        let h = pot_sizes()[hi];
        if !(w > max_size || h > max_size)
            && w * h >= total_inflated_area(sprites, padding)
            && packs_all(sprites, w, h, allow_rotation, padding) {
            Some((w, h))
        } else {
            pair_search(sprites, max_size, allow_rotation, padding, wi, hi + 1)
        }
    }
}

/// The optimal-size search: the squares first, then the pairs.
pub open spec fn spec_optimal_size(sprites: Seq<SpriteInput>, max_size: int,
    allow_rotation: bool, padding: int) -> Option<(int, int)> {
    match square_search(sprites, max_size, allow_rotation, padding, 0) {
        Some(d) => Some(d),
        None => pair_search(sprites, max_size, allow_rotation, padding, 0, 0),
    }
}

#[verifier::loop_isolation(false)]
pub fn find_optimal_size(
    sprites: &[SpriteInput],
    max_size: u32,
    allow_rotation: bool,
    padding: u32,
) -> (r: Option<(u32, u32)>)
    requires
        forall|k: int| 0 <= k < sprites@.len()
            ==> (#[trigger] sprites@[k]).width + padding <= u32::MAX
                && sprites@[k].height + padding <= u32::MAX,
    ensures
        ({
            let model = spec_optimal_size(sprites@, max_size as int, allow_rotation,
                padding as int);
            match r {
                Some(dims) => model == Some((dims.0 as int, dims.1 as int)),
                None => model is None,
            }
        }),
        match r {
            Some(dims) => {
                &&& pot_sizes().contains(dims.0 as int)
                &&& pot_sizes().contains(dims.1 as int)
                &&& dims.0 <= max_size
                &&& dims.1 <= max_size
                &&& dims.0 as int * dims.1 as int
                    >= total_inflated_area(sprites@, padding as int)
                &&& packs_all(sprites@, dims.0 as int, dims.1 as int, allow_rotation,
                    padding as int)
            },
            None => true,
        },
{
    let n = sprites.len();
    let mut total: u128 = 0;
    let mut i: usize = 0;
    while i < n
        invariant
            i <= n,
            n == sprites@.len(),
            total as int == total_inflated_area(sprites@.subrange(0, i as int), padding as int),
            total as int <= i as int * 0xFFFF_FFFF_FFFF_FFFF,
        decreases n - i,
    {
        let key = area_key(&sprites[i], padding);
        proof {
            let pre = sprites@.subrange(0, i as int);
            let cur = sprites@.subrange(0, i as int + 1);
            assert(cur.drop_last() =~= pre);
            assert(cur.last() == sprites@[i as int]);
            assert(total as int + key as int <= (i as int + 1) * 0xFFFF_FFFF_FFFF_FFFF)
                by (nonlinear_arith)
                requires
                    total as int <= i as int * 0xFFFF_FFFF_FFFF_FFFF,
                    key as int <= 0xFFFF_FFFF_FFFF_FFFF,
                    i >= 0;
            assert((n as int) * 0xFFFF_FFFF_FFFF_FFFF < 0x1_0000_0000_0000_0000_0000_0000_0000_0000)
                by (nonlinear_arith)
                requires n as int <= 0xFFFF_FFFF_FFFF_FFFF;
        }
        total = total + key as u128;
        i = i + 1;
    }
    proof {
        assert(sprites@.subrange(0, n as int) =~= sprites@);
    }

    let sizes: Vec<u32> = vec![128, 256, 512, 1024, 2048, 4096];
    proof {
        assert(sizes@.len() == pot_sizes().len());
        assert(forall|k: int| 0 <= k < sizes@.len() ==> sizes@[k] as int == pot_sizes()[k]);
    }

    let ghost sq_target = square_search(sprites@, max_size as int, allow_rotation,
        padding as int, 0);
    let mut si: usize = 0;
    let mut over: bool = false;
    while si < sizes.len() && !over
        invariant
            si <= sizes@.len(),
            total as int == total_inflated_area(sprites@, padding as int),
            over ==> sq_target is None,
            !over ==> square_search(sprites@, max_size as int, allow_rotation,
                padding as int, si as int) == sq_target,
        decreases sizes@.len() - si + (if over { 0int } else { 1int }),
    {
        let size = sizes[si];
        if size > max_size {
            over = true;
        } else {
            proof {
                assert((size as int) * (size as int)
                    < 0x1_0000_0000_0000_0000_0000_0000_0000_0000) by (nonlinear_arith)
                    requires size <= u32::MAX;
            }
            if (size as u128) * (size as u128) >= total {
                let mut packer = MaxRectsPacker::new(size, size, allow_rotation, padding);
                proof {
                    assert(packer.used_rects@ =~= Seq::<Rect>::empty());
                    assert(packer.free_rects@ =~= seq![(Rect {
                        x: 0u32,
                        y: 0u32,
                        width: (size as int) as u32,
                        height: (size as int) as u32,
                    })]);
                }
                let result = packer.pack(sprites);
                if result.len() == sprites.len() {
                    proof {
                        assert(pot_sizes().contains(size as int));
                        assert(packs_all(sprites@, size as int, size as int, allow_rotation,
                            padding as int));
                        assert(sq_target == Some((size as int, size as int)));
                    }
                    return Some((size, size));
                }
                proof {
                    assert(!packs_all(sprites@, size as int, size as int, allow_rotation,
                        padding as int));
                }
            }
            si = si + 1;
        }
    }
    proof {
        assert(sq_target is None);
    }

    let ghost pr_target = pair_search(sprites@, max_size as int, allow_rotation,
        padding as int, 0, 0);
    let mut wi: usize = 0;
    while wi < sizes.len()
        invariant
            wi <= sizes@.len(),
            total as int == total_inflated_area(sprites@, padding as int),
            sq_target is None,
            pair_search(sprites@, max_size as int, allow_rotation, padding as int,
                wi as int, 0) == pr_target,
        decreases sizes@.len() - wi,
    {
        let width = sizes[wi];
        let mut hi: usize = 0;
        while hi < sizes.len()
            invariant
                wi < sizes@.len(),
                hi <= sizes@.len(),
                width == sizes@[wi as int],
                total as int == total_inflated_area(sprites@, padding as int),
                sq_target is None,
                pair_search(sprites@, max_size as int, allow_rotation, padding as int,
                    wi as int, hi as int) == pr_target,
            decreases sizes@.len() - hi,
        {
            let height = sizes[hi];
            proof {
                assert((width as int) * (height as int)
                    < 0x1_0000_0000_0000_0000_0000_0000_0000_0000) by (nonlinear_arith)
                    requires width <= u32::MAX && height <= u32::MAX;
            }
            if !(width > max_size || height > max_size)
                && (width as u128) * (height as u128) >= total {
                let mut packer = MaxRectsPacker::new(width, height, allow_rotation, padding);
                proof {
                    assert(packer.used_rects@ =~= Seq::<Rect>::empty());
                    assert(packer.free_rects@ =~= seq![(Rect {
                        x: 0u32,
                        y: 0u32,
                        width: (width as int) as u32,
                        height: (height as int) as u32,
                    })]);
                }
                let result = packer.pack(sprites);
                if result.len() == sprites.len() {
                    proof {
                        assert(pot_sizes().contains(width as int));
                        assert(pot_sizes().contains(height as int));
                        assert(packs_all(sprites@, width as int, height as int,
                            allow_rotation, padding as int));
                        assert(pr_target == Some((width as int, height as int)));
                    }
                    return Some((width, height));
                }
                proof {
                    assert(!packs_all(sprites@, width as int, height as int, allow_rotation,
                        padding as int));
                }
            }
            hi = hi + 1;
        }
        wi = wi + 1;
    }
    proof {
        assert(pr_target is None);
    }
    None
}

} // verus!


