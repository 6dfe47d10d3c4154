//! Transparent-border trimmer.
//!
//! Scans a raster from all four sides for the first row/column that is not
//! fully transparent (alpha above 1) and crops the image to that tight
//! bounding box, together with the centering offset the Cocos2d-x plist
//! format expects.

use vstd::prelude::*;
use crate::raster::{Raster, crop_pixels, lemma_crop_pixels, lemma_crop_full};

verus! {

/// Alpha values at or below this count as transparent when trimming.
pub const ALPHA_THRESHOLD: u8 = 1;

/// Result of trimming one raster.
#[derive(Clone)]
pub struct TrimResult {
    /// The cropped raster.
    pub trimmed_image: Raster,
    /// Offset of the trimmed center relative to the original center;
    /// the Y axis is inverted to match the engine's upward Y axis.
    pub offset_x: i32,
    pub offset_y: i32,
    /// Dimensions before the trim.
    pub original_width: u32,
    pub original_height: u32,
    /// Dimensions after the trim.
    pub trimmed_width: u32,
    pub trimmed_height: u32,
    /// Pixel bounds of the opaque region.
    pub trim_bounds: TrimBounds,
}

/// Pixel bounds `(left, top, right, bottom)`; `right` and `bottom` are one
/// past the last opaque column/row.
#[derive(Debug, Clone, Copy, PartialEq, Eq, Structural)]
pub struct TrimBounds {
    pub left: u32,
    pub top: u32,
    pub right: u32,
    pub bottom: u32,
}

/// Smallest `y` in `[start, end)` whose row is not fully transparent,
/// or `end` when every row in the range is transparent.
pub open spec fn first_opaque_row_from(img: Raster, start: int, end: int, thr: u8) -> int
    decreases end - start,
{
    if start >= end {
        end
    } else if !img.spec_row_transparent(start, thr) {
        start
    } else {
        first_opaque_row_from(img, start + 1, end, thr)
    }
}

/// One past the largest `y` in `[start, end)` whose row is not fully
/// transparent, or `start` when every row in the range is transparent.
pub open spec fn last_opaque_row_from(img: Raster, start: int, end: int, thr: u8) -> int
    decreases end - start,
{
    if start >= end {
        start
    } else if !img.spec_row_transparent(end - 1, thr) {
        end
    } else {
        last_opaque_row_from(img, start, end - 1, thr)
    }
}

/// Column counterpart of `first_opaque_row_from`.
pub open spec fn first_opaque_col_from(img: Raster, start: int, end: int, thr: u8) -> int
    decreases end - start,
{
    if start >= end {
        end
    } else if !img.spec_col_transparent(start, thr) {
        start
    } else {
        first_opaque_col_from(img, start + 1, end, thr)
    }
}

/// Column counterpart of `last_opaque_row_from`.
pub open spec fn last_opaque_col_from(img: Raster, start: int, end: int, thr: u8) -> int
    decreases end - start,
{
    if start >= end {
        start
    } else if !img.spec_col_transparent(end - 1, thr) {
        end
    } else {
        last_opaque_col_from(img, start, end - 1, thr)
    }
}

/// The tight opaque bounds `(l, t, r, b)` of the whole raster.
pub open spec fn trim_bounds_spec(img: Raster, thr: u8) -> (int, int, int, int) {
    (
        first_opaque_col_from(img, 0, img.spec_width(), thr),
        first_opaque_row_from(img, 0, img.spec_height(), thr),
        last_opaque_col_from(img, 0, img.spec_width(), thr),
        last_opaque_row_from(img, 0, img.spec_height(), thr),
    )
}

/// `n/2` rounded half away from zero, the rounding `f32::round` applies to
/// the centering arithmetic.
pub open spec fn round_half_away(n: int) -> int {
    if n >= 0 {
        (n + 1) / 2
    } else {
        -((-n + 1) / 2)
    }
}

pub proof fn lemma_first_opaque_row_props(img: Raster, start: int, end: int, thr: u8)
    requires
        start <= end,
    ensures
        start <= first_opaque_row_from(img, start, end, thr) <= end,
        first_opaque_row_from(img, start, end, thr) < end
            ==> !img.spec_row_transparent(first_opaque_row_from(img, start, end, thr), thr),
        forall|y: int| start <= y < first_opaque_row_from(img, start, end, thr)
            ==> img.spec_row_transparent(y, thr),
    decreases end - start,
{
    if start < end && img.spec_row_transparent(start, thr) {
        lemma_first_opaque_row_props(img, start + 1, end, thr);
    }
}

pub proof fn lemma_last_opaque_row_props(img: Raster, start: int, end: int, thr: u8)
    requires
        start <= end,
    ensures
        start <= last_opaque_row_from(img, start, end, thr) <= end,
        last_opaque_row_from(img, start, end, thr) > start
            ==> !img.spec_row_transparent(last_opaque_row_from(img, start, end, thr) - 1, thr),
        forall|y: int| last_opaque_row_from(img, start, end, thr) <= y < end
            ==> img.spec_row_transparent(y, thr),
    decreases end - start,
{
    if start < end && img.spec_row_transparent(end - 1, thr) {
        lemma_last_opaque_row_props(img, start, end - 1, thr);
    }
}

pub proof fn lemma_first_opaque_col_props(img: Raster, start: int, end: int, thr: u8)
    requires
        start <= end,
    ensures
        start <= first_opaque_col_from(img, start, end, thr) <= end,
        first_opaque_col_from(img, start, end, thr) < end
            ==> !img.spec_col_transparent(first_opaque_col_from(img, start, end, thr), thr),
        forall|x: int| start <= x < first_opaque_col_from(img, start, end, thr)
            ==> img.spec_col_transparent(x, thr),
    decreases end - start,
{
    if start < end && img.spec_col_transparent(start, thr) {
        lemma_first_opaque_col_props(img, start + 1, end, thr);
    }
}

pub proof fn lemma_last_opaque_col_props(img: Raster, start: int, end: int, thr: u8)
    requires
        start <= end,
    ensures
        start <= last_opaque_col_from(img, start, end, thr) <= end,
        last_opaque_col_from(img, start, end, thr) > start
            ==> !img.spec_col_transparent(last_opaque_col_from(img, start, end, thr) - 1, thr),
        forall|x: int| last_opaque_col_from(img, start, end, thr) <= x < end
            ==> img.spec_col_transparent(x, thr),
    decreases end - start,
{
    if start < end && img.spec_col_transparent(end - 1, thr) {
        lemma_last_opaque_col_props(img, start, end - 1, thr);
    }
}

/// Scans rows `start..end` top to bottom for the first one that is not
/// fully transparent.
pub fn find_first_opaque_row(img: &Raster, start: u32, end: u32) -> (r: u32)
    requires
        img.wf(),
        start <= end <= img.spec_height(),
    ensures
        r == first_opaque_row_from(*img, start as int, end as int, ALPHA_THRESHOLD),
{
    let mut y: u32 = start;
    while y < end
        invariant
            img.wf(),
            start <= y <= end <= img.spec_height(),
            first_opaque_row_from(*img, start as int, end as int, ALPHA_THRESHOLD)
                == first_opaque_row_from(*img, y as int, end as int, ALPHA_THRESHOLD),
        decreases end - y,
    {
        if !img.is_row_transparent(y, ALPHA_THRESHOLD) {
            return y;
        }
        y = y + 1;
    }
    end
}

/// Scans rows `start..end` bottom to top; returns one past the last row
/// that is not fully transparent.
pub fn find_last_opaque_row(img: &Raster, start: u32, end: u32) -> (r: u32)
    requires
        img.wf(),
        start <= end <= img.spec_height(),
    ensures
        r == last_opaque_row_from(*img, start as int, end as int, ALPHA_THRESHOLD),
{
    let mut y: u32 = end;
    while y > start
        invariant
            img.wf(),
            start <= y <= end <= img.spec_height(),
            last_opaque_row_from(*img, start as int, end as int, ALPHA_THRESHOLD)
                == last_opaque_row_from(*img, start as int, y as int, ALPHA_THRESHOLD),
        decreases y,
    {
        if !img.is_row_transparent(y - 1, ALPHA_THRESHOLD) {
            return y;
        }
        y = y - 1;
    }
    start
}

/// Column counterpart of `find_first_opaque_row`.
pub fn find_first_opaque_col(img: &Raster, start: u32, end: u32) -> (r: u32)
    requires
        img.wf(),
        start <= end <= img.spec_width(),
    ensures
        r == first_opaque_col_from(*img, start as int, end as int, ALPHA_THRESHOLD),
{
    let mut x: u32 = start;
    while x < end
        invariant
            img.wf(),
            start <= x <= end <= img.spec_width(),
            first_opaque_col_from(*img, start as int, end as int, ALPHA_THRESHOLD)
                == first_opaque_col_from(*img, x as int, end as int, ALPHA_THRESHOLD),
        decreases end - x,
    {
        if !img.is_col_transparent(x, ALPHA_THRESHOLD) {
            return x;
        }
        x = x + 1;
    }
    end
}

/// Column counterpart of `find_last_opaque_row`.
pub fn find_last_opaque_col(img: &Raster, start: u32, end: u32) -> (r: u32)
    requires
        img.wf(),
        start <= end <= img.spec_width(),
    ensures
        r == last_opaque_col_from(*img, start as int, end as int, ALPHA_THRESHOLD),
{
    let mut x: u32 = end;
    while x > start
        invariant
            img.wf(),
            start <= x <= end <= img.spec_width(),
            last_opaque_col_from(*img, start as int, end as int, ALPHA_THRESHOLD)
                == last_opaque_col_from(*img, start as int, x as int, ALPHA_THRESHOLD),
        decreases x,
    {
        if !img.is_col_transparent(x - 1, ALPHA_THRESHOLD) {
            return x;
        }
        x = x - 1;
    }
    start
}

/// `n/2` rounded half away from zero, on the doubled value `n`.
fn round_half_div2(n: i64) -> (r: i64)
    requires
        -0x2_0000_0000 <= n <= 0x2_0000_0000,
    ensures
        r == round_half_away(n as int),
{
    if n >= 0 {
        (n + 1) / 2
    } else {
        let m = -n;
        -((m + 1) / 2)
    }
}

/// Trims the fully transparent border of `img`.
///
/// An empty raster comes back unchanged; a fully transparent one becomes a
/// 1x1 placeholder with zero offsets; otherwise the result is the crop to
/// the tight opaque bounds `(l, t, r, b)` with the centering offset
/// `(round((l+r-W)/2), -round((t+b-H)/2))`, rounding half away from zero.
pub fn trim_transparent(img: &Raster) -> (res: TrimResult)
    requires
        img.wf(),
    ensures
        res.original_width == img.spec_width(),
        res.original_height == img.spec_height(),
        res.trimmed_image.wf(),
        res.trimmed_image.spec_width() == res.trimmed_width,
        res.trimmed_image.spec_height() == res.trimmed_height,
        (img.spec_width() == 0 || img.spec_height() == 0) ==> {
            &&& res.trimmed_width == img.spec_width()
            &&& res.trimmed_height == img.spec_height()
            &&& res.offset_x == 0 && res.offset_y == 0
            &&& res.trim_bounds == (TrimBounds { left: 0, top: 0, right: img.width, bottom: img.height })
            &&& res.trimmed_image.pixels@ == img.pixels@
        },
        (img.spec_width() > 0 && img.spec_height() > 0) ==> {
            let (l, t, r, b) = trim_bounds_spec(*img, ALPHA_THRESHOLD);
            if t >= b || l >= r {
                &&& res.trimmed_width == 1 && res.trimmed_height == 1
                &&& res.offset_x == 0 && res.offset_y == 0
                &&& res.trim_bounds == (TrimBounds { left: 0, top: 0, right: 1, bottom: 1 })
                &&& forall|x: int, y: int, c: int|
                        0 <= x < 1 && 0 <= y < 1 && 0 <= c < 4
                            ==> res.trimmed_image.pix(x, y, c) == 0
            } else {
                &&& res.trim_bounds == (TrimBounds { left: l as u32, top: t as u32, right: r as u32, bottom: b as u32 })
                &&& res.trimmed_width == r - l
                &&& res.trimmed_height == b - t
                &&& res.trimmed_image.pixels@ == crop_pixels(*img, l, t, r, b)
                &&& res.offset_x == round_half_away(l + r - img.spec_width())
                &&& res.offset_y == -round_half_away(t + b - img.spec_height())
            }
        },
{
    let width = img.width();
    let height = img.height();

    if width == 0 || height == 0 {
        proof {
            assert(4 * (width as int) * (height as int) == 0) by (nonlinear_arith)
                requires width == 0 || height == 0;
            assert(img.pixels@.len() == 0);
        }
        let empty = Raster::new(width, height);
        proof {
            assert(empty.pixels@ =~= img.pixels@);
        }
        return TrimResult {
            trimmed_image: empty,
            offset_x: 0,
            offset_y: 0,
            original_width: width,
            original_height: height,
            trimmed_width: width,
            trimmed_height: height,
            trim_bounds: TrimBounds { left: 0, top: 0, right: width, bottom: height },
        };
    }

    let top = find_first_opaque_row(img, 0, height);
    let bottom = find_last_opaque_row(img, 0, height);
    let left = find_first_opaque_col(img, 0, width);
    let right = find_last_opaque_col(img, 0, width);
    proof {
        lemma_first_opaque_row_props(*img, 0, height as int, ALPHA_THRESHOLD);
        lemma_last_opaque_row_props(*img, 0, height as int, ALPHA_THRESHOLD);
        lemma_first_opaque_col_props(*img, 0, width as int, ALPHA_THRESHOLD);
        lemma_last_opaque_col_props(*img, 0, width as int, ALPHA_THRESHOLD);
    }

    if top >= bottom || left >= right {
        return TrimResult {
            trimmed_image: Raster::new(1, 1),
            offset_x: 0,
            offset_y: 0,
            original_width: width,
            original_height: height,
            trimmed_width: 1,
            trimmed_height: 1,
            trim_bounds: TrimBounds { left: 0, top: 0, right: 1, bottom: 1 },
        };
    }

    let trimmed_width = right - left;
    let trimmed_height = bottom - top;

    let dx = (left as i64) + (right as i64) - (width as i64);
    let dy = (top as i64) + (bottom as i64) - (height as i64);
    let offset_x = round_half_div2(dx);
    let offset_y_neg = round_half_div2(dy);
    let trimmed_image = img.crop(left, top, right, bottom);

    TrimResult {
        trimmed_image,
        offset_x: offset_x as i32,
        offset_y: (-offset_y_neg) as i32,
        original_width: width,
        original_height: height,
        trimmed_width,
        trimmed_height,
        trim_bounds: TrimBounds { left, top, right, bottom },
    }
}


/// Law: trimming is idempotent.  `c` stands for the raster a nontrivial
/// trim of `img` produced; trimming `c` again finds the full extent, and
/// cropping `c` to that extent reproduces `c`'s pixels unchanged.
pub proof fn lemma_trim_idempotent(img: Raster, c: Raster)
    requires
        img.wf(),
        img.spec_width() > 0,
        img.spec_height() > 0,
        ({
            let (l, t, r, b) = trim_bounds_spec(img, ALPHA_THRESHOLD);
            &&& l < r
            &&& t < b
            &&& c.spec_width() == r - l
            &&& c.spec_height() == b - t
            &&& c.pixels@ == crop_pixels(img, l, t, r, b)
        }),
    ensures
        c.wf(),
        trim_bounds_spec(c, ALPHA_THRESHOLD) == (0int, 0int, c.spec_width(), c.spec_height()),
        crop_pixels(c, 0, 0, c.spec_width(), c.spec_height()) == c.pixels@,
{
    let thr = ALPHA_THRESHOLD;
    let w = img.spec_width();
    let h = img.spec_height();
    let (l, t, r, b) = trim_bounds_spec(img, thr);
    let cw = r - l;
    let ch = b - t;
    lemma_first_opaque_row_props(img, 0, h, thr);
    lemma_last_opaque_row_props(img, 0, h, thr);
    lemma_first_opaque_col_props(img, 0, w, thr);
    lemma_last_opaque_col_props(img, 0, w, thr);
    lemma_crop_pixels(img, l, t, r, b);
    assert(c.pixels@.len() == 4 * cw * ch);
    assert(c.wf()) by (nonlinear_arith)
        requires
            c.pixels@.len() == 4 * cw * ch,
            c.spec_width() == cw,
            c.spec_height() == ch;
    assert forall|x: int, y: int, cc: int|
        0 <= x < cw && 0 <= y < ch && 0 <= cc < 4
            implies #[trigger] c.pix(x, y, cc) == img.pix(l + x, t + y, cc) by {
        assert(c.pix_index(x, y, cc) == 4 * (y * cw + x) + cc);
    }

    // Row 0 of `c` is img's row t, which is not fully transparent; the
    // opaque pixel cannot sit in a transparent column, so it lies in [l, r).
    assert(!img.spec_row_transparent(t, thr));
    let x0 = choose|x: int| 0 <= x < w && #[trigger] img.alpha(x, t) > thr;
    assert(l <= x0 < r) by {
        if x0 < l {
            assert(img.spec_col_transparent(x0, thr));
        }
        if x0 >= r {
            assert(img.spec_col_transparent(x0, thr));
        }
    }
    assert(!c.spec_row_transparent(0, thr)) by {
        assert(c.pix(x0 - l, 0, 3) == img.pix(l + (x0 - l), t + 0, 3));
        assert(c.alpha(x0 - l, 0) > thr);
    }
    assert(first_opaque_row_from(c, 0, ch, thr) == 0);

    // Row ch-1 of `c` is img's row b-1.
    assert(!img.spec_row_transparent(b - 1, thr));
    let x1 = choose|x: int| 0 <= x < w && #[trigger] img.alpha(x, b - 1) > thr;
    assert(l <= x1 < r) by {
        if x1 < l {
            assert(img.spec_col_transparent(x1, thr));
        }
        if x1 >= r {
            assert(img.spec_col_transparent(x1, thr));
        }
    }
    assert(!c.spec_row_transparent(ch - 1, thr)) by {
        assert(c.pix(x1 - l, ch - 1, 3) == img.pix(l + (x1 - l), t + (ch - 1), 3));
        assert(c.alpha(x1 - l, ch - 1) > thr);
    }
    assert(last_opaque_row_from(c, 0, ch, thr) == ch);

    // Column 0 of `c` is img's column l.
    assert(!img.spec_col_transparent(l, thr));
    let y0 = choose|y: int| 0 <= y < h && #[trigger] img.alpha(l, y) > thr;
    assert(t <= y0 < b) by {
        if y0 < t {
            assert(img.spec_row_transparent(y0, thr));
        }
        if y0 >= b {
            assert(img.spec_row_transparent(y0, thr));
        }
    }
    assert(!c.spec_col_transparent(0, thr)) by {
        assert(c.pix(0, y0 - t, 3) == img.pix(l + 0, t + (y0 - t), 3));
        assert(c.alpha(0, y0 - t) > thr);
    }
    assert(first_opaque_col_from(c, 0, cw, thr) == 0);

    // Column cw-1 of `c` is img's column r-1.
    assert(!img.spec_col_transparent(r - 1, thr));
    let y1 = choose|y: int| 0 <= y < h && #[trigger] img.alpha(r - 1, y) > thr;
    assert(t <= y1 < b) by {
        if y1 < t {
            assert(img.spec_row_transparent(y1, thr));
        }
        if y1 >= b {
            assert(img.spec_row_transparent(y1, thr));
        }
    }
    assert(!c.spec_col_transparent(cw - 1, thr)) by {
        assert(c.pix(cw - 1, y1 - t, 3) == img.pix(l + (cw - 1), t + (y1 - t), 3));
        assert(c.alpha(cw - 1, y1 - t) > thr);
    }
    assert(last_opaque_col_from(c, 0, cw, thr) == cw);

    lemma_crop_full(c);
}

/// Law: a fully opaque raster trims to its full extent, the centering
/// offsets are zero, and the crop reproduces the original pixels.
pub proof fn lemma_trim_fully_opaque(img: Raster)
    requires
        img.wf(),
        img.spec_width() > 0,
        img.spec_height() > 0,
        forall|x: int, y: int|
            0 <= x < img.spec_width() && 0 <= y < img.spec_height()
                ==> #[trigger] img.alpha(x, y) > ALPHA_THRESHOLD,
    ensures
        trim_bounds_spec(img, ALPHA_THRESHOLD)
            == (0int, 0int, img.spec_width(), img.spec_height()),
        round_half_away(0 + img.spec_width() - img.spec_width()) == 0,
        -round_half_away(0 + img.spec_height() - img.spec_height()) == 0,
        crop_pixels(img, 0, 0, img.spec_width(), img.spec_height()) == img.pixels@,
{
    let thr = ALPHA_THRESHOLD;
    let w = img.spec_width();
    let h = img.spec_height();
    assert(!img.spec_row_transparent(0, thr)) by {
        assert(img.alpha(0, 0) > thr);
    }
    assert(!img.spec_row_transparent(h - 1, thr)) by {
        assert(img.alpha(0, h - 1) > thr);
    }
    assert(!img.spec_col_transparent(0, thr)) by {
        assert(img.alpha(0, 0) > thr);
    }
    assert(!img.spec_col_transparent(w - 1, thr)) by {
        assert(img.alpha(w - 1, 0) > thr);
    }
    assert(first_opaque_row_from(img, 0, h, thr) == 0);
    assert(last_opaque_row_from(img, 0, h, thr) == h);
    assert(first_opaque_col_from(img, 0, w, thr) == 0);
    assert(last_opaque_col_from(img, 0, w, thr) == w);
    lemma_crop_full(img);
}

} // verus!

