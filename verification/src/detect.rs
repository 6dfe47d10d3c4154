//! Grid auto-detector.
//!
//! Given an unknown sprite sheet, infers the frame grid.  The strategies,
//! first success wins: alpha-gap runs over the raster (confidence 95),
//! square frames from the short axis (75), a sweep of common frame sizes
//! (70), a factor search along the width (65), and a GCD fallback (50).

use vstd::prelude::*;
use vstd::arithmetic::div_mod::{lemma_fundamental_div_mod, lemma_fundamental_div_mod_converse};
use crate::raster::Raster;

verus! {

/// Alpha values at or below this count as transparent when detecting
/// frame gaps; more tolerant than the trimmer's threshold.
pub const DETECT_ALPHA_THRESHOLD: u8 = 10;

/// An inferred frame grid with a confidence score in percent.
#[derive(Debug, Clone, Copy, PartialEq, Eq, Structural)]
pub struct AutoDetectResult {
    pub frame_width: u32,
    pub frame_height: u32,
    pub rows: u32,
    pub cols: u32,
    /// 0 to 100; higher strategies are more trustworthy.
    pub confidence: u32,
}

/// Transparency flag of every column: `true` means fully transparent.
pub open spec fn col_flags(img: Raster, thr: u8) -> Seq<bool> {
    Seq::new(img.spec_width() as nat, |x: int| img.spec_col_transparent(x, thr))
}

/// Transparency flag of every row: `true` means fully transparent.
pub open spec fn row_flags(img: Raster, thr: u8) -> Seq<bool> {
    Seq::new(img.spec_height() as nat, |y: int| img.spec_row_transparent(y, thr))
}

/// Number of maximal runs of content (`false`) entries from `i` on, given
/// whether position `i` continues a run already under way.
pub open spec fn run_count_from(s: Seq<bool>, i: int, in_content: bool) -> int
    decreases s.len() - i,
{
    if i < 0 || i >= s.len() {
        0
    } else if !s[i] && !in_content {
        1 + run_count_from(s, i + 1, true)
    } else {
        run_count_from(s, i + 1, !s[i])
    }
}

/// Number of maximal contiguous stretches of content (`false`) entries.
pub open spec fn run_count(s: Seq<bool>) -> int {
    run_count_from(s, 0, false)
}

/// What the alpha-gap strategy concludes from the sheet size and the two
/// content-run counts.
pub open spec fn detect_by_transparency_spec(w: int, h: int, cols: int, rows: int)
    -> Option<(int, int, int, int)> {
    if cols >= 1 && rows >= 1 && (cols >= 2 || rows >= 2)
        && w / cols >= 16 && h / rows >= 16 {
        Some((w / cols, h / rows, rows, cols))
    } else if rows == 1 && cols >= 2 && w / cols >= 16 {
        Some((w / cols, h, 1int, cols))
    } else if cols == 1 && rows >= 2 && h / rows >= 16 {
        Some((w, h / rows, rows, 1int))
    } else {
        None
    }
}

/// Counts the maximal contiguous stretches of content (non-transparent)
/// entries of a transparency-flag slice.
pub fn count_content_regions(transparent: &[bool]) -> (count: u32)
    requires
        transparent@.len() <= u32::MAX,
    ensures
        count == run_count(transparent@),
{
    let n: usize = transparent.len();
    let mut count: u32 = 0;
    let mut in_content: bool = false;
    let mut i: usize = 0;
    while i < n
        invariant
            n == transparent@.len() <= u32::MAX,
            i <= n,
            count <= i,
            run_count(transparent@) == count + run_count_from(transparent@, i as int, in_content),
        decreases n - i,
    {
        if !transparent[i] {
            if !in_content {
                count = count + 1;
                in_content = true;
            }
        } else {
            in_content = false;
        }
        i = i + 1;
    }
    count
}

/// Scans the raster's columns and rows for fully transparent gaps and
/// derives the grid from the content-run counts, as
/// `detect_by_transparency_spec` states.
pub fn detect_frames_by_transparency(img: &Raster) -> (r: Option<(u32, u32, u32, u32)>)
    requires
        img.wf(),
        img.spec_width() >= 1,
        img.spec_height() >= 1,
    ensures
        ({
            let spec = detect_by_transparency_spec(
                img.spec_width(),
                img.spec_height(),
                run_count(col_flags(*img, DETECT_ALPHA_THRESHOLD)),
                run_count(row_flags(*img, DETECT_ALPHA_THRESHOLD)),
            );
            match r {
                Some((fw, fh, rows, cols)) =>
                    spec == Some((fw as int, fh as int, rows as int, cols as int)),
                None => spec is None,
            }
        }),
{
    let width = img.width();
    let height = img.height();

    let mut col_transparent: Vec<bool> = Vec::new();
    let mut x: u32 = 0;
    while x < width
        invariant
            img.wf(),
            width == img.spec_width(),
            height == img.spec_height(),
            x <= width,
            col_transparent@.len() == x,
            forall|xx: int| 0 <= xx < x
                ==> col_transparent@[xx] == img.spec_col_transparent(xx, DETECT_ALPHA_THRESHOLD),
        decreases width - x,
    {
        let t = img.is_col_transparent(x, DETECT_ALPHA_THRESHOLD);
        col_transparent.push(t);
        x = x + 1;
    }
    proof {
        assert(col_transparent@ =~= col_flags(*img, DETECT_ALPHA_THRESHOLD));
    }

    let mut row_transparent: Vec<bool> = Vec::new();
    let mut y: u32 = 0;
    while y < height
        invariant
            img.wf(),
            width == img.spec_width(),
            height == img.spec_height(),
            y <= height,
            row_transparent@.len() == y,
            forall|yy: int| 0 <= yy < y
                ==> row_transparent@[yy] == img.spec_row_transparent(yy, DETECT_ALPHA_THRESHOLD),
        decreases height - y,
    {
        let t = img.is_row_transparent(y, DETECT_ALPHA_THRESHOLD);
        row_transparent.push(t);
        y = y + 1;
    }
    proof {
        assert(row_transparent@ =~= row_flags(*img, DETECT_ALPHA_THRESHOLD));
    }

    let cols = count_content_regions(col_transparent.as_slice());
    let rows = count_content_regions(row_transparent.as_slice());

    if cols >= 1 && rows >= 1 && (cols >= 2 || rows >= 2) {
        let frame_width = width / cols;
        let frame_height = height / rows;
        if frame_width >= 16 && frame_height >= 16 {
            return Some((frame_width, frame_height, rows, cols));
        }
    }
    if rows == 1 && cols >= 2 {
        let frame_width = width / cols;
        if frame_width >= 16 {
            return Some((frame_width, height, 1, cols));
        }
    }
    if cols == 1 && rows >= 2 {
        let frame_height = height / rows;
        if frame_height >= 16 {
            return Some((width, frame_height, rows, 1));
        }
    }
    None
}

/// The ordered list of common pixel frame sizes the sweep tries.
pub open spec fn common_sizes() -> Seq<int> {
    seq![128int, 64, 96, 48, 32, 256, 16, 192, 512, 24]
}

/// First size from `common_sizes()[i..]` that divides both dimensions
/// with both quotients in `[1, 50]`.
pub open spec fn common_size_at(w: int, h: int, i: int) -> Option<int>
    decreases common_sizes().len() - i,
{
    if i < 0 || i >= common_sizes().len() {
        None
    } else {
        let s = common_sizes()[i];
        if h % s == 0 && w % s == 0 && 1 <= h / s <= 50 && 1 <= w / s <= 50 {
            Some(s)
        } else {
            common_size_at(w, h, i + 1)
        }
    }
}

/// Largest factor of `w` in `[32, f]` whose quotient is in `[1, 50]`.
pub open spec fn factor_search(w: int, f: int) -> Option<int>
    decreases f,
{
    if f < 32 {
        None
    } else if w % f == 0 && 1 <= w / f <= 50 {
        Some(f)
    } else {
        factor_search(w, f - 1)
    }
}

/// Euclid's greatest common divisor.
pub open spec fn spec_gcd(a: int, b: int) -> int
    decreases b,
{
    if b <= 0 {
        a
    } else {
        spec_gcd(b, a % b)
    }
}

/// What the purely arithmetic strategy chain concludes from the sheet
/// size alone: `(frame_width, frame_height, rows, cols, confidence)`.
pub open spec fn auto_detect_math_spec(w: int, h: int) -> Option<(int, int, int, int, int)> {
    if h <= 256 && w % h == 0 && 1 <= w / h <= 50 {
        Some((h, h, 1int, w / h, 75int))
    } else if common_size_at(w, h, 0) is Some {
        let s = common_size_at(w, h, 0)->0;
        Some((s, s, h / s, w / s, 70int))
    } else if h <= 256 && factor_search(w, 256) is Some {
        let f = factor_search(w, 256)->0;
        Some((f, h, 1int, w / f, 65int))
    } else {
        let g = spec_gcd(w, h);
        if 16 <= g <= 512 && 1 <= h / g <= 50 && 1 <= w / g <= 50 {
            Some((g, g, h / g, w / g, 50int))
        } else {
            None
        }
    }
}

/// Greatest common divisor of two dimensions.
pub fn gcd(a: u32, b: u32) -> (g: u32)
    ensures
        g == spec_gcd(a as int, b as int),
    decreases b,
{
    if b == 0 {
        a
    } else {
        gcd(b, a % b)
    }
}

/// All factors of `n`, in increasing order.
pub fn find_factors(n: u32) -> (factors: Vec<u32>)
    ensures
        forall|i: int| 0 <= i < factors@.len()
            ==> 1 <= #[trigger] factors@[i] <= n && n as int % factors@[i] as int == 0,
        forall|i: int, j: int| 0 <= i < j < factors@.len() ==> factors@[i] < factors@[j],
        forall|d: int| 1 <= d <= n && n as int % d == 0 ==> #[trigger] factors@.contains(d as u32),
{
    let mut factors: Vec<u32> = Vec::new();
    let mut i: u64 = 1;
    while i <= n as u64
        invariant
            1 <= i <= n as u64 + 1,
            forall|k: int| 0 <= k < factors@.len()
                ==> 1 <= #[trigger] factors@[k] < i && n as int % factors@[k] as int == 0,
            forall|k: int, j: int| 0 <= k < j < factors@.len() ==> factors@[k] < factors@[j],
            forall|d: int| 1 <= d < i && n as int % d == 0 ==> #[trigger] factors@.contains(d as u32),
        decreases n as u64 - i + 1,
    {
        let d = i as u32;
        let ghost pre = factors@;
        if n % d == 0 {
            factors.push(d);
        }
        proof {
            assert forall|dd: int| 1 <= dd < i + 1 && n as int % dd == 0
                implies #[trigger] factors@.contains(dd as u32) by {
                if dd < i {
                    assert(pre.contains(dd as u32));
                    let k = choose|k: int| 0 <= k < pre.len() && pre[k] == dd as u32;
                    assert(factors@[k] == dd as u32);
                } else {
                    assert(factors@.last() == d);
                }
            }
        }
        i = i + 1;
    }
    factors
}

/// Infers the frame grid from the sheet dimensions alone, per
/// `auto_detect_math_spec`.  The GCD fallback never yields a frame side
/// below 16.
#[verifier::loop_isolation(false)]
pub fn auto_detect_frame_size(width: u32, height: u32) -> (r: Option<AutoDetectResult>)
    requires
        width >= 1,
        height >= 1,
    ensures
        ({
            let spec = auto_detect_math_spec(width as int, height as int);
            match r {
                Some(d) => spec == Some((
                    d.frame_width as int,
                    d.frame_height as int,
                    d.rows as int,
                    d.cols as int,
                    d.confidence as int,
                )),
                None => spec is None,
            }
        }),
        match r {
            Some(d) => d.confidence == 50
                ==> d.frame_width >= 16 && d.frame_height >= 16,
            None => true,
        },
{
    // Square frames from the short axis.
    if height <= 256 && width % height == 0 {
        let cols = width / height;
        if cols >= 1 && cols <= 50 {
            return Some(AutoDetectResult {
                frame_width: height,
                frame_height: height,
                rows: 1,
                cols,
                confidence: 75,
            });
        }
    }

    // Sweep of common frame sizes.
    let sizes: Vec<u32> = vec![128, 64, 96, 48, 32, 256, 16, 192, 512, 24];
    proof {
        assert(sizes@.len() == common_sizes().len());
        assert(forall|i: int| 0 <= i < sizes@.len()
            ==> sizes@[i] as int == common_sizes()[i]);
    }
    let mut i: usize = 0;
    while i < sizes.len()
        invariant
            sizes@.len() == common_sizes().len(),
            forall|k: int| 0 <= k < sizes@.len() ==> sizes@[k] as int == common_sizes()[k],
            i <= sizes@.len(),
            common_size_at(width as int, height as int, 0)
                == common_size_at(width as int, height as int, i as int),
            forall|k: int| 0 <= k < sizes@.len() ==> sizes@[k] >= 1,
        decreases sizes@.len() - i,
    {
        let s = sizes[i];
        if height % s == 0 && width % s == 0 {
            let rows = height / s;
            let cols = width / s;
            if rows >= 1 && cols >= 1 && rows <= 50 && cols <= 50 {
                proof {
                    assert(common_size_at(width as int, height as int, i as int)
                        == Some(s as int));
                }
                return Some(AutoDetectResult {
                    frame_width: s,
                    frame_height: s,
                    rows,
                    cols,
                    confidence: 70,
                });
            }
        }
        i = i + 1;
    }

    // Factor search along the width, preferring large factors.
    if height <= 256 {
        let mut f: u32 = 256;
        while f >= 32
            invariant
                31 <= f <= 256,
                factor_search(width as int, 256) == factor_search(width as int, f as int),
            decreases f,
        {
            if width % f == 0 {
                let cols = width / f;
                if cols >= 1 && cols <= 50 {
                    proof {
                        assert(factor_search(width as int, f as int) == Some(f as int));
                    }
                    return Some(AutoDetectResult {
                        frame_width: f,
                        frame_height: height,
                        rows: 1,
                        cols,
                        confidence: 65,
                    });
                }
            }
            f = f - 1;
        }
    }

    // GCD fallback; the guard keeps the inferred side at 16 or above.
    let g = gcd(width, height);
    if g >= 16 && g <= 512 {
        let rows = height / g;
        let cols = width / g;
        if rows >= 1 && cols >= 1 && rows <= 50 && cols <= 50 {
            return Some(AutoDetectResult {
                frame_width: g,
                frame_height: g,
                rows,
                cols,
                confidence: 50,
            });
        }
    }
    None
}

/// Full detection: the alpha-gap strategy over the raster first
/// (confidence 95), then the arithmetic strategies.
pub fn auto_detect_with_image(img: &Raster) -> (r: Option<AutoDetectResult>)
    requires
        img.wf(),
        img.spec_width() >= 1,
        img.spec_height() >= 1,
    ensures
        ({
            let gap = detect_by_transparency_spec(
                img.spec_width(),
                img.spec_height(),
                run_count(col_flags(*img, DETECT_ALPHA_THRESHOLD)),
                run_count(row_flags(*img, DETECT_ALPHA_THRESHOLD)),
            );
            let math = auto_detect_math_spec(img.spec_width(), img.spec_height());
            match r {
                Some(d) => {
                    if gap is Some {
                        &&& d.confidence == 95
                        &&& gap == Some((
                            d.frame_width as int,
                            d.frame_height as int,
                            d.rows as int,
                            d.cols as int,
                        ))
                    } else {
                        math == Some((
                            d.frame_width as int,
                            d.frame_height as int,
                            d.rows as int,
                            d.cols as int,
                            d.confidence as int,
                        ))
                    }
                },
                None => gap is None && math is None,
            }
        }),
{
    match detect_frames_by_transparency(img) {
        Some((fw, fh, rows, cols)) => Some(AutoDetectResult {
            frame_width: fw,
            frame_height: fh,
            rows,
            cols,
            confidence: 95,
        }),
        None => auto_detect_frame_size(img.width(), img.height()),
    }
}


/// Helper for the grid law: in a transparency pattern of `k` periods of
/// length `p`, each with content in its first `c` positions, the number of
/// content runs remaining from position `i` is determined by `i`'s block.
proof fn lemma_run_count_periodic_from(s: Seq<bool>, p: int, c: int, k: int, i: int)
    requires
        0 < c < p,
        k >= 0,
        s.len() == k * p,
        forall|j: int| 0 <= j < s.len() ==> #[trigger] s[j] == !(j % p < c),
        0 <= i <= s.len(),
    ensures
        i < s.len() ==> run_count_from(s, i, true) == k - i / p - 1,
        run_count_from(s, i, false) == if i == s.len() {
            0int
        } else if i % p < c {
            k - i / p
        } else {
            k - i / p - 1
        },
    decreases s.len() - i,
{
    if i < s.len() {
        lemma_run_count_periodic_from(s, p, c, k, i + 1);
        let bl = i / p;
        let ph = i % p;
        lemma_fundamental_div_mod(i, p);
        assert(i == p * bl + ph);
        assert(0 <= ph < p) by (nonlinear_arith)
            requires p > 0 && ph == i % p;
        assert(bl < k) by (nonlinear_arith)
            requires i == p * bl + ph && 0 <= ph < p && i < k * p && p > 0;
        if ph < p - 1 {
            lemma_fundamental_div_mod_converse(i + 1, p, bl, ph + 1);
            assert((i + 1) / p == bl && (i + 1) % p == ph + 1);
            assert(i + 1 < s.len() || i + 1 == s.len());
            if i + 1 == s.len() {
                // A block never ends mid-period.
                assert(false) by (nonlinear_arith)
                    requires
                        i + 1 == k * p && i == p * bl + ph && 0 <= ph < p - 1 && bl < k && p > 0;
            }
        } else {
            assert(ph == p - 1);
            assert(i + 1 == (bl + 1) * p && i + 1 == p * (bl + 1)) by (nonlinear_arith)
                requires i == p * bl + ph && ph == p - 1;
            lemma_fundamental_div_mod_converse(i + 1, p, bl + 1, 0);
            assert((i + 1) / p == bl + 1 && (i + 1) % p == 0);
            if i + 1 == s.len() {
                assert(bl + 1 == k) by (nonlinear_arith)
                    requires i + 1 == k * p && (i + 1) == p * (bl + 1) && p > 0;
            } else {
                assert(bl + 1 < k) by (nonlinear_arith)
                    requires i + 1 < k * p && (i + 1) == p * (bl + 1) && p > 0;
            }
        }
    }
}

/// The run count of a periodic transparency pattern: `k` periods of
/// length `p`, content in the first `c` positions of each, give exactly
/// `k` content runs.
pub proof fn lemma_run_count_periodic(s: Seq<bool>, p: int, c: int, k: int)
    requires
        0 < c < p,
        k >= 0,
        s.len() == k * p,
        forall|j: int| 0 <= j < s.len() ==> #[trigger] s[j] == !(j % p < c),
    ensures
        run_count(s) == k,
{
    lemma_run_count_periodic_from(s, p, c, k, 0);
    if k > 0 {
        assert(s.len() > 0) by (nonlinear_arith)
            requires s.len() == k * p && k > 0 && p > 0;
        assert(0int % p == 0) by (nonlinear_arith)
            requires p > 0;
        assert(0int / p == 0) by (nonlinear_arith)
            requires p > 0;
    } else {
        assert(s.len() == 0) by (nonlinear_arith)
            requires s.len() == k * p && k == 0;
    }
}

/// Law: for a synthetic sheet of `n` by `m` tiles, each `tile_w` by
/// `tile_h` with its opaque content in the left `cw` columns and top `ch`
/// rows of its cell, the alpha-gap strategy finds exactly
/// `(tile_w, tile_h, m, n)`, and the full detector reports it with
/// confidence 95.
pub proof fn lemma_detector_grid(img: Raster, tile_w: int, tile_h: int, n: int, m: int, cw: int, ch: int)
    requires
        img.wf(),
        tile_w >= 16,
        tile_h >= 16,
        n >= 1,
        m >= 1,
        n >= 2 || m >= 2,
        img.spec_width() == n * tile_w,
        img.spec_height() == m * tile_h,
        0 < cw < tile_w,
        0 < ch < tile_h,
        forall|x: int| 0 <= x < img.spec_width()
            ==> #[trigger] img.spec_col_transparent(x, DETECT_ALPHA_THRESHOLD)
                == !(x % tile_w < cw),
        forall|y: int| 0 <= y < img.spec_height()
            ==> #[trigger] img.spec_row_transparent(y, DETECT_ALPHA_THRESHOLD)
                == !(y % tile_h < ch),
    ensures
        run_count(col_flags(img, DETECT_ALPHA_THRESHOLD)) == n,
        run_count(row_flags(img, DETECT_ALPHA_THRESHOLD)) == m,
        detect_by_transparency_spec(
            img.spec_width(),
            img.spec_height(),
            run_count(col_flags(img, DETECT_ALPHA_THRESHOLD)),
            run_count(row_flags(img, DETECT_ALPHA_THRESHOLD)),
        ) == Some((tile_w, tile_h, m, n)),
{
    let w = img.spec_width();
    let h = img.spec_height();
    let cf = col_flags(img, DETECT_ALPHA_THRESHOLD);
    let rf = row_flags(img, DETECT_ALPHA_THRESHOLD);
    assert(cf.len() == n * tile_w) by (nonlinear_arith)
        requires cf.len() == w && w == n * tile_w;
    assert forall|j: int| 0 <= j < cf.len() implies #[trigger] cf[j] == !(j % tile_w < cw) by {
        assert(img.spec_col_transparent(j, DETECT_ALPHA_THRESHOLD) == !(j % tile_w < cw));
    }
    lemma_run_count_periodic(cf, tile_w, cw, n);
    assert forall|j: int| 0 <= j < rf.len() implies #[trigger] rf[j] == !(j % tile_h < ch) by {
        assert(img.spec_row_transparent(j, DETECT_ALPHA_THRESHOLD) == !(j % tile_h < ch));
    }
    lemma_run_count_periodic(rf, tile_h, ch, m);
    assert(w / n == tile_w) by (nonlinear_arith)
        requires w == n * tile_w && n >= 1;
    assert(h / m == tile_h) by (nonlinear_arith)
        requires h == m * tile_h && m >= 1;
}

} // verus!

