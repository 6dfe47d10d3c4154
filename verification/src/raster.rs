//! RGBA8 raster model.
//!
//! A `Raster` holds the pixel data the algorithms read: a `width x height`
//! grid of four-byte RGBA pixels stored row-major in a flat byte vector.
//! The alpha-channel predicates here underpin both the trimmer and the
//! grid auto-detector.

use vstd::prelude::*;

verus! {

/// An RGBA8 image: `pixels` stores 4 bytes per pixel, row-major.
/// Build one through `new` or `from_pixels` so that `wf` holds.
#[derive(Debug, Clone)]
pub struct Raster {
    pub width: u32,
    pub height: u32,
    pub pixels: Vec<u8>,
}

impl Raster {
    /// The byte vector holds exactly 4 bytes for every pixel.
    pub open spec fn wf(self) -> bool {
        self.pixels@.len() == 4 * (self.width as int) * (self.height as int)
    }

    pub open spec fn spec_width(self) -> int {
        self.width as int
    }

    pub open spec fn spec_height(self) -> int {
        self.height as int
    }

    /// Flat index of channel `c` of the pixel at `(x, y)`.
    pub open spec fn pix_index(self, x: int, y: int, c: int) -> int {
        4 * (y * self.spec_width() + x) + c
    }

    /// Channel `c` (0=R, 1=G, 2=B, 3=A) of the pixel at `(x, y)`.
    pub open spec fn pix(self, x: int, y: int, c: int) -> u8 {
        self.pixels@[self.pix_index(x, y, c)]
    }

    /// Alpha channel of the pixel at `(x, y)`.
    pub open spec fn alpha(self, x: int, y: int) -> u8 {
        self.pix(x, y, 3)
    }

    /// Every pixel of row `y` has alpha at most `thr`.
    pub open spec fn spec_row_transparent(self, y: int, thr: u8) -> bool {
        forall|x: int| 0 <= x < self.spec_width() ==> self.alpha(x, y) <= thr
    }

    /// Every pixel of column `x` has alpha at most `thr`.
    pub open spec fn spec_col_transparent(self, x: int, thr: u8) -> bool {
        forall|y: int| 0 <= y < self.spec_height() ==> self.alpha(x, y) <= thr
    }

    proof fn lemma_pix_index_in_bounds(self, x: int, y: int, c: int)
        requires
            self.wf(),
            0 <= x < self.spec_width(),
            0 <= y < self.spec_height(),
            0 <= c < 4,
        ensures
            0 <= self.pix_index(x, y, c) < self.pixels@.len(),
    {
        let w = self.spec_width();
        let h = self.spec_height();
        assert(y * w + x < w * h) by (nonlinear_arith)
            requires 0 <= x < w && 0 <= y < h;
        assert(4 * (y * w + x) + c < 4 * w * h) by (nonlinear_arith)
            requires y * w + x < w * h && 0 <= c < 4;
    }

    /// A fully transparent (all-zero) raster of the given dimensions.
    pub fn new(width: u32, height: u32) -> (r: Raster)
        requires
            4 * (width as int) * (height as int) <= usize::MAX,
        ensures
            r.wf(),
            r.spec_width() == width,
            r.spec_height() == height,
            forall|x: int, y: int, c: int|
                0 <= x < width && 0 <= y < height && 0 <= c < 4 ==> r.pix(x, y, c) == 0,
    {
        proof {
            assert((width as int) * (height as int) < 0x10000000000000000) by (nonlinear_arith)
                requires width <= u32::MAX && height <= u32::MAX;
        }
        let count64: u64 = 4 * (width as u64) * (height as u64);
        let count: usize = count64 as usize;
        let mut pixels: Vec<u8> = Vec::new();
        let mut i: usize = 0;
        while i < count
            invariant
                i <= count,
                pixels@.len() == i,
                forall|j: int| 0 <= j < i ==> pixels@[j] == 0,
            decreases count - i,
        {
            pixels.push(0);
            i = i + 1;
        }
        let r = Raster { width, height, pixels };
        proof {
            assert forall|x: int, y: int, c: int|
                0 <= x < width && 0 <= y < height && 0 <= c < 4 implies r.pix(x, y, c) == 0 by {
                r.lemma_pix_index_in_bounds(x, y, c);
            }
        }
        r
    }

    /// Wraps a raw RGBA byte buffer; `None` when the length does not match
    /// the dimensions.
    pub fn from_pixels(width: u32, height: u32, pixels: Vec<u8>) -> (r: Option<Raster>)
        ensures
            match r {
                Some(img) => {
                    &&& img.wf()
                    &&& img.spec_width() == width
                    &&& img.spec_height() == height
                    &&& img.pixels@ == pixels@
                    &&& pixels@.len() == 4 * (width as int) * (height as int)
                },
                None => pixels@.len() != 4 * (width as int) * (height as int),
            },
    {
        proof {
            assert((width as int) * (height as int) < 0x10000000000000000) by (nonlinear_arith)
                requires width <= u32::MAX && height <= u32::MAX;
        }
        let n: usize = pixels.len();
        let wh: u64 = (width as u64) * (height as u64);
        if wh > (usize::MAX as u64) / 4 {
            proof {
                assert((width as int) * (height as int) > (usize::MAX as int) / 4 ==>
                    4 * (width as int) * (height as int) > usize::MAX) by (nonlinear_arith);
                assert(pixels@.len() == n <= usize::MAX);
            }
            return None;
        }
        proof {
            assert(4 * ((width as int) * (height as int))
                == 4 * (width as int) * (height as int)) by (nonlinear_arith);
        }
        let count: usize = (4 * wh) as usize;
        if pixels.len() == count {
            Some(Raster { width, height, pixels })
        } else {
            None
        }
    }

    pub fn width(&self) -> (w: u32)
        ensures
            w == self.spec_width(),
    {
        self.width
    }

    pub fn height(&self) -> (h: u32)
        ensures
            h == self.spec_height(),
    {
        self.height
    }

    /// The raw RGBA bytes, row-major, 4 bytes per pixel.
    pub fn into_pixels(self) -> (p: Vec<u8>)
        ensures
            p@ == self.pixels@,
    {
        self.pixels
    }

    /// Reads channel `c` of the pixel at `(x, y)`.
    pub fn get_channel(&self, x: u32, y: u32, c: u32) -> (v: u8)
        requires
            self.wf(),
            x < self.spec_width(),
            y < self.spec_height(),
            c < 4,
        ensures
            v == self.pix(x as int, y as int, c as int),
    {
        let n: usize = self.pixels.len();
        proof {
            self.lemma_pix_index_in_bounds(x as int, y as int, c as int);
            assert(self.pixels@.len() == n <= usize::MAX);
        }
        let idx64: u64 = 4 * ((y as u64) * (self.width as u64) + (x as u64)) + (c as u64);
        let idx: usize = idx64 as usize;
        self.pixels[idx]
    }

    /// Overwrites the pixel at `(x, y)`; every other pixel is unchanged.
    pub fn set_pixel(&mut self, x: u32, y: u32, red: u8, green: u8, blue: u8, alpha: u8)
        requires
            old(self).wf(),
            x < old(self).spec_width(),
            y < old(self).spec_height(),
        ensures
            final(self).wf(),
            final(self).spec_width() == old(self).spec_width(),
            final(self).spec_height() == old(self).spec_height(),
            final(self).pix(x as int, y as int, 0) == red,
            final(self).pix(x as int, y as int, 1) == green,
            final(self).pix(x as int, y as int, 2) == blue,
            final(self).pix(x as int, y as int, 3) == alpha,
            forall|xx: int, yy: int, cc: int|
                0 <= xx < old(self).spec_width() && 0 <= yy < old(self).spec_height()
                    && 0 <= cc < 4 && !(xx == x && yy == y)
                    ==> final(self).pix(xx, yy, cc) == old(self).pix(xx, yy, cc),
    {
        let n: usize = self.pixels.len();
        proof {
            old(self).lemma_pix_index_in_bounds(x as int, y as int, 0);
            old(self).lemma_pix_index_in_bounds(x as int, y as int, 3);
            assert(old(self).pixels@.len() == n <= usize::MAX);
        }
        let base64: u64 = 4 * ((y as u64) * (self.width as u64) + (x as u64));
        let base: usize = base64 as usize;
        self.pixels.set(base, red);
        self.pixels.set(base + 1, green);
        self.pixels.set(base + 2, blue);
        self.pixels.set(base + 3, alpha);
        proof {
            assert forall|xx: int, yy: int, cc: int|
                0 <= xx < old(self).spec_width() && 0 <= yy < old(self).spec_height()
                    && 0 <= cc < 4 && !(xx == x && yy == y)
                    implies final(self).pix(xx, yy, cc) == old(self).pix(xx, yy, cc) by {
                old(self).lemma_pix_index_in_bounds(xx, yy, cc);
                let w = old(self).spec_width();
                assert(yy * w + xx != y * w + x) by (nonlinear_arith)
                    requires
                        0 <= xx < w,
                        0 <= x < w,
                        yy >= 0,
                        y >= 0,
                        !(xx == x && yy == y);
            }
        }
    }

    /// Whether every pixel of row `y` has alpha at most `thr`.
    pub fn is_row_transparent(&self, y: u32, thr: u8) -> (r: bool)
        requires
            self.wf(),
            y < self.spec_height(),
        ensures
            r == self.spec_row_transparent(y as int, thr),
    {
        let w = self.width;
        let mut x: u32 = 0;
        while x < w
            invariant
                self.wf(),
                y < self.spec_height(),
                x <= w,
                w == self.spec_width(),
                forall|xx: int| 0 <= xx < x ==> self.alpha(xx, y as int) <= thr,
            decreases w - x,
        {
            if self.get_channel(x, y, 3) > thr {
                proof {
                    assert(self.alpha(x as int, y as int) > thr);
                }
                return false;
            }
            x = x + 1;
        }
        true
    }

    /// Whether every pixel of column `x` has alpha at most `thr`.
    pub fn is_col_transparent(&self, x: u32, thr: u8) -> (r: bool)
        requires
            self.wf(),
            x < self.spec_width(),
        ensures
            r == self.spec_col_transparent(x as int, thr),
    {
        let h = self.height;
        let mut y: u32 = 0;
        while y < h
            invariant
                self.wf(),
                x < self.spec_width(),
                y <= h,
                h == self.spec_height(),
                forall|yy: int| 0 <= yy < y ==> self.alpha(x as int, yy) <= thr,
            decreases h - y,
        {
            if self.get_channel(x, y, 3) > thr {
                proof {
                    assert(self.alpha(x as int, y as int) > thr);
                }
                return false;
            }
            y = y + 1;
        }
        true
    }

    /// Copies the sub-rectangle `[l..r) x [t..b)` into a fresh raster.
    pub fn crop(&self, l: u32, t: u32, r: u32, b: u32) -> (out: Raster)
        requires
            self.wf(),
            l < r <= self.spec_width(),
            t < b <= self.spec_height(),
        ensures
            out.wf(),
            out.spec_width() == r - l,
            out.spec_height() == b - t,
            out.pixels@ == crop_pixels(*self, l as int, t as int, r as int, b as int),
            forall|x: int, y: int, c: int|
                0 <= x < r - l && 0 <= y < b - t && 0 <= c < 4
                    ==> out.pix(x, y, c) == self.pix(l + x, t + y, c),
    {
        let cw: u32 = r - l;
        let ch: u32 = b - t;
        let ghost target = crop_pixels(*self, l as int, t as int, r as int, b as int);
        proof {
            lemma_crop_pixels(*self, l as int, t as int, r as int, b as int);
        }
        let mut pixels: Vec<u8> = Vec::new();
        let mut y: u32 = 0;
        while y < ch
            invariant
                self.wf(),
                l < r <= self.spec_width(),
                t < b <= self.spec_height(),
                cw == r - l,
                ch == b - t,
                y <= ch,
                target == crop_pixels(*self, l as int, t as int, r as int, b as int),
                target.len() == 4 * (cw as int) * (ch as int),
                pixels@.len() == 4 * ((y as int) * (cw as int)),
                pixels@ == target.take(4 * ((y as int) * (cw as int))),
            decreases ch - y,
        {
            proof {
                assert((y as int) * (cw as int) + (cw as int)
                    == ((y as int) + 1) * (cw as int)) by (nonlinear_arith);
            }
            let mut x: u32 = 0;
            while x < cw
                invariant
                    self.wf(),
                    l < r <= self.spec_width(),
                    t < b <= self.spec_height(),
                    cw == r - l,
                    ch == b - t,
                    y < ch,
                    x <= cw,
                    target == crop_pixels(*self, l as int, t as int, r as int, b as int),
                    target.len() == 4 * (cw as int) * (ch as int),
                    pixels@.len() == 4 * ((y as int) * (cw as int) + x as int),
                    pixels@ == target.take(4 * ((y as int) * (cw as int) + x as int)),
                decreases cw - x,
            {
                proof {
                    assert((y as int) * (cw as int) + x < (cw as int) * (ch as int))
                        by (nonlinear_arith)
                        requires 0 <= (x as int) < cw && 0 <= (y as int) < ch;
                    assert(4 * ((y as int) * (cw as int) + x as int) + 3
                        < 4 * (cw as int) * (ch as int)) by (nonlinear_arith)
                        requires (y as int) * (cw as int) + (x as int) < (cw as int) * (ch as int);
                    lemma_crop_pixels(*self, l as int, t as int, r as int, b as int);
                }
                let c0 = self.get_channel(l + x, t + y, 0);
                let c1 = self.get_channel(l + x, t + y, 1);
                let c2 = self.get_channel(l + x, t + y, 2);
                let c3 = self.get_channel(l + x, t + y, 3);
                pixels.push(c0);
                pixels.push(c1);
                pixels.push(c2);
                pixels.push(c3);
                proof {
                    let k = 4 * ((y as int) * (cw as int) + x as int);
                    assert(target[k] == self.pix(l + x, t + y, 0));
                    assert(target[k + 1] == self.pix(l + x, t + y, 1));
                    assert(target[k + 2] == self.pix(l + x, t + y, 2));
                    assert(target[k + 3] == self.pix(l + x, t + y, 3));
                    assert(pixels@ =~= target.take(k + 4));
                }
                x = x + 1;
            }
            y = y + 1;
        }
        proof {
            assert(4 * ((ch as int) * (cw as int)) == 4 * (cw as int) * (ch as int))
                by (nonlinear_arith);
            assert(pixels@ =~= target);
        }
        let out = Raster { width: cw, height: ch, pixels };
        proof {
            lemma_crop_pixels(*self, l as int, t as int, r as int, b as int);
            assert forall|x: int, y2: int, c: int|
                0 <= x < r - l && 0 <= y2 < b - t && 0 <= c < 4
                    implies out.pix(x, y2, c) == self.pix(l + x, t + y2, c) by {
                assert(0 <= y2 * (cw as int) + x < (cw as int) * (ch as int))
                    by (nonlinear_arith)
                    requires 0 <= x < cw && 0 <= y2 < ch;
            }
        }
        out
    }
}

/// The byte sequence of the raster holding exactly the pixels of `img`
/// inside `[l..r) x [t..b)`, row-major, 4 bytes per pixel.
pub open spec fn crop_pixels(img: Raster, l: int, t: int, r: int, b: int) -> Seq<u8> {
    Seq::new((4 * (r - l) * (b - t)) as nat, |j: int|
        img.pix(l + (j / 4) % (r - l), t + (j / 4) / (r - l), j % 4))
}

/// Each byte of the cropped sequence is the channel of the source pixel it
/// was copied from.
pub proof fn lemma_crop_pixels(img: Raster, l: int, t: int, r: int, b: int)
    requires
        l < r,
        t < b,
    ensures
        crop_pixels(img, l, t, r, b).len() == 4 * (r - l) * (b - t),
        forall|x: int, y: int, c: int|
            0 <= x < r - l && 0 <= y < b - t && 0 <= c < 4
                ==> crop_pixels(img, l, t, r, b)[4 * (y * (r - l) + x) + c]
                    == #[trigger] img.pix(l + x, t + y, c),
{
    let out = crop_pixels(img, l, t, r, b);
    let cw = r - l;
    let ch = b - t;
    assert(4 * cw * ch >= 0) by (nonlinear_arith)
        requires cw > 0 && ch > 0;
    assert forall|x: int, y: int, c: int|
        0 <= x < cw && 0 <= y < ch && 0 <= c < 4
            implies out[4 * (y * cw + x) + c] == #[trigger] img.pix(l + x, t + y, c) by {
        let j = 4 * (y * cw + x) + c;
        assert(0 <= y * cw + x < cw * ch) by (nonlinear_arith)
            requires 0 <= x < cw && 0 <= y < ch;
        assert(0 <= j < 4 * cw * ch) by (nonlinear_arith)
            requires j == 4 * (y * cw + x) + c && 0 <= y * cw + x < cw * ch && 0 <= c < 4;
        assert(j / 4 == y * cw + x && j % 4 == c) by (nonlinear_arith)
            requires j == 4 * (y * cw + x) + c && 0 <= c < 4 && 0 <= y * cw + x;
        assert((y * cw + x) / cw == y && (y * cw + x) % cw == x) by (nonlinear_arith)
            requires 0 <= x < cw && 0 <= y;
    }
}

/// Cropping a raster to its full extent reproduces its byte sequence.
pub proof fn lemma_crop_full(img: Raster)
    requires
        img.wf(),
        img.spec_width() > 0,
        img.spec_height() > 0,
    ensures
        crop_pixels(img, 0, 0, img.spec_width(), img.spec_height()) == img.pixels@,
{
    let w = img.spec_width();
    let h = img.spec_height();
    let out = crop_pixels(img, 0, 0, w, h);
    assert(out.len() == img.pixels@.len());
    assert forall|j: int| 0 <= j < out.len() implies out[j] == img.pixels@[j] by {
        let p = j / 4;
        let c = j % 4;
        assert(j == 4 * p + c && 0 <= c < 4) by (nonlinear_arith)
            requires j >= 0 && p == j / 4 && c == j % 4;
        let x = p % w;
        let y = p / w;
        assert(p == y * w + x && 0 <= x < w) by (nonlinear_arith)
            requires p >= 0 && w > 0 && x == p % w && y == p / w;
        assert(img.pix_index(x, y, c) == j);
        assert(out[j] == img.pix(x, y, c));
    }
    assert(out =~= img.pixels@);
}

} // verus!
