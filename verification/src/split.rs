//! Grid splitting of an existing sprite sheet.
//!
//! `calculate_split_frames` cuts a sheet into a `rows` by `cols` grid in
//! row-major order, skipping any cell that would reach past the sheet,
//! and names the frames with a zero-padded counter.
//! `calculate_region_frames` lays a named animation region's frames out
//! across the sheet's column count, skipping out-of-bounds frames.

use vstd::prelude::*;
use vstd::string::StringExecFns;
use crate::types::{SpritesheetInfo, FrameInfo, SplitConfig, SplitResult, AnimationRegion};
use crate::detect::AutoDetectResult;
use crate::numfmt::{dec_str_pad2, fmt_u32_pad2};
use crate::packer::compress;

verus! {

/// Sheet info together with the advisory grid detection.
#[derive(Debug)]
pub struct SpritesheetInfoEx {
    pub info: SpritesheetInfo,
    pub auto_detect: Option<AutoDetectResult>,
}

/// Whether a split export renames the PNG to match the plist.
#[derive(Debug, Clone)]
pub struct ExportSplitConfig {
    pub rename_png: bool,
}

/// Where a split export wrote its files.
#[derive(Debug)]
pub struct ExportSplitResult {
    pub plist_path: String,
    /// Set when the PNG was renamed alongside the plist.
    pub png_path: Option<String>,
}

/// Outcome of a multi-region export: the files written and the regions
/// that failed, with their error messages.
#[derive(Debug)]
pub struct MultiExportResult {
    pub exported_files: Vec<String>,
    pub exported_pngs: Vec<String>,
    pub failed: Vec<(String, String)>,
    pub total: usize,
}

/// The frame name `{prefix}_{NN}.png` with a two-digit zero-padded
/// counter.
pub open spec fn frame_name(prefix: Seq<char>, index: int) -> Seq<char> {
    prefix + "_"@ + dec_str_pad2(index) + ".png"@
}

/// Builds `{prefix}_{NN}.png`.
pub fn make_frame_name(prefix: &str, index: u32) -> (s: String)
    ensures
        s@ == frame_name(prefix@, index as int),
{
    let mut s = prefix.to_owned();
    s.append("_");
    let pad = fmt_u32_pad2(index);
    s.append(pad.as_str());
    s.append(".png");
    proof {
        assert(s@ =~= frame_name(prefix@, index as int));
    }
    s
}

/// How many grid columns fit in the sheet: at most `cols`, and no
/// further than the sheet's width allows.
pub open spec fn cols_kept(w: int, cols: int, fw: int) -> int {
    if cols <= w / fw { cols } else { w / fw }
}

/// Row counterpart of `cols_kept`.
pub open spec fn rows_kept(h: int, rows: int, fh: int) -> int {
    if rows <= h / fh { rows } else { h / fh }
}

/// The error raised when the grid has zero rows or columns.
pub open spec fn zero_grid_error() -> Seq<char> {
    "rows and cols must be greater than 0"@
}

/// The error raised when the computed frame size is zero.
pub open spec fn zero_frame_error() -> Seq<char> {
    "computed frame size is 0, check the configuration"@
}

/// Cuts the sheet into a `rows` by `cols` grid of `fw` by `fh` frames in
/// row-major order.  A cell that would reach past the sheet is skipped,
/// which truncates a partial trailing column or row; the kept cells form
/// the `rows_kept` by `cols_kept` prefix grid, and the `k`-th frame is
/// named with counter `start_index + k`.
#[verifier::loop_isolation(false)]
pub fn calculate_split_frames(spritesheet: &SpritesheetInfo, config: &SplitConfig)
    -> (r: Result<SplitResult, String>)
    requires
        ({
            let start = match config.start_index {
                Some(s) => s as int,
                None => 1int,
            };
            start + config.rows as int * config.cols as int <= u32::MAX
        }),
    ensures
        ({
            let w = spritesheet.width as int;
            let h = spritesheet.height as int;
            let fw = match config.frame_width {
                Some(v) => v as int,
                None => if config.cols > 0 { w / config.cols as int } else { 0 },
            };
            let fh = match config.frame_height {
                Some(v) => v as int,
                None => if config.rows > 0 { h / config.rows as int } else { 0 },
            };
            let start = match config.start_index {
                Some(s) => s as int,
                None => 1int,
            };
            match r {
                Err(msg) => {
                    ||| (config.rows == 0 || config.cols == 0) && msg@ == zero_grid_error()
                    ||| (config.rows > 0 && config.cols > 0 && (fw == 0 || fh == 0)
                        && msg@ == zero_frame_error())
                },
                Ok(res) => {
                    let ck = cols_kept(w, config.cols as int, fw);
                    let rk = rows_kept(h, config.rows as int, fh);
                    &&& config.rows > 0 && config.cols > 0 && fw > 0 && fh > 0
                    &&& res.frame_width == fw
                    &&& res.frame_height == fh
                    &&& res.frames@.len() == rk * ck
                    &&& res.total_frames == res.frames@.len()
                    &&& forall|k: int| 0 <= k < res.frames@.len() ==> {
                            let row = k / ck;
                            let col = k % ck;
                            &&& (#[trigger] res.frames@[k]).x == col * fw
                            &&& res.frames@[k].y == row * fh
                            &&& res.frames@[k].width == fw
                            &&& res.frames@[k].height == fh
                            &&& res.frames@[k].row == row
                            &&& res.frames@[k].col == col
                            &&& res.frames@[k].name@
                                == frame_name(config.name_prefix@, start + k)
                        }
                },
            }
        }),
{
    if config.rows == 0 || config.cols == 0 {
        return Err("rows and cols must be greater than 0".to_owned());
    }

    let frame_width = match config.frame_width {
        Some(v) => v,
        None => spritesheet.width / config.cols,
    };
    let frame_height = match config.frame_height {
        Some(v) => v,
        None => spritesheet.height / config.rows,
    };

    if frame_width == 0 || frame_height == 0 {
        return Err("computed frame size is 0, check the configuration".to_owned());
    }

    let start_index = match config.start_index {
        Some(s) => s,
        None => 1,
    };

    let ghost w = spritesheet.width as int;
    let ghost h = spritesheet.height as int;
    let ghost fw = frame_width as int;
    let ghost fh = frame_height as int;
    let ghost ck = cols_kept(w, config.cols as int, fw);
    let ghost rk = rows_kept(h, config.rows as int, fh);
    proof {
        assert(0 <= ck <= config.cols as int);
        assert(0 <= rk <= config.rows as int);
    }

    let mut frames: Vec<FrameInfo> = Vec::new();
    let mut index: u32 = start_index;
    let mut row: u32 = 0;
    while row < config.rows
        invariant
            frame_width >= 1,
            frame_height >= 1,
            row <= config.rows,
            frames@.len() == (if row as int <= rk { row as int } else { rk }) * ck,
            index as int == start_index as int + frames@.len(),
            forall|k: int| 0 <= k < frames@.len() ==> {
                let kr = k / ck;
                let kc = k % ck;
                &&& (#[trigger] frames@[k]).x == kc * fw
                &&& frames@[k].y == kr * fh
                &&& frames@[k].width == fw
                &&& frames@[k].height == fh
                &&& frames@[k].row == kr
                &&& frames@[k].col == kc
                &&& frames@[k].name@
                    == frame_name(config.name_prefix@, start_index as int + k)
            },
        decreases config.rows - row,
    {
        proof {
            assert((row as int) * (frame_height as int) + (frame_height as int)
                < 0x1_0000_0000_0000_0000) by (nonlinear_arith)
                requires row <= u32::MAX && frame_height <= u32::MAX;
        }
        let row_in = (row as u64) * (frame_height as u64) + (frame_height as u64)
            <= spritesheet.height as u64;
        proof {
            assert(row_in == ((row as int + 1) * fh <= h)) by (nonlinear_arith)
                requires
                    row_in == (row as int * fh + fh <= h),
                    fh >= 1;
            assert(((row as int + 1) * fh <= h) == (row as int + 1 <= h / fh))
                by (nonlinear_arith)
                requires fh >= 1;
            if row_in {
                assert(row as int <= rk);
                assert((row as int) < rk ==> frames@.len() == (row as int) * ck);
            } else {
                assert(row as int >= rk);
                assert(frames@.len() == rk * ck);
            }
        }
        let mut col: u32 = 0;
        while col < config.cols
            invariant
                frame_width >= 1,
                frame_height >= 1,
                row < config.rows,
                col <= config.cols,
                row_in == ((row as int + 1) * fh <= h),
                row_in == (row as int + 1 <= rows_kept(h, config.rows as int, fh)
                    || config.rows as int <= row as int),
                frames@.len() == (if row_in && (row as int) < rk {
                    (row as int) * ck + (if col as int <= ck { col as int } else { ck })
                } else {
                    (if row as int <= rk { row as int } else { rk }) * ck
                }),
                index as int == start_index as int + frames@.len(),
                forall|k: int| 0 <= k < frames@.len() ==> {
                    let kr = k / ck;
                    let kc = k % ck;
                    &&& (#[trigger] frames@[k]).x == kc * fw
                    &&& frames@[k].y == kr * fh
                    &&& frames@[k].width == fw
                    &&& frames@[k].height == fh
                    &&& frames@[k].row == kr
                    &&& frames@[k].col == kc
                    &&& frames@[k].name@
                        == frame_name(config.name_prefix@, start_index as int + k)
                },
            decreases config.cols - col,
        {
            proof {
                assert((col as int) * (frame_width as int) < 0x1_0000_0000_0000_0000)
                    by (nonlinear_arith)
                    requires col <= u32::MAX && frame_width <= u32::MAX;
                assert((row as int) * (frame_height as int) < 0x1_0000_0000_0000_0000)
                    by (nonlinear_arith)
                    requires row <= u32::MAX && frame_height <= u32::MAX;
            }
            proof {
                assert((col as int) * (frame_width as int) + (frame_width as int)
                    < 0x1_0000_0000_0000_0000) by (nonlinear_arith)
                    requires col <= u32::MAX && frame_width <= u32::MAX;
                assert((row as int) * (frame_height as int) + (frame_height as int)
                    < 0x1_0000_0000_0000_0000) by (nonlinear_arith)
                    requires row <= u32::MAX && frame_height <= u32::MAX;
            }
            let x64 = (col as u64) * (frame_width as u64);
            let y64 = (row as u64) * (frame_height as u64);
            proof {
                assert(x64 as int == col as int * fw) by (nonlinear_arith)
                    requires x64 as int == col as int * fw;
                assert((x64 as int + fw <= w) == (col as int + 1 <= w / fw))
                    by (nonlinear_arith)
                    requires fw >= 1 && x64 as int == col as int * fw;
            }
            if x64 + frame_width as u64 <= spritesheet.width as u64
                && y64 + frame_height as u64 <= spritesheet.height as u64 {
                proof {
                    assert(col as int + 1 <= w / fw);
                    assert((col as int) < ck);
                    assert(row as int + 1 <= h / fh) by (nonlinear_arith)
                        requires
                            y64 as int == row as int * fh,
                            y64 as int + fh <= h,
                            fh >= 1;
                    assert((row as int) < rk);
                    assert(x64 <= u32::MAX as u64);
                    assert(y64 <= u32::MAX as u64);
                }
                let name = make_frame_name(config.name_prefix.as_str(), index);
                let f = FrameInfo {
                    name,
                    x: x64 as u32,
                    y: y64 as u32,
                    width: frame_width,
                    height: frame_height,
                    row,
                    col,
                };
                frames.push(f);
                proof {
                    let k = frames@.len() - 1;
                    assert(k == row as int * ck + col as int);
                    assert(k / ck == row as int && k % ck == col as int)
                        by (nonlinear_arith)
                        requires
                            k == row as int * ck + col as int,
                            0 <= (col as int) < ck,
                            0 <= (row as int);
                }
                proof {
                    assert(frames@.len() <= config.rows as int * config.cols as int)
                        by (nonlinear_arith)
                        requires
                            frames@.len() - 1 == (row as int) * ck + col as int,
                            0 <= (col as int) < ck,
                            0 <= (row as int) < config.rows as int,
                            ck <= config.cols as int;
                    assert(index as int + 1 <= u32::MAX);
                }
                index = index + 1;
            } else {
                proof {
                    if x64 + frame_width as u64 > spritesheet.width as u64 {
                        assert(col as int >= ck);
                    } else {
                        assert(!row_in) by (nonlinear_arith)
                            requires
                                y64 as int == row as int * fh,
                                y64 as int + fh > h,
                                row_in == (row as int * fh + fh <= h);
                    }
                }
            }
            col = col + 1;
        }
        row = row + 1;
        proof {
            if row_in && ((row - 1) as int) < rk {
                assert(frames@.len() == (row - 1) as int * ck + ck);
                assert((row - 1) as int * ck + ck == row as int * ck) by (nonlinear_arith);
            }
        }
    }
    proof {
        assert((if config.rows as int <= rk { config.rows as int } else { rk }) == rk);
    }

    let total = frames.len();
    proof {
        assert(total <= u32::MAX) by {
            assert(rk * ck <= config.rows as int * config.cols as int) by (nonlinear_arith)
                requires
                    0 <= rk <= config.rows as int,
                    0 <= ck <= config.cols as int;
        }
    }
    Ok(SplitResult {
        frames,
        frame_width,
        frame_height,
        total_frames: total as u32,
    })
}


/// The empty compressed sequence means every slot is empty.
pub proof fn lemma_compress_empty<T>(opts: Seq<Option<T>>)
    ensures
        (compress(opts).len() == 0) <==> (forall|i: int| 0 <= i < opts.len()
            ==> (#[trigger] opts[i]) is None),
    decreases opts.len(),
{
    if opts.len() > 0 {
        lemma_compress_empty(opts.drop_last());
        if compress(opts).len() == 0 {
            assert forall|i: int| 0 <= i < opts.len() implies (#[trigger] opts[i]) is None by {
                if i < opts.len() - 1 {
                    assert(opts.drop_last()[i] == opts[i]);
                }
            }
        }
    }
}

/// How many region frames fit side by side in the sheet.
pub open spec fn cols_in_sheet(sheet: SpritesheetInfo, region: AnimationRegion) -> int {
    sheet.width as int / region.frame_width as int
}

/// Whether the `i`-th frame of the region lies inside the sheet.
pub open spec fn region_frame_in_bounds(sheet: SpritesheetInfo, region: AnimationRegion, i: int)
    -> bool {
    let cis = cols_in_sheet(sheet, region);
    let gcol = region.start_col + i % cis;
    let grow = region.start_row + i / cis;
    &&& gcol * region.frame_width + region.frame_width <= sheet.width
    &&& grow * region.frame_height + region.frame_height <= sheet.height
}

/// The exact fields of the `i`-th region frame.
pub open spec fn region_frame_matches(sheet: SpritesheetInfo, region: AnimationRegion, i: int,
    f: FrameInfo) -> bool {
    let cis = cols_in_sheet(sheet, region);
    let gcol = region.start_col + i % cis;
    let grow = region.start_row + i / cis;
    &&& f.x == gcol * region.frame_width
    &&& f.y == grow * region.frame_height
    &&& f.width == region.frame_width
    &&& f.height == region.frame_height
    &&& f.row == grow
    &&& f.col == gcol
    &&& f.name@ == frame_name(region.name@, i + 1)
}

/// Lays the region's frames out across the sheet's column count, in
/// order, skipping the frames that would reach past the sheet; the
/// `i`-th frame is named with counter `i + 1` whether or not earlier
/// frames were skipped.
#[verifier::loop_isolation(false)]
pub fn calculate_region_frames(spritesheet: &SpritesheetInfo, region: &AnimationRegion)
    -> (r: Vec<FrameInfo>)
    requires
        region.frame_width >= 1,
        region.frame_width <= spritesheet.width,
        region.start_col as int + region.frame_count as int <= u32::MAX,
        region.start_row as int + region.frame_count as int <= u32::MAX,
    ensures
        r@.len() <= region.frame_count,
        exists|opts: Seq<Option<FrameInfo>>| {
            &&& opts.len() == region.frame_count as int
            &&& r@ == #[trigger] compress(opts)
            &&& forall|i: int| 0 <= i < opts.len() ==> {
                    &&& ((#[trigger] opts[i]) is Some
                        <==> region_frame_in_bounds(*spritesheet, *region, i))
                    &&& (opts[i] is Some
                        ==> region_frame_matches(*spritesheet, *region, i, opts[i]->0))
                }
        },
{
    let mut frames: Vec<FrameInfo> = Vec::new();
    let ghost mut opts: Seq<Option<FrameInfo>> = Seq::empty();

    let cis: u32 = spritesheet.width / region.frame_width;
    proof {
        assert(cis as int == cols_in_sheet(*spritesheet, *region));
        assert(cis >= 1) by (nonlinear_arith)
            requires
                cis as int == spritesheet.width as int / region.frame_width as int,
                1 <= region.frame_width as int <= spritesheet.width as int;
    }

    let mut i: u32 = 0;
    while i < region.frame_count
        invariant
            cis as int == cols_in_sheet(*spritesheet, *region),
            cis >= 1,
            i <= region.frame_count,
            opts.len() == i as int,
            frames@ == compress(opts),
            frames@.len() <= i,
            forall|k: int| 0 <= k < opts.len() ==> {
                &&& ((#[trigger] opts[k]) is Some
                    <==> region_frame_in_bounds(*spritesheet, *region, k))
                &&& (opts[k] is Some
                    ==> region_frame_matches(*spritesheet, *region, k, opts[k]->0))
            },
        decreases region.frame_count - i,
    {
        let col_offset = i % cis;
        let row_offset = i / cis;
        proof {
            assert(col_offset <= i && row_offset <= i) by (nonlinear_arith)
                requires
                    cis >= 1,
                    col_offset == i % cis,
                    row_offset == i / cis;
        }
        let gcol: u32 = region.start_col + col_offset;
        let grow: u32 = region.start_row + row_offset;
        proof {
            assert((gcol as int) * (region.frame_width as int) + (region.frame_width as int)
                < 0x1_0000_0000_0000_0000) by (nonlinear_arith)
                requires gcol <= u32::MAX && region.frame_width <= u32::MAX;
            assert((grow as int) * (region.frame_height as int) + (region.frame_height as int)
                < 0x1_0000_0000_0000_0000) by (nonlinear_arith)
                requires grow <= u32::MAX && region.frame_height <= u32::MAX;
        }
        let x64 = (gcol as u64) * (region.frame_width as u64);
        let y64 = (grow as u64) * (region.frame_height as u64);

        let ghost pre_opts = opts;
        if x64 + (region.frame_width as u64) <= spritesheet.width as u64
            && y64 + (region.frame_height as u64) <= spritesheet.height as u64 {
            proof {
                assert(region_frame_in_bounds(*spritesheet, *region, i as int));
                assert(x64 <= u32::MAX as u64);
                assert(y64 <= u32::MAX as u64);
            }
            let name = make_frame_name(region.name.as_str(), i + 1);
            let f = FrameInfo {
                name,
                x: x64 as u32,
                y: y64 as u32,
                width: region.frame_width,
                height: region.frame_height,
                row: grow,
                col: gcol,
            };
            frames.push(f);
            proof {
                opts = pre_opts.push(Some(f));
                assert(opts.drop_last() =~= pre_opts);
                assert(frames@ =~= compress(opts));
                assert(region_frame_matches(*spritesheet, *region, i as int, f));
            }
        } else {
            proof {
                assert(!region_frame_in_bounds(*spritesheet, *region, i as int));
                opts = pre_opts.push(None);
                assert(opts.drop_last() =~= pre_opts);
                assert(frames@ =~= compress(opts));
            }
        }
        i = i + 1;
    }
    frames
}

/// The error raised when a region yields no frames.
pub open spec fn empty_region_error() -> Seq<char> {
    "invalid region configuration, no frames produced"@
}

/// Computes a region's frames for preview: an error exactly when every
/// frame of the region falls outside the sheet.
pub fn calculate_region_preview(spritesheet: &SpritesheetInfo, region: &AnimationRegion)
    -> (r: Result<SplitResult, String>)
    requires
        region.frame_width >= 1,
        region.frame_width <= spritesheet.width,
        region.start_col as int + region.frame_count as int <= u32::MAX,
        region.start_row as int + region.frame_count as int <= u32::MAX,
    ensures
        match r {
            Err(msg) => {
                &&& msg@ == empty_region_error()
                &&& forall|i: int| 0 <= i < region.frame_count as int
                    ==> !region_frame_in_bounds(*spritesheet, *region, i)
            },
            Ok(res) => {
                &&& res.frames@.len() > 0
                &&& res.frame_width == region.frame_width
                &&& res.frame_height == region.frame_height
                &&& res.total_frames == res.frames@.len()
                &&& exists|opts: Seq<Option<FrameInfo>>| {
                        &&& opts.len() == region.frame_count as int
                        &&& res.frames@ == #[trigger] compress(opts)
                        &&& forall|i: int| 0 <= i < opts.len() ==> {
                                &&& ((#[trigger] opts[i]) is Some
                                    <==> region_frame_in_bounds(*spritesheet, *region, i))
                                &&& (opts[i] is Some
                                    ==> region_frame_matches(*spritesheet, *region, i,
                                        opts[i]->0))
                            }
                    }
            },
        },
{
    let frames = calculate_region_frames(spritesheet, region);
    proof {
        let opts = choose|opts: Seq<Option<FrameInfo>>| {
            &&& opts.len() == region.frame_count as int
            &&& frames@ == #[trigger] compress(opts)
            &&& forall|i: int| 0 <= i < opts.len() ==> {
                    &&& ((#[trigger] opts[i]) is Some
                        <==> region_frame_in_bounds(*spritesheet, *region, i))
                    &&& (opts[i] is Some
                        ==> region_frame_matches(*spritesheet, *region, i, opts[i]->0))
                }
        };
        lemma_compress_empty(opts);
        if frames@.len() == 0 {
            assert forall|i: int| 0 <= i < region.frame_count as int
                implies !region_frame_in_bounds(*spritesheet, *region, i) by {
                assert(opts[i] is None);
            }
        }
    }
    if frames.len() == 0 {
        return Err("invalid region configuration, no frames produced".to_owned());
    }
    let total = frames.len();
    Ok(SplitResult {
        frames,
        frame_width: region.frame_width,
        frame_height: region.frame_height,
        total_frames: total as u32,
    })
}

/// Smallest frame origin and largest frame extent of a nonempty list:
/// `(min_x, min_y, max_right, max_bottom)`.
pub open spec fn frames_min_x(frames: Seq<FrameInfo>) -> int
    decreases frames.len(),
{
    if frames.len() <= 1 {
        if frames.len() == 0 { 0 } else { frames[0].x as int }
    } else {
        let m = frames_min_x(frames.drop_last());
        let v = frames.last().x as int;
        if v < m { v } else { m }
    }
}

pub open spec fn frames_min_y(frames: Seq<FrameInfo>) -> int
    decreases frames.len(),
{
    if frames.len() <= 1 {
        if frames.len() == 0 { 0 } else { frames[0].y as int }
    } else {
        let m = frames_min_y(frames.drop_last());
        let v = frames.last().y as int;
        if v < m { v } else { m }
    }
}

pub open spec fn frames_max_right(frames: Seq<FrameInfo>) -> int
    decreases frames.len(),
{
    if frames.len() == 0 {
        0
    } else {
        let m = frames_max_right(frames.drop_last());
        let v = frames.last().x + frames.last().width;
        if v > m { v } else { m }
    }
}

pub open spec fn frames_max_bottom(frames: Seq<FrameInfo>) -> int
    decreases frames.len(),
{
    if frames.len() == 0 {
        0
    } else {
        let m = frames_max_bottom(frames.drop_last());
        let v = frames.last().y + frames.last().height;
        if v > m { v } else { m }
    }
}

/// The tight bounding box of a nonempty frame list:
/// `(min_x, min_y, max_right, max_bottom)`.
#[verifier::loop_isolation(false)]
pub fn region_bounds(frames: &Vec<FrameInfo>) -> (r: (u32, u32, u32, u32))
    requires
        frames@.len() > 0,
        forall|k: int| 0 <= k < frames@.len()
            ==> (#[trigger] frames@[k]).x + frames@[k].width <= u32::MAX
                && frames@[k].y + frames@[k].height <= u32::MAX,
    ensures
        r.0 == frames_min_x(frames@),
        r.1 == frames_min_y(frames@),
        r.2 == frames_max_right(frames@),
        r.3 == frames_max_bottom(frames@),
{
    let first = &frames[0];
    let mut min_x: u32 = first.x;
    let mut min_y: u32 = first.y;
    let mut max_x: u32 = first.x + first.width;
    let mut max_y: u32 = first.y + first.height;
    proof {
        assert(frames@.subrange(0, 1).drop_last() =~= Seq::<FrameInfo>::empty());
        assert(frames@.subrange(0, 1)[0] == frames@[0]);
        assert(frames_max_right(Seq::<FrameInfo>::empty()) == 0);
        assert(frames_max_bottom(Seq::<FrameInfo>::empty()) == 0);
        assert(frames@.subrange(0, 1).last() == frames@[0]);
    }
    let n = frames.len();
    let mut i: usize = 1;
    while i < n
        invariant
            1 <= i <= n,
            n == frames@.len(),
            min_x == frames_min_x(frames@.subrange(0, i as int)),
            min_y == frames_min_y(frames@.subrange(0, i as int)),
            max_x == frames_max_right(frames@.subrange(0, i as int)),
            max_y == frames_max_bottom(frames@.subrange(0, i as int)),
        decreases n - i,
    {
        let f = &frames[i];
        proof {
            let pre = frames@.subrange(0, i as int);
            let cur = frames@.subrange(0, i as int + 1);
            assert(cur.drop_last() =~= pre);
            assert(cur.last() == frames@[i as int]);
            assert(cur[0] == frames@[0]);
        }
        if f.x < min_x {
            min_x = f.x;
        }
        if f.y < min_y {
            min_y = f.y;
        }
        let right = f.x + f.width;
        let bottom = f.y + f.height;
        if right > max_x {
            max_x = right;
        }
        if bottom > max_y {
            max_y = bottom;
        }
        i = i + 1;
    }
    proof {
        assert(frames@.subrange(0, n as int) =~= frames@);
    }
    (min_x, min_y, max_x, max_y)
}

/// Shifts every frame by `(-min_x, -min_y)`, as a region plist whose
/// coordinates are relative to the cropped sub-atlas expects.
#[verifier::loop_isolation(false)]
pub fn translate_frames(frames: &Vec<FrameInfo>, min_x: u32, min_y: u32) -> (r: Vec<FrameInfo>)
    requires
        forall|k: int| 0 <= k < frames@.len()
            ==> min_x <= (#[trigger] frames@[k]).x && min_y <= frames@[k].y,
    ensures
        r@.len() == frames@.len(),
        forall|k: int| 0 <= k < frames@.len() ==> {
            &&& (#[trigger] r@[k]).name@ == frames@[k].name@
            &&& r@[k].x == frames@[k].x - min_x
            &&& r@[k].y == frames@[k].y - min_y
            &&& r@[k].width == frames@[k].width
            &&& r@[k].height == frames@[k].height
            &&& r@[k].row == frames@[k].row
            &&& r@[k].col == frames@[k].col
        },
{
    let n = frames.len();
    let mut out: Vec<FrameInfo> = Vec::new();
    let mut i: usize = 0;
    while i < n
        invariant
            i <= n,
            n == frames@.len(),
            out@.len() == i,
            forall|k: int| 0 <= k < i ==> {
                &&& (#[trigger] out@[k]).name@ == frames@[k].name@
                &&& out@[k].x == frames@[k].x - min_x
                &&& out@[k].y == frames@[k].y - min_y
                &&& out@[k].width == frames@[k].width
                &&& out@[k].height == frames@[k].height
                &&& out@[k].row == frames@[k].row
                &&& out@[k].col == frames@[k].col
            },
        decreases n - i,
    {
        let f = &frames[i];
        out.push(FrameInfo {
            name: f.name.clone(),
            x: f.x - min_x,
            y: f.y - min_y,
            width: f.width,
            height: f.height,
            row: f.row,
            col: f.col,
        });
        i = i + 1;
    }
    out
}

} // verus!

