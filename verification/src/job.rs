//! Pack-job orchestration.
//!
//! Builds packer inputs from imported sprites and their trim results,
//! runs the packer on the configured or the optimal canvas, reports the
//! fill rate over the declared canvas, and keeps a job-scoped cache of
//! trim results for the raster assembly step.

use vstd::prelude::*;
use vstd::string::StringExecFns;
use crate::types::{SpriteData, PackedSprite, PackResult, ExportConfig};
use crate::packer::{SpriteInput, MaxRectsPacker, find_optimal_size, compress,
    lemma_compress_elems, placed_matches, rect_of, pot_sizes, spec_optimal_size, spec_pack};
use crate::geom::{Rect, spec_intersects};
use crate::trim::TrimResult;
use crate::numfmt::{dec_str, fmt_u64};

verus! {

/// Packing options; every field falls back to a default when absent.
#[derive(Debug)]
pub struct PackConfig {
    /// Canvas limits; default 2048.
    pub max_width: Option<u32>,
    pub max_height: Option<u32>,
    /// Trim transparent borders first; default true.
    pub trim_transparent: Option<bool>,
    /// Allow 90-degree rotation; default true.
    pub allow_rotation: Option<bool>,
    /// Gutter between sprites; default 1.
    pub padding: Option<u32>,
    /// Search for the smallest canvas; default true.
    pub auto_size: Option<bool>,
}

impl Default for PackConfig {
    /// The defaults: 2048 by 2048, trimming, rotation and auto-size on,
    /// one pixel of padding.
    fn default() -> (r: Self)
        ensures
            r.max_width == Some(2048u32),
            r.max_height == Some(2048u32),
            r.trim_transparent == Some(true),
            r.allow_rotation == Some(true),
            r.padding == Some(1u32),
            r.auto_size == Some(true),
    {
        PackConfig {
            max_width: Some(2048),
            max_height: Some(2048),
            trim_transparent: Some(true),
            allow_rotation: Some(true),
            padding: Some(1),
            auto_size: Some(true),
        }
    }
}

/// Packer input for a sprite whose raster was trimmed: the trimmed
/// dimensions and centering offset, flagged as trimmed when the trim
/// actually shrank it.
pub fn sprite_input_from_trim(sprite: &SpriteData, trim: &TrimResult) -> (r: SpriteInput)
    ensures
        r.id@ == sprite.id@,
        r.name@ == sprite.name@,
        r.width == trim.trimmed_width,
        r.height == trim.trimmed_height,
        r.original_width == trim.original_width,
        r.original_height == trim.original_height,
        r.offset_x == trim.offset_x,
        r.offset_y == trim.offset_y,
        r.trimmed == (trim.trimmed_width != trim.original_width
            || trim.trimmed_height != trim.original_height),
{
    SpriteInput {
        id: sprite.id.clone(),
        name: sprite.name.clone(),
        width: trim.trimmed_width,
        height: trim.trimmed_height,
        original_width: trim.original_width,
        original_height: trim.original_height,
        offset_x: trim.offset_x,
        offset_y: trim.offset_y,
        trimmed: trim.trimmed_width != trim.original_width
            || trim.trimmed_height != trim.original_height,
    }
}

/// Packer input for a sprite used at its original size.
pub fn sprite_input_untrimmed(sprite: &SpriteData) -> (r: SpriteInput)
    ensures
        r.id@ == sprite.id@,
        r.name@ == sprite.name@,
        r.width == sprite.width,
        r.height == sprite.height,
        r.original_width == sprite.width,
        r.original_height == sprite.height,
        r.offset_x == 0,
        r.offset_y == 0,
        r.trimmed == false,
{
    SpriteInput {
        id: sprite.id.clone(),
        name: sprite.name.clone(),
        width: sprite.width,
        height: sprite.height,
        original_width: sprite.width,
        original_height: sprite.height,
        offset_x: 0,
        offset_y: 0,
        trimmed: false,
    }
}

/// One cached trim result, keyed by sprite id.
pub struct TrimCacheEntry {
    pub id: String,
    pub result: TrimResult,
}

/// A job-scoped cache of trim results, so the raster assembly step can
/// fetch the cropped pixels without re-loading.  Later insertions for
/// the same id shadow earlier ones.
pub struct TrimCache {
    pub entries: Vec<TrimCacheEntry>,
}

impl TrimCache {
    /// An empty cache.
    pub fn new() -> (c: TrimCache)
        ensures
            c.entries@.len() == 0,
    {
        TrimCache { entries: Vec::new() }
    }

    /// Empties the cache, as the start of every pack job must.
    pub fn clear(&mut self)
        ensures
            final(self).entries@.len() == 0,
    {
        self.entries.clear();
    }

    /// Records the trim result of the sprite with `id`.
    pub fn insert(&mut self, id: String, result: TrimResult)
        ensures
            final(self).entries@.len() == old(self).entries@.len() + 1,
            final(self).entries@.last().id == id,
            final(self).entries@.last().result == result,
            forall|k: int| 0 <= k < old(self).entries@.len()
                ==> final(self).entries@[k] == old(self).entries@[k],
    {
        self.entries.push(TrimCacheEntry { id, result });
    }

    pub fn len(&self) -> (n: usize)
        ensures
            n == self.entries@.len(),
    {
        self.entries.len()
    }

    /// The most recent trim result recorded for `id`, if any.
    #[verifier::loop_isolation(false)]
    pub fn get(&self, id: &String) -> (r: Option<&TrimResult>)
        ensures
            match r {
                Some(t) => exists|k: int| {
                    &&& 0 <= k < self.entries@.len()
                    &&& (#[trigger] self.entries@[k]).id@ == id@
                    &&& t == &self.entries@[k].result
                    &&& forall|j: int| k < j < self.entries@.len()
                            ==> (#[trigger] self.entries@[j]).id@ != id@
                },
                None => forall|k: int| 0 <= k < self.entries@.len()
                    ==> (#[trigger] self.entries@[k]).id@ != id@,
            },
    {
        let n = self.entries.len();
        let mut i: usize = n;
        while i > 0
            invariant
                i <= n,
                n == self.entries@.len(),
                forall|j: int| i <= j < n ==> (#[trigger] self.entries@[j]).id@ != id@,
            decreases i,
        {
            i = i - 1;
            if self.entries[i].id == *id {
                return Some(&self.entries[i].result);
            }
        }
        None
    }
}

/// Total padding-inflated area the placed sprites reserve.
pub open spec fn sum_sprite_areas(sprites: Seq<PackedSprite>, padding: int) -> int
    decreases sprites.len(),
{
    if sprites.len() == 0 {
        0
    } else {
        sum_sprite_areas(sprites.drop_last(), padding)
            + (sprites.last().width + padding) * (sprites.last().height + padding)
    }
}

/// Fill-rate percentage over the declared canvas, rounded down and
/// saturated at `u32::MAX`.
pub open spec fn fill_rate_spec(sprites: Seq<PackedSprite>, w: int, h: int, padding: int)
    -> int {
    if w * h == 0 {
        0
    } else if sum_sprite_areas(sprites, padding) * 100 / (w * h) > u32::MAX {
        u32::MAX as int
    } else {
        sum_sprite_areas(sprites, padding) * 100 / (w * h)
    }
}

/// Percentage of the `width` by `height` canvas covered by the sprites'
/// padding-inflated footprints, rounded down.
#[verifier::loop_isolation(false)]
pub fn calculate_fill_rate(sprites: &[PackedSprite], width: u32, height: u32, padding: u32)
    -> (r: u32)
    requires
        sprites@.len() <= 0x1_0000_0000,
        forall|k: int| 0 <= k < sprites@.len()
            ==> (#[trigger] sprites@[k]).width + padding <= u32::MAX
                && sprites@[k].height + padding <= u32::MAX,
    ensures
        r == fill_rate_spec(sprites@, width as int, height as int, padding as int),
{
    if width == 0 || height == 0 {
        proof {
            assert(width as int * height as int == 0) by (nonlinear_arith)
                requires width == 0 || height == 0;
        }
        return 0;
    }
    proof {
        assert(width as int * height as int > 0) by (nonlinear_arith)
            requires width >= 1 && height >= 1;
    }

    let n = sprites.len();
    let mut sum: u128 = 0;
    let mut i: usize = 0;
    while i < n
        invariant
            i <= n,
            n == sprites@.len() <= 0x1_0000_0000,
            sum as int == sum_sprite_areas(sprites@.subrange(0, i as int), padding as int),
            sum as int <= i as int * 0xFFFF_FFFF_FFFF_FFFF,
        decreases n - i,
    {
        let ps = &sprites[i];
        let iw: u64 = (ps.width + padding) as u64;
        let ih: u64 = (ps.height + padding) as u64;
        proof {
            let pre = sprites@.subrange(0, i as int);
            let cur = sprites@.subrange(0, i as int + 1);
            assert(cur.drop_last() =~= pre);
            assert(cur.last() == sprites@[i as int]);
            assert((iw as int) * (ih as int) <= 0xFFFF_FFFF_FFFF_FFFF)
                by (nonlinear_arith)
                requires iw <= u32::MAX && ih <= u32::MAX;
            assert(sum as int + (iw as int) * (ih as int)
                <= (i as int + 1) * 0xFFFF_FFFF_FFFF_FFFF) by (nonlinear_arith)
                requires
                    sum as int <= i as int * 0xFFFF_FFFF_FFFF_FFFF,
                    (iw as int) * (ih as int) <= 0xFFFF_FFFF_FFFF_FFFF,
                    i >= 0;
            assert((n as int) * 0xFFFF_FFFF_FFFF_FFFF
                < 0x1_0000_0000_0000_0000_0000_0000_0000_0000) by (nonlinear_arith)
                requires n as int <= 0x1_0000_0000;
        }
        sum = sum + (iw as u128) * (ih as u128);
        i = i + 1;
    }
    proof {
        assert(sprites@.subrange(0, n as int) =~= sprites@);
        assert(sum as int * 100 < 0x1_0000_0000_0000_0000_0000_0000_0000_0000)
            by (nonlinear_arith)
            requires sum as int <= 0x1_0000_0000 * 0xFFFF_FFFF_FFFF_FFFF;
    }
    proof {
        assert((width as int) * (height as int)
            < 0x1_0000_0000_0000_0000_0000_0000_0000_0000) by (nonlinear_arith)
            requires width <= u32::MAX && height <= u32::MAX;
    }
    let total: u128 = (width as u128) * (height as u128);
    let q: u128 = sum * 100 / total;
    if q > (u32::MAX as u128) {
        u32::MAX
    } else {
        q as u32
    }
}

/// The canvas the pack command uses: the optimal power-of-two size when
/// auto-size is on and a candidate fits, else the configured maximum.
pub open spec fn chosen_canvas(sprites: Seq<SpriteInput>, max_width: int, max_height: int,
    allow_rotation: bool, auto_size: bool, padding: int) -> (int, int) {
    let max_dim = if max_width > max_height { max_width } else { max_height };
    if auto_size {
        match spec_optimal_size(sprites, max_dim, allow_rotation, padding) {
            Some(d) => d,
            None => (max_width, max_height),
        }
    } else {
        (max_width, max_height)
    }
}

/// The slots of the pack command's run on its chosen canvas.
pub open spec fn spec_pack_slots(sprites: Seq<SpriteInput>, max_width: int, max_height: int,
    allow_rotation: bool, auto_size: bool, padding: int) -> Seq<Option<PackedSprite>> {
    let dims = chosen_canvas(sprites, max_width, max_height, allow_rotation, auto_size, padding);
    spec_pack(
        seq![(Rect { x: 0u32, y: 0u32, width: dims.0 as u32, height: dims.1 as u32 })],
        Seq::empty(),
        sprites,
        allow_rotation,
        padding,
    ).2
}

/// The placements the pack command computes for its inputs.
pub open spec fn spec_pack_outcome(sprites: Seq<SpriteInput>, max_width: int, max_height: int,
    allow_rotation: bool, auto_size: bool, padding: int) -> Seq<PackedSprite> {
    compress(spec_pack_slots(sprites, max_width, max_height, allow_rotation, auto_size, padding))
}

/// The error raised when the sprite list is empty.
pub open spec fn empty_pack_error() -> Seq<char> {
    "no sprites to pack"@
}

/// The error raised when not every sprite fit the canvas.
pub open spec fn capacity_error(placed: int, total: int) -> Seq<char> {
    "texture too small: only packed "@ + dec_str(placed) + "/"@ + dec_str(total)
        + " sprites; increase the max size or reduce the sprite count"@
}

/// Packs prepared sprite inputs.  The canvas is the optimal power-of-two
/// size when auto-size is on and a candidate fits, else the configured
/// maximum.  Succeeds only when every sprite was placed; the placements
/// never overlap, stay inside the canvas with their padding gutter, keep
/// the input order, and swap their dimensions exactly when rotated.  The
/// fill rate is the un-inflated coverage of the declared canvas.
pub fn pack_sprites(sprite_inputs: &[SpriteInput], config: &PackConfig)
    -> (r: Result<PackResult, String>)
    requires
        sprite_inputs@.len() <= 0x1_0000_0000,
        ({
            let pad = match config.padding {
                Some(p) => p as int,
                None => 1int,
            };
            forall|k: int| 0 <= k < sprite_inputs@.len()
                ==> (#[trigger] sprite_inputs@[k]).width + pad <= u32::MAX
                    && sprite_inputs@[k].height + pad <= u32::MAX
        }),
    ensures
        ({
            let max_width = match config.max_width {
                Some(v) => v,
                None => 2048u32,
            };
            let max_height = match config.max_height {
                Some(v) => v,
                None => 2048u32,
            };
            let allow_rotation = match config.allow_rotation {
                Some(v) => v,
                None => true,
            };
            let auto_size = match config.auto_size {
                Some(v) => v,
                None => true,
            };
            let pad = match config.padding {
                Some(p) => p as int,
                None => 1int,
            };
            let dims = chosen_canvas(sprite_inputs@, max_width as int, max_height as int,
                allow_rotation, auto_size, pad);
            let slots = spec_pack_slots(sprite_inputs@, max_width as int, max_height as int,
                allow_rotation, auto_size, pad);
            let placed = spec_pack_outcome(sprite_inputs@, max_width as int, max_height as int,
                allow_rotation, auto_size, pad);
            match r {
                Err(msg) => {
                    ||| sprite_inputs@.len() == 0 && msg@ == empty_pack_error()
                    ||| (sprite_inputs@.len() > 0
                        && placed.len() != sprite_inputs@.len()
                        && msg@ == capacity_error(placed.len() as int,
                            sprite_inputs@.len() as int))
                },
                Ok(res) => {
                    &&& sprite_inputs@.len() > 0
                    &&& res.packed_sprites@ == placed
                    &&& res.packed_sprites@.len() == sprite_inputs@.len()
                    &&& res.texture_width == dims.0
                    &&& res.texture_height == dims.1
                    &&& (if auto_size {
                            (pot_sizes().contains(res.texture_width as int)
                                && pot_sizes().contains(res.texture_height as int)
                                && res.texture_width
                                    <= (if max_width > max_height { max_width } else { max_height })
                                && res.texture_height
                                    <= (if max_width > max_height { max_width } else { max_height }))
                            || (res.texture_width == max_width
                                && res.texture_height == max_height)
                        } else {
                            res.texture_width == max_width && res.texture_height == max_height
                        })
                    &&& forall|i: int, j: int|
                            #![trigger res.packed_sprites@[i], res.packed_sprites@[j]]
                            0 <= i < j < res.packed_sprites@.len()
                                ==> !spec_intersects(rect_of(res.packed_sprites@[i]),
                                    rect_of(res.packed_sprites@[j]))
                    &&& forall|i: int| 0 <= i < res.packed_sprites@.len()
                            ==> (#[trigger] res.packed_sprites@[i]).x
                                    + res.packed_sprites@[i].width + pad <= res.texture_width
                                && res.packed_sprites@[i].y + res.packed_sprites@[i].height
                                    + pad <= res.texture_height
                    &&& forall|k: int| 0 <= k < sprite_inputs@.len()
                            ==> match #[trigger] slots[k] {
                                Some(ps) => placed_matches(ps, sprite_inputs@[k],
                                    allow_rotation, res.texture_width as int,
                                    res.texture_height as int, pad),
                                None => true,
                            }
                    &&& res.fill_rate == fill_rate_spec(placed, dims.0, dims.1, pad)
                },
            }
        }),
{
    let max_width = match config.max_width {
        Some(v) => v,
        None => 2048,
    };
    let max_height = match config.max_height {
        Some(v) => v,
        None => 2048,
    };
    let allow_rotation = match config.allow_rotation {
        Some(v) => v,
        None => true,
    };
    let auto_size = match config.auto_size {
        Some(v) => v,
        None => true,
    };
    let padding = match config.padding {
        Some(p) => p,
        None => 1,
    };

    if sprite_inputs.len() == 0 {
        return Err("no sprites to pack".to_owned());
    }

    let max_dim = if max_width > max_height { max_width } else { max_height };
    let dims = if auto_size {
        match find_optimal_size(sprite_inputs, max_dim, allow_rotation, padding) {
            Some(d) => d,
            None => (max_width, max_height),
        }
    } else {
        (max_width, max_height)
    };
    let (tex_width, tex_height) = dims;
    proof {
        assert((tex_width as int, tex_height as int) == chosen_canvas(sprite_inputs@,
            max_width as int, max_height as int, allow_rotation, auto_size, padding as int));
    }

    let mut packer = MaxRectsPacker::new(tex_width, tex_height, allow_rotation, padding);
    proof {
        assert(packer.used_rects@ =~= Seq::<Rect>::empty());
        assert(packer.free_rects@ =~= seq![(Rect {
            x: 0u32,
            y: 0u32,
            width: (tex_width as int) as u32,
            height: (tex_height as int) as u32,
        })]);
    }
    let packed_sprites = packer.pack(sprite_inputs);
    proof {
        assert(packed_sprites@ == spec_pack_outcome(sprite_inputs@, max_width as int,
            max_height as int, allow_rotation, auto_size, padding as int));
    }

    if packed_sprites.len() != sprite_inputs.len() {
        let mut msg = String::new();
        msg.append("texture too small: only packed ");
        let p = fmt_u64(packed_sprites.len() as u64);
        msg.append(p.as_str());
        msg.append("/");
        let t = fmt_u64(sprite_inputs.len() as u64);
        msg.append(t.as_str());
        msg.append(" sprites; increase the max size or reduce the sprite count");
        proof {
            assert(msg@ =~= capacity_error(packed_sprites@.len() as int,
                sprite_inputs@.len() as int));
        }
        return Err(msg);
    }

    proof {
        lemma_compress_elems(spec_pack_slots(sprite_inputs@, max_width as int,
            max_height as int, allow_rotation, auto_size, padding as int));
        assert forall|k: int| 0 <= k < packed_sprites@.len()
            implies (#[trigger] packed_sprites@[k]).width + padding <= u32::MAX
                && packed_sprites@[k].height + padding <= u32::MAX by {
            let slots = spec_pack_slots(sprite_inputs@, max_width as int, max_height as int,
                allow_rotation, auto_size, padding as int);
            let j = choose|j: int| 0 <= j < slots.len()
                && slots[j] == Some(#[trigger] compress(slots)[k]);
            assert(slots[j] is Some);
        }
    }
    let fill_rate = calculate_fill_rate(packed_sprites.as_slice(), tex_width, tex_height,
        padding);

    Ok(PackResult {
        packed_sprites,
        texture_width: tex_width,
        texture_height: tex_height,
        fill_rate,
    })
}

/// The output path an export writes: `{dir}/{name}.zip` when zipping,
/// else `{dir}/{name}.plist`.
pub open spec fn export_path_spec(dir: Seq<char>, name: Seq<char>, zip: bool) -> Seq<char> {
    dir + "/"@ + name + (if zip { ".zip"@ } else { ".plist"@ })
}

/// Computes the output path of an export.
pub fn export_sprite_sheet(config: &ExportConfig) -> (r: String)
    ensures
        r@ == export_path_spec(config.output_dir@, config.output_name@, config.zip_output),
{
    let mut s = config.output_dir.clone();
    s.append("/");
    s.append(config.output_name.as_str());
    if config.zip_output {
        s.append(".zip");
    } else {
        s.append(".plist");
    }
    proof {
        assert(s@ =~= export_path_spec(config.output_dir@, config.output_name@,
            config.zip_output));
    }
    s
}

} // verus!
