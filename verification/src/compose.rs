//! Composing sprites at user-chosen positions into one atlas.
//!
//! `calculate_bounds` finds the union bounding box of the placed
//! sprites; `compose_layout` derives the canvas size and the shift to
//! apply to every sprite, either trimming the canvas to the bounding box
//! plus padding or keeping the original origin.

use vstd::prelude::*;
use crate::types::FrameComposeInfo;

verus! {

/// One sprite with its user-assigned position on the compose canvas.
#[derive(Debug, Clone)]
pub struct ComposeSpritePosition {
    pub id: String,
    pub name: String,
    pub path: String,
    /// Original dimensions.
    pub width: u32,
    pub height: u32,
    /// Position on the canvas.
    pub x: i32,
    pub y: i32,
}

/// How to compose: where to write, the canvas padding, and whether to
/// trim the canvas to the sprites' bounding box.
#[derive(Debug, Clone)]
pub struct ComposeConfig {
    pub output_dir: String,
    /// Output file name without extension.
    pub output_name: String,
    /// Canvas padding; defaults to 0.
    pub padding: Option<u32>,
    /// Trim the canvas to the bounding box; defaults to true.
    pub trim_to_bounds: Option<bool>,
}

/// Outcome of a compose operation.
#[derive(Debug)]
pub struct ComposeResult {
    pub png_path: String,
    pub plist_path: String,
    pub texture_width: u32,
    pub texture_height: u32,
    pub sprite_count: usize,
}

/// The union bounding box of the sprites, for preview.
#[derive(Debug, Clone, Copy, PartialEq, Eq, Structural)]
pub struct ComposeBoundsInfo {
    pub min_x: i32,
    pub min_y: i32,
    pub max_x: i32,
    pub max_y: i32,
    pub width: u32,
    pub height: u32,
    pub sprite_count: usize,
}

/// Smallest sprite x, or `i32::MAX` when the list is empty.
pub open spec fn spec_min_x(sprites: Seq<ComposeSpritePosition>) -> int
    decreases sprites.len(),
{
    if sprites.len() == 0 {
        i32::MAX as int
    } else {
        let m = spec_min_x(sprites.drop_last());
        let v = sprites.last().x as int;
        if v < m { v } else { m }
    }
}

/// Smallest sprite y, or `i32::MAX` when the list is empty.
pub open spec fn spec_min_y(sprites: Seq<ComposeSpritePosition>) -> int
    decreases sprites.len(),
{
    if sprites.len() == 0 {
        i32::MAX as int
    } else {
        let m = spec_min_y(sprites.drop_last());
        let v = sprites.last().y as int;
        if v < m { v } else { m }
    }
}

/// Largest sprite right edge, or `i32::MIN` when the list is empty.
pub open spec fn spec_max_x(sprites: Seq<ComposeSpritePosition>) -> int
    decreases sprites.len(),
{
    if sprites.len() == 0 {
        i32::MIN as int
    } else {
        let m = spec_max_x(sprites.drop_last());
        let v = sprites.last().x + sprites.last().width;
        if v > m { v } else { m }
    }
}

/// Largest sprite bottom edge, or `i32::MIN` when the list is empty.
pub open spec fn spec_max_y(sprites: Seq<ComposeSpritePosition>) -> int
    decreases sprites.len(),
{
    if sprites.len() == 0 {
        i32::MIN as int
    } else {
        let m = spec_max_y(sprites.drop_last());
        let v = sprites.last().y + sprites.last().height;
        if v > m { v } else { m }
    }
}

/// For a nonempty list the maxima lie at or after the minima.
pub proof fn lemma_bounds_ordered(sprites: Seq<ComposeSpritePosition>)
    requires
        sprites.len() > 0,
    ensures
        spec_min_x(sprites) <= spec_max_x(sprites),
        spec_min_y(sprites) <= spec_max_y(sprites),
    decreases sprites.len(),
{
    if sprites.len() > 1 {
        lemma_bounds_ordered(sprites.drop_last());
    }
}

/// The union bounding box `(min_x, min_y, max_x, max_y)` of the
/// sprites' rectangles.
#[verifier::loop_isolation(false)]
pub fn calculate_bounds(sprites: &[ComposeSpritePosition]) -> (r: (i32, i32, i32, i32))
    requires
        forall|k: int| 0 <= k < sprites@.len()
            ==> (#[trigger] sprites@[k]).x + sprites@[k].width <= i32::MAX
                && sprites@[k].y + sprites@[k].height <= i32::MAX,
    ensures
        r.0 == spec_min_x(sprites@),
        r.1 == spec_min_y(sprites@),
        r.2 == spec_max_x(sprites@),
        r.3 == spec_max_y(sprites@),
{
    let n = sprites.len();
    let mut min_x: i32 = i32::MAX;
    let mut min_y: i32 = i32::MAX;
    let mut max_x: i32 = i32::MIN;
    let mut max_y: i32 = i32::MIN;
    let mut i: usize = 0;
    while i < n
        invariant
            i <= n,
            n == sprites@.len(),
            min_x == spec_min_x(sprites@.subrange(0, i as int)),
            min_y == spec_min_y(sprites@.subrange(0, i as int)),
            max_x == spec_max_x(sprites@.subrange(0, i as int)),
            max_y == spec_max_y(sprites@.subrange(0, i as int)),
        decreases n - i,
    {
        let s = &sprites[i];
        proof {
            let pre = sprites@.subrange(0, i as int);
            let cur = sprites@.subrange(0, i as int + 1);
            assert(cur.drop_last() =~= pre);
            assert(cur.last() == sprites@[i as int]);
        }
        if s.x < min_x {
            min_x = s.x;
        }
        if s.y < min_y {
            min_y = s.y;
        }
        let right: i32 = ((s.x as i64) + (s.width as i64)) as i32;
        let bottom: i32 = ((s.y as i64) + (s.height as i64)) as i32;
        if right > max_x {
            max_x = right;
        }
        if bottom > max_y {
            max_y = bottom;
        }
        i = i + 1;
    }
    proof {
        assert(sprites@.subrange(0, n as int) =~= sprites@);
    }
    (min_x, min_y, max_x, max_y)
}

/// The bounding box and size of the composed sprites: all zeros for an
/// empty list, else the union box with `width = max_x - min_x` and
/// `height = max_y - min_y`.
pub fn preview_compose_bounds(sprites: &[ComposeSpritePosition]) -> (r: ComposeBoundsInfo)
    requires
        forall|k: int| 0 <= k < sprites@.len()
            ==> (#[trigger] sprites@[k]).x + sprites@[k].width <= i32::MAX
                && sprites@[k].y + sprites@[k].height <= i32::MAX,
    ensures
        sprites@.len() == 0 ==> r == (ComposeBoundsInfo {
            min_x: 0i32, min_y: 0i32, max_x: 0i32, max_y: 0i32,
            width: 0u32, height: 0u32, sprite_count: 0usize,
        }),
        sprites@.len() > 0 ==> {
            &&& r.min_x == spec_min_x(sprites@)
            &&& r.min_y == spec_min_y(sprites@)
            &&& r.max_x == spec_max_x(sprites@)
            &&& r.max_y == spec_max_y(sprites@)
            &&& r.width == spec_max_x(sprites@) - spec_min_x(sprites@)
            &&& r.height == spec_max_y(sprites@) - spec_min_y(sprites@)
            &&& r.sprite_count == sprites@.len()
        },
{
    if sprites.len() == 0 {
        return ComposeBoundsInfo {
            min_x: 0,
            min_y: 0,
            max_x: 0,
            max_y: 0,
            width: 0,
            height: 0,
            sprite_count: 0,
        };
    }
    let (min_x, min_y, max_x, max_y) = calculate_bounds(sprites);
    proof {
        lemma_bounds_ordered(sprites@);
    }
    ComposeBoundsInfo {
        min_x,
        min_y,
        max_x,
        max_y,
        width: ((max_x as i64) - (min_x as i64)) as u32,
        height: ((max_y as i64) - (min_y as i64)) as u32,
        sprite_count: sprites.len(),
    }
}

/// The canvas width the layout uses.
pub open spec fn layout_width(sprites: Seq<ComposeSpritePosition>, padding: int,
    trim_to_bounds: bool) -> int {
    if trim_to_bounds {
        spec_max_x(sprites) - spec_min_x(sprites) + 2 * padding
    } else {
        spec_max_x(sprites) + padding
    }
}

/// The canvas height the layout uses.
pub open spec fn layout_height(sprites: Seq<ComposeSpritePosition>, padding: int,
    trim_to_bounds: bool) -> int {
    if trim_to_bounds {
        spec_max_y(sprites) - spec_min_y(sprites) + 2 * padding
    } else {
        spec_max_y(sprites) + padding
    }
}

/// The shift added to every sprite's x.
pub open spec fn layout_offset_x(sprites: Seq<ComposeSpritePosition>, padding: int,
    trim_to_bounds: bool) -> int {
    if trim_to_bounds {
        -spec_min_x(sprites) + padding
    } else {
        padding
    }
}

/// The shift added to every sprite's y.
pub open spec fn layout_offset_y(sprites: Seq<ComposeSpritePosition>, padding: int,
    trim_to_bounds: bool) -> int {
    if trim_to_bounds {
        -spec_min_y(sprites) + padding
    } else {
        padding
    }
}

/// The error raised when the sprite list is empty.
pub open spec fn empty_compose_error() -> Seq<char> {
    "no sprites to compose"@
}

/// Computes the compose canvas size and every sprite's shifted frame:
/// canvas `bounding box + 2 * padding` with shift `(-min + padding)`
/// when trimming to bounds, else canvas `(max + padding)` with shift
/// `(padding, padding)`.  Fails exactly on an empty list.
#[verifier::loop_isolation(false)]
pub fn compose_layout(sprites: &[ComposeSpritePosition], padding: u32, trim_to_bounds: bool)
    -> (r: Result<(u32, u32, Vec<FrameComposeInfo>), String>)
    requires
        forall|k: int| 0 <= k < sprites@.len()
            ==> (#[trigger] sprites@[k]).x + sprites@[k].width <= i32::MAX
                && sprites@[k].y + sprites@[k].height <= i32::MAX,
        sprites@.len() > 0 ==> {
            &&& layout_width(sprites@, padding as int, trim_to_bounds) <= u32::MAX
            &&& layout_height(sprites@, padding as int, trim_to_bounds) <= u32::MAX
        },
        !trim_to_bounds && sprites@.len() > 0
            ==> spec_min_x(sprites@) >= 0 && spec_min_y(sprites@) >= 0,
    ensures
        match r {
            Err(msg) => sprites@.len() == 0 && msg@ == empty_compose_error(),
            Ok(out) => {
                let padi = padding as int;
                let ox = layout_offset_x(sprites@, padi, trim_to_bounds);
                let oy = layout_offset_y(sprites@, padi, trim_to_bounds);
                &&& sprites@.len() > 0
                &&& out.0 == layout_width(sprites@, padi, trim_to_bounds)
                &&& out.1 == layout_height(sprites@, padi, trim_to_bounds)
                &&& out.2@.len() == sprites@.len()
                &&& forall|k: int| 0 <= k < sprites@.len() ==> {
                        &&& (#[trigger] out.2@[k]).name@ == sprites@[k].name@
                        &&& out.2@[k].x == sprites@[k].x + ox
                        &&& out.2@[k].y == sprites@[k].y + oy
                        &&& out.2@[k].width == sprites@[k].width
                        &&& out.2@[k].height == sprites@[k].height
                    }
            },
        },
{
    if sprites.len() == 0 {
        return Err("no sprites to compose".to_owned());
    }

    let (min_x, min_y, max_x, max_y) = calculate_bounds(sprites);
    proof {
        lemma_bounds_ordered(sprites@);
    }

    let texture_width: u32;
    let texture_height: u32;
    let offset_x: i64;
    let offset_y: i64;
    if trim_to_bounds {
        texture_width = ((max_x as i64) - (min_x as i64) + 2 * (padding as i64)) as u32;
        texture_height = ((max_y as i64) - (min_y as i64) + 2 * (padding as i64)) as u32;
        offset_x = -(min_x as i64) + (padding as i64);
        offset_y = -(min_y as i64) + (padding as i64);
    } else {
        texture_width = ((max_x as i64) + (padding as i64)) as u32;
        texture_height = ((max_y as i64) + (padding as i64)) as u32;
        offset_x = padding as i64;
        offset_y = padding as i64;
    }

    let n = sprites.len();
    let mut frames: Vec<FrameComposeInfo> = Vec::new();
    let mut i: usize = 0;
    while i < n
        invariant
            i <= n,
            n == sprites@.len() > 0,
            offset_x == layout_offset_x(sprites@, padding as int, trim_to_bounds),
            offset_y == layout_offset_y(sprites@, padding as int, trim_to_bounds),
            frames@.len() == i,
            forall|k: int| 0 <= k < i ==> {
                &&& (#[trigger] frames@[k]).name@ == sprites@[k].name@
                &&& frames@[k].x == sprites@[k].x + offset_x
                &&& frames@[k].y == sprites@[k].y + offset_y
                &&& frames@[k].width == sprites@[k].width
                &&& frames@[k].height == sprites@[k].height
            },
        decreases n - i,
    {
        let s = &sprites[i];
        proof {
            lemma_member_bounds(sprites@, i as int);
        }
        let dest_x: u32 = ((s.x as i64) + offset_x) as u32;
        let dest_y: u32 = ((s.y as i64) + offset_y) as u32;
        frames.push(FrameComposeInfo {
            name: s.name.clone(),
            x: dest_x,
            y: dest_y,
            width: s.width,
            height: s.height,
        });
        i = i + 1;
    }

    Ok((texture_width, texture_height, frames))
}

/// Each sprite's coordinates lie within the union bounds.
proof fn lemma_member_bounds(sprites: Seq<ComposeSpritePosition>, k: int)
    requires
        0 <= k < sprites.len(),
    ensures
        spec_min_x(sprites) <= sprites[k].x,
        spec_min_y(sprites) <= sprites[k].y,
        spec_max_x(sprites) >= sprites[k].x + sprites[k].width,
        spec_max_y(sprites) >= sprites[k].y + sprites[k].height,
    decreases sprites.len(),
{
    if k < sprites.len() - 1 {
        lemma_member_bounds(sprites.drop_last(), k);
    }
}

} // verus!
