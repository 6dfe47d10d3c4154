//! Shared data types of the toolkit.

use vstd::prelude::*;

verus! {

/// A raw imported image: identity, location and dimensions.
#[derive(Debug, Clone)]
pub struct SpriteData {
    /// Unique identifier within a job.
    pub id: String,
    /// File name.
    pub name: String,
    /// File path.
    pub path: String,
    /// Original dimensions.
    pub width: u32,
    pub height: u32,
    /// Dimensions after trimming.
    pub trimmed_width: u32,
    pub trimmed_height: u32,
}

/// One placed sprite in the atlas.
#[derive(Debug, Clone)]
pub struct PackedSprite {
    pub id: String,
    pub name: String,
    /// Position in the atlas texture.
    pub x: u32,
    pub y: u32,
    /// Dimensions in the atlas, after any rotation.
    pub width: u32,
    pub height: u32,
    /// Whether the sprite was rotated 90 degrees.
    pub rotated: bool,
    /// Dimensions before trimming.
    pub original_width: u32,
    pub original_height: u32,
    /// Whether transparent borders were trimmed.
    pub trimmed: bool,
    /// Centering offset from the trim.
    pub offset_x: i32,
    pub offset_y: i32,
}

/// Outcome of importing a batch of images.
#[derive(Debug)]
pub struct ImportResult {
    pub sprites: Vec<SpriteData>,
    /// Per-file error messages for the paths that failed.
    pub failed: Vec<String>,
    pub total: usize,
}

/// Outcome of a pack operation.
#[derive(Debug)]
pub struct PackResult {
    pub packed_sprites: Vec<PackedSprite>,
    pub texture_width: u32,
    pub texture_height: u32,
    /// Percentage of the canvas covered by placed sprites, rounded down.
    pub fill_rate: u32,
}

/// What an export writes and where.
#[derive(Debug)]
pub struct ExportConfig {
    pub packed_sprites: Vec<PackedSprite>,
    pub texture_width: u32,
    pub texture_height: u32,
    pub output_dir: String,
    /// Output file name without extension.
    pub output_name: String,
    pub zip_output: bool,
}

/// The metadata dictionary of a Format-3 plist.
#[derive(Debug)]
pub struct PlistMetadata {
    pub format: i32,
    pub real_texture_file_name: String,
    pub size: String,
    pub texture_file_name: String,
    pub smartupdate: String,
}

/// One frame dictionary of a Format-3 plist.
#[derive(Debug)]
pub struct PlistFrameData {
    pub sprite_offset: String,
    pub sprite_size: String,
    pub sprite_source_size: String,
    pub texture_rect: String,
    pub texture_rotated: bool,
    pub aliases: Option<Vec<String>>,
}

/// One sprite's placement inside a composed atlas.
#[derive(Debug, Clone)]
pub struct FrameComposeInfo {
    pub name: String,
    pub x: u32,
    pub y: u32,
    pub width: u32,
    pub height: u32,
}

/// An existing sprite sheet on disk.
#[derive(Debug, Clone)]
pub struct SpritesheetInfo {
    pub path: String,
    pub name: String,
    pub width: u32,
    pub height: u32,
}

/// One frame cut out of a sheet.
#[derive(Debug, Clone)]
pub struct FrameInfo {
    /// Frame name, e.g. `idle_01.png`.
    pub name: String,
    pub x: u32,
    pub y: u32,
    pub width: u32,
    pub height: u32,
    /// Grid position.
    pub row: u32,
    pub col: u32,
}

/// How to cut a sheet into a grid.
#[derive(Debug, Clone)]
pub struct SplitConfig {
    pub rows: u32,
    pub cols: u32,
    /// Fixed frame width; computed from the sheet when absent.
    pub frame_width: Option<u32>,
    /// Fixed frame height; computed from the sheet when absent.
    pub frame_height: Option<u32>,
    pub name_prefix: String,
    /// First frame number; defaults to 1.
    pub start_index: Option<u32>,
}

/// Outcome of a grid split.
#[derive(Debug)]
pub struct SplitResult {
    pub frames: Vec<FrameInfo>,
    pub frame_width: u32,
    pub frame_height: u32,
    pub total_frames: u32,
}

/// A named animation region inside a sheet, for multi-region export.
#[derive(Debug, Clone)]
pub struct AnimationRegion {
    pub name: String,
    /// Starting cell, zero-indexed.
    pub start_row: u32,
    pub start_col: u32,
    pub frame_count: u32,
    pub frame_width: u32,
    pub frame_height: u32,
}

} // verus!
