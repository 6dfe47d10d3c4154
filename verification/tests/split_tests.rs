use ezplist::types::{SpritesheetInfo, SplitConfig, AnimationRegion};
use ezplist::split::{
    calculate_split_frames, calculate_region_frames, calculate_region_preview,
    region_bounds, translate_frames,
};

fn sheet(width: u32, height: u32) -> SpritesheetInfo {
    SpritesheetInfo {
        path: "test.png".to_string(),
        name: "test.png".to_string(),
        width,
        height,
    }
}

#[test]
fn test_split_calculation() {
    let spritesheet = sheet(512, 256);

    let config = SplitConfig {
        rows: 2,
        cols: 4,
        frame_width: None,
        frame_height: None,
        name_prefix: "frame".to_string(),
        start_index: Some(1),
    };

    let result = calculate_split_frames(&spritesheet, &config);

    assert!(result.is_ok());
    let split = result.unwrap();
    assert_eq!(split.total_frames, 8);
    assert_eq!(split.frame_width, 128);
    assert_eq!(split.frame_height, 128);
}

// Split scenario: 512x256 into 2x4 yields eight 128x128 frames named
// frame_01.png through frame_08.png in row-major order; the fifth frame
// starts the second row at (0, 128).
#[test]
fn test_split_names_and_positions() {
    let spritesheet = sheet(512, 256);
    let config = SplitConfig {
        rows: 2,
        cols: 4,
        frame_width: None,
        frame_height: None,
        name_prefix: "frame".to_string(),
        start_index: Some(1),
    };
    let split = calculate_split_frames(&spritesheet, &config).unwrap();

    assert_eq!(split.frames.len(), 8);
    for (k, f) in split.frames.iter().enumerate() {
        assert_eq!(f.name, format!("frame_{:02}.png", k + 1));
        assert_eq!(f.width, 128);
        assert_eq!(f.height, 128);
        assert_eq!(f.row, (k / 4) as u32);
        assert_eq!(f.col, (k % 4) as u32);
        assert_eq!(f.x, (k % 4) as u32 * 128);
        assert_eq!(f.y, (k / 4) as u32 * 128);
    }
    assert_eq!((split.frames[4].x, split.frames[4].y), (0, 128));
}

#[test]
fn test_split_zero_grid_error() {
    let spritesheet = sheet(512, 256);
    let config = SplitConfig {
        rows: 0,
        cols: 4,
        frame_width: None,
        frame_height: None,
        name_prefix: "frame".to_string(),
        start_index: None,
    };
    let err = calculate_split_frames(&spritesheet, &config).unwrap_err();
    assert_eq!(err, "rows and cols must be greater than 0");
}

#[test]
fn test_split_zero_frame_error() {
    // More columns than pixels: the computed frame width is zero.
    let spritesheet = sheet(4, 256);
    let config = SplitConfig {
        rows: 2,
        cols: 8,
        frame_width: None,
        frame_height: None,
        name_prefix: "frame".to_string(),
        start_index: None,
    };
    let err = calculate_split_frames(&spritesheet, &config).unwrap_err();
    assert_eq!(err, "computed frame size is 0, check the configuration");
}

// A fixed frame size that does not divide the sheet truncates the
// partial trailing column and row.
#[test]
fn test_split_truncates_partial_cells() {
    let spritesheet = sheet(500, 300);
    let config = SplitConfig {
        rows: 3,
        cols: 4,
        frame_width: Some(128),
        frame_height: Some(128),
        name_prefix: "f".to_string(),
        start_index: None,
    };
    let split = calculate_split_frames(&spritesheet, &config).unwrap();
    // Only 3 columns of 128 fit in 500, and 2 rows of 128 in 300.
    assert_eq!(split.total_frames, 6);
    assert_eq!(split.frames[0].name, "f_01.png");
    assert_eq!(split.frames[5].name, "f_06.png");
    assert_eq!((split.frames[5].x, split.frames[5].y), (256, 128));
}

#[test]
fn test_region_frames_wrap() {
    // A 512-wide sheet of 128x64 cells holds 4 columns; a region of 6
    // frames starting at (0,0) wraps into the second row.
    let spritesheet = sheet(512, 256);
    let region = AnimationRegion {
        name: "walk".to_string(),
        start_row: 0,
        start_col: 0,
        frame_count: 6,
        frame_width: 128,
        frame_height: 64,
    };
    let frames = calculate_region_frames(&spritesheet, &region);
    assert_eq!(frames.len(), 6);
    assert_eq!(frames[0].name, "walk_01.png");
    assert_eq!((frames[0].x, frames[0].y), (0, 0));
    assert_eq!((frames[3].x, frames[3].y), (384, 0));
    assert_eq!((frames[4].x, frames[4].y), (0, 64));
    assert_eq!((frames[5].x, frames[5].y), (128, 64));
    assert_eq!(frames[5].name, "walk_06.png");
}

#[test]
fn test_region_skips_out_of_bounds() {
    // Starting in the last row: only the frames inside the sheet appear,
    // but the name counter still follows the region index.
    let spritesheet = sheet(256, 128);
    let region = AnimationRegion {
        name: "idle".to_string(),
        start_row: 1,
        start_col: 0,
        frame_count: 4,
        frame_width: 128,
        frame_height: 64,
    };
    let frames = calculate_region_frames(&spritesheet, &region);
    assert_eq!(frames.len(), 2);
    assert_eq!(frames[0].name, "idle_01.png");
    assert_eq!((frames[0].x, frames[0].y), (0, 64));
    assert_eq!(frames[1].name, "idle_02.png");
    assert_eq!((frames[1].x, frames[1].y), (128, 64));
}

#[test]
fn test_region_preview_empty_error() {
    let spritesheet = sheet(256, 128);
    let region = AnimationRegion {
        name: "broken".to_string(),
        start_row: 9,
        start_col: 0,
        frame_count: 3,
        frame_width: 128,
        frame_height: 64,
    };
    let err = calculate_region_preview(&spritesheet, &region).unwrap_err();
    assert_eq!(err, "invalid region configuration, no frames produced");
}

#[test]
fn test_region_bounds_and_translate() {
    let spritesheet = sheet(512, 256);
    let region = AnimationRegion {
        name: "run".to_string(),
        start_row: 1,
        start_col: 1,
        frame_count: 2,
        frame_width: 128,
        frame_height: 64,
    };
    let frames = calculate_region_frames(&spritesheet, &region);
    assert_eq!(frames.len(), 2);
    let (min_x, min_y, max_x, max_y) = region_bounds(&frames);
    assert_eq!((min_x, min_y), (128, 64));
    assert_eq!((max_x, max_y), (384, 128));

    let rel = translate_frames(&frames, min_x, min_y);
    assert_eq!((rel[0].x, rel[0].y), (0, 0));
    assert_eq!((rel[1].x, rel[1].y), (128, 0));
    assert_eq!(rel[0].name, "run_01.png");
}
