use ezplist::raster::Raster;
use ezplist::detect::{
    auto_detect_frame_size, auto_detect_with_image, count_content_regions,
    detect_frames_by_transparency, find_factors, gcd,
};

// Fills the cell grid so each tile occupies its cell except the last
// column and row of pixels, leaving one-pixel transparent gaps.
fn tiled_raster(tile_w: u32, tile_h: u32, cols: u32, rows: u32) -> Raster {
    let mut img = Raster::new(tile_w * cols, tile_h * rows);
    for row in 0..rows {
        for col in 0..cols {
            for y in 0..(tile_h - 1) {
                for x in 0..(tile_w - 1) {
                    img.set_pixel(col * tile_w + x, row * tile_h + y, 1, 2, 3, 255);
                }
            }
        }
    }
    img
}

#[test]
fn test_count_content_regions() {
    // true = transparent; two content runs.
    let flags = vec![true, false, false, true, true, false, true];
    assert_eq!(count_content_regions(&flags), 2);
    assert_eq!(count_content_regions(&[]), 0);
    assert_eq!(count_content_regions(&[true, true]), 0);
    assert_eq!(count_content_regions(&[false, false]), 1);
}

// Detector correctness: an N x M grid of opaque tiles on transparent
// background is detected exactly, with confidence 95.
#[test]
fn test_detect_grid() {
    let img = tiled_raster(64, 32, 4, 2);
    let detected = detect_frames_by_transparency(&img).unwrap();
    assert_eq!(detected, (64, 32, 2, 4));

    let full = auto_detect_with_image(&img).unwrap();
    assert_eq!(full.frame_width, 64);
    assert_eq!(full.frame_height, 32);
    assert_eq!(full.rows, 2);
    assert_eq!(full.cols, 4);
    assert_eq!(full.confidence, 95);
}

// Detector scenario, first part: a 512x64 strip of four 128x64 tiles
// with internal gaps gives (128, 64, 1, 4) at confidence 95.
#[test]
fn test_detect_strip() {
    let img = tiled_raster(128, 64, 4, 1);
    let detected = auto_detect_with_image(&img).unwrap();
    assert_eq!(
        (detected.frame_width, detected.frame_height, detected.rows, detected.cols),
        (128, 64, 1, 4)
    );
    assert_eq!(detected.confidence, 95);
}

// Detector scenario, second part: a strip with contiguous
// non-transparent pixels throughout has no alpha gaps and falls
// through to the square-frame strategy.
#[test]
fn test_detect_no_gaps() {
    let mut img = Raster::new(768, 64);
    for y in 0..64 {
        for x in 0..768 {
            img.set_pixel(x, y, 9, 9, 9, 255);
        }
    }
    let detected = auto_detect_with_image(&img).unwrap();
    assert_eq!(detected.frame_width, 64);
    assert_eq!(detected.frame_height, 64);
    assert_eq!(detected.rows, 1);
    assert_eq!(detected.cols, 768 / 64);
    assert_eq!(detected.confidence, 75);
}

#[test]
fn test_square_frame_strategy() {
    let detected = auto_detect_frame_size(256, 64).unwrap();
    assert_eq!(
        (detected.frame_width, detected.frame_height, detected.rows, detected.cols),
        (64, 64, 1, 4)
    );
    assert_eq!(detected.confidence, 75);
}

#[test]
fn test_common_size_strategy() {
    // 384 x 640: not square-divisible (640 > 256), but 128 divides both.
    let detected = auto_detect_frame_size(384, 640).unwrap();
    assert_eq!(
        (detected.frame_width, detected.frame_height, detected.rows, detected.cols),
        (128, 128, 5, 3)
    );
    assert_eq!(detected.confidence, 70);
}

#[test]
fn test_factor_strategy() {
    // 250 x 77: the height does not divide the width and no common
    // size divides 77, so the factor search takes the largest factor
    // of 250 in [32, 256], which is 250 itself.
    let detected = auto_detect_frame_size(250, 77).unwrap();
    assert_eq!(
        (detected.frame_width, detected.frame_height, detected.rows, detected.cols),
        (250, 77, 1, 1)
    );
    assert_eq!(detected.confidence, 65);
}

// GCD lower bound: the fallback never reports a frame side below 16.
#[test]
fn test_gcd_fallback() {
    // 272 x 306: gcd 34; the height above 256 blocks the square and
    // factor strategies, and no common size divides both dimensions.
    assert_eq!(gcd(272, 306), 34);
    let detected = auto_detect_frame_size(272, 306).unwrap();
    assert_eq!(
        (detected.frame_width, detected.frame_height, detected.rows, detected.cols),
        (34, 34, 9, 8)
    );
    assert_eq!(detected.confidence, 50);
    assert!(detected.frame_width >= 16);
    assert!(detected.frame_height >= 16);
}

#[test]
fn test_detect_none() {
    // 509 x 257: both prime, both above 256, gcd 1; every strategy
    // declines.
    assert!(auto_detect_frame_size(509, 257).is_none());
}

#[test]
fn test_find_factors() {
    assert_eq!(find_factors(12), vec![1, 2, 3, 4, 6, 12]);
    assert_eq!(find_factors(1), vec![1]);
    assert_eq!(find_factors(13), vec![1, 13]);
}
