use ezplist::raster::Raster;
use ezplist::trim::trim_transparent;

fn opaque_block_raster(w: u32, h: u32, l: u32, t: u32, r: u32, b: u32) -> Raster {
    let mut img = Raster::new(w, h);
    for y in t..b {
        for x in l..r {
            img.set_pixel(x, y, 10, 20, 30, 255);
        }
    }
    img
}

// Trim scenario: a 100x100 raster whose opaque pixels fill
// [40..60) x [30..70) trims to 20x40 with bounds (40,30,60,70) and zero
// centering offsets.
#[test]
fn test_trim_block() {
    let img = opaque_block_raster(100, 100, 40, 30, 60, 70);
    let res = trim_transparent(&img);

    assert_eq!(res.trimmed_width, 20);
    assert_eq!(res.trimmed_height, 40);
    assert_eq!(
        (res.trim_bounds.left, res.trim_bounds.top, res.trim_bounds.right, res.trim_bounds.bottom),
        (40, 30, 60, 70)
    );
    assert_eq!(res.offset_x, 0);
    assert_eq!(res.offset_y, 0);
    assert_eq!(res.original_width, 100);
    assert_eq!(res.original_height, 100);
    assert_eq!(res.trimmed_image.width(), 20);
    assert_eq!(res.trimmed_image.height(), 40);
}

// Trim idempotence: trimming the trimmed raster changes nothing.
#[test]
fn test_trim_idempotent() {
    let img = opaque_block_raster(64, 48, 5, 7, 40, 30);
    let once = trim_transparent(&img);
    let twice = trim_transparent(&once.trimmed_image);

    assert_eq!(twice.trimmed_width, once.trimmed_width);
    assert_eq!(twice.trimmed_height, once.trimmed_height);
    assert_eq!(
        (twice.trim_bounds.left, twice.trim_bounds.top),
        (0, 0)
    );
    assert_eq!(twice.trim_bounds.right, once.trimmed_width);
    assert_eq!(twice.trim_bounds.bottom, once.trimmed_height);
    assert_eq!(twice.trimmed_image.pixels, once.trimmed_image.pixels);
}

// A fully opaque image trims to itself with zero offsets and full
// bounds.
#[test]
fn test_trim_fully_opaque() {
    let img = opaque_block_raster(32, 16, 0, 0, 32, 16);
    let res = trim_transparent(&img);

    assert_eq!(res.trimmed_width, 32);
    assert_eq!(res.trimmed_height, 16);
    assert_eq!(
        (res.trim_bounds.left, res.trim_bounds.top, res.trim_bounds.right, res.trim_bounds.bottom),
        (0, 0, 32, 16)
    );
    assert_eq!(res.offset_x, 0);
    assert_eq!(res.offset_y, 0);
    assert_eq!(res.trimmed_image.pixels, img.pixels);
}

// A fully transparent image becomes a 1x1 placeholder with zero offsets.
#[test]
fn test_trim_fully_transparent() {
    let img = Raster::new(20, 20);
    let res = trim_transparent(&img);

    assert_eq!(res.trimmed_width, 1);
    assert_eq!(res.trimmed_height, 1);
    assert_eq!(res.offset_x, 0);
    assert_eq!(res.offset_y, 0);
    assert_eq!(res.original_width, 20);
    assert_eq!(res.original_height, 20);
    assert_eq!(
        (res.trim_bounds.left, res.trim_bounds.top, res.trim_bounds.right, res.trim_bounds.bottom),
        (0, 0, 1, 1)
    );
}

// Off-center content produces the Cocos2d-x centering offset with the
// inverted Y axis: content center minus image center, rounded half away
// from zero.
#[test]
fn test_trim_offsets() {
    // Content [0..10) x [0..10) in a 40x20 image: centers (5,5) vs
    // (20,10), so offset_x = -15 and offset_y = +5.
    let img = opaque_block_raster(40, 20, 0, 0, 10, 10);
    let res = trim_transparent(&img);
    assert_eq!(res.trimmed_width, 10);
    assert_eq!(res.trimmed_height, 10);
    assert_eq!(res.offset_x, -15);
    assert_eq!(res.offset_y, 5);
}

// The rounding is half away from zero: a 1x1 dot at (0,0) in 4x4 has
// centers 0.5 vs 2.0, so the doubled difference -3 rounds to -2.
#[test]
fn test_trim_offset_rounding() {
    let img = opaque_block_raster(4, 4, 0, 0, 1, 1);
    let res = trim_transparent(&img);
    assert_eq!(res.trimmed_width, 1);
    assert_eq!(res.trimmed_height, 1);
    assert_eq!(res.offset_x, -2);
    assert_eq!(res.offset_y, 2);
}

// The cropped raster holds exactly the source sub-rectangle.
#[test]
fn test_crop_pixels_exact() {
    let mut img = Raster::new(8, 8);
    for y in 0..8u32 {
        for x in 0..8u32 {
            img.set_pixel(x, y, x as u8, y as u8, 7, if (2..6).contains(&x) && (3..5).contains(&y) { 200 } else { 0 });
        }
    }
    let res = trim_transparent(&img);
    assert_eq!(res.trimmed_width, 4);
    assert_eq!(res.trimmed_height, 2);
    for y in 0..2u32 {
        for x in 0..4u32 {
            assert_eq!(res.trimmed_image.get_channel(x, y, 0), (x + 2) as u8);
            assert_eq!(res.trimmed_image.get_channel(x, y, 1), (y + 3) as u8);
            assert_eq!(res.trimmed_image.get_channel(x, y, 3), 200);
        }
    }
}
