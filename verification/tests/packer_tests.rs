use ezplist::geom::Rect;
use ezplist::packer::{MaxRectsPacker, SpriteInput, find_optimal_size};

fn create_test_sprite(id: &str, width: u32, height: u32) -> SpriteInput {
    SpriteInput {
        id: id.to_string(),
        name: format!("{}.png", id),
        width,
        height,
        original_width: width,
        original_height: height,
        offset_x: 0,
        offset_y: 0,
        trimmed: false,
    }
}

#[test]
fn test_packer_creation() {
    let packer = MaxRectsPacker::new(512, 512, true, 0);
    assert_eq!(packer.width, 512);
    assert_eq!(packer.height, 512);
    assert_eq!(packer.free_rects.len(), 1);
}

#[test]
fn test_basic_packing() {
    let sprites = vec![
        create_test_sprite("a", 100, 100),
        create_test_sprite("b", 50, 50),
        create_test_sprite("c", 80, 60),
    ];

    let mut packer = MaxRectsPacker::new(512, 512, true, 0);
    let result = packer.pack(&sprites);

    assert_eq!(result.len(), 3);

    for i in 0..result.len() {
        for j in (i + 1)..result.len() {
            let r1 = Rect::new(result[i].x, result[i].y, result[i].width, result[i].height);
            let r2 = Rect::new(result[j].x, result[j].y, result[j].width, result[j].height);
            assert!(!r1.intersects(&r2), "sprites {} and {} overlap", i, j);
        }
    }
}

#[test]
fn test_fill_rate() {
    let sprites = vec![
        create_test_sprite("a", 256, 256),
        create_test_sprite("b", 256, 256),
        create_test_sprite("c", 256, 256),
        create_test_sprite("d", 256, 256),
    ];

    let mut packer = MaxRectsPacker::new(512, 512, false, 0);
    let result = packer.pack(&sprites);

    assert_eq!(result.len(), 4);
    assert!((packer.fill_rate() as f32 - 100.0).abs() < 0.01);
}

#[test]
fn test_rotation() {
    // A long narrow sprite that only fits rotated.
    let sprites = vec![
        create_test_sprite("a", 200, 50),
    ];

    // A 150x200 canvas cannot hold a 200-wide image unrotated.
    let mut packer = MaxRectsPacker::new(150, 200, true, 0);
    let result = packer.pack(&sprites);

    assert_eq!(result.len(), 1);
    assert!(result[0].rotated);
}

#[test]
fn test_optimal_size() {
    let sprites = vec![
        create_test_sprite("a", 100, 100),
        create_test_sprite("b", 100, 100),
        create_test_sprite("c", 100, 100),
    ];

    let size = find_optimal_size(&sprites, 2048, true, 0);
    assert!(size.is_some());

    let (w, h) = size.unwrap();
    assert!(w <= 256 && h <= 256);
}

// Perfect tiling: four 256x256 sprites, no padding or rotation, fill an
// auto-sized 512x512 canvas completely.
#[test]
fn test_perfect_tiling_scenario() {
    let sprites = vec![
        create_test_sprite("a", 256, 256),
        create_test_sprite("b", 256, 256),
        create_test_sprite("c", 256, 256),
        create_test_sprite("d", 256, 256),
    ];

    let size = find_optimal_size(&sprites, 2048, false, 0);
    assert_eq!(size, Some((512, 512)));

    let mut packer = MaxRectsPacker::new(512, 512, false, 0);
    let result = packer.pack(&sprites);
    assert_eq!(result.len(), 4);

    let mut positions: Vec<(u32, u32)> = result.iter().map(|p| (p.x, p.y)).collect();
    positions.sort();
    assert_eq!(positions, vec![(0, 0), (0, 256), (256, 0), (256, 256)]);
    for p in &result {
        assert_eq!((p.width, p.height), (256, 256));
        assert!(!p.rotated);
    }
    assert_eq!(packer.fill_rate(), 100);
}

// Rotation scenario: a 200x50 sprite in a 150x200 canvas is placed at
// the origin with swapped dimensions.
#[test]
fn test_rotation_placement_details() {
    let sprites = vec![create_test_sprite("a", 200, 50)];
    let mut packer = MaxRectsPacker::new(150, 200, true, 0);
    let result = packer.pack(&sprites);

    assert_eq!(result.len(), 1);
    let p = &result[0];
    assert_eq!((p.x, p.y), (0, 0));
    assert_eq!((p.width, p.height), (50, 200));
    assert!(p.rotated);
}

// Order preservation: outputs come back in input order whatever the
// packing order was, and unrotated outputs keep their dimensions.
#[test]
fn test_order_preserved() {
    let sprites = vec![
        create_test_sprite("small", 10, 10),
        create_test_sprite("large", 200, 200),
        create_test_sprite("medium", 60, 40),
    ];

    let mut packer = MaxRectsPacker::new(512, 512, false, 0);
    let result = packer.pack(&sprites);

    assert_eq!(result.len(), 3);
    assert_eq!(result[0].name, "small.png");
    assert_eq!(result[1].name, "large.png");
    assert_eq!(result[2].name, "medium.png");
    for (p, s) in result.iter().zip(sprites.iter()) {
        assert_eq!((p.width, p.height), (s.width, s.height));
        assert!(!p.rotated);
    }
}

// Canvas containment with padding: every placement leaves its gutter
// inside the canvas.
#[test]
fn test_canvas_containment_with_padding() {
    let sprites = vec![
        create_test_sprite("a", 100, 100),
        create_test_sprite("b", 50, 70),
        create_test_sprite("c", 127, 33),
    ];
    let mut packer = MaxRectsPacker::new(256, 256, true, 2);
    let result = packer.pack(&sprites);
    assert_eq!(result.len(), 3);
    for p in &result {
        assert!(p.x + p.width + 2 <= 256);
        assert!(p.y + p.height + 2 <= 256);
    }
}

// A sprite that fits nowhere is skipped and the rest are still placed.
#[test]
fn test_oversized_sprite_skipped() {
    let sprites = vec![
        create_test_sprite("fits", 50, 50),
        create_test_sprite("too_big", 300, 300),
    ];
    let mut packer = MaxRectsPacker::new(128, 128, true, 0);
    let result = packer.pack(&sprites);
    assert_eq!(result.len(), 1);
    assert_eq!(result[0].name, "fits.png");
}

// Fill rate on an empty canvas and on a partly covered one.
#[test]
fn test_fill_rate_bounds() {
    let packer = MaxRectsPacker::new(512, 512, true, 0);
    assert_eq!(packer.fill_rate(), 0);

    let sprites = vec![create_test_sprite("a", 256, 512)];
    let mut half = MaxRectsPacker::new(512, 512, false, 0);
    let placed = half.pack(&sprites);
    assert_eq!(placed.len(), 1);
    assert_eq!(half.fill_rate(), 50);
    let rate = half.fill_rate();
    assert!(rate <= 100);
}

#[test]
fn test_actual_bounds() {
    let sprites = vec![
        create_test_sprite("a", 100, 40),
        create_test_sprite("b", 30, 90),
    ];
    let mut packer = MaxRectsPacker::new(512, 512, false, 0);
    let result = packer.pack(&sprites);
    assert_eq!(result.len(), 2);
    let (mx, my) = packer.actual_bounds();
    let expect_x = result.iter().map(|p| p.x + p.width).max().unwrap();
    let expect_y = result.iter().map(|p| p.y + p.height).max().unwrap();
    assert_eq!(mx, expect_x);
    assert_eq!(my, expect_y);
}

// Determinism: the same inputs and configuration give the same
// placements on every run.
#[test]
fn test_pack_deterministic() {
    let sprites = vec![
        create_test_sprite("a", 100, 100),
        create_test_sprite("b", 100, 100),
        create_test_sprite("c", 40, 80),
        create_test_sprite("d", 80, 40),
    ];
    let mut first = MaxRectsPacker::new(256, 256, true, 1);
    let mut second = MaxRectsPacker::new(256, 256, true, 1);
    let r1 = first.pack(&sprites);
    let r2 = second.pack(&sprites);
    assert_eq!(r1.len(), r2.len());
    for (a, b) in r1.iter().zip(r2.iter()) {
        assert_eq!(a.name, b.name);
        assert_eq!((a.x, a.y, a.width, a.height, a.rotated), (b.x, b.y, b.width, b.height, b.rotated));
    }
}

// The padding gutter is reserved: even the inflated footprints of two
// placements never overlap.
#[test]
fn test_padding_gutter_disjoint() {
    let sprites = vec![
        create_test_sprite("a", 60, 60),
        create_test_sprite("b", 60, 60),
        create_test_sprite("c", 60, 60),
    ];
    let mut packer = MaxRectsPacker::new(256, 256, false, 3);
    let result = packer.pack(&sprites);
    assert_eq!(result.len(), 3);
    for i in 0..result.len() {
        for j in (i + 1)..result.len() {
            let a = Rect::new(result[i].x, result[i].y, result[i].width + 3, result[i].height + 3);
            let b = Rect::new(result[j].x, result[j].y, result[j].width + 3, result[j].height + 3);
            assert!(!a.intersects(&b), "inflated footprints {} and {} overlap", i, j);
        }
    }
}
