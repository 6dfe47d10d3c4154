use ezplist::compose::{
    ComposeSpritePosition, calculate_bounds, compose_layout, preview_compose_bounds,
};

fn sprite(id: &str, name: &str, width: u32, height: u32, x: i32, y: i32) -> ComposeSpritePosition {
    ComposeSpritePosition {
        id: id.to_string(),
        name: name.to_string(),
        path: name.to_string(),
        width,
        height,
        x,
        y,
    }
}

#[test]
fn test_calculate_bounds() {
    let sprites = vec![
        sprite("1", "a.png", 100, 100, 0, 0),
        sprite("2", "b.png", 50, 50, 100, 100),
    ];

    let (min_x, min_y, max_x, max_y) = calculate_bounds(&sprites);

    assert_eq!(min_x, 0);
    assert_eq!(min_y, 0);
    assert_eq!(max_x, 150);
    assert_eq!(max_y, 150);
}

// Compose scenario: A (100x100) at the origin and B (50x50) at
// (100,100) preview to bounds (0,0)..(150,150) and, trimmed with no
// padding, a 150x150 canvas.
#[test]
fn test_compose_scenario() {
    let sprites = vec![
        sprite("1", "a.png", 100, 100, 0, 0),
        sprite("2", "b.png", 50, 50, 100, 100),
    ];

    let bounds = preview_compose_bounds(&sprites);
    assert_eq!((bounds.min_x, bounds.min_y), (0, 0));
    assert_eq!((bounds.max_x, bounds.max_y), (150, 150));
    assert_eq!((bounds.width, bounds.height), (150, 150));
    assert_eq!(bounds.sprite_count, 2);

    let (w, h, frames) = compose_layout(&sprites, 0, true).unwrap();
    assert_eq!((w, h), (150, 150));
    assert_eq!(frames.len(), 2);
    assert_eq!((frames[0].x, frames[0].y), (0, 0));
    assert_eq!((frames[1].x, frames[1].y), (100, 100));
    assert_eq!(frames[0].name, "a.png");
    assert_eq!(frames[1].name, "b.png");
}

#[test]
fn test_preview_empty() {
    let bounds = preview_compose_bounds(&[]);
    assert_eq!((bounds.min_x, bounds.min_y, bounds.max_x, bounds.max_y), (0, 0, 0, 0));
    assert_eq!((bounds.width, bounds.height), (0, 0));
    assert_eq!(bounds.sprite_count, 0);
}

#[test]
fn test_compose_empty_error() {
    let err = compose_layout(&[], 0, true).unwrap_err();
    assert_eq!(err, "no sprites to compose");
}

// Trimming to bounds shifts negative positions into the canvas and adds
// the padding on all sides.
#[test]
fn test_compose_trim_with_padding() {
    let sprites = vec![
        sprite("1", "a.png", 10, 10, -5, -3),
        sprite("2", "b.png", 20, 8, 15, 4),
    ];
    let (w, h, frames) = compose_layout(&sprites, 2, true).unwrap();
    // Bounds: x in [-5, 35), y in [-3, 12); canvas adds 2 on each side.
    assert_eq!((w, h), (44, 19));
    assert_eq!((frames[0].x, frames[0].y), (0 + 2, 0 + 2));
    assert_eq!((frames[1].x, frames[1].y), (20 + 2, 7 + 2));
}

// Without trimming, the canvas keeps the origin and pads right and
// bottom, shifting every sprite by the padding.
#[test]
fn test_compose_no_trim() {
    let sprites = vec![
        sprite("1", "a.png", 10, 10, 5, 3),
        sprite("2", "b.png", 20, 8, 15, 4),
    ];
    let (w, h, frames) = compose_layout(&sprites, 1, false).unwrap();
    assert_eq!((w, h), (36, 14));
    assert_eq!((frames[0].x, frames[0].y), (6, 4));
    assert_eq!((frames[1].x, frames[1].y), (16, 5));
}
