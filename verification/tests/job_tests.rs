use ezplist::job::{
    PackConfig, TrimCache, calculate_fill_rate, export_sprite_sheet, pack_sprites,
    sprite_input_from_trim, sprite_input_untrimmed,
};
use ezplist::packer::SpriteInput;
use ezplist::raster::Raster;
use ezplist::trim::trim_transparent;
use ezplist::types::{ExportConfig, SpriteData};

fn input(id: &str, width: u32, height: u32) -> SpriteInput {
    SpriteInput {
        id: id.to_string(),
        name: format!("{}.png", id),
        width,
        height,
        original_width: width,
        original_height: height,
        offset_x: 0,
        offset_y: 0,
        trimmed: false,
    }
}

fn data(id: &str, width: u32, height: u32) -> SpriteData {
    SpriteData {
        id: id.to_string(),
        name: format!("{}.png", id),
        path: format!("/tmp/{}.png", id),
        width,
        height,
        trimmed_width: width,
        trimmed_height: height,
    }
}

#[test]
fn test_pack_config_default() {
    let config = PackConfig::default();
    assert_eq!(config.max_width, Some(2048));
    assert_eq!(config.trim_transparent, Some(true));
    assert_eq!(config.allow_rotation, Some(true));
}

// End-to-end pack: four 256x256 sprites, no padding or rotation,
// auto-size on: a 512x512 canvas, the four quadrants, fill rate 100.
#[test]
fn test_pack_sprites_perfect_tiling() {
    let sprites = vec![
        input("a", 256, 256),
        input("b", 256, 256),
        input("c", 256, 256),
        input("d", 256, 256),
    ];
    let config = PackConfig {
        max_width: Some(2048),
        max_height: Some(2048),
        trim_transparent: Some(false),
        allow_rotation: Some(false),
        padding: Some(0),
        auto_size: Some(true),
    };
    let result = pack_sprites(&sprites, &config).unwrap();
    assert_eq!((result.texture_width, result.texture_height), (512, 512));
    assert_eq!(result.packed_sprites.len(), 4);
    let mut positions: Vec<(u32, u32)> =
        result.packed_sprites.iter().map(|p| (p.x, p.y)).collect();
    positions.sort();
    assert_eq!(positions, vec![(0, 0), (0, 256), (256, 0), (256, 256)]);
    assert_eq!(result.fill_rate, 100);
}

#[test]
fn test_pack_sprites_empty_error() {
    let config = PackConfig::default();
    let err = pack_sprites(&[], &config).unwrap_err();
    assert_eq!(err, "no sprites to pack");
}

#[test]
fn test_pack_sprites_capacity_error() {
    let sprites = vec![input("big", 300, 300)];
    let config = PackConfig {
        max_width: Some(128),
        max_height: Some(128),
        trim_transparent: Some(false),
        allow_rotation: Some(true),
        padding: Some(0),
        auto_size: Some(false),
    };
    let err = pack_sprites(&sprites, &config).unwrap_err();
    assert_eq!(
        err,
        "texture too small: only packed 0/1 sprites; increase the max size or reduce the sprite count"
    );
}

#[test]
fn test_fill_rate_formula() {
    let sprites = vec![input("a", 100, 50)];
    let config = PackConfig {
        max_width: Some(128),
        max_height: Some(128),
        trim_transparent: Some(false),
        allow_rotation: Some(false),
        padding: Some(0),
        auto_size: Some(false),
    };
    let result = pack_sprites(&sprites, &config).unwrap();
    // 5000 of 16384 pixels, rounded down.
    assert_eq!(result.fill_rate, 5000 * 100 / 16384);
    assert!(result.fill_rate <= 100);

    assert_eq!(calculate_fill_rate(&result.packed_sprites, 0, 100, 0), 0);
}

#[test]
fn test_sprite_inputs_from_trim() {
    let mut img = Raster::new(10, 10);
    img.set_pixel(4, 5, 0, 0, 0, 255);
    let trim = trim_transparent(&img);
    let sprite = data("s1", 10, 10);

    let trimmed = sprite_input_from_trim(&sprite, &trim);
    assert_eq!(trimmed.id, "s1");
    assert_eq!((trimmed.width, trimmed.height), (1, 1));
    assert_eq!((trimmed.original_width, trimmed.original_height), (10, 10));
    assert!(trimmed.trimmed);

    let plain = sprite_input_untrimmed(&sprite);
    assert_eq!((plain.width, plain.height), (10, 10));
    assert!(!plain.trimmed);
}

#[test]
fn test_trim_cache() {
    let mut cache = TrimCache::new();
    assert_eq!(cache.len(), 0);

    let img = Raster::new(4, 4);
    let first = trim_transparent(&img);
    let mut img2 = Raster::new(4, 4);
    img2.set_pixel(1, 1, 0, 0, 0, 255);
    let second = trim_transparent(&img2);

    cache.insert("a".to_string(), first);
    cache.insert("b".to_string(), second);
    assert_eq!(cache.len(), 2);

    let got = cache.get(&"b".to_string()).unwrap();
    assert_eq!((got.trim_bounds.left, got.trim_bounds.top), (1, 1));
    assert!(cache.get(&"missing".to_string()).is_none());

    cache.clear();
    assert_eq!(cache.len(), 0);
    assert!(cache.get(&"a".to_string()).is_none());
}

#[test]
fn test_export_path() {
    let config = ExportConfig {
        packed_sprites: vec![],
        texture_width: 512,
        texture_height: 512,
        output_dir: "/tmp/out".to_string(),
        output_name: "atlas".to_string(),
        zip_output: false,
    };
    assert_eq!(export_sprite_sheet(&config), "/tmp/out/atlas.plist");

    let zipped = ExportConfig { zip_output: true, ..config };
    assert_eq!(export_sprite_sheet(&zipped), "/tmp/out/atlas.zip");
}
