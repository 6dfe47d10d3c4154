use md5::Digest;

use ezplist::hash::calculate_md5;
use ezplist::plist::{generate_plist, generate_split_plist, generate_compose_plist, xml_escape_str};
use ezplist::types::{PackedSprite, FrameInfo, FrameComposeInfo};

fn packed(name: &str, x: u32, y: u32, w: u32, h: u32, rotated: bool) -> PackedSprite {
    PackedSprite {
        id: name.to_string(),
        name: name.to_string(),
        x,
        y,
        width: w,
        height: h,
        rotated,
        original_width: w + 4,
        original_height: h + 2,
        trimmed: true,
        offset_x: -1,
        offset_y: 2,
    }
}

fn frame(name: &str, x: u32, y: u32, w: u32, h: u32) -> FrameInfo {
    FrameInfo {
        name: name.to_string(),
        x,
        y,
        width: w,
        height: h,
        row: 0,
        col: 0,
    }
}

fn md5_hex_of(data: &[u8]) -> String {
    let digest = md5::Md5::digest(data);
    let mut s = String::new();
    for b in digest.iter() {
        s.push_str(&format!("{:02x}", b));
    }
    s
}

// The hash helper really hashes: a known MD5 test vector.
#[test]
fn test_md5_known_value() {
    assert_eq!(calculate_md5(b"abc"), "900150983cd24fb0d6963f7d28e17f72");
    assert_eq!(calculate_md5(b"").len(), 32);
    assert_ne!(calculate_md5(b"abc"), calculate_md5(b"abd"));
}

#[test]
fn test_xml_escape() {
    assert_eq!(xml_escape_str("a&b<c>d"), "a&amp;b&lt;c&gt;d");
    assert_eq!(xml_escape_str("plain.png"), "plain.png");
}

// Plist round trip: emit a plist for known frames, parse it back with
// the plist crate, and check every frame attribute and the metadata.
#[test]
fn test_plist_round_trip() {
    let frames = vec![
        frame("frame_01.png", 0, 0, 128, 64),
        frame("frame_02.png", 128, 0, 128, 64),
    ];
    let content = generate_split_plist(&frames, 256, 64, "atlas.png");

    let value = plist::Value::from_reader_xml(content.as_bytes()).unwrap();
    let root = value.as_dictionary().unwrap();
    let frames_dict = root.get("frames").unwrap().as_dictionary().unwrap();
    assert_eq!(frames_dict.len(), 2);

    let f1 = frames_dict.get("frame_01.png").unwrap().as_dictionary().unwrap();
    assert_eq!(f1.get("spriteOffset").unwrap().as_string().unwrap(), "{0,0}");
    assert_eq!(f1.get("spriteSize").unwrap().as_string().unwrap(), "{128,64}");
    assert_eq!(f1.get("spriteSourceSize").unwrap().as_string().unwrap(), "{128,64}");
    assert_eq!(f1.get("textureRect").unwrap().as_string().unwrap(), "{{0,0},{128,64}}");
    assert_eq!(f1.get("textureRotated").unwrap().as_boolean().unwrap(), false);

    let f2 = frames_dict.get("frame_02.png").unwrap().as_dictionary().unwrap();
    assert_eq!(f2.get("textureRect").unwrap().as_string().unwrap(), "{{128,0},{128,64}}");

    let metadata = root.get("metadata").unwrap().as_dictionary().unwrap();
    assert_eq!(metadata.get("format").unwrap().as_signed_integer().unwrap(), 3);
    assert_eq!(metadata.get("realTextureFileName").unwrap().as_string().unwrap(), "atlas.png");
    assert_eq!(metadata.get("textureFileName").unwrap().as_string().unwrap(), "atlas.png");
    assert_eq!(metadata.get("size").unwrap().as_string().unwrap(), "{256,64}");
    assert_eq!(
        metadata.get("smartupdate").unwrap().as_string().unwrap(),
        md5_hex_of(b"atlas.png_2")
    );
}

// The pack emitter writes offsets, both sizes and the rotation flag.
#[test]
fn test_pack_plist_attributes() {
    let sprites = vec![
        packed("hero.png", 10, 20, 30, 40, false),
        packed("coin.png", 50, 60, 7, 9, true),
    ];
    let content = generate_plist(&sprites, 512, 512, "out.png");

    let value = plist::Value::from_reader_xml(content.as_bytes()).unwrap();
    let root = value.as_dictionary().unwrap();
    let frames_dict = root.get("frames").unwrap().as_dictionary().unwrap();

    let hero = frames_dict.get("hero.png").unwrap().as_dictionary().unwrap();
    assert_eq!(hero.get("spriteOffset").unwrap().as_string().unwrap(), "{-1,2}");
    assert_eq!(hero.get("spriteSize").unwrap().as_string().unwrap(), "{30,40}");
    assert_eq!(hero.get("spriteSourceSize").unwrap().as_string().unwrap(), "{34,42}");
    assert_eq!(hero.get("textureRect").unwrap().as_string().unwrap(), "{{10,20},{30,40}}");
    assert_eq!(hero.get("textureRotated").unwrap().as_boolean().unwrap(), false);

    let coin = frames_dict.get("coin.png").unwrap().as_dictionary().unwrap();
    assert_eq!(coin.get("textureRotated").unwrap().as_boolean().unwrap(), true);

    let metadata = root.get("metadata").unwrap().as_dictionary().unwrap();
    assert_eq!(metadata.get("size").unwrap().as_string().unwrap(), "{512,512}");
    assert_eq!(
        metadata.get("smartupdate").unwrap().as_string().unwrap(),
        md5_hex_of(b"out.png_2")
    );
}

#[test]
fn test_compose_plist_attributes() {
    let frames = vec![
        FrameComposeInfo {
            name: "a.png".to_string(),
            x: 0,
            y: 0,
            width: 100,
            height: 100,
        },
    ];
    let content = generate_compose_plist(&frames, 150, 150, "combo.png");
    let value = plist::Value::from_reader_xml(content.as_bytes()).unwrap();
    let root = value.as_dictionary().unwrap();
    let frames_dict = root.get("frames").unwrap().as_dictionary().unwrap();
    let a = frames_dict.get("a.png").unwrap().as_dictionary().unwrap();
    assert_eq!(a.get("textureRect").unwrap().as_string().unwrap(), "{{0,0},{100,100}}");
    let metadata = root.get("metadata").unwrap().as_dictionary().unwrap();
    assert_eq!(metadata.get("smartupdate").unwrap().as_string().unwrap(),
        md5_hex_of(b"combo.png_1"));
}

// A frame name holding XML specials survives the round trip.
#[test]
fn test_plist_escaped_name_round_trip() {
    let frames = vec![frame("a<b>&c.png", 0, 0, 16, 16)];
    let content = generate_split_plist(&frames, 16, 16, "x&y.png");
    let value = plist::Value::from_reader_xml(content.as_bytes()).unwrap();
    let root = value.as_dictionary().unwrap();
    let frames_dict = root.get("frames").unwrap().as_dictionary().unwrap();
    assert!(frames_dict.get("a<b>&c.png").is_some());
    let metadata = root.get("metadata").unwrap().as_dictionary().unwrap();
    assert_eq!(metadata.get("realTextureFileName").unwrap().as_string().unwrap(), "x&y.png");
}
