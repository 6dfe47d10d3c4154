//! Cocos2d-x Format-3 plist emitter.
//!
//! Serializes frame and metadata dictionaries into the Apple XML plist
//! form: a root dictionary with a `frames` dictionary keyed by frame
//! name and a `metadata` dictionary carrying `format` 3, the texture
//! file names, the texture size, and the `smartupdate` hash — the hex
//! MD5 of `{textureName}_{frameCount}`.  Geometry is written in the
//! brace-tuple syntax with decimal integers and no inner whitespace.

use vstd::prelude::*;
use vstd::string::{StringExecFns, StrSliceExecFns};
use vstd::utf8::encode_utf8;
use crate::types::{PackedSprite, FrameInfo, FrameComposeInfo};
use crate::numfmt::{int_str, dec_str, fmt_i32, fmt_u32, fmt_u64};
use crate::hash::{md5_hex, calculate_md5};

verus! {

/// `{a,b}` with decimal integer components.
pub open spec fn brace_pair(a: int, b: int) -> Seq<char> {
    "{"@ + int_str(a) + ","@ + int_str(b) + "}"@
}

/// `{{x,y},{w,h}}`.
pub open spec fn brace_rect(x: int, y: int, w: int, h: int) -> Seq<char> {
    "{"@ + brace_pair(x, y) + ","@ + brace_pair(w, h) + "}"@
}

/// XML text escaping of one character.
pub open spec fn xml_escape_char(c: char) -> Seq<char> {
    if c == '&' {
        "&amp;"@
    } else if c == '<' {
        "&lt;"@
    } else if c == '>' {
        "&gt;"@
    } else {
        seq![c]
    }
}

/// XML text escaping of a string.
pub open spec fn xml_escape(s: Seq<char>) -> Seq<char>
    decreases s.len(),
{
    if s.len() == 0 {
        Seq::empty()
    } else {
        xml_escape(s.drop_last()) + xml_escape_char(s.last())
    }
}

/// The `smartupdate` value: hex MD5 of the UTF-8 bytes of
/// `{texture_name}_{count}`.
pub open spec fn smartupdate(texture_name: Seq<char>, count: int) -> Seq<char> {
    md5_hex(encode_utf8(texture_name + "_"@ + dec_str(count)))
}

/// One frame dictionary entry keyed by the escaped frame name.
pub open spec fn frame_entry(
    name: Seq<char>,
    offset: Seq<char>,
    size: Seq<char>,
    source: Seq<char>,
    rect: Seq<char>,
    rotated: bool,
) -> Seq<char> {
    "<key>"@ + xml_escape(name)
        + "</key>\n<dict>\n<key>spriteOffset</key>\n<string>"@ + offset
        + "</string>\n<key>spriteSize</key>\n<string>"@ + size
        + "</string>\n<key>spriteSourceSize</key>\n<string>"@ + source
        + "</string>\n<key>textureRect</key>\n<string>"@ + rect
        + "</string>\n<key>textureRotated</key>\n"@
        + (if rotated { "<true/>\n"@ } else { "<false/>\n"@ })
        + "</dict>\n"@
}

/// The frame entry of one packed sprite: trim offset, post-trim size,
/// pre-trim source size, atlas rectangle and rotation flag.
pub open spec fn packed_frame_entry(ps: PackedSprite) -> Seq<char> {
    frame_entry(
        ps.name@,
        brace_pair(ps.offset_x as int, ps.offset_y as int),
        brace_pair(ps.width as int, ps.height as int),
        brace_pair(ps.original_width as int, ps.original_height as int),
        brace_rect(ps.x as int, ps.y as int, ps.width as int, ps.height as int),
        ps.rotated,
    )
}

/// The frame entries of the packed sprites, in order.
pub open spec fn packed_frames_str(sprites: Seq<PackedSprite>) -> Seq<char>
    decreases sprites.len(),
{
    if sprites.len() == 0 {
        Seq::empty()
    } else {
        packed_frames_str(sprites.drop_last()) + packed_frame_entry(sprites.last())
    }
}

/// The frame entry of one grid frame: zero offset, equal sprite and
/// source sizes, no rotation.
pub open spec fn grid_frame_entry(f: FrameInfo) -> Seq<char> {
    frame_entry(
        f.name@,
        brace_pair(0, 0),
        brace_pair(f.width as int, f.height as int),
        brace_pair(f.width as int, f.height as int),
        brace_rect(f.x as int, f.y as int, f.width as int, f.height as int),
        false,
    )
}

/// The frame entries of the grid frames, in order.
pub open spec fn grid_frames_str(frames: Seq<FrameInfo>) -> Seq<char>
    decreases frames.len(),
{
    if frames.len() == 0 {
        Seq::empty()
    } else {
        grid_frames_str(frames.drop_last()) + grid_frame_entry(frames.last())
    }
}

/// The metadata dictionary: format 3, both texture file names, the
/// texture size and the smartupdate hash, keys in alphabetical order.
pub open spec fn metadata_str(texture_name: Seq<char>, w: int, h: int, count: int) -> Seq<char> {
    "<key>metadata</key>\n<dict>\n<key>format</key>\n<integer>3</integer>\n<key>realTextureFileName</key>\n<string>"@
        + xml_escape(texture_name)
        + "</string>\n<key>size</key>\n<string>"@ + brace_pair(w, h)
        + "</string>\n<key>smartupdate</key>\n<string>"@ + smartupdate(texture_name, count)
        + "</string>\n<key>textureFileName</key>\n<string>"@ + xml_escape(texture_name)
        + "</string>\n</dict>\n"@
}

/// A whole plist document around the given frames and metadata.
pub open spec fn plist_doc(frames_str: Seq<char>, metadata: Seq<char>) -> Seq<char> {
    "<?xml version=\"1.0\" encoding=\"UTF-8\"?>\n<!DOCTYPE plist PUBLIC \"-//Apple//DTD PLIST 1.0//EN\" \"http://www.apple.com/DTDs/PropertyList-1.0.dtd\">\n<plist version=\"1.0\">\n<dict>\n<key>frames</key>\n<dict>\n"@
        + frames_str
        + "</dict>\n"@
        + metadata
        + "</dict>\n</plist>\n"@
}

/// The plist of a pack result.
pub open spec fn pack_plist(sprites: Seq<PackedSprite>, w: int, h: int, name: Seq<char>)
    -> Seq<char> {
    plist_doc(packed_frames_str(sprites), metadata_str(name, w, h, sprites.len() as int))
}

/// The plist of a grid split or compose result.
pub open spec fn grid_plist(frames: Seq<FrameInfo>, w: int, h: int, name: Seq<char>)
    -> Seq<char> {
    plist_doc(grid_frames_str(frames), metadata_str(name, w, h, frames.len() as int))
}

/// Escapes `&`, `<` and `>` for XML text content.
#[verifier::loop_isolation(false)]
pub fn xml_escape_str(s: &str) -> (r: String)
    ensures
        r@ == xml_escape(s@),
{
    let n = s.unicode_len();
    let mut out = String::new();
    let mut i: usize = 0;
    while i < n
        invariant
            i <= n,
            n == s@.len(),
            out@ == xml_escape(s@.subrange(0, i as int)),
        decreases n - i,
    {
        let c = s.get_char(i);
        proof {
            let pre = s@.subrange(0, i as int);
            let cur = s@.subrange(0, i as int + 1);
            assert(cur.drop_last() =~= pre);
            assert(cur.last() == s@[i as int]);
        }
        if c == '&' {
            out.append("&amp;");
        } else if c == '<' {
            out.append("&lt;");
        } else if c == '>' {
            out.append("&gt;");
        } else {
            let piece = s.substring_char(i, i + 1);
            proof {
                assert(piece@ =~= seq![s@[i as int]]);
            }
            out.append(piece);
        }
        proof {
            assert(out@ =~= xml_escape(s@.subrange(0, i as int + 1)));
        }
        i = i + 1;
    }
    proof {
        assert(s@.subrange(0, n as int) =~= s@);
    }
    out
}

/// `{a,b}` for signed components.
fn brace_pair_i32(a: i32, b: i32) -> (r: String)
    ensures
        r@ == brace_pair(a as int, b as int),
{
    let mut s = String::new();
    s.append("{");
    let fa = fmt_i32(a);
    s.append(fa.as_str());
    s.append(",");
    let fb = fmt_i32(b);
    s.append(fb.as_str());
    s.append("}");
    proof {
        assert(s@ =~= brace_pair(a as int, b as int));
    }
    s
}

/// `{a,b}` for unsigned components.
fn brace_pair_u32(a: u32, b: u32) -> (r: String)
    ensures
        r@ == brace_pair(a as int, b as int),
{
    let mut s = String::new();
    s.append("{");
    let fa = fmt_u32(a);
    s.append(fa.as_str());
    s.append(",");
    let fb = fmt_u32(b);
    s.append(fb.as_str());
    s.append("}");
    proof {
        assert(s@ =~= brace_pair(a as int, b as int));
    }
    s
}

/// `{{x,y},{w,h}}`.
fn brace_rect_u32(x: u32, y: u32, w: u32, h: u32) -> (r: String)
    ensures
        r@ == brace_rect(x as int, y as int, w as int, h as int),
{
    let mut s = String::new();
    s.append("{");
    let fa = brace_pair_u32(x, y);
    s.append(fa.as_str());
    s.append(",");
    let fb = brace_pair_u32(w, h);
    s.append(fb.as_str());
    s.append("}");
    proof {
        assert(s@ =~= brace_rect(x as int, y as int, w as int, h as int));
    }
    s
}

/// Appends one frame entry from prebuilt geometry strings.
fn append_frame_entry(
    out: &mut String,
    name: &str,
    offset: &String,
    size: &String,
    source: &String,
    rect: &String,
    rotated: bool,
)
    ensures
        final(out)@ == old(out)@
            + frame_entry(name@, offset@, size@, source@, rect@, rotated),
{
    out.append("<key>");
    let esc = xml_escape_str(name);
    out.append(esc.as_str());
    out.append("</key>\n<dict>\n<key>spriteOffset</key>\n<string>");
    out.append(offset.as_str());
    out.append("</string>\n<key>spriteSize</key>\n<string>");
    out.append(size.as_str());
    out.append("</string>\n<key>spriteSourceSize</key>\n<string>");
    out.append(source.as_str());
    out.append("</string>\n<key>textureRect</key>\n<string>");
    out.append(rect.as_str());
    out.append("</string>\n<key>textureRotated</key>\n");
    if rotated {
        out.append("<true/>\n");
    } else {
        out.append("<false/>\n");
    }
    out.append("</dict>\n");
    proof {
        assert(out@ =~= old(out)@
            + frame_entry(name@, offset@, size@, source@, rect@, rotated));
    }
}

/// Builds the metadata dictionary text.
fn build_metadata(texture_name: &str, w: u32, h: u32, count: u64) -> (r: String)
    ensures
        r@ == metadata_str(texture_name@, w as int, h as int, count as int),
{
    let mut tag = texture_name.to_owned();
    tag.append("_");
    let cstr = fmt_u64(count);
    tag.append(cstr.as_str());
    proof {
        assert(tag@ =~= texture_name@ + "_"@ + dec_str(count as int));
    }
    let hash = calculate_md5(tag.as_str().as_bytes());

    let mut out = String::new();
    out.append("<key>metadata</key>\n<dict>\n<key>format</key>\n<integer>3</integer>\n<key>realTextureFileName</key>\n<string>");
    let esc = xml_escape_str(texture_name);
    out.append(esc.as_str());
    out.append("</string>\n<key>size</key>\n<string>");
    let size = brace_pair_u32(w, h);
    out.append(size.as_str());
    out.append("</string>\n<key>smartupdate</key>\n<string>");
    out.append(hash.as_str());
    out.append("</string>\n<key>textureFileName</key>\n<string>");
    out.append(esc.as_str());
    out.append("</string>\n</dict>\n");
    proof {
        assert(out@ =~= metadata_str(texture_name@, w as int, h as int, count as int));
    }
    out
}

/// Emits the Format-3 plist of a pack result: one frame entry per
/// placed sprite, in order, and the metadata for `texture_name`.
#[verifier::loop_isolation(false)]
pub fn generate_plist(
    sprites: &Vec<PackedSprite>,
    texture_width: u32,
    texture_height: u32,
    texture_name: &str,
) -> (r: String)
    ensures
        r@ == pack_plist(sprites@, texture_width as int, texture_height as int,
            texture_name@),
{
    let n = sprites.len();
    let mut fs = String::new();
    let mut i: usize = 0;
    while i < n
        invariant
            i <= n,
            n == sprites@.len(),
            fs@ == packed_frames_str(sprites@.subrange(0, i as int)),
        decreases n - i,
    {
        let ps = &sprites[i];
        proof {
            let pre = sprites@.subrange(0, i as int);
            let cur = sprites@.subrange(0, i as int + 1);
            assert(cur.drop_last() =~= pre);
            assert(cur.last() == sprites@[i as int]);
        }
        let offset = brace_pair_i32(ps.offset_x, ps.offset_y);
        let size = brace_pair_u32(ps.width, ps.height);
        let source = brace_pair_u32(ps.original_width, ps.original_height);
        let rect = brace_rect_u32(ps.x, ps.y, ps.width, ps.height);
        append_frame_entry(&mut fs, ps.name.as_str(), &offset, &size, &source, &rect,
            ps.rotated);
        proof {
            assert(fs@ =~= packed_frames_str(sprites@.subrange(0, i as int + 1)));
        }
        i = i + 1;
    }
    proof {
        assert(sprites@.subrange(0, n as int) =~= sprites@);
    }

    let metadata = build_metadata(texture_name, texture_width, texture_height, n as u64);
    let mut out = String::new();
    out.append("<?xml version=\"1.0\" encoding=\"UTF-8\"?>\n<!DOCTYPE plist PUBLIC \"-//Apple//DTD PLIST 1.0//EN\" \"http://www.apple.com/DTDs/PropertyList-1.0.dtd\">\n<plist version=\"1.0\">\n<dict>\n<key>frames</key>\n<dict>\n");
    out.append(fs.as_str());
    out.append("</dict>\n");
    out.append(metadata.as_str());
    out.append("</dict>\n</plist>\n");
    proof {
        assert(out@ =~= pack_plist(sprites@, texture_width as int, texture_height as int,
            texture_name@));
    }
    out
}

/// Emits the Format-3 plist of a grid split or compose result: zero
/// offsets, equal sprite and source sizes, no rotation.
#[verifier::loop_isolation(false)]
pub fn generate_split_plist(
    frames: &Vec<FrameInfo>,
    texture_width: u32,
    texture_height: u32,
    texture_name: &str,
) -> (r: String)
    ensures
        r@ == grid_plist(frames@, texture_width as int, texture_height as int,
            texture_name@),
{
    let n = frames.len();
    let mut fs = String::new();
    let mut i: usize = 0;
    while i < n
        invariant
            i <= n,
            n == frames@.len(),
            fs@ == grid_frames_str(frames@.subrange(0, i as int)),
        decreases n - i,
    {
        let f = &frames[i];
        proof {
            let pre = frames@.subrange(0, i as int);
            let cur = frames@.subrange(0, i as int + 1);
            assert(cur.drop_last() =~= pre);
            assert(cur.last() == frames@[i as int]);
        }
        let offset = brace_pair_u32(0, 0);
        let size = brace_pair_u32(f.width, f.height);
        let source = brace_pair_u32(f.width, f.height);
        let rect = brace_rect_u32(f.x, f.y, f.width, f.height);
        append_frame_entry(&mut fs, f.name.as_str(), &offset, &size, &source, &rect, false);
        proof {
            assert(fs@ =~= grid_frames_str(frames@.subrange(0, i as int + 1)));
        }
        i = i + 1;
    }
    proof {
        assert(frames@.subrange(0, n as int) =~= frames@);
    }

    let metadata = build_metadata(texture_name, texture_width, texture_height, n as u64);
    let mut out = String::new();
    out.append("<?xml version=\"1.0\" encoding=\"UTF-8\"?>\n<!DOCTYPE plist PUBLIC \"-//Apple//DTD PLIST 1.0//EN\" \"http://www.apple.com/DTDs/PropertyList-1.0.dtd\">\n<plist version=\"1.0\">\n<dict>\n<key>frames</key>\n<dict>\n");
    out.append(fs.as_str());
    out.append("</dict>\n");
    out.append(metadata.as_str());
    out.append("</dict>\n</plist>\n");
    proof {
        assert(out@ =~= grid_plist(frames@, texture_width as int, texture_height as int,
            texture_name@));
    }
    out
}


/// The frame entry of one composed sprite: zero offset, equal sprite
/// and source sizes, no rotation.
pub open spec fn compose_frame_entry(f: FrameComposeInfo) -> Seq<char> {
    frame_entry(
        f.name@,
        brace_pair(0, 0),
        brace_pair(f.width as int, f.height as int),
        brace_pair(f.width as int, f.height as int),
        brace_rect(f.x as int, f.y as int, f.width as int, f.height as int),
        false,
    )
}

/// The frame entries of the composed sprites, in order.
pub open spec fn compose_frames_str(frames: Seq<FrameComposeInfo>) -> Seq<char>
    decreases frames.len(),
{
    if frames.len() == 0 {
        Seq::empty()
    } else {
        compose_frames_str(frames.drop_last()) + compose_frame_entry(frames.last())
    }
}

/// The plist of a compose result.
pub open spec fn compose_plist(frames: Seq<FrameComposeInfo>, w: int, h: int, name: Seq<char>)
    -> Seq<char> {
    plist_doc(compose_frames_str(frames), metadata_str(name, w, h, frames.len() as int))
}

/// Emits the Format-3 plist of a compose result.
#[verifier::loop_isolation(false)]
pub fn generate_compose_plist(
    frames: &Vec<FrameComposeInfo>,
    texture_width: u32,
    texture_height: u32,
    texture_name: &str,
) -> (r: String)
    ensures
        r@ == compose_plist(frames@, texture_width as int, texture_height as int,
            texture_name@),
{
    let n = frames.len();
    let mut fs = String::new();
    let mut i: usize = 0;
    while i < n
        invariant
            i <= n,
            n == frames@.len(),
            fs@ == compose_frames_str(frames@.subrange(0, i as int)),
        decreases n - i,
    {
        let f = &frames[i];
        proof {
            let pre = frames@.subrange(0, i as int);
            let cur = frames@.subrange(0, i as int + 1);
            assert(cur.drop_last() =~= pre);
            assert(cur.last() == frames@[i as int]);
        }
        let offset = brace_pair_u32(0, 0);
        let size = brace_pair_u32(f.width, f.height);
        let source = brace_pair_u32(f.width, f.height);
        let rect = brace_rect_u32(f.x, f.y, f.width, f.height);
        append_frame_entry(&mut fs, f.name.as_str(), &offset, &size, &source, &rect, false);
        proof {
            assert(fs@ =~= compose_frames_str(frames@.subrange(0, i as int + 1)));
        }
        i = i + 1;
    }
    proof {
        assert(frames@.subrange(0, n as int) =~= frames@);
    }

    let metadata = build_metadata(texture_name, texture_width, texture_height, n as u64);
    let mut out = String::new();
    out.append("<?xml version=\"1.0\" encoding=\"UTF-8\"?>\n<!DOCTYPE plist PUBLIC \"-//Apple//DTD PLIST 1.0//EN\" \"http://www.apple.com/DTDs/PropertyList-1.0.dtd\">\n<plist version=\"1.0\">\n<dict>\n<key>frames</key>\n<dict>\n");
    out.append(fs.as_str());
    out.append("</dict>\n");
    out.append(metadata.as_str());
    out.append("</dict>\n</plist>\n");
    proof {
        assert(out@ =~= compose_plist(frames@, texture_width as int, texture_height as int,
            texture_name@));
    }
    out
}

} // verus!

