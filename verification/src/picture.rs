//! Scaling and encoding of pictures, and the thumbnails made with them.

use crate::frame::Picture;
use crate::json::text_view;
use vstd::prelude::*;

verus! {

/// The sampling filters of `imageops::resize` that give the same pixels on every machine. The
/// others take powers, exponentials or sines, whose precision the platform decides.
#[derive(Clone, Copy, Debug, PartialEq, Eq, Structural)]
pub enum Filter {
    Nearest,
    Triangle,
}

/// The longest side that `imageops::resize` surely scales from, or to. Where the old side or the
/// new one is no longer, the pixel positions that it computes in single precision are off by a
/// third of a pixel at most, a pixel of the coarser of the two pictures, so that every new pixel
/// finds old ones to draw from.
pub const MAX_SIDE: u32 = 1048576;

/// A side can be scaled: the old or the new one is short enough.
pub open spec fn side_scalable(old_side: u32, new_side: u32) -> bool {
    old_side <= MAX_SIDE || new_side <= MAX_SIDE
}

/// A picture of `w` by `h` pixels can be scaled to `nw` by `nh` pixels. One of that size is only
/// copied. For any other, each side can be scaled, and the buffers for the result and for the
/// picture in between, which has 16 bytes per pixel, are short enough.
pub open spec fn scalable(w: u32, h: u32, nw: u32, nh: u32) -> bool {
    ||| w == nw && h == nh
    ||| {
        &&& side_scalable(w, nw) && side_scalable(h, nh)
        &&& w * nh * 16 <= isize::MAX
        &&& nw * nh * 4 <= isize::MAX
    }
}

/// The number of pixels of a picture.
fn pixel_count(w: u32, h: u32) -> (r: u128)
    ensures
        r == w * h,
        r <= 0xFFFF_FFFF * 0xFFFF_FFFF,
        4 * w * h == 4 * r,
{
    assert(0 <= w * h <= 0xFFFF_FFFF * 0xFFFF_FFFF) by (nonlinear_arith)
        requires
            0 <= w <= 0xFFFF_FFFF,
            0 <= h <= 0xFFFF_FFFF,
    ;
    assert(4 * w * h == 4 * (w * h)) by (nonlinear_arith);
    w as u128 * h as u128
}

/// Whether a picture can be scaled.
pub fn can_scale(w: u32, h: u32, nw: u32, nh: u32) -> (r: bool)
    ensures
        r == scalable(w, h, nw, nh),
{
    if w == nw && h == nh {
        return true;
    }
    if (w > MAX_SIDE && nw > MAX_SIDE) || (h > MAX_SIDE && nh > MAX_SIDE) {
        return false;
    }
    let between: u128 = pixel_count(w, nh) * 16;
    let result: u128 = pixel_count(nw, nh) * 4;
    between <= isize::MAX as u128 && result <= isize::MAX as u128
}

/// The pixels that `imageops::resize` makes of the first `w * h` pixels of `data`.
pub uninterp spec fn image_resize(
    data: Seq<u8>,
    w: u32,
    h: u32,
    nw: u32,
    nh: u32,
    filter: Filter,
) -> Seq<u8>;

/// `image::imageops::resize` of an RGBA picture, held in a buffer with at least its pixels. The
/// result depends on the arguments alone and has exactly the pixels of the new size; which
/// colours they get is left to the crate. Where both sides are so long that its positions in single
/// precision miss the picture it could panic, and so it would on buffers longer than memory can be.
#[verifier::external_body]
pub(crate) fn resize(data: Vec<u8>, w: u32, h: u32, nw: u32, nh: u32, filter: Filter) -> (r: Vec<u8>)
    requires
        data@.len() >= 4 * w * h,
        scalable(w, h, nw, nh),
    ensures
        r@ == image_resize(data@, w, h, nw, nh, filter),
        r@.len() == 4 * nw * nh,
{
    let filter = match filter {
        Filter::Nearest => image::imageops::FilterType::Nearest,
        Filter::Triangle => image::imageops::FilterType::Triangle,
    };
    let picture = image::RgbaImage::from_raw(w, h, data).unwrap();
    image::imageops::resize(&picture, nw, nh, filter).into_raw()
}

/// The PNG file that `PngEncoder` makes of an RGBA picture, if it makes one.
pub uninterp spec fn png_file(data: Seq<u8>, w: u32, h: u32) -> Option<Seq<u8>>;

pub open spec fn bytes_view(b: Option<Vec<u8>>) -> Option<Seq<u8>> {
    match b {
        Some(b) => Some(b@),
        None => None,
    }
}

/// `PngEncoder::write_image` of the `image` crate on a fresh buffer, for a picture of eight-bit
/// RGBA; `None` where it reports an error. The result depends on the arguments alone; the bytes
/// of the file are left to the crate.
#[verifier::external_body]
pub(crate) fn encode_png(data: &[u8], w: u32, h: u32) -> (r: Option<Vec<u8>>)
    requires
        data@.len() == 4 * w * h,
    ensures
        bytes_view(r) == png_file(data@, w, h),
{
    let mut png: Vec<u8> = Vec::new();
    let encoder = image::codecs::png::PngEncoder::new(&mut png);
    match image::ImageEncoder::write_image(encoder, data, w, h, image::ExtendedColorType::Rgba8) {
        Ok(()) => Some(png),
        Err(_) => None,
    }
}

/// Byte `i` of `data`, or 0 past its end.
pub open spec fn byte_or_zero(data: Seq<u8>, i: int) -> int {
    if i < data.len() {
        data[i] as int
    } else {
        0
    }
}

/// The value of six-bit group `i` of `data`.
pub open spec fn sextet(data: Seq<u8>, i: int) -> int {
    let k = i / 4 * 3;
    if i % 4 == 0 {
        byte_or_zero(data, k) / 4
    } else if i % 4 == 1 {
        byte_or_zero(data, k) % 4 * 16 + byte_or_zero(data, k + 1) / 16
    } else if i % 4 == 2 {
        byte_or_zero(data, k + 1) % 16 * 4 + byte_or_zero(data, k + 2) / 64
    } else {
        byte_or_zero(data, k + 2) % 64
    }
}

/// The character of a six-bit value in the standard alphabet.
pub open spec fn base64_char(v: int) -> char {
    if v < 26 {
        (65 + v) as u8 as char
    } else if v < 52 {
        (97 + v - 26) as u8 as char
    } else if v < 62 {
        (48 + v - 52) as u8 as char
    } else if v == 62 {
        '+'
    } else {
        '/'
    }
}

/// The length of the base64 form of `n` bytes.
pub open spec fn base64_len(n: nat) -> nat {
    (n + 2) / 3 * 4
}

/// Base64 with the standard alphabet and padding: one character per six-bit group that `data`
/// reaches into, and `=` up to a multiple of four.
pub open spec fn base64(data: Seq<u8>) -> Seq<char> {
    Seq::new(
        base64_len(data.len()),
        |i: int|
            if i * 6 < data.len() * 8 {
                base64_char(sextet(data, i))
            } else {
                '='
            },
    )
}

/// `base64::Engine::encode` with the engine `general_purpose::STANDARD`: base64 with the
/// alphabet of RFC 4648 and padding.
#[verifier::external_body]
pub(crate) fn encode_base64(data: &[u8]) -> (r: String)
    requires
        base64_len(data@.len()) <= isize::MAX,
    ensures
        r@ == base64(data@),
{
    base64::Engine::encode(&base64::engine::general_purpose::STANDARD, data)
}

/// The width of a thumbnail.
pub const THUMB_WIDTH: u32 = 160;

/// At least one.
pub open spec fn positive(n: u32) -> u32 {
    if n < 1 {
        1
    } else {
        n
    }
}

/// A PNG file as a data URL.
pub open spec fn png_url(png: Seq<u8>) -> Seq<char> {
    "data:image/png;base64,"@ + base64(png)
}

/// Writes a PNG file as a data URL.
pub fn data_url(png: &[u8]) -> (r: String)
    requires
        base64_len(png@.len()) <= isize::MAX,
    ensures
        r@ == png_url(png@),
{
    let mut url: String = "data:image/png;base64,".to_string();
    url.append(encode_base64(png).as_str());
    url
}

/// What a thumbnail is, by the PNG file that was made for it: its data URL; nothing where there
/// is no file. `None` where the URL would be longer than any string.
pub open spec fn url_of(png: Option<Seq<u8>>) -> Option<Seq<char>> {
    match png {
        None => Some(""@),
        Some(png) => if base64_len(png.len()) <= isize::MAX {
            Some(png_url(png))
        } else {
            None
        },
    }
}

/// The data URL for a PNG file, if there is one.
pub fn thumb_url(png: Option<Vec<u8>>) -> (r: Option<String>)
    ensures
        text_view(r) == url_of(bytes_view(png)),
{
    match png {
        None => Some("".to_string()),
        Some(png) => {
            let groups: u128 = (png.len() as u128 + 2) / 3;
            if groups * 4 <= isize::MAX as u128 {
                Some(data_url(png.as_slice()))
            } else {
                None
            }
        },
    }
}

/// The thumbnail of a picture, `height` pixels high: its scaled-down form as a PNG data URL;
/// nothing where the buffer is too short for the picture.
pub open spec fn thumbnail(p: Picture, height: u32) -> Option<Seq<char>> {
    if p.data.len() < p.area() {
        Some(""@)
    } else {
        url_of(
            png_file(
                image_resize(p.data, p.w, p.h, THUMB_WIDTH, height, Filter::Triangle),
                THUMB_WIDTH,
                height,
            ),
        )
    }
}

/// Whether a buffer of `len` bytes holds `w` by `h` pixels.
pub fn holds_pixels(len: usize, w: u32, h: u32) -> (r: bool)
    ensures
        r == (len >= 4 * w * h),
{
    len as u128 >= 4 * pixel_count(w, h)
}

/// Whether a buffer of `len` bytes holds `w` by `h` pixels and nothing more.
pub fn exactly_holds_pixels(len: usize, w: u32, h: u32) -> (r: bool)
    ensures
        r == (len == 4 * w * h),
{
    len as u128 == 4 * pixel_count(w, h)
}

/// Encode a downscaled PNG thumbnail as a data URL. `scaled_h` is the height that keeps the
/// proportions at the thumbnail's width; the thumbnail is at least one pixel high. `None` where
/// the PNG file is too long for a URL.
pub fn make_thumb(data: &[u8], w: u32, h: u32, scaled_h: u32) -> (r: Option<String>)
    requires
        data@.len() >= 4 * w * h ==> scalable(w, h, THUMB_WIDTH, positive(scaled_h)),
    ensures
        text_view(r) == thumbnail(Picture { data: data@, w, h }, positive(scaled_h)),
{
    if !holds_pixels(data.len(), w, h) {
        return Some("".to_string());
    }
    let height: u32 = if scaled_h < 1 {
        1
    } else {
        scaled_h
    };
    let mut copy: Vec<u8> = Vec::new();
    copy.extend_from_slice(data);
    assert(copy@ =~= data@);
    let small = resize(copy, w, h, THUMB_WIDTH, height, Filter::Triangle);
    thumb_url(encode_png(small.as_slice(), THUMB_WIDTH, height))
}

// ---------- What is made of a picture ----------

/// A picture can be scaled where its size stays, and else where on each side the old or the new
/// length is at most 1048576 pixels and the buffers can be had.
pub proof fn scaling_has_limits(w: u32, h: u32, nw: u32, nh: u32)
    ensures
        scalable(w, h, nw, nh) <==> {
            ||| w == nw && h == nh
            ||| (w <= 1048576 || nw <= 1048576) && (h <= 1048576 || nh <= 1048576) && w * nh * 16
                <= isize::MAX && nw * nh * 4 <= isize::MAX
        },
{
}

/// A height of zero becomes one, and any other stays.
pub proof fn heights_are_positive(n: u32)
    ensures
        positive(n) >= 1,
        n >= 1 ==> positive(n) == n,
        positive(0) == 1,
{
}

/// A data URL says that it is a PNG file in base64, and then holds exactly the file.
pub proof fn url_holds_the_file(png: Seq<u8>)
    ensures
        png_url(png).take(22) == "data:image/png;base64,"@,
        png_url(png).skip(22) == base64(png),
        url_of(None) == Some(Seq::<char>::empty()),
        url_of(Some(png)) == (if (png.len() + 2) / 3 * 4 <= isize::MAX {
            Some(png_url(png))
        } else {
            None
        }),
{
    reveal_strlit("data:image/png;base64,");
    reveal_strlit("");
    assert(png_url(png).take(22) =~= "data:image/png;base64,"@);
    assert(png_url(png).skip(22) =~= base64(png));
    assert(""@ =~= Seq::<char>::empty());
}

/// A thumbnail shows the picture as it is: the pixels in the PNG file are those that the triangle
/// filter makes of the picture, read with its own width and height, at 160 pixels by `height`. A
/// buffer with fewer than four bytes per pixel gives the empty text.
pub proof fn thumbnail_shows_the_picture(p: Picture, height: u32)
    ensures
        p.data.len() < 4 * p.w * p.h ==> thumbnail(p, height) == Some(Seq::<char>::empty()),
        p.data.len() >= 4 * p.w * p.h ==> {
            let pixels = image_resize(p.data, p.w, p.h, 160, height, Filter::Triangle);
            match png_file(pixels, 160, height) {
                None => thumbnail(p, height) == Some(Seq::<char>::empty()),
                Some(png) => thumbnail(p, height) == (if (png.len() + 2) / 3 * 4 <= isize::MAX {
                    Some("data:image/png;base64,"@ + base64(png))
                } else {
                    None
                }),
            }
        },
{
    reveal_strlit("");
    assert(""@ =~= Seq::<char>::empty());
}

/// The bytes of a file, if there is one.
pub proof fn bytes_are_those_of_the_file(b: Vec<u8>)
    ensures
        bytes_view(Some(b)) == Some(b@),
        bytes_view(None) == None::<Seq<u8>>,
{
}

} // verus!
