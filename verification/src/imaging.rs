//! Scaling, PNG encoding and Base64 text of captured frames, done by the
//! `image` and `base64` crates.
use vstd::prelude::*;

verus! {

/// The RGBA pixels of an `nw` x `nh` image obtained by resizing the
/// `w` x `h` RGBA image `data` with the triangle (bilinear) filter.
pub uninterp spec fn resized(data: Seq<u8>, w: u32, h: u32, nw: u32, nh: u32) -> Seq<u8>;

/// The PNG file of the `w` x `h` RGBA image `data`, if encoding succeeds.
pub uninterp spec fn png_file(data: Seq<u8>, w: u32, h: u32) -> Option<Seq<u8>>;

/// The character of a 6-bit value in the standard Base64 alphabet.
pub open spec fn b64_char(n: int) -> char {
    if n < 26 {
        (65 + n) as char
    } else if n < 52 {
        (71 + n) as char
    } else if n < 62 {
        (n - 4) as char
    } else if n == 62 {
        '+'
    } else {
        '/'
    }
}

/// Standard Base64 text (with `=` padding) of some bytes: each group of
/// three bytes becomes four characters, six bits each, high bits first.
pub open spec fn base64_text(data: Seq<u8>) -> Seq<char>
    decreases data.len(),
{
    if data.len() == 0 {
        seq![]
    } else if data.len() == 1 {
        let b0 = data[0] as int;
        seq![b64_char(b0 / 4), b64_char((b0 % 4) * 16), '=', '=']
    } else if data.len() == 2 {
        let b0 = data[0] as int;
        let b1 = data[1] as int;
        seq![b64_char(b0 / 4), b64_char((b0 % 4) * 16 + b1 / 16), b64_char((b1 % 16) * 4), '=']
    } else {
        let b0 = data[0] as int;
        let b1 = data[1] as int;
        let b2 = data[2] as int;
        seq![
            b64_char(b0 / 4),
            b64_char((b0 % 4) * 16 + b1 / 16),
            b64_char((b1 % 16) * 4 + b2 / 64),
            b64_char(b2 % 64),
        ] + base64_text(data.skip(3))
    }
}

/// `image::imageops::resize` with `FilterType::Triangle` on the buffer as
/// an `RgbaImage` (`ImageBuffer::from_raw`, which accepts any buffer of at
/// least `4 * w * h` bytes). Claims: the pixels `resized` names, `nw * nh`
/// RGBA pixels. The size bounds keep the call clear of the crate's panics.
#[verifier::external_body]
pub(crate) fn resize_rgba(data: Vec<u8>, w: u32, h: u32, nw: u32, nh: u32) -> (r: Vec<u8>)
    requires
        w > 0,
        h > 0,
        nw <= w,
        nh <= h,
        data@.len() >= 4 * (w as int) * (h as int),
    ensures
        r@ == resized(data@, w, h, nw, nh),
        r@.len() == 4 * (nw as int) * (nh as int),
{
    match image::RgbaImage::from_raw(w, h, data) {
        Some(img) => image::imageops::resize(&img, nw, nh, image::imageops::FilterType::Triangle)
            .into_raw(),
        None => Vec::new(),
    }
}

/// `DynamicImage::write_to` in PNG format, into memory. Claims: the file
/// `png_file` names, `None` where encoding fails. The PNG encoder asserts
/// that the buffer holds exactly `4 * w * h` bytes, so that is required.
#[verifier::external_body]
pub(crate) fn encode_png(data: Vec<u8>, w: u32, h: u32) -> (r: Option<Vec<u8>>)
    requires
        data@.len() == 4 * (w as nat) * (h as nat),
    ensures
        match png_file(data@, w, h) {
            Some(f) => r matches Some(b) && b@ == f,
            None => r is None,
        },
{
    let img = image::RgbaImage::from_raw(w, h, data)?;
    let mut png = Vec::new();
    let mut cur = std::io::Cursor::new(&mut png);
    match image::DynamicImage::ImageRgba8(img).write_to(&mut cur, image::ImageFormat::Png) {
        Ok(()) => Some(png),
        Err(_) => None,
    }
}

/// `base64::engine::general_purpose::STANDARD.encode`. Claims: the standard
/// padded Base64 text `base64_text` describes (RFC 4648, section 4).
#[verifier::external_body]
pub(crate) fn encode_base64(data: &[u8]) -> (r: String)
    ensures
        r@ == base64_text(data@),
{
    base64::Engine::encode(&base64::engine::general_purpose::STANDARD, data)
}

} // verus!
