use crate::bytes::copy_range;
use image::{ImageBuffer, ImageFormat, RgbaImage};
use vstd::prelude::*;

verus! {

/// Longer side of a stored thumbnail.
pub const THUMBNAIL_SIZE: u32 = 256;

/// Longer side above which a full-quality image is scaled down.
pub const MAX_FULL_SIZE: u32 = 2048;

/// The most bytes kept when a picture cannot be transcoded at all.
pub const RAW_FALLBACK_LIMIT: usize = 16 * 1024 * 1024;

/// The PNG encoding of an RGBA8 raster, or `None` when the encoder refuses it.
pub uninterp spec fn png_of(width: u32, height: u32, rgba: Seq<u8>) -> Option<Seq<u8>>;

/// What decoding an encoded picture gives, as width, height and RGBA8 pixels.
pub uninterp spec fn decoded_of(bytes: Seq<u8>) -> Option<(u32, u32, Seq<u8>)>;

/// Lanczos resampling (three lobes) of an RGBA8 raster to a new size.
pub uninterp spec fn lanczos_of(width: u32, height: u32, rgba: Seq<u8>, new_width: u32, new_height: u32) -> Seq<u8>;

/// Relies on image's `ImageBuffer::write_to` with `ImageFormat::Png` on an
/// RGBA8 buffer: the PNG bytes, or `None` when the buffer is too short for
/// the size or the encoder fails.
#[verifier::external_body]
fn encode_png(width: u32, height: u32, rgba: &Vec<u8>) -> (r: Option<Vec<u8>>)
    ensures
        match r {
            Some(b) => png_of(width, height, rgba@) == Some(b@),
            None => png_of(width, height, rgba@) is None,
        },
{
    let img: RgbaImage = ImageBuffer::from_raw(width, height, rgba.clone())?;
    let mut out: Vec<u8> = Vec::new();
    img.write_to(&mut std::io::Cursor::new(&mut out), ImageFormat::Png).ok()?;
    Some(out)
}

/// Relies on image's `load_from_memory` followed by `to_rgba8`: the picture's
/// size and its pixels as RGBA8, four bytes per pixel.
#[verifier::external_body]
pub(crate) fn decode_rgba(bytes: &Vec<u8>) -> (r: Option<(u32, u32, Vec<u8>)>)
    ensures
        match r {
            Some((w, h, px)) => decoded_of(bytes@) == Some((w, h, px@)) && px@.len() == w * h * 4,
            None => decoded_of(bytes@) is None,
        },
{
    let img = image::load_from_memory(bytes).ok()?.to_rgba8();
    Some((img.width(), img.height(), img.into_raw()))
}

/// Relies on image's `imageops::resize` with `FilterType::Lanczos3` on an RGBA8
/// buffer: a raster of exactly the requested size.
#[verifier::external_body]
pub(crate) fn resize_rgba(width: u32, height: u32, rgba: &Vec<u8>, new_width: u32, new_height: u32) -> (r: Vec<u8>)
    requires
        rgba@.len() == width * height * 4,
        new_width * new_height * 4 <= usize::MAX,
    ensures
        r@ == lanczos_of(width, height, rgba@, new_width, new_height),
        r@.len() == new_width * new_height * 4,
{
    let img: RgbaImage = ImageBuffer::from_raw(width, height, rgba.clone()).unwrap();
    image::imageops::resize(&img, new_width, new_height, image::imageops::FilterType::Lanczos3).into_raw()
}

/// `a / b` rounded to the nearest integer, halves up.
pub open spec fn div_round(a: int, b: int) -> int {
    (2 * a + b) / (2 * b)
}

/// The size that fits `width` x `height` into a `cap` x `cap` box with the
/// aspect ratio kept: the longer side becomes `cap`, the other is scaled and
/// rounded, and is at least 1.
pub open spec fn fit_within(width: int, height: int, cap: int) -> (int, int) {
    if width >= height {
        let h = div_round(height * cap, width);
        (cap, if h < 1 { 1 } else { h })
    } else {
        let w = div_round(width * cap, height);
        (if w < 1 { 1 } else { w }, cap)
    }
}

/// The bytes kept when nothing better can be stored.
pub open spec fn raw_fallback(bytes: Seq<u8>) -> Seq<u8> {
    if bytes.len() <= RAW_FALLBACK_LIMIT {
        bytes
    } else {
        bytes.take(RAW_FALLBACK_LIMIT as int)
    }
}

/// A decoded picture that can be resampled.
pub open spec fn usable(d: (u32, u32, Seq<u8>)) -> bool {
    d.0 > 0 && d.1 > 0 && d.2.len() == d.0 * d.1 * 4
}

/// The stored thumbnail of an encoded picture: scaled to fit the thumbnail
/// box and re-encoded as PNG; when decoding or encoding fails, the raw bytes.
pub open spec fn thumbnail_of(bytes: Seq<u8>) -> Seq<u8> {
    match decoded_of(bytes) {
        Some(d) => if usable(d) {
            let (nw, nh) = fit_within(d.0 as int, d.1 as int, THUMBNAIL_SIZE as int);
            match png_of(nw as u32, nh as u32, lanczos_of(d.0, d.1, d.2, nw as u32, nh as u32)) {
                Some(o) => o,
                None => raw_fallback(bytes),
            }
        } else {
            raw_fallback(bytes)
        },
        None => raw_fallback(bytes),
    }
}

/// The stored full-quality form of an encoded picture: scaled down to fit the
/// larger box only when a side exceeds it, re-encoded as PNG; on failure, the
/// thumbnail.
pub open spec fn full_image_of(bytes: Seq<u8>) -> Seq<u8> {
    match decoded_of(bytes) {
        Some(d) => if usable(d) {
            let big = d.0 > MAX_FULL_SIZE || d.1 > MAX_FULL_SIZE;
            let (nw, nh) = if big {
                fit_within(d.0 as int, d.1 as int, MAX_FULL_SIZE as int)
            } else {
                (d.0 as int, d.1 as int)
            };
            let px = if big {
                lanczos_of(d.0, d.1, d.2, nw as u32, nh as u32)
            } else {
                d.2
            };
            match png_of(nw as u32, nh as u32, px) {
                Some(o) => o,
                None => thumbnail_of(bytes),
            }
        } else {
            thumbnail_of(bytes)
        },
        None => thumbnail_of(bytes),
    }
}

/// Decodes a stored picture to RGBA8 for writing back to the clipboard.
pub fn decode_for_clipboard(bytes: &Vec<u8>) -> (r: Option<(u32, u32, Vec<u8>)>)
    ensures
        match r {
            Some((w, h, px)) => decoded_of(bytes@) == Some((w, h, px@)),
            None => decoded_of(bytes@) is None,
        },
{
    decode_rgba(bytes)
}

/// A raw clipboard picture: rows of RGBA8 pixels.
pub struct PixelBuffer {
    pub width: usize,
    pub height: usize,
    pub bytes: Vec<u8>,
}

/// The canonical encoding of a raw picture: its PNG, or the raw bytes when the
/// size does not fit or the encoder refuses it.
pub open spec fn pixels_png_of(width: usize, height: usize, bytes: Seq<u8>) -> Seq<u8> {
    if width <= u32::MAX && height <= u32::MAX {
        match png_of(width as u32, height as u32, bytes) {
            Some(o) => o,
            None => bytes,
        }
    } else {
        bytes
    }
}

/// The size that fits `width` x `height` into a `cap` x `cap` box, aspect
/// ratio kept, the longer side equal to `cap`.
pub fn thumbnail_dimensions(width: u32, height: u32, cap: u32) -> (r: (u32, u32))
    requires
        width > 0,
        height > 0,
        cap > 0,
    ensures
        r.0 as int == fit_within(width as int, height as int, cap as int).0,
        r.1 as int == fit_within(width as int, height as int, cap as int).1,
        1 <= r.0 <= cap,
        1 <= r.1 <= cap,
{
    let w = width as u128;
    let h = height as u128;
    let c = cap as u128;
    if width >= height {
        assert(h * c <= w * c) by (nonlinear_arith) requires h <= w;
        assert(h * c <= 0xffff_ffff * 0xffff_ffffu128) by (nonlinear_arith) requires h <= 0xffff_ffff, c <= 0xffff_ffff;
        let n = (2 * (h * c) + w) / (2 * w);
        assert(n <= c) by (nonlinear_arith)
            requires n == (2 * (h * c) + w) / (2 * w), h <= w, w > 0, c > 0;
        let n = if n < 1 { 1 } else { n };
        (cap, n as u32)
    } else {
        assert(w * c <= h * c) by (nonlinear_arith) requires w <= h;
        assert(w * c <= 0xffff_ffff * 0xffff_ffffu128) by (nonlinear_arith) requires w <= 0xffff_ffff, c <= 0xffff_ffff;
        let n = (2 * (w * c) + h) / (2 * h);
        assert(n <= c) by (nonlinear_arith)
            requires n == (2 * (w * c) + h) / (2 * h), w <= h, h > 0, c > 0;
        let n = if n < 1 { 1 } else { n };
        (n as u32, cap)
    }
}

fn fallback(bytes: &Vec<u8>) -> (r: Vec<u8>)
    ensures
        r@ == raw_fallback(bytes@),
{
    let n = if bytes.len() <= RAW_FALLBACK_LIMIT { bytes.len() } else { RAW_FALLBACK_LIMIT };
    let r = copy_range(bytes, 0, n);
    assert(bytes@.subrange(0, bytes@.len() as int) =~= bytes@);
    r
}

/// Encodes a raw clipboard picture as PNG; keeps the raw bytes when that fails.
pub fn image_to_bytes(image: &PixelBuffer) -> (r: Vec<u8>)
    ensures
        r@ == pixels_png_of(image.width, image.height, image.bytes@),
{
    if image.width > u32::MAX as usize || image.height > u32::MAX as usize {
        let r = copy_range(&image.bytes, 0, image.bytes.len());
        assert(image.bytes@.subrange(0, image.bytes@.len() as int) =~= image.bytes@);
        return r;
    }
    match encode_png(image.width as u32, image.height as u32, &image.bytes) {
        Some(png) => png,
        None => {
            let r = copy_range(&image.bytes, 0, image.bytes.len());
            assert(image.bytes@.subrange(0, image.bytes@.len() as int) =~= image.bytes@);
            r
        },
    }
}

/// The thumbnail stored for an encoded picture (see `thumbnail_of`).
pub fn create_thumbnail(image_bytes: &Vec<u8>) -> (r: Vec<u8>)
    ensures
        r@ == thumbnail_of(image_bytes@),
{
    match decode_rgba(image_bytes) {
        Some((w, h, px)) => {
            if w == 0 || h == 0 {
                return fallback(image_bytes);
            }
            let (nw, nh) = thumbnail_dimensions(w, h, THUMBNAIL_SIZE);
            assert(nw * nh * 4 <= 256 * 256 * 4) by (nonlinear_arith)
                requires nw <= 256, nh <= 256;
            let small = resize_rgba(w, h, &px, nw, nh);
            match encode_png(nw, nh, &small) {
                Some(out) => out,
                None => fallback(image_bytes),
            }
        },
        None => fallback(image_bytes),
    }
}

/// The full-quality form stored for an encoded picture (see `full_image_of`).
pub fn process_full_image(image_bytes: &Vec<u8>) -> (r: Vec<u8>)
    ensures
        r@ == full_image_of(image_bytes@),
{
    match decode_rgba(image_bytes) {
        Some((w, h, px)) => {
            if w == 0 || h == 0 {
                return create_thumbnail(image_bytes);
            }
            let encoded = if w > MAX_FULL_SIZE || h > MAX_FULL_SIZE {
                let (nw, nh) = thumbnail_dimensions(w, h, MAX_FULL_SIZE);
                assert(nw * nh * 4 <= 2048 * 2048 * 4) by (nonlinear_arith)
                    requires nw <= 2048, nh <= 2048;
                let scaled = resize_rgba(w, h, &px, nw, nh);
                encode_png(nw, nh, &scaled)
            } else {
                encode_png(w, h, &px)
            };
            match encoded {
                Some(out) => out,
                None => create_thumbnail(image_bytes),
            }
        },
        None => create_thumbnail(image_bytes),
    }
}

} // verus!
