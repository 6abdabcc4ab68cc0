//! The trusted boundary to the image pipeline's collaborators: base64
//! coding, the image codec, MIME guessing, and UTF-8 string building.  The
//! codec's images cross this boundary as plain values (`RawImage`: RGBA
//! bytes with dimensions), so the verified pipeline in `imageops` can state
//! exactly which image every call works on.
use vstd::prelude::*;

use base64::Engine;
use std::io::Cursor;

use crate::imageops::{img_wf, ImageKind, ImgV, RawImage};

verus! {

/// The standard base64 encoding of the bytes: a function of them alone.
pub uninterp spec fn b64_of(data: Seq<u8>) -> Seq<u8>;

/// The standard base64 decoding of the bytes, if they are well-formed
/// base64: a function of them alone.
pub uninterp spec fn b64_decoded(data: Seq<u8>) -> Option<Seq<u8>>;

/// The MIME type guessed from a path's extension, `application/octet-stream`
/// when none is known: a fixed table, a function of the path alone.
pub uninterp spec fn mime_of_path(path: Seq<char>) -> Seq<u8>;

/// The image the codec decodes the bytes to, in RGBA form, if it accepts
/// them: a function of the bytes alone.
pub uninterp spec fn img_decoded(data: Seq<u8>) -> Option<ImgV>;

/// The rectangle of `img` with top-left corner (x, y) and size w by h, as
/// the codec cuts it: a function of its arguments alone.
pub uninterp spec fn img_cropped(img: ImgV, x: int, y: int, w: int, h: int) -> ImgV;

/// `img` resampled to exactly w by h with Lanczos3 filtering, as the codec
/// computes it: a function of its arguments alone.
pub uninterp spec fn img_resized(img: ImgV, w: int, h: int) -> ImgV;

/// The bytes the codec serializes `img` to in the chosen format, if that
/// encoder accepts the image: a function of its arguments alone.
pub uninterp spec fn img_encoded(img: ImgV, kind: ImageKind) -> Option<Seq<u8>>;

/// Relies on base64's STANDARD engine: encoding is a function of the bytes,
/// and decoding the result gives the bytes back.
#[verifier::external_body]
pub fn b64_encode(data: &Vec<u8>) -> (r: Vec<u8>)
    ensures
        r@ == b64_of(data@),
        b64_decoded(r@) == Some(data@),
{
    base64::engine::general_purpose::STANDARD.encode(data).into_bytes()
}

/// Relies on base64's STANDARD engine: decoding succeeds exactly on
/// well-formed input and is a function of the bytes.
#[verifier::external_body]
pub fn b64_decode(data: &Vec<u8>) -> (r: Result<Vec<u8>, String>)
    ensures
        r is Ok <==> b64_decoded(data@) is Some,
        r is Ok ==> r->Ok_0@ == b64_decoded(data@)->Some_0,
{
    match base64::engine::general_purpose::STANDARD.decode(data) {
        Ok(v) => Ok(v),
        Err(e) => Err(format!("{}", e)),
    }
}

/// Relies on image::load_from_memory and DynamicImage::to_rgba8: decoding
/// succeeds exactly when the codec accepts the bytes; the RGBA buffer holds
/// four bytes per pixel, within Rust's allocation bound.
#[verifier::external_body]
pub fn decode_rgba(data: &Vec<u8>) -> (r: Result<RawImage, String>)
    ensures
        r is Ok <==> img_decoded(data@) is Some,
        r is Ok ==> r->Ok_0@ == img_decoded(data@)->Some_0,
        r is Ok ==> img_wf(r->Ok_0@),
{
    let img = match image::load_from_memory(data) {
        Ok(img) => img.to_rgba8(),
        Err(e) => {
            return Err(format!("{}", e));
        },
    };
    let (width, height) = img.dimensions();
    Ok(RawImage { width, height, pixels: img.into_raw() })
}

/// Relies on image::imageops::crop_imm: with the rectangle inside the
/// image, the result is exactly that w-by-h rectangle.
#[verifier::external_body]
pub fn crop_rgba(img: &RawImage, x: u32, y: u32, w: u32, h: u32) -> (r: RawImage)
    requires
        img_wf(img@),
        x + w <= img@.width,
        y + h <= img@.height,
    ensures
        r@ == img_cropped(img@, x as int, y as int, w as int, h as int),
        r@.width == w,
        r@.height == h,
        img_wf(r@),
{
    let buf = image::RgbaImage::from_raw(img.width, img.height, img.pixels.clone()).unwrap();
    let out = image::imageops::crop_imm(&buf, x, y, w, h).to_image();
    RawImage { width: out.width(), height: out.height(), pixels: out.into_raw() }
}

/// Relies on image::imageops::resize with Lanczos3: the result has exactly
/// the requested dimensions.  The bounds keep the codec's two working
/// buffers (4 bytes per output pixel, 16 per intermediate pixel) within
/// Rust's allocation limit, where its constructors panic.
#[verifier::external_body]
pub fn resize_rgba(img: &RawImage, w: u32, h: u32) -> (r: RawImage)
    requires
        img_wf(img@),
        4 * w * h <= isize::MAX as int,
        16 * img@.width * h <= isize::MAX as int,
    ensures
        r@ == img_resized(img@, w as int, h as int),
        r@.width == w,
        r@.height == h,
        img_wf(r@),
{
    let buf = image::RgbaImage::from_raw(img.width, img.height, img.pixels.clone()).unwrap();
    let out = image::imageops::resize(&buf, w, h, image::imageops::FilterType::Lanczos3);
    RawImage { width: out.width(), height: out.height(), pixels: out.into_raw() }
}

/// Relies on image::DynamicImage::write_to: serialization succeeds exactly
/// when the chosen encoder accepts the image, deterministically.
#[verifier::external_body]
pub fn encode_rgba(img: &RawImage, kind: ImageKind) -> (r: Result<Vec<u8>, String>)
    requires
        img_wf(img@),
    ensures
        r is Ok <==> img_encoded(img@, kind) is Some,
        r is Ok ==> r->Ok_0@ == img_encoded(img@, kind)->Some_0,
{
    let buf = image::RgbaImage::from_raw(img.width, img.height, img.pixels.clone()).unwrap();
    let dyn_img = image::DynamicImage::ImageRgba8(buf);
    let mut cursor = Cursor::new(Vec::new());
    match dyn_img.write_to(&mut cursor, format_of_kind(kind)) {
        Ok(()) => Ok(cursor.into_inner()),
        Err(e) => Err(format!("{}", e)),
    }
}

#[verifier::external_type_specification]
#[verifier::external_body]
pub struct ExImageFormat(image::ImageFormat);

/// Relies on image::ImageFormat: the format tag for each supported kind.
#[verifier::external_body]
fn format_of_kind(kind: ImageKind) -> image::ImageFormat {
    match kind {
        ImageKind::Png => image::ImageFormat::Png,
        ImageKind::Jpeg => image::ImageFormat::Jpeg,
        ImageKind::Gif => image::ImageFormat::Gif,
        ImageKind::Bmp => image::ImageFormat::Bmp,
        ImageKind::WebP => image::ImageFormat::WebP,
        ImageKind::Ico => image::ImageFormat::Ico,
        ImageKind::Tiff => image::ImageFormat::Tiff,
        ImageKind::Tga => image::ImageFormat::Tga,
    }
}

/// Relies on mime_guess::from_path with first_or_octet_stream: a fixed
/// extension table, a function of the path alone.
#[verifier::external_body]
pub fn mime_for_path(path: &str) -> (r: Vec<u8>)
    ensures
        r@ == mime_of_path(path@),
{
    mime_guess::from_path(path).first_or_octet_stream().essence_str().as_bytes().to_vec()
}

/// Relies on String::from_utf8: it accepts exactly valid UTF-8 and keeps
/// the bytes.
#[verifier::external_body]
pub fn bytes_to_string(data: Vec<u8>) -> (r: Option<String>)
    ensures
        r is Some <==> vstd::utf8::valid_utf8(data@),
        r is Some ==> vstd::utf8::encode_utf8(r->Some_0@) == data@,
{
    String::from_utf8(data).ok()
}

} // verus!
