//! The verified part of the image pipeline: the `data:<mime>;base64,<payload>`
//! form is parsed and built here, the format tables are decided here, and
//! the codec itself is called through the trusted boundary in `imgio`.
use vstd::prelude::*;

use crate::imgio::{
    b64_decode, b64_decoded, b64_encode, b64_of, bytes_to_string, crop_rgba, decode_rgba,
    encode_rgba, img_cropped, img_decoded, img_encoded, img_resized, mime_for_path, mime_of_path,
    resize_rgba,
};
use crate::object::bytes_eq;
use vstd::string::StringExecFns;
use vstd::string::StringSliceAdditionalSpecFns;

verus! {

/// An image format the pipeline can encode to.
#[derive(Clone, Copy, PartialEq, Eq, Structural, Debug)]
pub enum ImageKind {
    Png,
    Jpeg,
    Gif,
    Bmp,
    WebP,
    Ico,
    Tiff,
    Tga,
}

/// Why an image operation was refused.
#[derive(Debug)]
pub enum ImageError {
    /// The requested target format is not one the pipeline encodes.
    UnsupportedFormat { name: String },
    /// The input is not a well-formed data URL, base64 text, or image.
    DecodeError { cause: String },
    /// The crop rectangle reaches outside the image.
    CropOutOfBounds,
    /// The image could not be written in the chosen format.
    SaveError { cause: String },
}

/// The bytes of `data:`.
pub open spec fn d_prefix() -> Seq<u8> {
    seq!['d' as u8, 'a' as u8, 't' as u8, 'a' as u8, ':' as u8]
}

/// The bytes of `data:`, built executably.
pub fn mk_d_prefix() -> (r: Vec<u8>)
    ensures
        r@ == d_prefix(),
{
    let mut v: Vec<u8> = Vec::new();
    v.push('d' as u8);
    v.push('a' as u8);
    v.push('t' as u8);
    v.push('a' as u8);
    v.push(':' as u8);
    proof {
        assert(v@ =~= d_prefix());
    }
    v
}

/// The bytes of `;base64,`.
pub open spec fn b64_tag() -> Seq<u8> {
    seq![';' as u8, 'b' as u8, 'a' as u8, 's' as u8, 'e' as u8, '6' as u8, '4' as u8, ',' as u8]
}

/// The bytes of `;base64,`, built executably.
pub fn mk_b64_tag() -> (r: Vec<u8>)
    ensures
        r@ == b64_tag(),
{
    let mut v: Vec<u8> = Vec::new();
    v.push(';' as u8);
    v.push('b' as u8);
    v.push('a' as u8);
    v.push('s' as u8);
    v.push('e' as u8);
    v.push('6' as u8);
    v.push('4' as u8);
    v.push(',' as u8);
    proof {
        assert(v@ =~= b64_tag());
    }
    v
}

/// The bytes of `png`.
pub open spec fn n_png() -> Seq<u8> {
    seq!['p' as u8, 'n' as u8, 'g' as u8]
}

/// The bytes of `png`, built executably.
pub fn mk_n_png() -> (r: Vec<u8>)
    ensures
        r@ == n_png(),
{
    let mut v: Vec<u8> = Vec::new();
    v.push('p' as u8);
    v.push('n' as u8);
    v.push('g' as u8);
    proof {
        assert(v@ =~= n_png());
    }
    v
}

/// The bytes of `jpeg`.
pub open spec fn n_jpeg() -> Seq<u8> {
    seq!['j' as u8, 'p' as u8, 'e' as u8, 'g' as u8]
}

/// The bytes of `jpeg`, built executably.
pub fn mk_n_jpeg() -> (r: Vec<u8>)
    ensures
        r@ == n_jpeg(),
{
    let mut v: Vec<u8> = Vec::new();
    v.push('j' as u8);
    v.push('p' as u8);
    v.push('e' as u8);
    v.push('g' as u8);
    proof {
        assert(v@ =~= n_jpeg());
    }
    v
}

/// The bytes of `gif`.
pub open spec fn n_gif() -> Seq<u8> {
    seq!['g' as u8, 'i' as u8, 'f' as u8]
}

/// The bytes of `gif`, built executably.
pub fn mk_n_gif() -> (r: Vec<u8>)
    ensures
        r@ == n_gif(),
{
    let mut v: Vec<u8> = Vec::new();
    v.push('g' as u8);
    v.push('i' as u8);
    v.push('f' as u8);
    proof {
        assert(v@ =~= n_gif());
    }
    v
}

/// The bytes of `bmp`.
pub open spec fn n_bmp() -> Seq<u8> {
    seq!['b' as u8, 'm' as u8, 'p' as u8]
}

/// The bytes of `bmp`, built executably.
pub fn mk_n_bmp() -> (r: Vec<u8>)
    ensures
        r@ == n_bmp(),
{
    let mut v: Vec<u8> = Vec::new();
    v.push('b' as u8);
    v.push('m' as u8);
    v.push('p' as u8);
    proof {
        assert(v@ =~= n_bmp());
    }
    v
}

/// The bytes of `webp`.
pub open spec fn n_webp() -> Seq<u8> {
    seq!['w' as u8, 'e' as u8, 'b' as u8, 'p' as u8]
}

/// The bytes of `webp`, built executably.
pub fn mk_n_webp() -> (r: Vec<u8>)
    ensures
        r@ == n_webp(),
{
    let mut v: Vec<u8> = Vec::new();
    v.push('w' as u8);
    v.push('e' as u8);
    v.push('b' as u8);
    v.push('p' as u8);
    proof {
        assert(v@ =~= n_webp());
    }
    v
}

/// The bytes of `ico`.
pub open spec fn n_ico() -> Seq<u8> {
    seq!['i' as u8, 'c' as u8, 'o' as u8]
}

/// The bytes of `ico`, built executably.
pub fn mk_n_ico() -> (r: Vec<u8>)
    ensures
        r@ == n_ico(),
{
    let mut v: Vec<u8> = Vec::new();
    v.push('i' as u8);
    v.push('c' as u8);
    v.push('o' as u8);
    proof {
        assert(v@ =~= n_ico());
    }
    v
}

/// The bytes of `tiff`.
pub open spec fn n_tiff() -> Seq<u8> {
    seq!['t' as u8, 'i' as u8, 'f' as u8, 'f' as u8]
}

/// The bytes of `tiff`, built executably.
pub fn mk_n_tiff() -> (r: Vec<u8>)
    ensures
        r@ == n_tiff(),
{
    let mut v: Vec<u8> = Vec::new();
    v.push('t' as u8);
    v.push('i' as u8);
    v.push('f' as u8);
    v.push('f' as u8);
    proof {
        assert(v@ =~= n_tiff());
    }
    v
}

/// The bytes of `tga`.
pub open spec fn n_tga() -> Seq<u8> {
    seq!['t' as u8, 'g' as u8, 'a' as u8]
}

/// The bytes of `tga`, built executably.
pub fn mk_n_tga() -> (r: Vec<u8>)
    ensures
        r@ == n_tga(),
{
    let mut v: Vec<u8> = Vec::new();
    v.push('t' as u8);
    v.push('g' as u8);
    v.push('a' as u8);
    proof {
        assert(v@ =~= n_tga());
    }
    v
}

/// The bytes of `image/png`.
pub open spec fn m_png() -> Seq<u8> {
    seq!['i' as u8, 'm' as u8, 'a' as u8, 'g' as u8, 'e' as u8, '/' as u8, 'p' as u8, 'n' as u8, 'g' as u8]
}

/// The bytes of `image/png`, built executably.
pub fn mk_m_png() -> (r: Vec<u8>)
    ensures
        r@ == m_png(),
{
    let mut v: Vec<u8> = Vec::new();
    v.push('i' as u8);
    v.push('m' as u8);
    v.push('a' as u8);
    v.push('g' as u8);
    v.push('e' as u8);
    v.push('/' as u8);
    v.push('p' as u8);
    v.push('n' as u8);
    v.push('g' as u8);
    proof {
        assert(v@ =~= m_png());
    }
    v
}

/// The bytes of `image/jpeg`.
pub open spec fn m_jpeg() -> Seq<u8> {
    seq!['i' as u8, 'm' as u8, 'a' as u8, 'g' as u8, 'e' as u8, '/' as u8, 'j' as u8, 'p' as u8, 'e' as u8, 'g' as u8]
}

/// The bytes of `image/jpeg`, built executably.
pub fn mk_m_jpeg() -> (r: Vec<u8>)
    ensures
        r@ == m_jpeg(),
{
    let mut v: Vec<u8> = Vec::new();
    v.push('i' as u8);
    v.push('m' as u8);
    v.push('a' as u8);
    v.push('g' as u8);
    v.push('e' as u8);
    v.push('/' as u8);
    v.push('j' as u8);
    v.push('p' as u8);
    v.push('e' as u8);
    v.push('g' as u8);
    proof {
        assert(v@ =~= m_jpeg());
    }
    v
}

/// The bytes of `image/gif`.
pub open spec fn m_gif() -> Seq<u8> {
    seq!['i' as u8, 'm' as u8, 'a' as u8, 'g' as u8, 'e' as u8, '/' as u8, 'g' as u8, 'i' as u8, 'f' as u8]
}

/// The bytes of `image/gif`, built executably.
pub fn mk_m_gif() -> (r: Vec<u8>)
    ensures
        r@ == m_gif(),
{
    let mut v: Vec<u8> = Vec::new();
    v.push('i' as u8);
    v.push('m' as u8);
    v.push('a' as u8);
    v.push('g' as u8);
    v.push('e' as u8);
    v.push('/' as u8);
    v.push('g' as u8);
    v.push('i' as u8);
    v.push('f' as u8);
    proof {
        assert(v@ =~= m_gif());
    }
    v
}

/// The bytes of `image/bmp`.
pub open spec fn m_bmp() -> Seq<u8> {
    seq!['i' as u8, 'm' as u8, 'a' as u8, 'g' as u8, 'e' as u8, '/' as u8, 'b' as u8, 'm' as u8, 'p' as u8]
}

/// The bytes of `image/bmp`, built executably.
pub fn mk_m_bmp() -> (r: Vec<u8>)
    ensures
        r@ == m_bmp(),
{
    let mut v: Vec<u8> = Vec::new();
    v.push('i' as u8);
    v.push('m' as u8);
    v.push('a' as u8);
    v.push('g' as u8);
    v.push('e' as u8);
    v.push('/' as u8);
    v.push('b' as u8);
    v.push('m' as u8);
    v.push('p' as u8);
    proof {
        assert(v@ =~= m_bmp());
    }
    v
}

/// The bytes of `image/webp`.
pub open spec fn m_webp() -> Seq<u8> {
    seq!['i' as u8, 'm' as u8, 'a' as u8, 'g' as u8, 'e' as u8, '/' as u8, 'w' as u8, 'e' as u8, 'b' as u8, 'p' as u8]
}

/// The bytes of `image/webp`, built executably.
pub fn mk_m_webp() -> (r: Vec<u8>)
    ensures
        r@ == m_webp(),
{
    let mut v: Vec<u8> = Vec::new();
    v.push('i' as u8);
    v.push('m' as u8);
    v.push('a' as u8);
    v.push('g' as u8);
    v.push('e' as u8);
    v.push('/' as u8);
    v.push('w' as u8);
    v.push('e' as u8);
    v.push('b' as u8);
    v.push('p' as u8);
    proof {
        assert(v@ =~= m_webp());
    }
    v
}

/// The bytes of `image/vnd.microsoft.icon`.
pub open spec fn m_ico() -> Seq<u8> {
    seq!['i' as u8, 'm' as u8, 'a' as u8, 'g' as u8, 'e' as u8, '/' as u8, 'v' as u8, 'n' as u8, 'd' as u8, '.' as u8, 'm' as u8, 'i' as u8, 'c' as u8, 'r' as u8, 'o' as u8, 's' as u8, 'o' as u8, 'f' as u8, 't' as u8, '.' as u8, 'i' as u8, 'c' as u8, 'o' as u8, 'n' as u8]
}

/// The bytes of `image/vnd.microsoft.icon`, built executably.
pub fn mk_m_ico() -> (r: Vec<u8>)
    ensures
        r@ == m_ico(),
{
    let mut v: Vec<u8> = Vec::new();
    v.push('i' as u8);
    v.push('m' as u8);
    v.push('a' as u8);
    v.push('g' as u8);
    v.push('e' as u8);
    v.push('/' as u8);
    v.push('v' as u8);
    v.push('n' as u8);
    v.push('d' as u8);
    v.push('.' as u8);
    v.push('m' as u8);
    v.push('i' as u8);
    v.push('c' as u8);
    v.push('r' as u8);
    v.push('o' as u8);
    v.push('s' as u8);
    v.push('o' as u8);
    v.push('f' as u8);
    v.push('t' as u8);
    v.push('.' as u8);
    v.push('i' as u8);
    v.push('c' as u8);
    v.push('o' as u8);
    v.push('n' as u8);
    proof {
        assert(v@ =~= m_ico());
    }
    v
}

/// The bytes of `image/x-icon`.
pub open spec fn m_xicon() -> Seq<u8> {
    seq!['i' as u8, 'm' as u8, 'a' as u8, 'g' as u8, 'e' as u8, '/' as u8, 'x' as u8, '-' as u8, 'i' as u8, 'c' as u8, 'o' as u8, 'n' as u8]
}

/// The bytes of `image/x-icon`, built executably.
pub fn mk_m_xicon() -> (r: Vec<u8>)
    ensures
        r@ == m_xicon(),
{
    let mut v: Vec<u8> = Vec::new();
    v.push('i' as u8);
    v.push('m' as u8);
    v.push('a' as u8);
    v.push('g' as u8);
    v.push('e' as u8);
    v.push('/' as u8);
    v.push('x' as u8);
    v.push('-' as u8);
    v.push('i' as u8);
    v.push('c' as u8);
    v.push('o' as u8);
    v.push('n' as u8);
    proof {
        assert(v@ =~= m_xicon());
    }
    v
}

/// The bytes of `image/tiff`.
pub open spec fn m_tiff() -> Seq<u8> {
    seq!['i' as u8, 'm' as u8, 'a' as u8, 'g' as u8, 'e' as u8, '/' as u8, 't' as u8, 'i' as u8, 'f' as u8, 'f' as u8]
}

/// The bytes of `image/tiff`, built executably.
pub fn mk_m_tiff() -> (r: Vec<u8>)
    ensures
        r@ == m_tiff(),
{
    let mut v: Vec<u8> = Vec::new();
    v.push('i' as u8);
    v.push('m' as u8);
    v.push('a' as u8);
    v.push('g' as u8);
    v.push('e' as u8);
    v.push('/' as u8);
    v.push('t' as u8);
    v.push('i' as u8);
    v.push('f' as u8);
    v.push('f' as u8);
    proof {
        assert(v@ =~= m_tiff());
    }
    v
}

/// The bytes of `image/x-tga`.
pub open spec fn m_tga() -> Seq<u8> {
    seq!['i' as u8, 'm' as u8, 'a' as u8, 'g' as u8, 'e' as u8, '/' as u8, 'x' as u8, '-' as u8, 't' as u8, 'g' as u8, 'a' as u8]
}

/// The bytes of `image/x-tga`, built executably.
pub fn mk_m_tga() -> (r: Vec<u8>)
    ensures
        r@ == m_tga(),
{
    let mut v: Vec<u8> = Vec::new();
    v.push('i' as u8);
    v.push('m' as u8);
    v.push('a' as u8);
    v.push('g' as u8);
    v.push('e' as u8);
    v.push('/' as u8);
    v.push('x' as u8);
    v.push('-' as u8);
    v.push('t' as u8);
    v.push('g' as u8);
    v.push('a' as u8);
    proof {
        assert(v@ =~= m_tga());
    }
    v
}


/// A decoded image as plain values: dimensions and the RGBA bytes, row by
/// row, four bytes per pixel.
#[derive(Debug)]
pub struct RawImage {
    pub width: u32,
    pub height: u32,
    pub pixels: Vec<u8>,
}

/// The mathematical value of a `RawImage`.
#[verifier::ext_equal]
pub struct ImgV {
    pub width: int,
    pub height: int,
    pub pixels: Seq<u8>,
}

impl View for RawImage {
    type V = ImgV;

    open spec fn view(&self) -> ImgV {
        ImgV { width: self.width as int, height: self.height as int, pixels: self.pixels@ }
    }
}

/// A well-formed image buffer: four bytes per pixel, within Rust's
/// allocation bound.
pub open spec fn img_wf(img: ImgV) -> bool {
    &&& img.pixels.len() == 4 * img.width * img.height
    &&& img.pixels.len() <= isize::MAX as int
}

/// The front part of `b` before the first `c`, and the rest after it.
pub open spec fn split_at_byte(b: Seq<u8>, c: u8) -> Option<(Seq<u8>, Seq<u8>)>
    decreases b.len(),
{
    if b.len() == 0 {
        None
    } else if b[0] == c {
        Some((Seq::empty(), b.drop_first()))
    } else {
        match split_at_byte(b.drop_first(), c) {
            Some(p) => Some((seq![b[0]] + p.0, p.1)),
            None => None,
        }
    }
}

/// A first occurrence of `c` at `i` decides the split.
pub proof fn lemma_split_at_byte_found(b: Seq<u8>, c: u8, i: int)
    requires
        0 <= i < b.len(),
        b[i] == c,
        forall|j: int| 0 <= j < i ==> b[j] != c,
    ensures
        split_at_byte(b, c) == Some((b.take(i), b.skip(i + 1))),
    decreases i,
{
    if i == 0 {
        assert(b.take(0) =~= Seq::<u8>::empty());
        assert(b.skip(1) =~= b.drop_first());
    } else {
        lemma_split_at_byte_found(b.drop_first(), c, i - 1);
        assert(b.drop_first().take(i - 1) =~= b.take(i).drop_first());
        assert(b.drop_first().skip(i) =~= b.skip(i + 1));
        assert(seq![b[0]] + b.drop_first().take(i - 1) =~= b.take(i));
    }
}

/// With no occurrence of `c` there is no split.
pub proof fn lemma_split_at_byte_none(b: Seq<u8>, c: u8)
    requires
        forall|j: int| 0 <= j < b.len() ==> b[j] != c,
    ensures
        split_at_byte(b, c) is None,
    decreases b.len(),
{
    if b.len() > 0 {
        lemma_split_at_byte_none(b.drop_first(), c);
    }
}

/// The parts of a `data:<mime>;base64,<payload>` text: the MIME bytes and
/// the base64 payload bytes, or nothing when the text is not of that form.
pub open spec fn parse_data_url_v(b: Seq<u8>) -> Option<(Seq<u8>, Seq<u8>)> {
    if b.len() < 5 || b.take(5) != d_prefix() {
        None
    } else {
        match split_at_byte(b.skip(5), ';' as u8) {
            Some(p) => if p.1.len() >= 7 && p.1.take(7) == b64_tag().skip(1) {
                Some((p.0, p.1.skip(7)))
            } else {
                None
            },
            None => None,
        }
    }
}

/// The `data:<mime>;base64,<payload>` text built from its parts.
pub open spec fn data_url_of(mime: Seq<u8>, payload: Seq<u8>) -> Seq<u8> {
    d_prefix() + mime + b64_tag() + payload
}

/// A copy of the byte range `[from, to)` of the slice.
pub fn slice_sub(b: &[u8], from: usize, to: usize) -> (r: Vec<u8>)
    requires
        0 <= from <= to <= b@.len(),
    ensures
        r@ == b@.subrange(from as int, to as int),
{
    let mut r: Vec<u8> = Vec::new();
    let mut i: usize = from;
    while i < to
        invariant
            from <= i <= to <= b@.len(),
            r@ == b@.subrange(from as int, i as int),
        decreases to - i,
    {
        r.push(b[i]);
        proof {
            assert(b@.subrange(from as int, i + 1 as int) =~= b@.subrange(from as int, i as int)
                .push(b@[i as int]));
        }
        i = i + 1;
    }
    r
}

/// Append a copy of the slice to the vector.
pub fn push_all(dst: &mut Vec<u8>, src: &[u8])
    ensures
        final(dst)@ == old(dst)@ + src@,
{
    let ghost base = dst@;
    let mut i: usize = 0;
    while i < src.len()
        invariant
            0 <= i <= src@.len(),
            dst@ == base + src@.take(i as int),
        decreases src@.len() - i,
    {
        dst.push(src[i]);
        proof {
            assert(base + src@.take(i + 1) =~= (base + src@.take(i as int)).push(src@[i as int]));
        }
        i = i + 1;
    }
    proof {
        assert(base + src@.take(src@.len() as int) =~= base + src@);
    }
}

/// Split a data URL into its MIME bytes and its base64 payload bytes;
/// mirrors `parse_data_url_v`.
#[verifier::loop_isolation(false)]
pub fn parse_data_url(b: &[u8]) -> (r: Option<(Vec<u8>, Vec<u8>)>)
    ensures
        match r {
            Some(p) => parse_data_url_v(b@) == Some((p.0@, p.1@)),
            None => parse_data_url_v(b@) is None,
        },
{
    let pre = mk_d_prefix();
    if b.len() < 5 {
        return None;
    }
    let head = slice_sub(b, 0, 5);
    if !bytes_eq(head.as_slice(), pre.as_slice()) {
        proof {
            assert(b@.take(5) =~= b@.subrange(0, 5));
        }
        return None;
    }
    proof {
        assert(b@.take(5) =~= b@.subrange(0, 5));
    }
    let mut i: usize = 5;
    while i < b.len()
        invariant
            5 <= i <= b@.len(),
            forall|j: int| 5 <= j < i ==> b@[j] != ';' as u8,
        decreases b@.len() - i,
    {
        if b[i] == ';' as u8 {
            let ghost tail = b@.skip(5);
            proof {
                assert forall|j: int| 0 <= j < i - 5 implies tail[j] != ';' as u8 by {
                    assert(tail[j] == b@[j + 5]);
                }
                assert(tail[i - 5] == b@[i as int]);
                lemma_split_at_byte_found(tail, ';' as u8, i - 5);
                assert(tail.take(i - 5) =~= b@.subrange(5, i as int));
                assert(tail.skip(i - 5 + 1) =~= b@.skip(i + 1));
            }
            let mime = slice_sub(b, 5, i);
            let tag = mk_b64_tag();
            if b.len() >= 8 && i <= b.len() - 8 {
                let piece = slice_sub(b, i, i + 8);
                if bytes_eq(piece.as_slice(), tag.as_slice()) {
                    let payload = slice_sub(b, i + 8, b.len());
                    proof {
                        let rest = b@.skip(i + 1);
                        assert(rest.take(7) =~= b@.subrange(i + 1, i + 8));
                        assert(b@.subrange(i + 1, i + 8) =~= b@.subrange(i as int, i + 8).skip(1));
                        assert(b64_tag().skip(1) =~= b@.subrange(i as int, i + 8).skip(1));
                        assert(rest.skip(7) =~= b@.subrange(i + 8 as int, b@.len() as int));
                    }
                    return Some((mime, payload));
                }
                proof {
                    let rest = b@.skip(i + 1);
                    assert(rest.len() >= 7);
                    assert(rest.take(7) != b64_tag().skip(1)) by {
                        if rest.take(7) == b64_tag().skip(1) {
                            assert(rest.take(7) =~= b@.subrange(i + 1, i + 8));
                            assert(b@[i as int] == ';' as u8);
                            assert(b64_tag()[0] == ';' as u8);
                            assert forall|kk: int| 0 <= kk < 8 implies b@.subrange(
                                i as int,
                                i + 8,
                            )[kk] == b64_tag()[kk] by {
                                if kk > 0 {
                                    assert(b@.subrange(i + 1, i + 8)[kk - 1] == b64_tag().skip(
                                        1,
                                    )[kk - 1]);
                                }
                            }
                            assert(b@.subrange(i as int, i + 8) =~= b64_tag());
                        }
                    }
                }
                return None;
            }
            proof {
                let rest = b@.skip(i + 1);
                assert(rest.len() < 7);
            }
            return None;
        }
        i = i + 1;
    }
    proof {
        let tail = b@.skip(5);
        assert forall|j: int| 0 <= j < tail.len() implies tail[j] != ';' as u8 by {
            assert(tail[j] == b@[j + 5]);
        }
        lemma_split_at_byte_none(tail, ';' as u8);
    }
    None
}

/// The data URL built from its MIME bytes and base64 payload bytes;
/// mirrors `data_url_of`.
pub fn build_data_url(mime: &Vec<u8>, payload: &Vec<u8>) -> (r: Vec<u8>)
    ensures
        r@ == data_url_of(mime@, payload@),
{
    let mut out = mk_d_prefix();
    push_all(&mut out, mime.as_slice());
    let tag = mk_b64_tag();
    push_all(&mut out, tag.as_slice());
    push_all(&mut out, payload.as_slice());
    out
}

/// The encoding format chosen by a format name, if it names one.
pub open spec fn format_of_name(n: Seq<u8>) -> Option<ImageKind> {
    if n == n_png() {
        Some(ImageKind::Png)
    } else if n == n_jpeg() {
        Some(ImageKind::Jpeg)
    } else if n == n_gif() {
        Some(ImageKind::Gif)
    } else if n == n_bmp() {
        Some(ImageKind::Bmp)
    } else if n == n_webp() {
        Some(ImageKind::WebP)
    } else if n == n_ico() {
        Some(ImageKind::Ico)
    } else if n == n_tiff() {
        Some(ImageKind::Tiff)
    } else if n == n_tga() {
        Some(ImageKind::Tga)
    } else {
        None
    }
}

/// The MIME type announced for each encoding format.
pub open spec fn mime_of_kind(k: ImageKind) -> Seq<u8> {
    match k {
        ImageKind::Png => m_png(),
        ImageKind::Jpeg => m_jpeg(),
        ImageKind::Gif => m_gif(),
        ImageKind::Bmp => m_bmp(),
        ImageKind::WebP => m_webp(),
        ImageKind::Ico => m_ico(),
        ImageKind::Tiff => m_tiff(),
        ImageKind::Tga => m_tga(),
    }
}

/// The encoding format matching a MIME type, if any does.
pub open spec fn format_of_mime(m: Seq<u8>) -> Option<ImageKind> {
    if m == m_png() {
        Some(ImageKind::Png)
    } else if m == m_jpeg() {
        Some(ImageKind::Jpeg)
    } else if m == m_gif() {
        Some(ImageKind::Gif)
    } else if m == m_bmp() {
        Some(ImageKind::Bmp)
    } else if m == m_webp() {
        Some(ImageKind::WebP)
    } else if m == m_ico() || m == m_xicon() {
        Some(ImageKind::Ico)
    } else if m == m_tiff() {
        Some(ImageKind::Tiff)
    } else if m == m_tga() {
        Some(ImageKind::Tga)
    } else {
        None
    }
}

/// The encoding format matching the MIME bytes, decided by comparing.
pub fn format_for_mime(m: &[u8]) -> (r: Option<ImageKind>)
    ensures
        r == format_of_mime(m@),
{
    if bytes_eq(m, mk_m_png().as_slice()) {
        Some(ImageKind::Png)
    } else if bytes_eq(m, mk_m_jpeg().as_slice()) {
        Some(ImageKind::Jpeg)
    } else if bytes_eq(m, mk_m_gif().as_slice()) {
        Some(ImageKind::Gif)
    } else if bytes_eq(m, mk_m_bmp().as_slice()) {
        Some(ImageKind::Bmp)
    } else if bytes_eq(m, mk_m_webp().as_slice()) {
        Some(ImageKind::WebP)
    } else if bytes_eq(m, mk_m_ico().as_slice()) || bytes_eq(m, mk_m_xicon().as_slice()) {
        Some(ImageKind::Ico)
    } else if bytes_eq(m, mk_m_tiff().as_slice()) {
        Some(ImageKind::Tiff)
    } else if bytes_eq(m, mk_m_tga().as_slice()) {
        Some(ImageKind::Tga)
    } else {
        None
    }
}

/// The encoding format matching a MIME type string, if any does.
pub fn get_image_format(mime_type: &str) -> (r: Option<ImageKind>)
    ensures
        r == format_of_mime(mime_type.spec_bytes()),
{
    format_for_mime(mime_type.as_bytes())
}

/// The encoding format named by a format string, decided by comparing.
pub fn format_for_name(n: &[u8]) -> (r: Option<ImageKind>)
    ensures
        r == format_of_name(n@),
{
    if bytes_eq(n, mk_n_png().as_slice()) {
        Some(ImageKind::Png)
    } else if bytes_eq(n, mk_n_jpeg().as_slice()) {
        Some(ImageKind::Jpeg)
    } else if bytes_eq(n, mk_n_gif().as_slice()) {
        Some(ImageKind::Gif)
    } else if bytes_eq(n, mk_n_bmp().as_slice()) {
        Some(ImageKind::Bmp)
    } else if bytes_eq(n, mk_n_webp().as_slice()) {
        Some(ImageKind::WebP)
    } else if bytes_eq(n, mk_n_ico().as_slice()) {
        Some(ImageKind::Ico)
    } else if bytes_eq(n, mk_n_tiff().as_slice()) {
        Some(ImageKind::Tiff)
    } else if bytes_eq(n, mk_n_tga().as_slice()) {
        Some(ImageKind::Tga)
    } else {
        None
    }
}

/// The MIME bytes announced for the format; mirrors `mime_of_kind`.
pub fn mime_for_kind(k: ImageKind) -> (r: Vec<u8>)
    ensures
        (r@ == mime_of_kind(k)),
{
    let out: Vec<u8> = match k {
        ImageKind::Png => mk_m_png(),
        ImageKind::Jpeg => mk_m_jpeg(),
        ImageKind::Gif => mk_m_gif(),
        ImageKind::Bmp => mk_m_bmp(),
        ImageKind::WebP => mk_m_webp(),
        ImageKind::Ico => mk_m_ico(),
        ImageKind::Tiff => mk_m_tiff(),
        ImageKind::Tga => mk_m_tga(),
    };
    out
}


/// The parsed MIME part of the input, once it parses.
pub open spec fn url_mime(b: Seq<u8>) -> Seq<u8> {
    parse_data_url_v(b)->Some_0.0
}

/// The parsed base64 payload part of the input, once it parses.
pub open spec fn url_payload(b: Seq<u8>) -> Seq<u8> {
    parse_data_url_v(b)->Some_0.1
}

/// The encoding format used for an input MIME type: the matching format,
/// or PNG when none matches.
pub open spec fn kind_sel(m: Seq<u8>) -> ImageKind {
    match format_of_mime(m) {
        Some(k) => k,
        None => ImageKind::Png,
    }
}

/// The image the input's payload decodes to, once the whole chain holds.
pub open spec fn url_image(b: Seq<u8>) -> ImgV {
    img_decoded(b64_decoded(url_payload(b))->Some_0)->Some_0
}

/// Whether the full input chain decodes: the data URL form, the base64
/// payload, and the image bytes.
pub open spec fn url_decodes(b: Seq<u8>) -> bool {
    &&& parse_data_url_v(b) is Some
    &&& b64_decoded(url_payload(b)) is Some
    &&& img_decoded(b64_decoded(url_payload(b))->Some_0) is Some
}

/// Whether resampling `img` to w by h stays within Rust's allocation limit:
/// the two buffers the codec builds (4 bytes per output pixel, 16 bytes per
/// intermediate pixel) must fit.
pub open spec fn resize_fits(img: ImgV, w: int, h: int) -> bool {
    &&& 4 * w * h <= isize::MAX as int
    &&& 16 * img.width * h <= isize::MAX as int
}

/// The product of two 32-bit quantities stays below 2^64.
proof fn lemma_u32_mul_bound(a: int, b: int)
    by (nonlinear_arith)
    requires
        0 <= a < 0x100000000,
        0 <= b < 0x100000000,
    ensures
        a * b < 0x10000000000000000,
{
}

/// Whether the resampling buffers fit, decided executably.
fn check_resize_fits(img: &RawImage, w: u32, h: u32) -> (r: bool)
    ensures
        r == resize_fits(img@, w as int, h as int),
{
    proof {
        lemma_u32_mul_bound(w as int, h as int);
        lemma_u32_mul_bound(img.width as int, h as int);
        assert(4 * ((w as int) * (h as int)) == 4 * (w as int) * (h as int)) by (nonlinear_arith);
        assert(16 * ((img.width as int) * (h as int)) == 16 * (img@.width) * (h as int))
            by (nonlinear_arith);
    }
    let wh: u128 = (w as u128) * (h as u128);
    let iwh: u128 = (img.width as u128) * (h as u128);
    let out_bytes: u128 = 4u128 * wh;
    let tmp_bytes: u128 = 16u128 * iwh;
    out_bytes <= isize::MAX as u128 && tmp_bytes <= isize::MAX as u128
}

/// Crop the image carried by the data URL to the given rectangle and return
/// it as a data URL under the same MIME type; the payload is the cropped
/// image re-encoded in the type's format, PNG when the type is not
/// recognized.  A rectangle that reaches outside the image is refused.
pub fn crop_image(image_data: &str, x: u32, y: u32, width: u32, height: u32) -> (r: Result<
    String,
    ImageError,
>)
    ensures
        ({
            let b = image_data.spec_bytes();
            let img = url_image(b);
            let inb = x + width <= img.width && y + height <= img.height;
            let enc = img_encoded(
                img_cropped(img, x as int, y as int, width as int, height as int),
                kind_sel(url_mime(b)),
            );
            let out_ok = enc is Some && vstd::utf8::valid_utf8(
                data_url_of(url_mime(b), b64_of(enc->Some_0)),
            );
            &&& (r is Ok <==> url_decodes(b) && inb && out_ok)
            &&& (r is Ok ==> vstd::utf8::encode_utf8(r->Ok_0@) == data_url_of(
                url_mime(b),
                b64_of(enc->Some_0),
            ))
            &&& ((r matches Err(ImageError::CropOutOfBounds)) <==> (url_decodes(b) && !inb))
            &&& ((r matches Err(ImageError::SaveError { .. })) <==> (url_decodes(b) && inb
                && enc is None))
            &&& ((r matches Err(ImageError::DecodeError { .. })) <==> (!url_decodes(b) || (
            url_decodes(b) && inb && enc is Some && !vstd::utf8::valid_utf8(
                data_url_of(url_mime(b), b64_of(enc->Some_0)),
            ))))
        }),
{
    let bytes = image_data.as_bytes();
    let (mime, payload) = match parse_data_url(bytes) {
        Some(p) => p,
        None => {
            return Err(ImageError::DecodeError {
                cause: "the input is not a data URL".to_owned(),
            });
        },
    };
    let raw = match b64_decode(&payload) {
        Ok(raw) => raw,
        Err(cause) => {
            return Err(ImageError::DecodeError { cause });
        },
    };
    let img = match decode_rgba(&raw) {
        Ok(img) => img,
        Err(cause) => {
            return Err(ImageError::DecodeError { cause });
        },
    };
    if x as u64 + width as u64 > img.width as u64 || y as u64 + height as u64 > img.height as u64 {
        return Err(ImageError::CropOutOfBounds);
    }
    let cropped = crop_rgba(&img, x, y, width, height);
    let kind = match format_for_mime(mime.as_slice()) {
        Some(kind) => kind,
        None => ImageKind::Png,
    };
    proof {
        assert(kind == kind_sel(url_mime(image_data.spec_bytes())));
    }
    let encoded = match encode_rgba(&cropped, kind) {
        Ok(encoded) => encoded,
        Err(cause) => {
            return Err(ImageError::SaveError { cause });
        },
    };
    let b64 = b64_encode(&encoded);
    let url = build_data_url(&mime, &b64);
    match bytes_to_string(url) {
        Some(out) => Ok(out),
        None => Err(ImageError::DecodeError {
            cause: "the result is not valid text".to_owned(),
        }),
    }
}

/// Resize the image carried by the data URL to exactly the given size
/// (Lanczos3 resampling, aspect ratio not kept) and return it as a data URL
/// under the same MIME type; the payload is re-encoded as in `crop_image`.
/// A size whose buffers cannot be allocated is refused.
pub fn resize_image(image_data: &str, width: u32, height: u32) -> (r: Result<String, ImageError>)
    ensures
        ({
            let b = image_data.spec_bytes();
            let img = url_image(b);
            let fits = resize_fits(img, width as int, height as int);
            let enc = img_encoded(
                img_resized(img, width as int, height as int),
                kind_sel(url_mime(b)),
            );
            let out_ok = enc is Some && vstd::utf8::valid_utf8(
                data_url_of(url_mime(b), b64_of(enc->Some_0)),
            );
            &&& (r is Ok <==> url_decodes(b) && fits && out_ok)
            &&& (r is Ok ==> vstd::utf8::encode_utf8(r->Ok_0@) == data_url_of(
                url_mime(b),
                b64_of(enc->Some_0),
            ))
            &&& ((r matches Err(ImageError::SaveError { .. })) <==> (url_decodes(b) && (!fits || (
            fits && enc is None))))
            &&& ((r matches Err(ImageError::DecodeError { .. })) <==> (!url_decodes(b) || (
            url_decodes(b) && fits && enc is Some && !vstd::utf8::valid_utf8(
                data_url_of(url_mime(b), b64_of(enc->Some_0)),
            ))))
            &&& !(r matches Err(ImageError::CropOutOfBounds))
            &&& !(r matches Err(ImageError::UnsupportedFormat { .. }))
        }),
{
    let bytes = image_data.as_bytes();
    let (mime, payload) = match parse_data_url(bytes) {
        Some(p) => p,
        None => {
            return Err(ImageError::DecodeError {
                cause: "the input is not a data URL".to_owned(),
            });
        },
    };
    let raw = match b64_decode(&payload) {
        Ok(raw) => raw,
        Err(cause) => {
            return Err(ImageError::DecodeError { cause });
        },
    };
    let img = match decode_rgba(&raw) {
        Ok(img) => img,
        Err(cause) => {
            return Err(ImageError::DecodeError { cause });
        },
    };
    if !check_resize_fits(&img, width, height) {
        return Err(ImageError::SaveError {
            cause: "the requested size cannot be allocated".to_owned(),
        });
    }
    let resized = resize_rgba(&img, width, height);
    let kind = match format_for_mime(mime.as_slice()) {
        Some(kind) => kind,
        None => ImageKind::Png,
    };
    proof {
        assert(kind == kind_sel(url_mime(image_data.spec_bytes())));
    }
    let encoded = match encode_rgba(&resized, kind) {
        Ok(encoded) => encoded,
        Err(cause) => {
            return Err(ImageError::SaveError { cause });
        },
    };
    let b64 = b64_encode(&encoded);
    let url = build_data_url(&mime, &b64);
    match bytes_to_string(url) {
        Some(out) => Ok(out),
        None => Err(ImageError::DecodeError {
            cause: "the result is not valid text".to_owned(),
        }),
    }
}

/// Re-encode the image carried by the data URL in the named target format
/// and return it as a data URL under that format's MIME type.  A name
/// outside the supported set is refused, naming it back; an empty payload
/// is refused before the codec is asked.
pub fn convert_image(image_data: &str, target_format: &str) -> (r: Result<String, ImageError>)
    ensures
        ({
            let b = image_data.spec_bytes();
            let f = format_of_name(target_format.spec_bytes());
            let full = f is Some && parse_data_url_v(b) is Some && url_payload(b).len() > 0
                && b64_decoded(url_payload(b)) is Some && img_decoded(
                b64_decoded(url_payload(b))->Some_0,
            ) is Some;
            let enc = img_encoded(url_image(b), f->Some_0);
            let out_ok = enc is Some && vstd::utf8::valid_utf8(
                data_url_of(mime_of_kind(f->Some_0), b64_of(enc->Some_0)),
            );
            &&& (f is None <==> r matches Err(ImageError::UnsupportedFormat { .. }))
            &&& (r matches Err(ImageError::UnsupportedFormat { name }) ==> name@
                == target_format@)
            &&& (r is Ok <==> full && out_ok)
            &&& (r is Ok ==> vstd::utf8::encode_utf8(r->Ok_0@) == data_url_of(
                mime_of_kind(f->Some_0),
                b64_of(enc->Some_0),
            ))
            &&& ((r matches Err(ImageError::SaveError { .. })) <==> (full && enc is None))
            &&& ((r matches Err(ImageError::DecodeError { .. })) <==> (f is Some && (!full || (
            full && enc is Some && !vstd::utf8::valid_utf8(
                data_url_of(mime_of_kind(f->Some_0), b64_of(enc->Some_0)),
            )))))
            &&& !(r matches Err(ImageError::CropOutOfBounds))
        }),
{
    let kind = match format_for_name(target_format.as_bytes()) {
        Some(kind) => kind,
        None => {
            return Err(ImageError::UnsupportedFormat { name: target_format.to_owned() });
        },
    };
    let bytes = image_data.as_bytes();
    let (_mime, payload) = match parse_data_url(bytes) {
        Some(p) => p,
        None => {
            return Err(ImageError::DecodeError {
                cause: "the input is not a data URL".to_owned(),
            });
        },
    };
    if payload.len() == 0 {
        return Err(ImageError::DecodeError {
            cause: "no base64 data found in the input data URL".to_owned(),
        });
    }
    let raw = match b64_decode(&payload) {
        Ok(raw) => raw,
        Err(cause) => {
            return Err(ImageError::DecodeError { cause });
        },
    };
    let img = match decode_rgba(&raw) {
        Ok(img) => img,
        Err(cause) => {
            return Err(ImageError::DecodeError { cause });
        },
    };
    let encoded = match encode_rgba(&img, kind) {
        Ok(encoded) => encoded,
        Err(cause) => {
            return Err(ImageError::SaveError { cause });
        },
    };
    let b64 = b64_encode(&encoded);
    let out_mime = mime_for_kind(kind);
    let url = build_data_url(&out_mime, &b64);
    match bytes_to_string(url) {
        Some(out) => Ok(out),
        None => Err(ImageError::DecodeError {
            cause: "the result is not valid text".to_owned(),
        }),
    }
}

/// Wrap already-read file bytes as a data URL, with the MIME type guessed
/// from the path.  Fails only if the guessed type makes the URL invalid
/// text, which no known type does.
pub fn image_file_to_data_url(path: &str, data: &Vec<u8>) -> (r: Result<String, ImageError>)
    ensures
        r is Ok <==> vstd::utf8::valid_utf8(data_url_of(mime_of_path(path@), b64_of(data@))),
        r is Ok ==> vstd::utf8::encode_utf8(r->Ok_0@) == data_url_of(
            mime_of_path(path@),
            b64_of(data@),
        ),
{
    let mime = mime_for_path(path);
    let b64 = b64_encode(data);
    let url = build_data_url(&mime, &b64);
    match bytes_to_string(url) {
        Some(out) => Ok(out),
        None => Err(ImageError::DecodeError {
            cause: "the guessed type is not valid text".to_owned(),
        }),
    }
}

/// The greeting returned for a name.
pub open spec fn greeting_of(name: Seq<char>) -> Seq<char> {
    "Hello, "@ + name + "! You\'ve been greeted from Rust!"@
}

/// Greet the caller by name.
pub fn greet(name: &str) -> (r: String)
    ensures
        r@ == greeting_of(name@),
{
    let mut s = "Hello, ".to_owned();
    s.append(name);
    s.append("! You\'ve been greeted from Rust!");
    s
}

} // verus!
