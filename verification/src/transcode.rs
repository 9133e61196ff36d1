//! Image transcoding: decode an image, resize it to the thumbnail width
//! while preserving the aspect ratio, and encode a JPEG.
//!
//! The arithmetic that plans the work — the JPEG fast-path scale factor,
//! the scaled decode dimensions, and the output height — is verified here;
//! the pixel work itself is done by outside image codecs behind trusted
//! wrappers.

use vstd::prelude::*;

verus! {

/// True exactly when the byte stream begins with the JPEG marker.
pub open spec fn spec_is_jpeg(data: Seq<u8>) -> bool {
    data.len() >= 3 && data[0] == 0xff && data[1] == 0xd8 && data[2] == 0xff
}

/// Does the byte stream begin with the JPEG marker `FF D8 FF`?
pub fn is_jpeg(data: &[u8]) -> (r: bool)
    ensures
        r == spec_is_jpeg(data@),
{
    data.len() >= 3 && data[0] == 0xff && data[1] == 0xd8 && data[2] == 0xff
}

/// The denominator of the coarsest power-of-two downscale (1, 1/2, 1/4, 1/8)
/// whose resulting width is still at least the target width.
pub open spec fn spec_scale_denominator(orig_w: int, target_w: int) -> int {
    if orig_w >= 8 * target_w {
        8
    } else if orig_w >= 4 * target_w {
        4
    } else if orig_w >= 2 * target_w {
        2
    } else {
        1
    }
}

/// Pick the JPEG fast-path downscale denominator for a source of width
/// `orig_w` and a thumbnail of width `target_w`.
pub fn scale_denominator(orig_w: u32, target_w: u32) -> (d: u32)
    requires
        target_w > 0,
    ensures
        d == spec_scale_denominator(orig_w as int, target_w as int),
        d == 1 || d == 2 || d == 4 || d == 8,
        d > 1 ==> orig_w as int / d as int >= target_w,
{
    let ratio = orig_w / target_w;
    let d: u32 = if ratio >= 8 {
        8
    } else if ratio >= 4 {
        4
    } else if ratio >= 2 {
        2
    } else {
        1
    };
    assert(d == spec_scale_denominator(orig_w as int, target_w as int)) by (nonlinear_arith)
        requires
            target_w > 0,
            ratio == orig_w as int / target_w as int,
            d == (if ratio >= 8 { 8int } else if ratio >= 4 { 4int } else if ratio >= 2 { 2int } else { 1int }),
    ;
    assert(d > 1 ==> orig_w as int / d as int >= target_w) by (nonlinear_arith)
        requires
            target_w > 0,
            d == spec_scale_denominator(orig_w as int, target_w as int),
            d == 1 || d == 2 || d == 4 || d == 8,
    ;
    d
}

/// A dimension after dividing by the downscale denominator, rounded up.
pub open spec fn spec_scaled_dim(dim: int, denom: int) -> int
    recommends
        denom >= 1,
{
    (dim + denom - 1) / denom
}

/// Divide a dimension by the downscale denominator, rounding up.
pub fn scaled_dim(dim: u32, denom: u32) -> (r: u32)
    requires
        denom >= 1,
    ensures
        r == spec_scaled_dim(dim as int, denom as int),
{
    let wide: u64 = (dim as u64 + denom as u64 - 1) / denom as u64;
    assert(wide <= dim) by (nonlinear_arith)
        requires
            denom >= 1,
            wide == ((dim as int) + (denom as int) - 1) / (denom as int),
            dim <= u32::MAX,
    ;
    wide as u32
}

/// The thumbnail height: `target_w * orig_h / orig_w`, rounded to the
/// nearest integer (halves round up). The *original* dimensions are used,
/// not the dimensions of a downscaled fast-path decode, so the two scale
/// steps do not compound rounding error.
pub open spec fn spec_thumb_height(orig_w: int, orig_h: int, target_w: int) -> int
    recommends
        orig_w >= 1,
{
    (2 * target_w * orig_h + orig_w) / (2 * orig_w)
}

/// Compute the thumbnail height for a source of `orig_w x orig_h` pixels,
/// preserving the aspect ratio at width `target_w`; `None` when the
/// height would be zero or not representable.
pub fn thumb_height(orig_w: u32, orig_h: u32, target_w: u32) -> (h: Option<u32>)
    requires
        orig_w >= 1,
    ensures
        match h {
            Some(v) => v == spec_thumb_height(orig_w as int, orig_h as int, target_w as int) && 1
                <= v,
            None => spec_thumb_height(orig_w as int, orig_h as int, target_w as int) == 0
                || spec_thumb_height(orig_w as int, orig_h as int, target_w as int) > u32::MAX,
        },
{
    proof {
        assert(2 * (target_w as int) * (orig_h as int) + (orig_w as int) <= u128::MAX)
            by (nonlinear_arith)
            requires
                target_w <= u32::MAX,
                orig_h <= u32::MAX,
                orig_w <= u32::MAX,
        ;
    }
    let num: u128 = 2 * (target_w as u128) * (orig_h as u128) + (orig_w as u128);
    let den: u128 = 2 * (orig_w as u128);
    let h: u128 = num / den;
    if h == 0 || h > 0xffff_ffff {
        None
    } else {
        Some(h as u32)
    }
}

/// What the transcoder failed at, per item: a corrupt or unsupported
/// source, dimensions no thumbnail can be made for, or an output too
/// large to encode.
#[derive(Debug, Clone, Copy, PartialEq, Eq, Structural)]
pub enum TranscodeError {
    /// The source could not be decoded.
    Decode,
    /// The decoded dimensions admit no thumbnail (a zero dimension, or a
    /// height out of range).
    BadDimensions,
    /// The output dimensions exceed what JPEG can encode.
    Encode,
}

/// A finished thumbnail: the encoded JPEG, its dimensions, and the
/// source dimensions it was computed from.
pub struct Thumbnail {
    /// The encoded JPEG bytes.
    pub jpeg: Vec<u8>,
    /// Thumbnail width.
    pub width: u32,
    /// Thumbnail height.
    pub height: u32,
    /// The decoded source's width.
    pub source_width: u32,
    /// The decoded source's height.
    pub source_height: u32,
}

/// Declares `fast_image_resize::Resizer` as an opaque type: the reusable,
/// worker-local resize engine the pipeline threads through its calls.
#[verifier::external_type_specification]
#[verifier::external_body]
pub struct ExResizer(fast_image_resize::Resizer);

/// What decoding a byte stream yields — the RGB pixels and the source
/// dimensions — or nothing when the bytes are corrupt or unsupported.
/// Named, not written out: the executable decode is the `image` crate's,
/// and its outcome depends on the bytes alone.
pub uninterp spec fn decoded_of(data: Seq<u8>) -> Option<(Seq<u8>, u32, u32)>;

/// Relies on `image::load_from_memory` and `DynamicImage::to_rgb8`: the
/// decode is a function of the input bytes alone, and a successful one
/// yields an RGB buffer of exactly `width * height` pixels, three bytes
/// each.
#[verifier::external_body]
fn decode_rgb(data: &Vec<u8>) -> (r: Option<(Vec<u8>, u32, u32)>)
    ensures
        r is Some <==> decoded_of(data@) is Some,
        match r {
            Some(t) => decoded_of(data@) == Some((t.0@, t.1, t.2)) && t.0@.len() == t.1 as int
                * t.2 as int * 3,
            None => true,
        },
{
    match image::load_from_memory(data.as_slice()) {
        Ok(img) => {
            let w = img.width();
            let h = img.height();
            Some((img.into_rgb8().into_raw(), w, h))
        },
        Err(_) => None,
    }
}

/// Relies on `fast_image_resize::Resizer::resize` with a bilinear
/// convolution: for two `U8x3` images of matching pixel type, nonzero
/// dimensions and a correctly sized source buffer it always succeeds —
/// its only error cases are mismatched pixel types, a wrong buffer
/// length and an invalid crop box, all ruled out here — filling a
/// destination buffer of exactly `dst_w * dst_h` pixels, three bytes
/// each.
#[verifier::external_body]
fn resize_rgb(
    resizer: &mut fast_image_resize::Resizer,
    pixels: Vec<u8>,
    src_w: u32,
    src_h: u32,
    dst_w: u32,
    dst_h: u32,
) -> (r: Option<Vec<u8>>)
    requires
        pixels@.len() == src_w as int * src_h as int * 3,
        src_w >= 1,
        src_h >= 1,
        dst_w >= 1,
        dst_h >= 1,
    ensures
        r is Some,
        match r {
            Some(v) => v@.len() == dst_w as int * dst_h as int * 3,
            None => true,
        },
{
    let px = fast_image_resize::PixelType::U8x3;
    let src = fast_image_resize::images::Image::from_vec_u8(src_w, src_h, pixels, px).ok()?;
    let mut dst = fast_image_resize::images::Image::new(dst_w, dst_h, px);
    let alg = fast_image_resize::ResizeAlg::Convolution(fast_image_resize::FilterType::Bilinear);
    let options = fast_image_resize::ResizeOptions::new().resize_alg(alg);
    resizer.resize(&src, &mut dst, &options).ok()?;
    Some(dst.into_vec())
}

/// Relies on `image`'s `JpegEncoder` writing into a `Vec`: the encode
/// succeeds exactly when both dimensions are in 1..=65535 (JPEG's size
/// limit; writes to a `Vec` cannot fail), yielding a non-empty JPEG
/// stream. The buffer-length precondition guards the encoder's own
/// length assertion.
#[verifier::external_body]
fn encode_jpeg(pixels: &Vec<u8>, w: u32, h: u32, quality: u8) -> (r: Option<Vec<u8>>)
    requires
        pixels@.len() == w as int * h as int * 3,
    ensures
        r is Some <==> (1 <= w <= 65535 && 1 <= h <= 65535),
        match r {
            Some(v) => v@.len() > 0,
            None => true,
        },
{
    let mut out: Vec<u8> = Vec::new();
    let mut encoder = image::codecs::jpeg::JpegEncoder::new_with_quality(&mut out, quality);
    match encoder.encode(pixels.as_slice(), w, h, image::ExtendedColorType::Rgb8) {
        Ok(()) => Some(out),
        Err(_) => None,
    }
}

/// The dimensions an encoded image's header declares, or nothing when
/// the bytes carry no readable header. Named, not written out: a
/// function of the bytes alone, computed by the `image` crate.
pub uninterp spec fn header_dims_of(data: Seq<u8>) -> Option<(u32, u32)>;

/// Relies on `image::ImageReader::into_dimensions`: the dimensions of an
/// encoded image, read from its header without a full decode — a
/// function of the bytes alone.
#[verifier::external_body]
pub fn get_image_dimensions_fast(data: &Vec<u8>) -> (r: Option<(u32, u32)>)
    ensures
        r == header_dims_of(data@),
{
    let reader = image::ImageReader::new(std::io::Cursor::new(data.as_slice()));
    reader.with_guessed_format().ok()?.into_dimensions().ok()
}

/// The source decodes at all.
pub open spec fn spec_decode_ok(data: Seq<u8>) -> bool {
    decoded_of(data) is Some
}

/// The decoded dimensions admit a thumbnail: both nonzero, and the
/// rounded output height representable.
pub open spec fn spec_dims_ok(data: Seq<u8>, target_w: int) -> bool {
    let d = decoded_of(data).unwrap();
    d.1 > 0 && d.2 > 0 && 1 <= spec_thumb_height(d.1 as int, d.2 as int, target_w) <= u32::MAX
}

/// The output dimensions fit JPEG's size limit of 65535.
pub open spec fn spec_encode_fits(data: Seq<u8>, target_w: int) -> bool {
    let d = decoded_of(data).unwrap();
    target_w <= 65535 && spec_thumb_height(d.1 as int, d.2 as int, target_w) <= 65535
}

/// The thumbnail a successful transcode of `data` at width `target_w`
/// carries: the source dimensions are the decoded ones, the output is
/// `target_w` wide and `round(target_w * height / width)` tall, and the
/// JPEG is non-empty.
pub open spec fn spec_thumbnail_ok(t: Thumbnail, data: Seq<u8>, target_w: int) -> bool {
    let d = decoded_of(data).unwrap();
    &&& t.width == target_w
    &&& t.source_width == d.1
    &&& t.source_height == d.2
    &&& t.height as int == spec_thumb_height(d.1 as int, d.2 as int, target_w)
    &&& t.jpeg@.len() > 0
}

/// Decode an image, resize it to `target_w` wide preserving the aspect
/// ratio of the decoded dimensions, and encode a JPEG at the configured
/// quality. The output height is computed from the source dimensions —
/// `round(target_w * height / width)` — whatever decode path produced
/// the pixels. Succeeds exactly when the source decodes, its dimensions
/// admit a thumbnail, and the output fits JPEG's limits; each error
/// names the first of those that failed.
pub fn process_image(
    data: &Vec<u8>,
    resizer: &mut fast_image_resize::Resizer,
    target_w: u32,
) -> (r: Result<Thumbnail, TranscodeError>)
    requires
        target_w >= 1,
    ensures
        r is Ok <==> spec_decode_ok(data@) && spec_dims_ok(data@, target_w as int)
            && spec_encode_fits(data@, target_w as int),
        r == Err::<Thumbnail, TranscodeError>(TranscodeError::Decode) <==> !spec_decode_ok(data@),
        r == Err::<Thumbnail, TranscodeError>(TranscodeError::BadDimensions) <==> spec_decode_ok(
            data@,
        ) && !spec_dims_ok(data@, target_w as int),
        r == Err::<Thumbnail, TranscodeError>(TranscodeError::Encode) <==> spec_decode_ok(data@)
            && spec_dims_ok(data@, target_w as int) && !spec_encode_fits(data@, target_w as int),
        r matches Ok(t) ==> spec_thumbnail_ok(t, data@, target_w as int),
{
    let decoded = match decode_rgb(data) {
        Some(d) => d,
        None => {
            return Err(TranscodeError::Decode);
        },
    };
    let (pixels, w, h) = decoded;
    if w == 0 || h == 0 {
        return Err(TranscodeError::BadDimensions);
    }
    let th = match thumb_height(w, h, target_w) {
        Some(th) => th,
        None => {
            return Err(TranscodeError::BadDimensions);
        },
    };
    let resized = resize_rgb(resizer, pixels, w, h, target_w, th).unwrap();
    let jpeg = match encode_jpeg(&resized, target_w, th, crate::THUMB_QUALITY) {
        Some(v) => v,
        None => {
            return Err(TranscodeError::Encode);
        },
    };
    Ok(Thumbnail { jpeg, width: target_w, height: th, source_width: w, source_height: h })
}

/// What `ensure` decided for one source file: a cache hit returns the
/// stored thumbnail's dimensions and does no decode work; a miss carries
/// the freshly transcoded thumbnail for the caller to store.
pub enum EnsureOutcome {
    /// The thumbnail already exists, at these dimensions.
    Hit { width: u32, height: u32 },
    /// The thumbnail was transcoded now.
    Miss { thumb: Thumbnail },
}

impl EnsureOutcome {
    /// The bytes of new cache work this outcome stands for: a hit cost
    /// nothing, a miss the size of the freshly encoded thumbnail.
    pub fn new_bytes(&self) -> (r: u64)
        ensures
            r as int == match self {
                EnsureOutcome::Hit { .. } => 0,
                EnsureOutcome::Miss { thumb } => thumb.jpeg@.len() as int,
            },
    {
        match self {
            EnsureOutcome::Hit { .. } => 0,
            EnsureOutcome::Miss { thumb } => thumb.jpeg.len() as u64,
        }
    }
}

/// Ensure a thumbnail exists for a source file: when the cache already
/// holds one (`cached` gives its dimensions), return them untouched — no
/// decode work happens; otherwise transcode the source bytes, succeeding
/// and failing exactly as `process_image` does.
pub fn ensure_thumbnail(
    cached: Option<(u32, u32)>,
    data: &Vec<u8>,
    resizer: &mut fast_image_resize::Resizer,
    target_w: u32,
) -> (r: Result<EnsureOutcome, TranscodeError>)
    requires
        target_w >= 1,
    ensures
        match cached {
            Some(d) => r == Ok::<EnsureOutcome, TranscodeError>(
                EnsureOutcome::Hit { width: d.0, height: d.1 },
            ),
            None => {
                &&& (r is Ok <==> spec_decode_ok(data@) && spec_dims_ok(data@, target_w as int)
                    && spec_encode_fits(data@, target_w as int))
                &&& (r matches Err(e) ==> process_image_would_err(data@, target_w as int, e))
                &&& (r matches Ok(o) ==> (o matches EnsureOutcome::Miss { thumb }
                    && spec_thumbnail_ok(thumb, data@, target_w as int)))
            },
        },
{
    match cached {
        Some(d) => Ok(EnsureOutcome::Hit { width: d.0, height: d.1 }),
        None => {
            let t = process_image(data, resizer, target_w)?;
            Ok(EnsureOutcome::Miss { thumb: t })
        },
    }
}

/// Which error a transcode of `data` at width `target_w` reports: the
/// first of decode, dimensions, encode-limit that fails.
pub open spec fn process_image_would_err(data: Seq<u8>, target_w: int, e: TranscodeError) -> bool {
    match e {
        TranscodeError::Decode => !spec_decode_ok(data),
        TranscodeError::BadDimensions => spec_decode_ok(data) && !spec_dims_ok(data, target_w),
        TranscodeError::Encode => spec_decode_ok(data) && spec_dims_ok(data, target_w)
            && !spec_encode_fits(data, target_w),
    }
}

/// The output dimensions the pipeline plans for a source, as a function
/// of the original dimensions alone.
pub open spec fn spec_output_dims(orig_w: int, orig_h: int, target_w: int, denom: int) -> (
    int,
    int,
) {
    (target_w, spec_thumb_height(orig_w, orig_h, target_w))
}

/// Law: the output dimensions do not depend on which power-of-two
/// fast-path downscale decoded the source — the height is computed from
/// the original dimensions, never from the reduced decode size.
pub proof fn lemma_output_dims_independent(
    orig_w: int,
    orig_h: int,
    target_w: int,
    d1: int,
    d2: int,
)
    ensures
        spec_output_dims(orig_w, orig_h, target_w, d1) == spec_output_dims(
            orig_w,
            orig_h,
            target_w,
            d2,
        ),
{
}

} // verus!
