use vstd::prelude::*;

use image::ColorType;

use crate::error::SvcError;
use crate::transform::{
    resize_plan, spec_resize_dims, spec_resize_plan, Directives, OutFmt, Resize,
};

verus! {

#[verifier::external_type_specification]
#[verifier::external_body]
pub struct ExDynamicImage(image::DynamicImage);

/// The pixel layout of a decoded buffer, as the encode logic reads it.
#[derive(Debug, Clone, Copy, PartialEq, Eq, Structural)]
pub enum PixelKind {
    Luma8,
    LumaA8,
    Rgb8,
    Rgba8,
    Luma16,
    LumaA16,
    Rgb16,
    Rgba16,
    RgbFloat,
    RgbaFloat,
}

/// Eight bits per channel: the layouts every still-image codec here
/// takes without a byte-order or depth conversion.
pub open spec fn is_eight_bit(c: PixelKind) -> bool {
    c == PixelKind::Luma8 || c == PixelKind::LumaA8 || c == PixelKind::Rgb8 || c
        == PixelKind::Rgba8
}

/// A decoded image: the pixel buffer, together with its dimensions and
/// pixel layout as plain values for the transform and encode logic.
pub struct Image {
    pub buf: image::DynamicImage,
    pub w: u32,
    pub h: u32,
    pub color: PixelKind,
}

/// The largest pixel area the resampler is given, so that its buffer
/// allocations stay within addressable bounds.
pub const MAX_SCALED_PIXELS: u64 = 0x1000_0000;

/// What decoding a byte string yields: the dimensions and pixel layout
/// of the decoded buffer when the bytes decode to a layout the library
/// models, nothing otherwise.  Decoding depends on the bytes alone.
pub uninterp spec fn decoded_image_of(bytes: Seq<u8>) -> Option<(u32, u32, PixelKind)>;

/// Relies on image's `ImageReader` with content-based format detection:
/// the returned dimensions and layout are those of the decoded buffer,
/// one arm per layout the crate defines.
#[verifier::external_body]
fn decode_image_bytes(bytes: &[u8]) -> (r: Result<Image, ()>)
    ensures
        r matches Ok(img) ==> decoded_image_of(bytes@) == Some((img.w, img.h, img.color)),
        r is Err ==> decoded_image_of(bytes@) is None,
{
    let rd = image::ImageReader::new(std::io::Cursor::new(bytes)).with_guessed_format().map_err(|_| ())?;
    let img = rd.decode().map_err(|_| ())?;
    let color = match img.color() {
        ColorType::L8 => PixelKind::Luma8, ColorType::La8 => PixelKind::LumaA8,
        ColorType::Rgb8 => PixelKind::Rgb8, ColorType::Rgba8 => PixelKind::Rgba8,
        ColorType::L16 => PixelKind::Luma16, ColorType::La16 => PixelKind::LumaA16,
        ColorType::Rgb16 => PixelKind::Rgb16, ColorType::Rgba16 => PixelKind::Rgba16,
        ColorType::Rgb32F => PixelKind::RgbFloat, ColorType::Rgba32F => PixelKind::RgbaFloat,
        _ => return Err(()),
    };
    Ok(Image { w: img.width(), h: img.height(), color, buf: img })
}

/// Relies on `DynamicImage::resize_exact` (Lanczos-class resampling):
/// the result has exactly the requested dimensions and, since each
/// layout is resampled into itself, the source's pixel layout.  The
/// area bounds keep the resampler's buffers addressable.
#[verifier::external_body]
fn resize_exact_img(img: &Image, w: u32, h: u32) -> (r: Image)
    requires
        (w as nat) * (h as nat) <= MAX_SCALED_PIXELS,
        (img.w as nat) * (h as nat) <= MAX_SCALED_PIXELS,
    ensures
        r.w == w,
        r.h == h,
        r.color == img.color,
{
    let buf = img.buf.resize_exact(w, h, image::imageops::FilterType::Lanczos3);
    Image { buf, w, h, color: img.color }
}

/// How the crate clamps a crop rectangle to the image bounds.
pub open spec fn crop_clamp(dim: int, off: int, want: int) -> int {
    let o = if off <= dim {
        off
    } else {
        dim
    };
    if want <= dim - o {
        want
    } else {
        dim - o
    }
}

/// Relies on `DynamicImage::crop_imm`: the cut-out keeps the requested
/// rectangle clamped to the image bounds, exactly as `crop_clamp`
/// computes per axis, in the source's pixel layout.
#[verifier::external_body]
fn crop_img(img: &Image, x: u32, y: u32, w: u32, h: u32) -> (r: Image)
    ensures
        r.w as int == crop_clamp(img.w as int, x as int, w as int),
        r.h as int == crop_clamp(img.h as int, y as int, h as int),
        r.color == img.color,
{
    let buf = img.buf.crop_imm(x, y, w, h);
    let (w2, h2) = (buf.width(), buf.height());
    Image { buf, w: w2, h: h2, color: img.color }
}

/// Relies on image's JPEG encoder: a `DynamicImage` is encoded through
/// its RGBA8 view, so only the dimensions decide success — each must be
/// nonzero and fit the format's 16-bit size fields.  Quality is clamped
/// to 1-100 internally; a successful encode emits at least the format
/// markers.
#[verifier::external_body]
fn encode_jpeg(img: &Image, quality: u8) -> (r: Result<Vec<u8>, ()>)
    ensures
        1 <= img.w <= 0xffff && 1 <= img.h <= 0xffff ==> r is Ok,
        r matches Ok(b) ==> b@.len() > 0,
{
    let mut out: Vec<u8> = Vec::new();
    let mut enc = image::codecs::jpeg::JpegEncoder::new_with_quality(&mut out, quality);
    match enc.encode_image(&img.buf) {
        Ok(()) => Ok(out),
        Err(_) => Err(()),
    }
}

/// Relies on image's PNG encoder (lossless; it takes no quality): an
/// eight-bit buffer with nonzero dimensions always encodes.  Zero
/// dimensions and float layouts are refused, and sixteen-bit buffers
/// pass through a fallible byte-order buffer, so nothing is promised of
/// them.  A successful encode emits at least the signature.
#[verifier::external_body]
fn encode_png(img: &Image) -> (r: Result<Vec<u8>, ()>)
    ensures
        is_eight_bit(img.color) && img.w >= 1 && img.h >= 1 ==> r is Ok,
        r matches Ok(b) ==> b@.len() > 0,
{
    let mut out: Vec<u8> = Vec::new();
    let enc = image::codecs::png::PngEncoder::new(&mut out);
    match img.buf.write_with_encoder(enc) {
        Ok(()) => Ok(out),
        Err(_) => Err(()),
    }
}

/// Relies on the webp encoder's lossy mode at the given quality (the
/// codec validates 0-100).  The encoder may refuse: only 8-bit RGB and
/// RGBA buffers are supported, and the codec enforces its own dimension
/// and bitstream limits, so no success is promised.  A successful
/// encode emits at least the container header.
#[verifier::external_body]
fn encode_webp(img: &Image, quality: u8) -> (r: Result<Vec<u8>, ()>)
    requires
        quality <= 100,
    ensures
        r matches Ok(b) ==> b@.len() > 0,
{
    let enc = match webp::Encoder::from_image(&img.buf) {
        Ok(e) => e,
        Err(_) => return Err(()),
    };
    match enc.encode_simple(false, quality.into()) {
        Ok(mem) => Ok(mem.to_vec()),
        Err(_) => Err(()),
    }
}

/// Relies on ravif's AVIF encoder at the given lossy quality and speed
/// setting (the encoder accepts 1-100 and 1-10).  The underlying codec
/// enforces its own limits, so no success is promised.  A successful
/// encode emits at least the container boxes.
#[verifier::external_body]
fn encode_avif(img: &Image, quality: u8, speed: u8) -> (r: Result<Vec<u8>, ()>)
    requires
        1 <= quality <= 100,
        1 <= speed <= 10,
    ensures
        r matches Ok(b) ==> b@.len() > 0,
{
    let rgba = img.buf.to_rgba8();
    let (w, h) = (rgba.width() as usize, rgba.height() as usize);
    let pixels: Vec<rgb::RGBA<u8>> = rgba.pixels().map(
        |p| rgb::RGBA { r: p[0], g: p[1], b: p[2], a: p[3] },
    ).collect();
    let enc = ravif::Encoder::new().with_quality(quality.into()).with_speed(speed);
    match enc.encode_rgba(ravif::Img::new(&pixels[..], w, h)) {
        Ok(e) => Ok(e.avif_file),
        Err(_) => Err(()),
    }
}

/// The resize plan's buffers stay within the resampler's area cap.
pub open spec fn spec_plan_fits(sw: int, sh: int, r: Resize) -> bool {
    let p = spec_resize_plan(sw, sh, r);
    &&& (p.scale_w as int) * (p.scale_h as int) <= MAX_SCALED_PIXELS as int
    &&& sw * (p.scale_h as int) <= MAX_SCALED_PIXELS as int
}

/// Apply a resize transformation to a decoded image.  The output
/// dimensions follow the mode's exact arithmetic and the pixel layout
/// is kept; a plan whose scaled area exceeds the resampler's cap is
/// rejected as a bad request.
pub fn apply_resize(img: Image, resize: &Resize) -> (r: Result<Image, SvcError>)
    requires
        img.w >= 1,
        img.h >= 1,
    ensures
        match r {
            Ok(out) => spec_plan_fits(img.w as int, img.h as int, *resize) && (
            out.w as int,
            out.h as int,
            ) == spec_resize_dims(img.w as int, img.h as int, *resize) && out.color == img.color,
            Err(e) => !spec_plan_fits(img.w as int, img.h as int, *resize) && (e matches
                SvcError::BadRequest(m) && m@ == "resize dimensions too large"@),
        },
{
    let plan = resize_plan(img.w, img.h, resize);
    proof {
        crate::transform::lemma_mul_u32_bound(plan.scale_w as int, plan.scale_h as int);
        crate::transform::lemma_mul_u32_bound(img.w as int, plan.scale_h as int);
    }
    if (plan.scale_w as u64) * (plan.scale_h as u64) > MAX_SCALED_PIXELS || (img.w as u64) * (
    plan.scale_h as u64) > MAX_SCALED_PIXELS {
        return Err(SvcError::BadRequest("resize dimensions too large"));
    }
    let scaled = resize_exact_img(&img, plan.scale_w, plan.scale_h);
    if plan.crop {
        proof {
            crate::transform::lemma_plan_crop_in_bounds(img.w as int, img.h as int, *resize);
        }
        let out = crop_img(&scaled, plan.crop_x, plan.crop_y, plan.crop_w, plan.crop_h);
        Ok(out)
    } else {
        Ok(scaled)
    }
}

/// Encoding `img` at format `fmt` cannot be refused: JPEG takes any
/// layout whose dimensions fit its 16-bit size fields, PNG any
/// eight-bit layout with nonzero dimensions.  WEBP and AVIF enforce
/// codec-internal limits and are never owed success.
pub open spec fn spec_encode_ok(w: int, h: int, color: PixelKind, fmt: OutFmt) -> bool {
    match fmt {
        OutFmt::Jpeg => 1 <= w <= 0xffff && 1 <= h <= 0xffff,
        OutFmt::Png => is_eight_bit(color) && w >= 1 && h >= 1,
        OutFmt::Webp => false,
        OutFmt::Avif => false,
    }
}

/// Encode an image to the output format: JPEG, WEBP and AVIF lossy at
/// the given quality, PNG lossless (quality ignored).  AVIF fixes the
/// encoder's speed setting and raises quality zero to the encoder's
/// minimum.  Success is owed wherever the codec cannot refuse; an
/// encoding failure is a decode-class error, distinct from fetch and
/// I/O failures, and a successful encode is never empty.
pub fn encode_image(img: &Image, fmt: &OutFmt, quality: u8) -> (r: Result<Vec<u8>, SvcError>)
    requires
        quality <= 100,
    ensures
        r matches Err(e) ==> e == SvcError::Decode,
        spec_encode_ok(img.w as int, img.h as int, img.color, *fmt) ==> r is Ok,
        r matches Ok(b) ==> b@.len() > 0,
{
    let encoded: Result<Vec<u8>, ()> = match fmt {
        OutFmt::Jpeg => encode_jpeg(img, quality),
        OutFmt::Png => encode_png(img),
        OutFmt::Webp => encode_webp(img, quality),
        OutFmt::Avif => {
            let q: u8 = if quality < 1 {
                1
            } else {
                quality
            };
            encode_avif(img, q, 6)
        },
    };
    match encoded {
        Ok(v) => Ok(v),
        Err(()) => Err(SvcError::Decode),
    }
}

/// Processing succeeds for sure when the decoded image is sane, its
/// resize plan fits the resampler's cap, and the output codec cannot
/// refuse the transformed result.
pub open spec fn spec_process_ok(meta: (u32, u32, PixelKind), dirs: Directives) -> bool {
    let w = meta.0 as int;
    let h = meta.1 as int;
    &&& w >= 1
    &&& h >= 1
    &&& spec_plan_fits(w, h, dirs.resize)
    &&& spec_encode_ok(
        spec_resize_dims(w, h, dirs.resize).0,
        spec_resize_dims(w, h, dirs.resize).1,
        meta.2,
        dirs.out_fmt,
    )
}

/// Decode, transform and encode one source image: the compute core of
/// the request pipeline between the cache tiers.  Bytes that do not
/// decode fail as a decode error; an oversized plan is the one bad
/// request; where decode, plan and codec all admit the input, success
/// is owed and the result is never empty.
pub fn process_image(bytes: &[u8], dirs: &Directives) -> (r: Result<Vec<u8>, SvcError>)
    requires
        dirs.quality <= 100,
    ensures
        decoded_image_of(bytes@) is None ==> r == Err::<Vec<u8>, SvcError>(SvcError::Decode),
        r matches Err(e) ==> (e == SvcError::Decode || (e matches SvcError::BadRequest(m) && m@
            == "resize dimensions too large"@)),
        (decoded_image_of(bytes@) matches Some(meta) && meta.0 >= 1 && meta.1 >= 1
            && !spec_plan_fits(meta.0 as int, meta.1 as int, dirs.resize)) ==> (r matches Err(e2)
            && e2 matches SvcError::BadRequest(m2) && m2@ == "resize dimensions too large"@),
        (decoded_image_of(bytes@) matches Some(meta) && spec_process_ok(meta, *dirs)) ==> r is Ok,
        r matches Ok(b) ==> b@.len() > 0,
{
    let img = match decode_image_bytes(bytes) {
        Ok(i) => i,
        Err(()) => {
            return Err(SvcError::Decode);
        },
    };
    if img.w == 0 || img.h == 0 {
        return Err(SvcError::Decode);
    }
    let resized = match apply_resize(img, &dirs.resize) {
        Ok(i) => i,
        Err(e) => {
            return Err(e);
        },
    };
    encode_image(&resized, &dirs.out_fmt, dirs.quality)
}

} // verus!
