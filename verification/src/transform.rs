use vstd::prelude::*;

use vstd::arithmetic::div_mod::{
    lemma_div_is_ordered, lemma_fundamental_div_mod, lemma_fundamental_div_mod_converse,
};

use crate::error::SvcError;
use crate::strutil::{
    find_char, find_char_from, find_sub, find_sub_str, lower_seq, lower_str, parse_uint,
    parse_uint_spec, seq_starts_with, starts_with_str, str_eq,
};

verus! {

// ---------------------------------------------------------------------------
// Request directives
// ---------------------------------------------------------------------------

/// Parsed transformation directives of one request.
#[derive(Debug, Clone, Copy, PartialEq, Eq, Structural)]
pub struct Directives {
    pub out_fmt: OutFmt,
    pub quality: u8,
    pub resize: Resize,
}

/// Output image format.
#[derive(Debug, Clone, Copy, PartialEq, Eq, Structural)]
pub enum OutFmt {
    Jpeg,
    Png,
    Webp,
    Avif,
}

impl OutFmt {
    /// The content type served for this format.
    pub fn mime_type(&self) -> (r: &'static str)
        ensures
            r@ == spec_mime_type(*self),
    {
        match self {
            OutFmt::Jpeg => "image/jpeg",
            OutFmt::Png => "image/png",
            OutFmt::Webp => "image/webp",
            OutFmt::Avif => "image/avif",
        }
    }

    /// The file extension used for cache entries of this format.
    pub fn extension(&self) -> (r: &'static str)
        ensures
            r@ == spec_extension(*self),
    {
        match self {
            OutFmt::Jpeg => "jpg",
            OutFmt::Png => "png",
            OutFmt::Webp => "webp",
            OutFmt::Avif => "avif",
        }
    }
}

pub open spec fn spec_mime_type(f: OutFmt) -> Seq<char> {
    match f {
        OutFmt::Jpeg => "image/jpeg"@,
        OutFmt::Png => "image/png"@,
        OutFmt::Webp => "image/webp"@,
        OutFmt::Avif => "image/avif"@,
    }
}

pub open spec fn spec_extension(f: OutFmt) -> Seq<char> {
    match f {
        OutFmt::Jpeg => "jpg"@,
        OutFmt::Png => "png"@,
        OutFmt::Webp => "webp"@,
        OutFmt::Avif => "avif"@,
    }
}

/// Requested resize: a mode and a target box.  A width or height of zero
/// means "derive from the aspect ratio"; a request is rejected before a
/// `Resize` with both dimensions zero reaches a transform.
#[derive(Debug, Clone, Copy, PartialEq, Eq, Structural)]
pub struct Resize {
    pub mode: ResizeMode,
    pub w: u32,
    pub h: u32,
}

#[derive(Debug, Clone, Copy, PartialEq, Eq, Structural)]
pub enum ResizeMode {
    Fit,
    Fill,
    FillDown,
    Force,
    Auto,
}

// ---------------------------------------------------------------------------
// Exact rational dimension arithmetic
// ---------------------------------------------------------------------------

/// `a / b` rounded to the nearest integer, halves away from zero.
pub open spec fn div_round(a: int, b: int) -> int {
    (2 * a + b) / (2 * b)
}

/// `a / b` rounded up.
pub open spec fn div_ceil(a: int, b: int) -> int {
    (a + b - 1) / b
}

/// Saturation at the largest 32-bit value, as a float-to-`u32` cast does.
pub open spec fn u32_sat(v: int) -> int {
    if v > 0xffff_ffff {
        0xffff_ffff
    } else {
        v
    }
}

/// The product of two 32-bit values fits in 64 bits.
pub proof fn lemma_mul_u32_bound(a: int, b: int)
    requires
        0 <= a <= 0xffff_ffff,
        0 <= b <= 0xffff_ffff,
    ensures
        0 <= a * b <= 0xffff_fffe_0000_0001,
{
    assert(0 <= a * b <= 0xffff_ffff * 0xffff_ffff) by (nonlinear_arith)
        requires
            0 <= a <= 0xffff_ffff,
            0 <= b <= 0xffff_ffff,
    ;
}

proof fn lemma_div_round_le(a: int, b: int)
    requires
        a >= 0,
        b >= 1,
    ensures
        0 <= div_round(a, b) <= a,
{
    lemma_fundamental_div_mod(2 * a + b, 2 * b);
    let q = (2 * a + b) / (2 * b);
    assert(2 * b * q <= 2 * a + b);
    assert(q <= a) by (nonlinear_arith)
        requires
            2 * b * q <= 2 * a + b,
            a >= 0,
            b >= 1,
    ;
    assert(q >= 0) by (nonlinear_arith)
        requires
            2 * b * q + (2 * a + b) % (2 * b) == 2 * a + b,
            0 <= (2 * a + b) % (2 * b),
            (2 * a + b) % (2 * b) < 2 * b,
            a >= 0,
            b >= 1,
    ;
}

/// Scaling down by `num/den <= 1` and rounding never exceeds the source.
proof fn lemma_div_round_scale_le(s: int, num: int, den: int)
    requires
        s >= 0,
        1 <= den,
        0 <= num <= den,
    ensures
        0 <= div_round(s * num, den) <= s,
{
    assert(s * num >= 0) by (nonlinear_arith)
        requires
            s >= 0,
            num >= 0,
    ;
    lemma_fundamental_div_mod(2 * (s * num) + den, 2 * den);
    let q = div_round(s * num, den);
    assert(2 * den * q <= 2 * (s * num) + den);
    assert(q <= s) by (nonlinear_arith)
        requires
            2 * den * q <= 2 * (s * num) + den,
            s >= 0,
            1 <= den,
            0 <= num <= den,
    ;
    lemma_div_round_le(s * num, den);
}

proof fn lemma_div_ceil_le(a: int, b: int)
    requires
        a >= 0,
        b >= 1,
    ensures
        0 <= div_ceil(a, b) <= a,
{
    lemma_fundamental_div_mod(a + b - 1, b);
    let q = div_ceil(a, b);
    assert(b * q <= a + b - 1);
    assert(q <= a) by (nonlinear_arith)
        requires
            b * q <= a + b - 1,
            a >= 0,
            b >= 1,
    ;
    assert(q >= 0) by (nonlinear_arith)
        requires
            b * q + (a + b - 1) % b == a + b - 1,
            0 <= (a + b - 1) % b < b,
            a >= 0,
            b >= 1,
    ;
}

proof fn lemma_div_ceil_exact(k: int, b: int)
    requires
        k >= 0,
        b >= 1,
    ensures
        div_ceil(k * b, b) == k,
{
    assert(k * b + b - 1 == k * b + (b - 1)) by (nonlinear_arith);
    lemma_fundamental_div_mod_converse(k * b + b - 1, b, k, b - 1);
}

/// Rounding up a quotient that is at least `k` gives at least `k`.
proof fn lemma_div_ceil_lower(a: int, k: int, b: int)
    requires
        b >= 1,
        k >= 0,
        a >= k * b,
    ensures
        div_ceil(a, b) >= k,
{
    lemma_div_ceil_exact(k, b);
    lemma_div_is_ordered(k * b + b - 1, a + b - 1, b);
}

/// `a / b` rounded to nearest, computed exactly; never exceeds `a`.
fn div_round_u64(a: u64, b: u64) -> (r: u64)
    requires
        b >= 1,
    ensures
        r as int == div_round(a as int, b as int),
        r <= a,
{
    proof {
        lemma_div_round_le(a as int, b as int);
    }
    let q: u128 = (2 * (a as u128) + (b as u128)) / (2 * (b as u128));
    q as u64
}

/// `a / b` rounded up, computed exactly; never exceeds `a`.
fn div_ceil_u64(a: u64, b: u64) -> (r: u64)
    requires
        b >= 1,
        b <= 0xffff_ffff,
        a <= 0xffff_fffe_0000_0001,
    ensures
        r as int == div_ceil(a as int, b as int),
        r <= a,
{
    proof {
        lemma_div_ceil_le(a as int, b as int);
    }
    let q: u64 = (a + b - 1) / b;
    q
}

/// Clamp to the `u32` range, saturating as a float-to-integer cast does.
fn sat_u32(v: u64) -> (r: u32)
    ensures
        r as int == u32_sat(v as int),
{
    if v > 0xffff_ffff {
        0xffff_ffff
    } else {
        v as u32
    }
}

// ---------------------------------------------------------------------------
// Target dimension calculation
// ---------------------------------------------------------------------------

/// Fill a missing (zero) target dimension from the source aspect ratio,
/// rounding to the nearest integer.
pub open spec fn spec_calc_dims(sw: int, sh: int, tw: int, th: int) -> (int, int) {
    if tw == 0 && th == 0 {
        (sw, sh)
    } else if tw == 0 {
        (u32_sat(div_round(th * sw, sh)), th)
    } else if th == 0 {
        (tw, u32_sat(div_round(tw * sh, sw)))
    } else {
        (tw, th)
    }
}

/// Calculate target dimensions, deriving a missing dimension from the
/// source aspect ratio.
pub fn calculate_dimensions(src_w: u32, src_h: u32, target_w: u32, target_h: u32) -> (r: (
    u32,
    u32,
))
    requires
        src_w >= 1,
        src_h >= 1,
    ensures
        (r.0 as int, r.1 as int) == spec_calc_dims(
            src_w as int,
            src_h as int,
            target_w as int,
            target_h as int,
        ),
{
    proof {
        lemma_mul_u32_bound(target_h as int, src_w as int);
        lemma_mul_u32_bound(target_w as int, src_h as int);
    }
    if target_w == 0 && target_h == 0 {
        (src_w, src_h)
    } else if target_w == 0 {
        let w = sat_u32(div_round_u64((target_h as u64) * (src_w as u64), src_h as u64));
        (w, target_h)
    } else if target_h == 0 {
        let h = sat_u32(div_round_u64((target_w as u64) * (src_h as u64), src_w as u64));
        (target_w, h)
    } else {
        (target_w, target_h)
    }
}

// ---------------------------------------------------------------------------
// The resize plan
// ---------------------------------------------------------------------------

/// `Auto` resolves to `Fill` when source and target share an orientation,
/// else to `Fit`; the other modes stand.
pub open spec fn spec_resolved_mode(
    mode: ResizeMode,
    sw: int,
    sh: int,
    tw: int,
    th: int,
) -> ResizeMode {
    match mode {
        ResizeMode::Auto => if (sh > sw) == (th > tw) {
            ResizeMode::Fill
        } else {
            ResizeMode::Fit
        },
        m => m,
    }
}

/// `Auto` never survives resolution: whatever a request asked for, every
/// transform runs under a concrete mode.
pub proof fn lemma_auto_always_resolved(mode: ResizeMode, sw: int, sh: int, tw: int, th: int)
    ensures
        spec_resolved_mode(mode, sw, sh, tw, th) != ResizeMode::Auto,
{
}

/// Scaled dimensions under `Fit`: scale by the smaller of the two ratios,
/// clamped to 1 (never upscale), rounding to nearest.
pub open spec fn spec_fit_dims(sw: int, sh: int, tw: int, th: int) -> (int, int) {
    let num = if tw * sh <= th * sw {
        tw
    } else {
        th
    };
    let den = if tw * sh <= th * sw {
        sw
    } else {
        sh
    };
    if num >= den {
        (sw, sh)
    } else {
        (div_round(sw * num, den), div_round(sh * num, den))
    }
}

/// Scaled dimensions under `Fill`: scale by the larger of the two ratios,
/// rounding up, saturating at the `u32` range.
pub open spec fn spec_fill_scaled(sw: int, sh: int, tw: int, th: int) -> (int, int) {
    let num = if tw * sh >= th * sw {
        tw
    } else {
        th
    };
    let den = if tw * sh >= th * sw {
        sw
    } else {
        sh
    };
    (u32_sat(div_ceil(sw * num, den)), u32_sat(div_ceil(sh * num, den)))
}

/// Scaled dimensions under `FillDown`: as `Fill`, but the scale is clamped
/// to 1 (never upscale).
pub open spec fn spec_fill_down_scaled(sw: int, sh: int, tw: int, th: int) -> (int, int) {
    let num = if tw * sh >= th * sw {
        tw
    } else {
        th
    };
    let den = if tw * sh >= th * sw {
        sw
    } else {
        sh
    };
    if num >= den {
        (sw, sh)
    } else {
        (div_ceil(sw * num, den), div_ceil(sh * num, den))
    }
}

/// How one transform runs: scale the source to `scale_w x scale_h`, then,
/// when `crop` is set, cut the centered `crop_w x crop_h` window at
/// `(crop_x, crop_y)`.
#[derive(Debug, Clone, Copy, PartialEq, Eq, Structural)]
pub struct ResizePlan {
    pub scale_w: u32,
    pub scale_h: u32,
    pub crop: bool,
    pub crop_x: u32,
    pub crop_y: u32,
    pub crop_w: u32,
    pub crop_h: u32,
}

/// Center-crop offset: `(scaled - target) / 2`, saturating at zero.
pub open spec fn spec_crop_off(scaled: int, target: int) -> int {
    if scaled >= target {
        (scaled - target) / 2
    } else {
        0
    }
}

/// The plan for resizing a `sw x sh` source by `r`.
pub open spec fn spec_resize_plan(sw: int, sh: int, r: Resize) -> ResizePlan {
    let (tw, th) = spec_calc_dims(sw, sh, r.w as int, r.h as int);
    let mode = spec_resolved_mode(r.mode, sw, sh, tw, th);
    match mode {
        ResizeMode::Fit => {
            let (nw, nh) = spec_fit_dims(sw, sh, tw, th);
            ResizePlan {
                scale_w: nw as u32,
                scale_h: nh as u32,
                crop: false,
                crop_x: 0,
                crop_y: 0,
                crop_w: 0,
                crop_h: 0,
            }
        },
        ResizeMode::Fill => {
            let (nw, nh) = spec_fill_scaled(sw, sh, tw, th);
            let cw = if tw <= nw {
                tw
            } else {
                nw
            };
            let ch = if th <= nh {
                th
            } else {
                nh
            };
            ResizePlan {
                scale_w: nw as u32,
                scale_h: nh as u32,
                crop: true,
                crop_x: spec_crop_off(nw, cw) as u32,
                crop_y: spec_crop_off(nh, ch) as u32,
                crop_w: cw as u32,
                crop_h: ch as u32,
            }
        },
        ResizeMode::FillDown => {
            let (nw, nh) = spec_fill_down_scaled(sw, sh, tw, th);
            let cw = if tw <= nw {
                tw
            } else {
                nw
            };
            let ch = if th <= nh {
                th
            } else {
                nh
            };
            ResizePlan {
                scale_w: nw as u32,
                scale_h: nh as u32,
                crop: true,
                crop_x: spec_crop_off(nw, cw) as u32,
                crop_y: spec_crop_off(nh, ch) as u32,
                crop_w: cw as u32,
                crop_h: ch as u32,
            }
        },
        ResizeMode::Force => ResizePlan {
            scale_w: tw as u32,
            scale_h: th as u32,
            crop: false,
            crop_x: 0,
            crop_y: 0,
            crop_w: 0,
            crop_h: 0,
        },
        ResizeMode::Auto => ResizePlan {
            scale_w: tw as u32,
            scale_h: th as u32,
            crop: false,
            crop_x: 0,
            crop_y: 0,
            crop_w: 0,
            crop_h: 0,
        },
    }
}

/// The dimensions of the transformed image: the scaled size, or the crop
/// window when the plan crops.
pub open spec fn spec_resize_dims(sw: int, sh: int, r: Resize) -> (int, int) {
    let plan = spec_resize_plan(sw, sh, r);
    if plan.crop {
        (plan.crop_w as int, plan.crop_h as int)
    } else {
        (plan.scale_w as int, plan.scale_h as int)
    }
}

/// Compute the resize plan for a `src_w x src_h` source.
pub fn resize_plan(src_w: u32, src_h: u32, r: &Resize) -> (p: ResizePlan)
    requires
        src_w >= 1,
        src_h >= 1,
    ensures
        p == spec_resize_plan(src_w as int, src_h as int, *r),
{
    let (tw, th) = calculate_dimensions(src_w, src_h, r.w, r.h);
    let mode = match r.mode {
        ResizeMode::Auto => {
            if (src_h > src_w) == (th > tw) {
                ResizeMode::Fill
            } else {
                ResizeMode::Fit
            }
        },
        m => m,
    };
    let sw64 = src_w as u64;
    let sh64 = src_h as u64;
    let tw64 = tw as u64;
    let th64 = th as u64;
    proof {
        lemma_mul_u32_bound(tw64 as int, sh64 as int);
        lemma_mul_u32_bound(th64 as int, sw64 as int);
        lemma_mul_u32_bound(sw64 as int, tw64 as int);
        lemma_mul_u32_bound(sw64 as int, th64 as int);
        lemma_mul_u32_bound(sh64 as int, tw64 as int);
        lemma_mul_u32_bound(sh64 as int, th64 as int);
    }
    match mode {
        ResizeMode::Fit => {
            let (num, den): (u64, u64) = if tw64 * sh64 <= th64 * sw64 {
                (tw64, sw64)
            } else {
                (th64, sh64)
            };
            let (nw, nh): (u32, u32) = if num >= den {
                (src_w, src_h)
            } else {
                proof {
                    lemma_div_round_scale_le(src_w as int, num as int, den as int);
                    lemma_div_round_scale_le(src_h as int, num as int, den as int);
                }
                let w = div_round_u64(sw64 * num, den);
                let h = div_round_u64(sh64 * num, den);
                (w as u32, h as u32)
            };
            ResizePlan {
                scale_w: nw,
                scale_h: nh,
                crop: false,
                crop_x: 0,
                crop_y: 0,
                crop_w: 0,
                crop_h: 0,
            }
        },
        ResizeMode::Fill => {
            let (num, den): (u64, u64) = if tw64 * sh64 >= th64 * sw64 {
                (tw64, sw64)
            } else {
                (th64, sh64)
            };
            let nw = sat_u32(div_ceil_u64(sw64 * num, den));
            let nh = sat_u32(div_ceil_u64(sh64 * num, den));
            let cw = if tw <= nw {
                tw
            } else {
                nw
            };
            let ch = if th <= nh {
                th
            } else {
                nh
            };
            ResizePlan {
                scale_w: nw,
                scale_h: nh,
                crop: true,
                crop_x: (nw - cw) / 2,
                crop_y: (nh - ch) / 2,
                crop_w: cw,
                crop_h: ch,
            }
        },
        ResizeMode::FillDown => {
            let (num, den): (u64, u64) = if tw64 * sh64 >= th64 * sw64 {
                (tw64, sw64)
            } else {
                (th64, sh64)
            };
            let (nw, nh): (u32, u32) = if num >= den {
                (src_w, src_h)
            } else {
                proof {
                    lemma_div_ceil_le((sw64 * num) as int, den as int);
                    lemma_div_ceil_le((sh64 * num) as int, den as int);
                    assert((sw64 * num) as int <= src_w as int * den as int) by (nonlinear_arith)
                        requires
                            num <= den,
                            sw64 == src_w as u64,
                            sw64 * num == sw64 as int * num as int,
                    ;
                }
                let w = div_ceil_u64(sw64 * num, den);
                let h = div_ceil_u64(sh64 * num, den);
                proof {
                    lemma_div_ceil_scale_le(src_w as int, num as int, den as int);
                    lemma_div_ceil_scale_le(src_h as int, num as int, den as int);
                }
                (w as u32, h as u32)
            };
            let cw = if tw <= nw {
                tw
            } else {
                nw
            };
            let ch = if th <= nh {
                th
            } else {
                nh
            };
            ResizePlan {
                scale_w: nw,
                scale_h: nh,
                crop: true,
                crop_x: (nw - cw) / 2,
                crop_y: (nh - ch) / 2,
                crop_w: cw,
                crop_h: ch,
            }
        },
        ResizeMode::Force => ResizePlan {
            scale_w: tw,
            scale_h: th,
            crop: false,
            crop_x: 0,
            crop_y: 0,
            crop_w: 0,
            crop_h: 0,
        },
        ResizeMode::Auto => ResizePlan {
            scale_w: tw,
            scale_h: th,
            crop: false,
            crop_x: 0,
            crop_y: 0,
            crop_w: 0,
            crop_h: 0,
        },
    }
}

/// Scaling by `num/den <= 1` and rounding up never exceeds the source.
proof fn lemma_div_ceil_scale_le(s: int, num: int, den: int)
    requires
        s >= 0,
        1 <= den,
        0 <= num <= den,
    ensures
        0 <= div_ceil(s * num, den) <= s,
{
    assert(s * num >= 0) by (nonlinear_arith)
        requires
            s >= 0,
            num >= 0,
    ;
    lemma_fundamental_div_mod(s * num + den - 1, den);
    let q = div_ceil(s * num, den);
    assert(den * q <= s * num + den - 1);
    assert(q <= s) by (nonlinear_arith)
        requires
            den * q <= s * num + den - 1,
            s >= 0,
            1 <= den,
            0 <= num <= den,
    ;
    lemma_div_ceil_le(s * num, den);
}

// ---------------------------------------------------------------------------
// Laws of the resize modes
// ---------------------------------------------------------------------------

/// Fit never upscales: whatever box is requested, the transformed image is
/// no larger than the source in either dimension.
pub proof fn lemma_fit_never_upscales(sw: int, sh: int, w: int, h: int)
    requires
        1 <= sw <= 0xffff_ffff,
        1 <= sh <= 0xffff_ffff,
        0 <= w <= 0xffff_ffff,
        0 <= h <= 0xffff_ffff,
    ensures
        spec_resize_dims(sw, sh, Resize { mode: ResizeMode::Fit, w: w as u32, h: h as u32 }).0
            <= sw,
        spec_resize_dims(sw, sh, Resize { mode: ResizeMode::Fit, w: w as u32, h: h as u32 }).1
            <= sh,
{
    let (tw, th) = spec_calc_dims(sw, sh, w, h);
    let num = if tw * sh <= th * sw {
        tw
    } else {
        th
    };
    let den = if tw * sh <= th * sw {
        sw
    } else {
        sh
    };
    if num < den {
        lemma_div_round_scale_le(sw, num, den);
        lemma_div_round_scale_le(sh, num, den);
    }
}

/// Fill always reaches the exact target box: when both target dimensions
/// are at least one (given or derived), the transformed image is exactly
/// that box.
pub proof fn lemma_fill_exact_box(sw: int, sh: int, w: int, h: int)
    requires
        1 <= sw <= 0xffff_ffff,
        1 <= sh <= 0xffff_ffff,
        0 <= w <= 0xffff_ffff,
        0 <= h <= 0xffff_ffff,
        spec_calc_dims(sw, sh, w, h).0 >= 1,
        spec_calc_dims(sw, sh, w, h).1 >= 1,
    ensures
        spec_resize_dims(sw, sh, Resize { mode: ResizeMode::Fill, w: w as u32, h: h as u32 })
            == spec_calc_dims(sw, sh, w, h),
{
    let (tw, th) = spec_calc_dims(sw, sh, w, h);
    let num = if tw * sh >= th * sw {
        tw
    } else {
        th
    };
    let den = if tw * sh >= th * sw {
        sw
    } else {
        sh
    };
    if tw * sh >= th * sw {
        lemma_div_ceil_exact(tw, sw);
        assert(sw * num == tw * sw) by (nonlinear_arith)
            requires
                num == tw,
                den == sw,
        ;
        assert(sh * num >= th * den) by (nonlinear_arith)
            requires
                num == tw,
                den == sw,
                tw * sh >= th * sw,
        ;
        lemma_div_ceil_lower(sh * num, th, den);
        lemma_div_ceil_le(sh * num, den);
    } else {
        lemma_div_ceil_exact(th, sh);
        assert(sh * num == th * sh) by (nonlinear_arith)
            requires
                num == th,
                den == sh,
        ;
        assert(sw * num >= tw * den) by (nonlinear_arith)
            requires
                num == th,
                den == sh,
                tw * sh <= th * sw,
    ;
        lemma_div_ceil_lower(sw * num, tw, den);
        lemma_div_ceil_le(sw * num, den);
    }
}

/// A cropping plan's window always lies inside its scaled image, with
/// centered offsets: the planned cut is never clamped by the bounds.
pub proof fn lemma_plan_crop_in_bounds(sw: int, sh: int, r: Resize)
    requires
        1 <= sw <= 0xffff_ffff,
        1 <= sh <= 0xffff_ffff,
        spec_resize_plan(sw, sh, r).crop,
    ensures
        spec_resize_plan(sw, sh, r).crop_w <= spec_resize_plan(sw, sh, r).scale_w,
        spec_resize_plan(sw, sh, r).crop_h <= spec_resize_plan(sw, sh, r).scale_h,
        spec_resize_plan(sw, sh, r).crop_x as int == (spec_resize_plan(sw, sh, r).scale_w as int
            - spec_resize_plan(sw, sh, r).crop_w as int) / 2,
        spec_resize_plan(sw, sh, r).crop_y as int == (spec_resize_plan(sw, sh, r).scale_h as int
            - spec_resize_plan(sw, sh, r).crop_h as int) / 2,
        spec_resize_plan(sw, sh, r).crop_x as int <= spec_resize_plan(sw, sh, r).scale_w as int
            - spec_resize_plan(sw, sh, r).crop_w as int,
        spec_resize_plan(sw, sh, r).crop_y as int <= spec_resize_plan(sw, sh, r).scale_h as int
            - spec_resize_plan(sw, sh, r).crop_h as int,
{
    let dims = spec_calc_dims(sw, sh, r.w as int, r.h as int);
    let tw = dims.0;
    let th = dims.1;
    lemma_mul_u32_bound(r.h as int, sw);
    lemma_mul_u32_bound(r.w as int, sh);
    if r.w == 0 && r.h != 0 {
        lemma_div_round_le(r.h as int * sw, sh);
    }
    if r.h == 0 && r.w != 0 {
        lemma_div_round_le(r.w as int * sh, sw);
    }
    assert(0 <= tw <= 0xffff_ffff);
    assert(0 <= th <= 0xffff_ffff);
    let mode = spec_resolved_mode(r.mode, sw, sh, tw, th);
    let num = if tw * sh >= th * sw {
        tw
    } else {
        th
    };
    let den = if tw * sh >= th * sw {
        sw
    } else {
        sh
    };
    lemma_mul_u32_bound(sw, num);
    lemma_mul_u32_bound(sh, num);
    match mode {
        ResizeMode::Fill => {
            lemma_div_ceil_le(sw * num, den);
            lemma_div_ceil_le(sh * num, den);
        },
        ResizeMode::FillDown => {
            if num < den {
                lemma_div_ceil_scale_le(sw, num, den);
                lemma_div_ceil_scale_le(sh, num, den);
            }
        },
        _ => {},
    }
    let p = spec_resize_plan(sw, sh, r);
    let dw = p.scale_w as int - p.crop_w as int;
    let dh = p.scale_h as int - p.crop_h as int;
    vstd::arithmetic::div_mod::lemma_div_pos_is_pos(dw, 2);
    vstd::arithmetic::div_mod::lemma_div_nonincreasing(dw, 2);
    vstd::arithmetic::div_mod::lemma_div_pos_is_pos(dh, 2);
    vstd::arithmetic::div_mod::lemma_div_nonincreasing(dh, 2);
}

// ---------------------------------------------------------------------------
// Directive parsing
// ---------------------------------------------------------------------------

/// Why a directive string was rejected.
#[derive(Debug, Clone, Copy, PartialEq, Eq, Structural)]
pub enum ParseReason {
    MissingPlain,
    UnsupportedFormat,
    BadQuality,
    InvalidResizeFormat,
    UnsupportedResizeMode,
    BadWidth,
    BadHeight,
    DimensionRequired,
    BadEncodedUrl,
    InvalidResizeQuery,
    QualityRange,
    InvalidFilename,
    InvalidHash,
}

/// The client-facing message for each rejection.
pub open spec fn reason_msg(r: ParseReason) -> Seq<char> {
    match r {
        ParseReason::MissingPlain => "missing /plain/ segment"@,
        ParseReason::UnsupportedFormat => "unsupported format"@,
        ParseReason::BadQuality => "bad quality"@,
        ParseReason::InvalidResizeFormat => "invalid resize format"@,
        ParseReason::UnsupportedResizeMode => "unsupported resize mode"@,
        ParseReason::BadWidth => "bad width"@,
        ParseReason::BadHeight => "bad height"@,
        ParseReason::DimensionRequired => "at least one dimension required"@,
        ParseReason::BadEncodedUrl => "bad encoded url"@,
        ParseReason::InvalidResizeQuery => "invalid resize format, expected mode:width:height"@,
        ParseReason::QualityRange => "quality must be 0-100"@,
        ParseReason::InvalidFilename => "invalid filename format, expected <sha256>.<ext>"@,
        ParseReason::InvalidHash => "invalid SHA256 hash"@,
    }
}

/// `e` is the bad-request failure that reports `reason`.
pub open spec fn matches_reason(e: SvcError, reason: ParseReason) -> bool {
    e matches SvcError::BadRequest(m) && m@ == reason_msg(reason)
}

/// Turn a rejection into its client-facing failure.
pub fn bad_request_of(reason: ParseReason) -> (e: SvcError)
    ensures
        matches_reason(e, reason),
{
    match reason {
        ParseReason::MissingPlain => SvcError::BadRequest("missing /plain/ segment"),
        ParseReason::UnsupportedFormat => SvcError::BadRequest("unsupported format"),
        ParseReason::BadQuality => SvcError::BadRequest("bad quality"),
        ParseReason::InvalidResizeFormat => SvcError::BadRequest("invalid resize format"),
        ParseReason::UnsupportedResizeMode => SvcError::BadRequest("unsupported resize mode"),
        ParseReason::BadWidth => SvcError::BadRequest("bad width"),
        ParseReason::BadHeight => SvcError::BadRequest("bad height"),
        ParseReason::DimensionRequired => SvcError::BadRequest("at least one dimension required"),
        ParseReason::BadEncodedUrl => SvcError::BadRequest("bad encoded url"),
        ParseReason::InvalidResizeQuery => SvcError::BadRequest(
            "invalid resize format, expected mode:width:height",
        ),
        ParseReason::QualityRange => SvcError::BadRequest("quality must be 0-100"),
        ParseReason::InvalidFilename => SvcError::BadRequest(
            "invalid filename format, expected <sha256>.<ext>",
        ),
        ParseReason::InvalidHash => SvcError::BadRequest("invalid SHA256 hash"),
    }
}

/// What the percent-decoder yields for a string: the decoded text when
/// every escape is well-formed and the bytes are valid UTF-8, nothing
/// otherwise.
pub uninterp spec fn percent_decoded(s: Seq<char>) -> Option<Seq<char>>;

/// Relies on percent_encoding::percent_decode_str and std's UTF-8
/// validation: the result is a function of the input characters alone,
/// and a string without `%` escapes decodes to itself.
#[verifier::external_body]
pub(crate) fn percent_decode_utf8(s: &str) -> (r: Option<String>)
    ensures
        r matches Some(out) ==> percent_decoded(s@) == Some(out@) && (!s@.contains('%')
            ==> out@ == s@),
        r is None ==> percent_decoded(s@) is None && s@.contains('%'),
{
    match percent_encoding::percent_decode_str(s).decode_utf8() {
        Ok(cow) => Some(cow.to_string()),
        Err(_) => None,
    }
}

/// The format that an `f:` argument (already lowercased) selects.
pub open spec fn spec_parse_format(arg: Seq<char>) -> Result<OutFmt, ParseReason> {
    let m = lower_seq(arg);
    if m == "jpeg"@ || m == "jpg"@ {
        Ok(OutFmt::Jpeg)
    } else if m == "png"@ {
        Ok(OutFmt::Png)
    } else if m == "webp"@ {
        Ok(OutFmt::Webp)
    } else if m == "avif"@ {
        Ok(OutFmt::Avif)
    } else {
        Err(ParseReason::UnsupportedFormat)
    }
}

pub fn parse_format(arg: &str) -> (r: Result<OutFmt, ParseReason>)
    ensures
        r == spec_parse_format(arg@),
{
    let m = lower_str(arg);
    if str_eq(m.as_str(), "jpeg") || str_eq(m.as_str(), "jpg") {
        Ok(OutFmt::Jpeg)
    } else if str_eq(m.as_str(), "png") {
        Ok(OutFmt::Png)
    } else if str_eq(m.as_str(), "webp") {
        Ok(OutFmt::Webp)
    } else if str_eq(m.as_str(), "avif") {
        Ok(OutFmt::Avif)
    } else {
        Err(ParseReason::UnsupportedFormat)
    }
}

/// The resize mode that a mode token (case-insensitive) selects.
pub open spec fn spec_parse_mode(arg: Seq<char>) -> Result<ResizeMode, ParseReason> {
    let m = lower_seq(arg);
    if m == "fit"@ {
        Ok(ResizeMode::Fit)
    } else if m == "fill"@ {
        Ok(ResizeMode::Fill)
    } else if m == "fill-down"@ {
        Ok(ResizeMode::FillDown)
    } else if m == "force"@ {
        Ok(ResizeMode::Force)
    } else if m == "auto"@ {
        Ok(ResizeMode::Auto)
    } else {
        Err(ParseReason::UnsupportedResizeMode)
    }
}

pub fn parse_mode(arg: &str) -> (r: Result<ResizeMode, ParseReason>)
    ensures
        r == spec_parse_mode(arg@),
{
    let m = lower_str(arg);
    if str_eq(m.as_str(), "fit") {
        Ok(ResizeMode::Fit)
    } else if str_eq(m.as_str(), "fill") {
        Ok(ResizeMode::Fill)
    } else if str_eq(m.as_str(), "fill-down") {
        Ok(ResizeMode::FillDown)
    } else if str_eq(m.as_str(), "force") {
        Ok(ResizeMode::Force)
    } else if str_eq(m.as_str(), "auto") {
        Ok(ResizeMode::Auto)
    } else {
        Err(ParseReason::UnsupportedResizeMode)
    }
}

/// A resize dimension: empty means zero (derive from aspect ratio),
/// anything else must be a decimal number.
pub open spec fn spec_parse_dim(arg: Seq<char>, bad: ParseReason) -> Result<u32, ParseReason> {
    if arg.len() == 0 {
        Ok(0u32)
    } else {
        match parse_uint_spec(arg, 0xffff_ffff) {
            Some(v) => Ok(v as u32),
            None => Err(bad),
        }
    }
}

/// A resize directive `mode:width:height`, widths and heights optional.
pub open spec fn spec_parse_resize(arg: Seq<char>) -> Result<Resize, ParseReason> {
    match find_char(arg, ':') {
        None => Err(ParseReason::InvalidResizeFormat),
        Some(i) => {
            let rest = arg.subrange(i + 1, arg.len() as int);
            match find_char(rest, ':') {
                None => Err(ParseReason::InvalidResizeFormat),
                Some(j) => {
                    let p0 = arg.subrange(0, i);
                    let p1 = rest.subrange(0, j);
                    let p2 = rest.subrange(j + 1, rest.len() as int);
                    if find_char(p2, ':') is Some {
                        Err(ParseReason::InvalidResizeFormat)
                    } else {
                        match spec_parse_mode(p0) {
                            Err(e) => Err(e),
                            Ok(mode) => match spec_parse_dim(p1, ParseReason::BadWidth) {
                                Err(e) => Err(e),
                                Ok(w) => match spec_parse_dim(p2, ParseReason::BadHeight) {
                                    Err(e) => Err(e),
                                    Ok(h) => Ok(Resize { mode, w, h }),
                                },
                            },
                        }
                    }
                },
            }
        },
    }
}

fn parse_dim(arg: &str, bad: ParseReason) -> (r: Result<u32, ParseReason>)
    ensures
        r == spec_parse_dim(arg@, bad),
{
    if arg.unicode_len() == 0 {
        Ok(0)
    } else {
        match parse_uint(arg, 0xffff_ffff) {
            Some(v) => Ok(v),
            None => Err(bad),
        }
    }
}

/// Parse a resize directive such as `fill:480:480`, `fit::600` or
/// `fit:800:` (an empty dimension is derived from the aspect ratio).
pub fn parse_resize_directive(arg: &str) -> (r: Result<Resize, SvcError>)
    ensures
        match spec_parse_resize(arg@) {
            Ok(rs) => r == Ok::<Resize, SvcError>(rs),
            Err(reason) => r matches Err(e) && matches_reason(e, reason),
        },
{
    match parse_resize_inner(arg) {
        Ok(rs) => Ok(rs),
        Err(reason) => Err(bad_request_of(reason)),
    }
}

fn parse_resize_inner(arg: &str) -> (r: Result<Resize, ParseReason>)
    ensures
        r == spec_parse_resize(arg@),
{
    let n = arg.unicode_len();
    let i = match find_char_from(arg, ':', 0) {
        None => {
            proof {
                assert(arg@.subrange(0, arg@.len() as int) =~= arg@);
            }
            return Err(ParseReason::InvalidResizeFormat);
        },
        Some(i) => i,
    };
    proof {
        assert(arg@.subrange(0, arg@.len() as int) =~= arg@);
    }
    let ghost rest = arg@.subrange(i + 1, arg@.len() as int);
    let j = match find_char_from(arg, ':', i + 1) {
        None => {
            return Err(ParseReason::InvalidResizeFormat);
        },
        Some(j) => j,
    };
    proof {
        assert(find_char(rest, ':') == Some(j - (i + 1)));
    }
    let ghost p2 = rest.subrange(j - i, rest.len() as int);
    match find_char_from(arg, ':', j + 1) {
        Some(k) => {
            proof {
                lemma_find_char_in_subrange(arg@, i as int, j as int, k as int);
            }
            return Err(ParseReason::InvalidResizeFormat);
        },
        None => {
            proof {
                lemma_find_char_none_subrange(arg@, i as int, j as int);
            }
        },
    }
    let part0 = arg.substring_char(0, i);
    let part1 = arg.substring_char(i + 1, j);
    let part2 = arg.substring_char(j + 1, n);
    proof {
        assert(part1@ =~= rest.subrange(0, j - (i + 1)));
        assert(part2@ =~= rest.subrange(j - i, rest.len() as int));
    }
    let mode = match parse_mode(part0) {
        Ok(m) => m,
        Err(e) => {
            return Err(e);
        },
    };
    let w = match parse_dim(part1, ParseReason::BadWidth) {
        Ok(v) => v,
        Err(e) => {
            return Err(e);
        },
    };
    let h = match parse_dim(part2, ParseReason::BadHeight) {
        Ok(v) => v,
        Err(e) => {
            return Err(e);
        },
    };
    Ok(Resize { mode, w, h })
}

/// A colon found after `j` is a colon inside the third part.
pub(crate) proof fn lemma_find_char_in_subrange(s: Seq<char>, i: int, j: int, k: int)
    requires
        0 <= i < j < s.len(),
        j + 1 <= k < s.len(),
        find_char(s.subrange(j + 1, s.len() as int), ':') == Some(k - (j + 1)),
    ensures
        find_char(s.subrange(i + 1, s.len() as int).subrange(j - i, s.len() - (i + 1)), ':')
            is Some,
{
    let p2 = s.subrange(i + 1, s.len() as int).subrange(j - i, s.len() - (i + 1));
    assert(p2 =~= s.subrange(j + 1, s.len() as int));
}

/// No colon after `j` means no colon inside the third part.
pub(crate) proof fn lemma_find_char_none_subrange(s: Seq<char>, i: int, j: int)
    requires
        0 <= i < j < s.len(),
        find_char(s.subrange(j + 1, s.len() as int), ':') is None,
    ensures
        find_char(s.subrange(i + 1, s.len() as int).subrange(j - i, s.len() - (i + 1)), ':')
            is None,
{
    let p2 = s.subrange(i + 1, s.len() as int).subrange(j - i, s.len() - (i + 1));
    assert(p2 =~= s.subrange(j + 1, s.len() as int));
}

/// One path segment folded into the directives gathered so far: `f:`,
/// `q:`, `rs:` and `rt:` tokens are interpreted, unknown tokens are
/// ignored for forward compatibility.
pub open spec fn spec_apply_segment(d: Directives, seg: Seq<char>) -> Result<
    Directives,
    ParseReason,
> {
    if seq_starts_with(seg, "f:"@) {
        match spec_parse_format(seg.subrange("f:"@.len() as int, seg.len() as int)) {
            Ok(f) => Ok(Directives { out_fmt: f, quality: d.quality, resize: d.resize }),
            Err(e) => Err(e),
        }
    } else if seq_starts_with(seg, "q:"@) {
        match parse_uint_spec(seg.subrange("q:"@.len() as int, seg.len() as int), 100) {
            Some(v) => Ok(Directives { out_fmt: d.out_fmt, quality: v as u8, resize: d.resize }),
            None => Err(ParseReason::BadQuality),
        }
    } else if seq_starts_with(seg, "rs:"@) {
        match spec_parse_resize(seg.subrange("rs:"@.len() as int, seg.len() as int)) {
            Ok(rs) => Ok(Directives { out_fmt: d.out_fmt, quality: d.quality, resize: rs }),
            Err(e) => Err(e),
        }
    } else if seq_starts_with(seg, "rt:"@) {
        match spec_parse_resize(seg.subrange("rt:"@.len() as int, seg.len() as int)) {
            Ok(rs) => Ok(Directives { out_fmt: d.out_fmt, quality: d.quality, resize: rs }),
            Err(e) => Err(e),
        }
    } else {
        Ok(d)
    }
}

fn apply_segment(d: Directives, seg: &str) -> (r: Result<Directives, ParseReason>)
    ensures
        r == spec_apply_segment(d, seg@),
{
    let n = seg.unicode_len();
    proof {
        reveal_strlit("f:");
        reveal_strlit("q:");
        reveal_strlit("rs:");
        reveal_strlit("rt:");
    }
    if starts_with_str(seg, "f:") {
        match parse_format(seg.substring_char(2, n)) {
            Ok(f) => Ok(Directives { out_fmt: f, quality: d.quality, resize: d.resize }),
            Err(e) => Err(e),
        }
    } else if starts_with_str(seg, "q:") {
        match parse_uint(seg.substring_char(2, n), 100) {
            Some(v) => Ok(
                Directives { out_fmt: d.out_fmt, quality: v as u8, resize: d.resize },
            ),
            None => Err(ParseReason::BadQuality),
        }
    } else if starts_with_str(seg, "rs:") {
        match parse_resize_inner(seg.substring_char(3, n)) {
            Ok(rs) => Ok(Directives { out_fmt: d.out_fmt, quality: d.quality, resize: rs }),
            Err(e) => Err(e),
        }
    } else if starts_with_str(seg, "rt:") {
        match parse_resize_inner(seg.substring_char(3, n)) {
            Ok(rs) => Ok(Directives { out_fmt: d.out_fmt, quality: d.quality, resize: rs }),
            Err(e) => Err(e),
        }
    } else {
        Ok(d)
    }
}

/// The default directives of the slash-delimited request shape: JPEG at
/// quality 82, fit, with the box still to be given.
pub open spec fn spec_default_directives() -> Directives {
    Directives {
        out_fmt: OutFmt::Jpeg,
        quality: 82u8,
        resize: Resize { mode: ResizeMode::Fit, w: 0u32, h: 0u32 },
    }
}

/// All slash-separated segments of `s` folded into `d`; empty segments
/// are skipped.
pub open spec fn spec_process_segments(s: Seq<char>, d: Directives) -> Result<
    Directives,
    ParseReason,
>
    decreases s.len(),
    via spec_process_segments_decreases
{
    if s.len() == 0 {
        Ok(d)
    } else {
        match find_char(s, '/') {
            None => spec_apply_segment(d, s),
            Some(i) => {
                let seg = s.subrange(0, i);
                let rest = s.subrange(i + 1, s.len() as int);
                if seg.len() == 0 {
                    spec_process_segments(rest, d)
                } else {
                    match spec_apply_segment(d, seg) {
                        Ok(d2) => spec_process_segments(rest, d2),
                        Err(e) => Err(e),
                    }
                }
            },
        }
    }
}

#[via_fn]
proof fn spec_process_segments_decreases(s: Seq<char>, d: Directives) {
    if s.len() > 0 {
        crate::strutil::lemma_find_char(s, '/');
    }
}

/// Unfolding one step of segment processing at a found separator.
proof fn lemma_process_cons(b: Seq<char>, pos: int, j: int, d: Directives)
    requires
        0 <= pos <= j <= b.len(),
        find_char(b.subrange(pos, b.len() as int), '/') == Some(j - pos),
    ensures
        spec_process_segments(b.subrange(pos, b.len() as int), d) == (if j == pos {
            spec_process_segments(b.subrange(j + 1, b.len() as int), d)
        } else {
            match spec_apply_segment(d, b.subrange(pos, j)) {
                Ok(d2) => spec_process_segments(b.subrange(j + 1, b.len() as int), d2),
                Err(e) => Err::<Directives, ParseReason>(e),
            }
        }),
{
    let cur = b.subrange(pos, b.len() as int);
    crate::strutil::lemma_find_char(cur, '/');
    assert(cur.len() > 0);
    assert(cur.subrange(0, j - pos) =~= b.subrange(pos, j));
    assert(cur.subrange(j - pos + 1, cur.len() as int) =~= b.subrange(j + 1, b.len() as int));
}

/// Unfolding the final step: the rest of the string is one segment.
proof fn lemma_process_last(b: Seq<char>, pos: int, d: Directives)
    requires
        0 <= pos < b.len(),
        find_char(b.subrange(pos, b.len() as int), '/') is None,
    ensures
        spec_process_segments(b.subrange(pos, b.len() as int), d) == spec_apply_segment(
            d,
            b.subrange(pos, b.len() as int),
        ),
{
    assert(b.subrange(pos, b.len() as int).len() > 0);
}

/// What parsing a full `/insecure/` remainder yields: the directives
/// before the `/plain/` separator, and the percent-decoded source URL
/// after it.
pub open spec fn spec_parse_rest(rest: Seq<char>) -> Result<
    (Directives, Seq<char>),
    ParseReason,
> {
    match find_sub(rest, "/plain/"@) {
        None => Err(ParseReason::MissingPlain),
        Some(i) => {
            let before = rest.subrange(0, i);
            let after = rest.subrange(i + "/plain/"@.len(), rest.len() as int);
            match spec_process_segments(before, spec_default_directives()) {
                Err(e) => Err(e),
                Ok(d) => if d.resize.w == 0 && d.resize.h == 0 {
                    Err(ParseReason::DimensionRequired)
                } else {
                    match percent_decoded(after) {
                        None => Err(ParseReason::BadEncodedUrl),
                        Some(u) => Ok((d, u)),
                    }
                },
            }
        },
    }
}

/// Parse the remainder of a directive-chain request path into directives
/// and a source URL, or reject it with a classified bad request.
#[verifier::rlimit(60)]
#[verifier::loop_isolation(false)]
pub fn parse_rest(rest: &str) -> (r: Result<(Directives, String), SvcError>)
    ensures
        match spec_parse_rest(rest@) {
            Ok(du) => r matches Ok(p) && p.0 == du.0 && p.1@ == du.1,
            Err(reason) => r matches Err(e) && matches_reason(e, reason),
        },
{
    let n = rest.unicode_len();
    let i = match find_sub_str(rest, "/plain/") {
        None => {
            return Err(bad_request_of(ParseReason::MissingPlain));
        },
        Some(i) => i,
    };
    proof {
        reveal_strlit("/plain/");
        crate::strutil::lemma_find_sub(rest@, "/plain/"@);
    }
    let before = rest.substring_char(0, i);
    let after = rest.substring_char(i + 7, n);
    let mut d = Directives {
        out_fmt: OutFmt::Jpeg,
        quality: 82,
        resize: Resize { mode: ResizeMode::Fit, w: 0, h: 0 },
    };
    let bn = before.unicode_len();
    let ghost d0 = spec_default_directives();
    proof {
        assert(d == d0);
        assert(before@.subrange(0, bn as int) =~= before@);
    }
    let mut pos: usize = 0;
    loop
        invariant
            bn == before@.len(),
            pos <= bn,
            spec_process_segments(before@.subrange(pos as int, bn as int), d)
                == spec_process_segments(before@, d0),
        decreases bn - pos,
    {
        if pos == bn {
            proof {
                assert(before@.subrange(pos as int, bn as int) =~= Seq::<char>::empty());
                assert(spec_process_segments(before@, d0) == Ok::<Directives, ParseReason>(d));
            }
            if d.resize.w == 0 && d.resize.h == 0 {
                return Err(bad_request_of(ParseReason::DimensionRequired));
            }
            match percent_decode_utf8(after) {
                None => {
                    return Err(bad_request_of(ParseReason::BadEncodedUrl));
                },
                Some(url) => {
                    return Ok((d, url));
                },
            }
        }
        let ghost d_old = d;
        match find_char_from(before, '/', pos) {
            Some(j) => {
                proof {
                    lemma_process_cons(before@, pos as int, j as int, d_old);
                }
                if j > pos {
                    let seg = before.substring_char(pos, j);
                    match apply_segment(d, seg) {
                        Ok(d2) => {
                            d = d2;
                        },
                        Err(reason) => {
                            proof {
                                assert(spec_process_segments(before@, d0) == Err::<
                                    Directives,
                                    ParseReason,
                                >(reason));
                            }
                            return Err(bad_request_of(reason));
                        },
                    }
                }
                pos = j + 1;
            },
            None => {
                proof {
                    lemma_process_last(before@, pos as int, d_old);
                }
                let seg = before.substring_char(pos, bn);
                match apply_segment(d, seg) {
                    Ok(d2) => {
                        d = d2;
                    },
                    Err(reason) => {
                        proof {
                            assert(spec_process_segments(before@, d0) == Err::<
                                Directives,
                                ParseReason,
                            >(reason));
                        }
                        return Err(bad_request_of(reason));
                    },
                }
                pos = bn;
                proof {
                    assert(before@.subrange(bn as int, bn as int) =~= Seq::<char>::empty());
                }
            },
        }
    }
}

/// Parsing is deterministic: the same request string always yields the
/// same directives and source locator, or the same failure.
pub proof fn lemma_parse_deterministic(a: Seq<char>, b: Seq<char>)
    requires
        a == b,
    ensures
        spec_parse_rest(a) == spec_parse_rest(b),
{
}

} // verus!
