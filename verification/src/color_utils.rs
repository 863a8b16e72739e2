//! Helpers on packed `0xRRGGBB` colours.

use vstd::prelude::*;

verus! {

use crate::fixed::{fdiv, fpm, FP_ONE};

/// One 8-bit channel of a packed colour.
pub open spec fn chan(c: u32, shift: u32) -> int {
    ((c >> shift) & 0xFF) as int
}

/// A channel rescaled to a fixed-point value in `[0, 1]`.
pub open spec fn chan_fp(c: u32, shift: u32) -> int {
    fdiv(chan(c, shift) * FP_ONE as int, 255)
}

/// Extract one channel.
fn channel_of(c: u32, shift: u32) -> (r: u32)
    requires
        shift == 0 || shift == 8 || shift == 16,
    ensures
        r == chan(c, shift),
        r <= 255,
{
    proof {
        assert((c >> shift) & 0xFF <= 0xFF) by (bit_vector);
    }
    (c >> shift) & 0xFF
}

/// Split a packed colour into fixed-point channels in `[0, 1]`.
pub fn to_rgb(color: u32) -> (r: (i64, i64, i64))
    ensures
        r.0 == chan_fp(color, 16),
        r.1 == chan_fp(color, 8),
        r.2 == chan_fp(color, 0),
        0 <= r.0 <= FP_ONE,
        0 <= r.1 <= FP_ONE,
        0 <= r.2 <= FP_ONE,
{
    (to_fp(channel_of(color, 16)), to_fp(channel_of(color, 8)), to_fp(channel_of(color, 0)))
}

/// Rescale an 8-bit channel to fixed point.
fn to_fp(byte: u32) -> (r: i64)
    requires
        byte <= 255,
    ensures
        r == fdiv(byte * FP_ONE as int, 255),
        0 <= r <= FP_ONE,
{
    proof {
        assert(byte * 65536 <= 255 * 65536) by (nonlinear_arith)
            requires
                byte <= 255,
        ;
        assert(255 * 65536int == 65536int * 255int) by (nonlinear_arith);
        crate::fixed::lemma_fdiv_abs_le(byte * 65536, 255, 65536);
        crate::fixed::lemma_fdiv_bounds(byte * 65536, 255, 16711680int);
    }
    let v: u64 = (byte as u64) * 65536 / 255;
    v as i64
}

/// Pack three 8-bit channels into one colour word.
pub fn from_rgb(r: u32, g: u32, b: u32) -> (c: u32)
    requires
        r <= 255,
        g <= 255,
        b <= 255,
    ensures
        c == r * 0x1_0000 + g * 0x100 + b,
        chan(c, 16) == r,
        chan(c, 8) == g,
        chan(c, 0) == b,
{
    let c = (r << 16) | (g << 8) | b;
    proof {
        assert((r <= 255 && g <= 255 && b <= 255) ==> ((r << 16) | (g << 8) | b == r
            * 0x1_0000 + g * 0x100 + b && ((((r << 16) | (g << 8) | b) >> 16) & 0xFF) == r
            && ((((r << 16) | (g << 8) | b) >> 8) & 0xFF) == g && ((((r << 16) | (g << 8)
            | b) >> 0) & 0xFF) == b)) by (bit_vector);
    }
    c
}

/// Scale a colour's channels by a fixed-point intensity, saturating at
/// white.
pub fn apply_intensity(color: u32, intensity: i64) -> (c: u32)
    requires
        0 <= intensity <= 16 * FP_ONE as int,
    ensures
        c == intensity_chan(color, 16, intensity as int) * 0x1_0000 + intensity_chan(
            color,
            8,
            intensity as int,
        ) * 0x100 + intensity_chan(color, 0, intensity as int),
{
    let r = scale_chan(channel_of(color, 16), intensity);
    let g = scale_chan(channel_of(color, 8), intensity);
    let b = scale_chan(channel_of(color, 0), intensity);
    from_rgb(r, g, b)
}

/// One channel scaled by an intensity and saturated.
pub open spec fn intensity_chan(color: u32, shift: u32, intensity: int) -> int {
    let v = fdiv(chan(color, shift) * intensity, FP_ONE as int);
    if v > 255 {
        255
    } else {
        v
    }
}

/// Scale one 8-bit channel by a fixed-point factor, saturating at 255.
fn scale_chan(byte: u32, intensity: i64) -> (r: u32)
    requires
        byte <= 255,
        0 <= intensity <= 16 * FP_ONE as int,
    ensures
        r == ({
            let v = fdiv(byte * intensity as int, FP_ONE as int);
            if v > 255 {
                255int
            } else {
                v
            }
        }),
        r <= 255,
{
    proof {
        assert(0 <= byte * intensity <= 255 * (16 * 65536)) by (nonlinear_arith)
            requires
                byte <= 255,
                0 <= intensity <= 16 * 65536,
        ;
        crate::fixed::lemma_fdiv_bounds(byte * intensity as int, FP_ONE as int, 0x1000_0000);
    }
    let v: u64 = ((byte as u64) * (intensity as u64)) / 65536;
    if v > 255 {
        255
    } else {
        v as u32
    }
}

/// One channel of an object colour filtered by a light colour and an
/// intensity: the product of the unit-interval channels and the
/// intensity, truncated to a whole number and saturated.
pub open spec fn filtered_chan(obj: u32, light: u32, shift: u32, intensity: int, scale: int)
    -> int {
    let v = fdiv(
        fpm(fpm(chan_fp(obj, shift), chan_fp(light, shift)), intensity) * scale,
        FP_ONE as int,
    );
    if v > 255 {
        255
    } else {
        v
    }
}

/// Scale an object colour by a light colour and an intensity, reading
/// both as unit-interval channels; the result saturates at white.
pub fn apply_intensity_with_color(object_color: u32, light_color: u32, intensity: i64) -> (c:
    u32)
    requires
        0 <= intensity <= 16 * FP_ONE as int,
    ensures
        c == filtered_chan(object_color, light_color, 16, intensity as int, 1) * 0x1_0000
            + filtered_chan(object_color, light_color, 8, intensity as int, 1) * 0x100
            + filtered_chan(object_color, light_color, 0, intensity as int, 1),
{
    let r = filter_chan(object_color, light_color, 16, intensity, 1);
    let g = filter_chan(object_color, light_color, 8, intensity, 1);
    let b = filter_chan(object_color, light_color, 0, intensity, 1);
    from_rgb(r, g, b)
}

/// An ambient term: object times light times intensity, mapped back to
/// the 8-bit range.
pub fn apply_ambient(color: u32, light_color: u32, intensity: i64) -> (c: u32)
    requires
        0 <= intensity <= 16 * FP_ONE as int,
    ensures
        c == filtered_chan(color, light_color, 16, intensity as int, 255) * 0x1_0000
            + filtered_chan(color, light_color, 8, intensity as int, 255) * 0x100
            + filtered_chan(color, light_color, 0, intensity as int, 255),
{
    let r = filter_chan(color, light_color, 16, intensity, 255);
    let g = filter_chan(color, light_color, 8, intensity, 255);
    let b = filter_chan(color, light_color, 0, intensity, 255);
    from_rgb(r, g, b)
}

/// A Lambert term: like the ambient term with the incidence cosine
/// folded into the intensity.
pub fn apply_diffuse(color: u32, light_color: u32, intensity: i64, cos_delta: i64) -> (c: u32)
    requires
        0 <= intensity <= 16 * FP_ONE as int,
        0 <= cos_delta <= FP_ONE,
    ensures
        c == filtered_chan(color, light_color, 16, fpm(intensity as int, cos_delta as int), 255)
            * 0x1_0000 + filtered_chan(
            color,
            light_color,
            8,
            fpm(intensity as int, cos_delta as int),
            255,
        ) * 0x100 + filtered_chan(color, light_color, 0, fpm(intensity as int, cos_delta as int), 255),
{
    proof {
        assert(16 * FP_ONE as int * (FP_ONE as int) <= 16 * FP_ONE as int * (FP_ONE as int));
        crate::fixed::lemma_fpm_abs(
            intensity as int,
            cos_delta as int,
            16 * FP_ONE as int,
            FP_ONE as int,
            16 * FP_ONE as int,
        );
        lemma_fpm_nonneg(intensity as int, cos_delta as int);
    }
    let scaled = crate::fixed::fp_mul(intensity, cos_delta);
    let r = filter_chan(color, light_color, 16, scaled, 255);
    let g = filter_chan(color, light_color, 8, scaled, 255);
    let b = filter_chan(color, light_color, 0, scaled, 255);
    from_rgb(r, g, b)
}

/// The fixed-point product of non-negative scalars is non-negative.
proof fn lemma_fpm_nonneg(a: int, b: int)
    requires
        0 <= a,
        0 <= b,
    ensures
        0 <= fpm(a, b),
{
    assert(0 <= a * b) by (nonlinear_arith)
        requires
            0 <= a,
            0 <= b,
    ;
    crate::fixed::lemma_fdiv_bounds(a * b, FP_ONE as int, a * b);
}

/// One filtered channel, as an 8-bit value.
fn filter_chan(obj: u32, light: u32, shift: u32, intensity: i64, scale: i64) -> (r: u32)
    requires
        shift == 0 || shift == 8 || shift == 16,
        0 <= intensity <= 16 * FP_ONE as int,
        scale == 1 || scale == 255,
    ensures
        r == filtered_chan(obj, light, shift, intensity as int, scale as int),
        r <= 255,
{
    let co: i64 = to_fp(channel_of(obj, shift));
    let cl: i64 = to_fp(channel_of(light, shift));
    proof {
        lemma_fpm_nonneg(co as int, cl as int);
        crate::fixed::lemma_fpm_abs(co as int, cl as int, FP_ONE as int, FP_ONE as int, FP_ONE as int);
        lemma_fpm_nonneg(fpm(co as int, cl as int), intensity as int);
        assert(FP_ONE as int * (16 * FP_ONE as int) <= 16 * FP_ONE as int * (FP_ONE as int))
            by (nonlinear_arith);
        crate::fixed::lemma_fpm_abs(
            fpm(co as int, cl as int),
            intensity as int,
            FP_ONE as int,
            16 * FP_ONE as int,
            16 * FP_ONE as int,
        );
    }
    let v: i64 = crate::fixed::fp_mul(crate::fixed::fp_mul(co, cl), intensity);
    proof {
        assert(0 <= v * scale <= 16 * 65536 * 255) by (nonlinear_arith)
            requires
                0 <= v <= 16 * 65536,
                scale == 1 || scale == 255,
        ;
        crate::fixed::lemma_fdiv_bounds(v as int * scale as int, FP_ONE as int, 0x1_0000_0000);
    }
    let scaled128: i128 = crate::fixed::floor_div_i128((v as i128) * (scale as i128), 65536);
    let w: i64 = scaled128 as i64;
    if w > 255 {
        255
    } else {
        w as u32
    }
}

/// Add two packed colours channel by channel, saturating at white — the
/// combination of an ambient and a diffuse term.
pub fn combine_colors(ambient: u32, diffuse: u32) -> (c: u32)
    ensures
        c == combined_chan(ambient, diffuse, 16) * 0x1_0000 + combined_chan(ambient, diffuse, 8)
            * 0x100 + combined_chan(ambient, diffuse, 0),
{
    let r = add_chan(channel_of(ambient, 16), channel_of(diffuse, 16));
    let g = add_chan(channel_of(ambient, 8), channel_of(diffuse, 8));
    let b = add_chan(channel_of(ambient, 0), channel_of(diffuse, 0));
    from_rgb(r, g, b)
}

/// One channel of a saturating colour sum.
pub open spec fn combined_chan(a: u32, d: u32, shift: u32) -> int {
    let s = chan(a, shift) + chan(d, shift);
    if s > 255 {
        255
    } else {
        s
    }
}

/// Saturating 8-bit sum.
fn add_chan(a: u32, b: u32) -> (r: u32)
    requires
        a <= 255,
        b <= 255,
    ensures
        r == if a + b > 255 {
            255int
        } else {
            a + b
        },
        r <= 255,
{
    let s = a + b;
    if s > 255 {
        255
    } else {
        s
    }
}

} // verus!
