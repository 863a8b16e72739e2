//! Image textures as plain pixel grids, sampled by nearest lookup.
//!
//! Decoding an image file into the `pixels` grid happens outside the
//! library; here a texture is pure data with an exact sampling function.

use vstd::prelude::*;

verus! {

use crate::fixed::{fdiv, fp_clamp, FP_ONE};
use crate::vec3::Color;

/// A row-major grid of packed `0xRRGGBB` pixels.
#[derive(Clone, Debug)]
pub struct Texture {
    pub width: usize,
    pub height: usize,
    pub pixels: Vec<u32>,
}

/// A well-formed texture: positive moderate dimensions and exactly one
/// pixel per cell.
pub open spec fn texture_wf(t: Texture) -> bool {
    &&& 1 <= t.width <= 0x8000
    &&& 1 <= t.height <= 0x8000
    &&& t.pixels@.len() == t.width * t.height
}

/// One colour channel of a packed pixel, rescaled from `0..=255` to a
/// fixed-point value in `[0, 1]`.
pub open spec fn channel_spec(px: u32, shift: u32) -> int {
    fdiv(((px >> shift) & 0xFF) * FP_ONE as int, 255)
}

/// The exact nearest-sample lookup: clamp the coordinates to the unit
/// square, flip `v` to image row order, scale to the grid.
pub open spec fn sample_spec(t: Texture, u: i64, v: i64) -> Color {
    let uc = if u < 0 { 0 } else if u > FP_ONE { FP_ONE as int } else { u as int };
    let vcl = if v < 0 { 0 } else if v > FP_ONE { FP_ONE as int } else { v as int };
    let vc = FP_ONE - vcl;
    let x0 = fdiv(uc * t.width, FP_ONE as int);
    let y0 = fdiv(vc * t.height, FP_ONE as int);
    let x = if x0 >= t.width { t.width - 1 } else { x0 };
    let y = if y0 >= t.height { t.height - 1 } else { y0 };
    let px = t.pixels@[y * t.width + x];
    Color { x: channel_spec(px, 16) as i64, y: channel_spec(px, 8) as i64, z: channel_spec(px, 0) as i64 }
}

impl Texture {
    /// Package a pixel grid; `None` when the dimensions do not describe
    /// the grid.
    pub fn new(width: usize, height: usize, pixels: Vec<u32>) -> (r: Option<Texture>)
        ensures
            match r {
                Some(t) => texture_wf(t) && t.width == width && t.height == height && t.pixels@
                    == pixels@,
                None => !(1 <= width <= 0x8000 && 1 <= height <= 0x8000 && pixels@.len()
                    == width * height),
            },
    {
        if 1 <= width && width <= 0x8000 && 1 <= height && height <= 0x8000 {
            proof {
                assert(width * height <= 0x4000_0000) by (nonlinear_arith)
                    requires
                        width <= 0x8000,
                        height <= 0x8000,
                ;
            }
            let cells: usize = width * height;
            if pixels.len() == cells {
                Some(Texture { width, height, pixels })
            } else {
                None
            }
        } else {
            None
        }
    }

    /// Nearest-sample colour at texture coordinates `(u, v)`.
    pub fn sample(&self, u: i64, v: i64) -> (c: Color)
        requires
            texture_wf(*self),
        ensures
            c == sample_spec(*self, u, v),
            0 <= c.x <= FP_ONE,
            0 <= c.y <= FP_ONE,
            0 <= c.z <= FP_ONE,
    {
        let uc: i64 = fp_clamp(u, 0, FP_ONE);
        let vc: i64 = FP_ONE - fp_clamp(v, 0, FP_ONE);
        proof {
            assert(uc as int * (self.width as int) <= 65536 * 0x8000
                && 0 <= uc as int * (self.width as int)) by (nonlinear_arith)
                requires
                    0 <= uc <= 65536,
                    0 <= self.width <= 0x8000,
            ;
            assert(vc as int * (self.height as int) <= 65536 * 0x8000
                && 0 <= vc as int * (self.height as int)) by (nonlinear_arith)
                requires
                    0 <= vc <= 65536,
                    0 <= self.height <= 0x8000,
            ;
            crate::fixed::lemma_fdiv_bounds(
                uc as int * (self.width as int),
                FP_ONE as int,
                0x1_0000_0000,
            );
            crate::fixed::lemma_fdiv_bounds(
                vc as int * (self.height as int),
                FP_ONE as int,
                0x1_0000_0000,
            );
        }
        let x0: u64 = (uc as u64) * (self.width as u64) / 65536;
        let y0: u64 = (vc as u64) * (self.height as u64) / 65536;
        proof {
            assert(x0 == fdiv(uc as int * (self.width as int), FP_ONE as int));
            assert(y0 == fdiv(vc as int * (self.height as int), FP_ONE as int));
        }
        let x: usize = if x0 >= self.width as u64 {
            self.width - 1
        } else {
            x0 as usize
        };
        let y: usize = if y0 >= self.height as u64 {
            self.height - 1
        } else {
            y0 as usize
        };
        proof {
            assert(y * self.width + x < self.width * self.height
                && y * self.width <= 0x4000_0000
                && self.width * self.height <= 0x4000_0000) by (nonlinear_arith)
                requires
                    x < self.width,
                    y < self.height,
                    1 <= self.width <= 0x8000,
                    1 <= self.height <= 0x8000,
            ;
        }
        let px: u32 = self.pixels[y * self.width + x];
        let r: i64 = channel(px, 16);
        let g: i64 = channel(px, 8);
        let b: i64 = channel(px, 0);
        Color { x: r, y: g, z: b }
    }
}

/// Extract one channel of a packed pixel and rescale it to `[0, 1]`.
fn channel(px: u32, shift: u32) -> (c: i64)
    requires
        shift == 0 || shift == 8 || shift == 16,
    ensures
        c == channel_spec(px, shift),
        0 <= c <= FP_ONE,
{
    let byte: u32 = (px >> shift) & 0xFF;
    proof {
        assert((px >> shift) & 0xFF <= 0xFF) by (bit_vector);
        assert(byte * 65536 <= 0xFF * 65536) by (nonlinear_arith)
            requires
                byte <= 0xFF,
        ;
        assert(0xFF * 65536 == 65536int * 255int) by (nonlinear_arith);
        crate::fixed::lemma_fdiv_abs_le(byte * 65536, 255, 65536);
        crate::fixed::lemma_fdiv_bounds(byte * 65536, 255, 0x1_0000_0000);
    }
    let v: u64 = (byte as u64) * 65536 / 255;
    v as i64
}

} // verus!
