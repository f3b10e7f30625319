//! Device-pixel units and font metrics.
//!
//! Shaping engines and font rasterizers report geometry in 26.6 fixed point:
//! an integer count of 1/64 of a device pixel. This library keeps every
//! length in that representation, so all geometry is exact integer
//! arithmetic.

use vstd::prelude::*;

verus! {

/// A length in device pixels, stored as a count of 1/64 pixel
/// (26.6 fixed point).
#[derive(Clone, Copy, Debug, PartialEq, Eq, Structural)]
pub struct PixelLength(pub i64);

/// Metrics for one font at one (size, density) configuration, attributed to
/// one fallback slot. All fields are in 1/64 device pixel units.
#[derive(Clone, Copy, Debug, PartialEq, Eq, Structural)]
pub struct FontMetrics {
    pub cell_width: PixelLength,
    pub cell_height: PixelLength,
    pub descender: PixelLength,
    pub underline_thickness: PixelLength,
    pub underline_position: PixelLength,
}

/// The theoretical pixel height of `size` points at `dpi` dots per inch,
/// in 1/64 pixel units: size * dpi / 72 points-per-inch, scaled by 64.
pub open spec fn pixel_height_64_spec(size: int, dpi: int) -> int {
    size * dpi * 64 / 72
}

/// Upper bound under which all scaling arithmetic below stays in range.
pub open spec fn size_dpi_in_range(size: int, dpi: int) -> bool {
    0 <= size <= 0xFFFF && 0 <= dpi <= 0xFFFF
}

pub fn pixel_height_64(size: u32, dpi: u32) -> (r: u64)
    requires
        size_dpi_in_range(size as int, dpi as int),
    ensures
        r == pixel_height_64_spec(size as int, dpi as int),
        r < 0x1_0000_0000,
{
    proof {
        assert((size as int) * (dpi as int) * 64 <= 0xFFFF * 0xFFFF * 64)
            by (nonlinear_arith)
            requires 0 <= size <= 0xFFFF && 0 <= dpi <= 0xFFFF;
    }
    (size as u64) * (dpi as u64) * 64 / 72
}

/// A value in font units scaled to 1/64 pixel units: multiply by the pixel
/// height and divide by the face's units-per-em, preserving sign, with the
/// magnitude rounded toward zero.
pub open spec fn scale_spec(v: int, ph: int, upem: int) -> int {
    if v >= 0 {
        v * ph / upem
    } else {
        -((-v) * ph / upem)
    }
}

/// Scales a signed font-unit value `v` into 1/64 pixel units for a face with
/// `upem` units per em configured at a theoretical pixel height of `ph`
/// (in 1/64 pixel units).
pub fn scale_font_units(v: i32, ph: u64, upem: u32) -> (r: i64)
    requires
        ph < 0x1_0000_0000,
        upem >= 1,
    ensures
        r == scale_spec(v as int, ph as int, upem as int),
{
    let mag: u64 = if v < 0 {
        (-(v as i64)) as u64
    } else {
        v as u64
    };
    proof {
        assert((mag as int) * (ph as int) < 0x8000_0000_0000_0000)
            by (nonlinear_arith)
            requires 0 <= mag <= 0x8000_0000 && 0 <= ph < 0x1_0000_0000;
        assert((mag as int) * (ph as int) / (upem as int) <= (mag as int) * (ph as int)) by {
            vstd::arithmetic::div_mod::lemma_div_basics_5((mag as int) * (ph as int), upem as int);
        }
    }
    let q: u64 = mag * ph / (upem as u64);
    if v < 0 {
        -(q as i64)
    } else {
        q as i64
    }
}

} // verus!
