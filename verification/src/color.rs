//! Turning accumulated radiance into 8-bit RGB: average over the
//! samples, gamma-correct with a square root, clamp, and scale.

use vstd::prelude::*;
use vstd::arithmetic::div_mod::lemma_div_is_ordered;
use vstd::arithmetic::div_mod::lemma_div_by_multiple;
use crate::fixed::FX_ONE;
use crate::fixed::tdiv;
use crate::fixed::sqrt_floor;
use crate::fixed::fx_sqrt;
use crate::fixed::lemma_tdiv_range;
use crate::vector::Color;

verus! {

/// One output channel: divide the summed radiance by the sample count,
/// gamma-correct (square root), pin to [0, 1], scale by 256 and pin to
/// 255. A non-positive channel reads as black.
pub open spec fn rgb_byte_spec(comp: int, samples: int) -> int {
    let scaled = tdiv(comp, samples);
    if scaled <= 0 {
        0
    } else {
        let g = sqrt_floor(scaled * 65536);
        let cl = if g > 65536 {
            65536
        } else {
            g
        };
        let b = tdiv(cl * 256, 65536);
        if b > 255 {
            255
        } else {
            b
        }
    }
}

/// One channel of the conversion.
fn rgb_component(comp: i64, samples: usize) -> (b: u8)
    requires
        samples > 0,
    ensures
        b as int == rgb_byte_spec(comp as int, samples as int),
        comp <= 0 ==> b == 0,
        comp >= (samples as int) * (FX_ONE as int) ==> b == 255,
{
    let scaled_w: i128 = (comp as i128) / (samples as i128);
    proof {
        lemma_tdiv_range(comp as int, samples as int, 0x8000000000000000int);
        if comp as int >= (samples as int) * 65536 {
            assert((samples as int) * 65536 == 65536 * (samples as int)) by (nonlinear_arith);
            lemma_div_is_ordered((samples as int) * 65536, comp as int, samples as int);
            lemma_div_by_multiple(65536, samples as int);
        }
    }
    if scaled_w <= 0 {
        return 0;
    }
    proof {
        lemma_tdiv_range(comp as int, samples as int, 0x7fffffffffffffffint);
    }
    let scaled: i64 = scaled_w as i64;
    let g: i64 = fx_sqrt(scaled);
    let cl: i64 = if g > FX_ONE {
        FX_ONE
    } else {
        g
    };
    let b: i64 = (cl * 256) / FX_ONE;
    proof {
        if comp as int >= (samples as int) * 65536 {
            assert((samples as int) * 65536 == 65536 * (samples as int)) by (nonlinear_arith);
            lemma_div_is_ordered((samples as int) * 65536, comp as int, samples as int);
            lemma_div_by_multiple(65536, samples as int);
            assert(scaled >= 65536);
            assert((g as int + 1) * (g as int + 1) > 65536 * (scaled as int) >= 65536 * 65536);
            assert(g >= 65536) by (nonlinear_arith)
                requires
                    (g as int + 1) * (g as int + 1) > 65536int * 65536int,
                    g >= 0,
            ;
        }
    }
    if b > 255 {
        255
    } else {
        b as u8
    }
}

/// Translate Color coordinate values to [0,255] RGB values. A channel at
/// or past full radiance saturates at exactly 255, a channel at or below
/// zero reads exactly 0: the output can neither wrap nor escape a byte.
pub fn color_to_rgb(color: Color, samples_per_pixel: usize) -> (rgb: (u8, u8, u8))
    requires
        samples_per_pixel > 0,
    ensures
        rgb.0 as int == rgb_byte_spec(color.x as int, samples_per_pixel as int),
        rgb.1 as int == rgb_byte_spec(color.y as int, samples_per_pixel as int),
        rgb.2 as int == rgb_byte_spec(color.z as int, samples_per_pixel as int),
        color.x <= 0 ==> rgb.0 == 0,
        color.y <= 0 ==> rgb.1 == 0,
        color.z <= 0 ==> rgb.2 == 0,
        color.x >= (samples_per_pixel as int) * (FX_ONE as int) ==> rgb.0 == 255,
        color.y >= (samples_per_pixel as int) * (FX_ONE as int) ==> rgb.1 == 255,
        color.z >= (samples_per_pixel as int) * (FX_ONE as int) ==> rgb.2 == 255,
{
    let r = rgb_component(color.x, samples_per_pixel);
    let g = rgb_component(color.y, samples_per_pixel);
    let b = rgb_component(color.z, samples_per_pixel);
    (r, g, b)
}

} // verus!
