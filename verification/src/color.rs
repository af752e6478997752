//! Pixel-to-LED color conversion.
//!
//! Decoded image pixels arrive row-major (the pixel at `(x, y)` sits at
//! position `y * width + x`). Each channel is gamma-corrected, and the
//! pixel's LED index comes from the serpentine mapping with `row = y`,
//! `col = x`.

use vstd::prelude::*;
use crate::gamma::GAMMA_LUT;
use crate::gamma::gamma_correct;
use crate::mapping::calculate_led_index;
use crate::mapping::led_index_spec;
use crate::mapping::lemma_led_index_in_range;
use crate::mapping::lemma_led_index_injective;

verus! {

/// One color, three channels of 0-255 each.
#[derive(Clone, Copy, Debug, PartialEq, Eq, Structural)]
pub struct Rgb {
    pub r: u8,
    pub g: u8,
    pub b: u8,
}

/// A single update unit: a 0-based linear LED index and the color for it.
#[derive(Clone, Copy, Debug, PartialEq, Eq, Structural)]
pub struct LedColor {
    pub index: usize,
    pub color: Rgb,
}

/// A pixel after gamma correction of each channel.
pub open spec fn spec_gamma_rgb(p: Rgb) -> Rgb {
    Rgb { r: GAMMA_LUT[p.r as int], g: GAMMA_LUT[p.g as int], b: GAMMA_LUT[p.b as int] }
}

/// Gamma-corrects all three channels of a pixel.
pub fn gamma_rgb(p: &Rgb) -> (r: Rgb)
    ensures
        r == spec_gamma_rgb(*p),
{
    Rgb { r: gamma_correct(p.r), g: gamma_correct(p.g), b: gamma_correct(p.b) }
}

/// Converts row-major pixels to one `LedColor` per pixel: the color is
/// gamma-corrected and the index comes from the serpentine mapping. The
/// result has exactly `width * height` entries, one per LED, each index
/// used exactly once.
pub fn pixels_to_led_buffer(pixels: &Vec<Rgb>, width: usize, height: usize) -> (r: Vec<LedColor>)
    requires
        0 < width,
        0 < height,
        pixels@.len() == width * height,
        width * height <= usize::MAX,
    ensures
        r@.len() == width * height,
        forall|y: int, x: int|
            0 <= y < height && 0 <= x < width ==> #[trigger] r@[y * width + x] == (LedColor {
                index: led_index_spec(y, x, height as int) as usize,
                color: spec_gamma_rgb(pixels@[y * width + x]),
            }),
{
    let mut r: Vec<LedColor> = Vec::new();
    let mut y: usize = 0;
    while y < height
        invariant
            0 < width,
            0 < height,
            pixels@.len() == width * height,
            width * height <= usize::MAX,
            y <= height,
            r@.len() == y * width,
            forall|yy: int, x: int|
                0 <= yy < y && 0 <= x < width ==> #[trigger] r@[yy * width + x] == (LedColor {
                    index: led_index_spec(yy, x, height as int) as usize,
                    color: spec_gamma_rgb(pixels@[yy * width + x]),
                }),
        decreases height - y,
    {
        proof {
            assert((y + 1) * width <= height * width) by (nonlinear_arith)
                requires y + 1 <= height, 0 < width;
            assert(height * width == width * height) by (nonlinear_arith);
            assert((y + 1) * width == y * width + width) by (nonlinear_arith);
        }
        let mut x: usize = 0;
        while x < width
            invariant
                0 < width,
                0 < height,
                pixels@.len() == width * height,
                width * height <= usize::MAX,
                y < height,
                x <= width,
                y * width + width <= width * height,
                r@.len() == y * width + x,
                forall|yy: int, xx: int|
                    (0 <= yy < y && 0 <= xx < width) || (yy == y && 0 <= xx < x)
                        ==> #[trigger] r@[yy * width + xx] == (LedColor {
                        index: led_index_spec(yy, xx, height as int) as usize,
                        color: spec_gamma_rgb(pixels@[yy * width + xx]),
                    }),
            decreases width - x,
        {
            proof {
                assert(x * height + height <= width * height) by (nonlinear_arith)
                    requires x < width, 0 < height;
            }
            let idx = calculate_led_index(y, x, height);
            let p = pixels[y * width + x];
            let c = gamma_rgb(&p);
            r.push(LedColor { index: idx, color: c });
            proof {
                assert forall|yy: int, xx: int|
                    (0 <= yy < y && 0 <= xx < width) || (yy == y && 0 <= xx < x + 1)
                        implies #[trigger] r@[yy * width + xx] == (LedColor {
                        index: led_index_spec(yy, xx, height as int) as usize,
                        color: spec_gamma_rgb(pixels@[yy * width + xx]),
                    }) by {
                    if yy == y && xx == x {
                        assert(r@[y * width + x] == LedColor {
                            index: idx,
                            color: c,
                        });
                    } else {
                        assert(yy * width + xx < y * width + x) by (nonlinear_arith)
                            requires
                                0 < width,
                                (0 <= yy < y && 0 <= xx < width) || (yy == y && 0 <= xx < x),
                        ;
                    }
                }
            }
            x = x + 1;
        }
        proof {
            assert((y + 1) * width == y * width + width) by (nonlinear_arith);
        }
        y = y + 1;
    }
    proof {
        assert(height * width == width * height) by (nonlinear_arith);
    }
    r
}

/// Converts row-major pixels to the gamma-corrected colors in LED order:
/// entry `led_index_spec(y, x, height)` holds the corrected pixel `(x, y)`.
/// This is the sequence a whole-buffer update expects.
pub fn led_order_pixels(pixels: &Vec<Rgb>, width: usize, height: usize) -> (r: Vec<Rgb>)
    requires
        0 < width,
        0 < height,
        pixels@.len() == width * height,
        width * height <= usize::MAX,
    ensures
        r@.len() == width * height,
        forall|y: int, x: int|
            0 <= y < height && 0 <= x < width ==> #[trigger] r@[led_index_spec(
                y,
                x,
                height as int,
            )] == spec_gamma_rgb(pixels@[y * width + x]),
{
    let n = width * height;
    let mut r: Vec<Rgb> = Vec::new();
    let mut i: usize = 0;
    while i < n
        invariant
            i <= n,
            r@.len() == i,
            forall|j: int| 0 <= j < i ==> #[trigger] r@[j] == (Rgb { r: 0u8, g: 0u8, b: 0u8 }),
        decreases n - i,
    {
        r.push(Rgb { r: 0, g: 0, b: 0 });
        i = i + 1;
    }
    let mut y: usize = 0;
    while y < height
        invariant
            0 < width,
            0 < height,
            pixels@.len() == width * height,
            width * height <= usize::MAX,
            n == width * height,
            y <= height,
            r@.len() == n,
            forall|yy: int, xx: int|
                0 <= yy < y && 0 <= xx < width ==> #[trigger] r@[led_index_spec(
                    yy,
                    xx,
                    height as int,
                )] == spec_gamma_rgb(pixels@[yy * width + xx]),
        decreases height - y,
    {
        let mut x: usize = 0;
        while x < width
            invariant
                0 < width,
                0 < height,
                pixels@.len() == width * height,
                width * height <= usize::MAX,
                n == width * height,
                y < height,
                x <= width,
                r@.len() == n,
                forall|yy: int, xx: int|
                    (0 <= yy < y && 0 <= xx < width) || (yy == y && 0 <= xx < x)
                        ==> #[trigger] r@[led_index_spec(yy, xx, height as int)] == spec_gamma_rgb(
                        pixels@[yy * width + xx],
                    ),
            decreases width - x,
        {
            proof {
                assert(x * height + height <= width * height) by (nonlinear_arith)
                    requires x < width, 0 < height;
                lemma_led_index_in_range(y as int, x as int, height as int);
                assert(y * width + x < width * height) by (nonlinear_arith)
                    requires 0 <= y < height, 0 <= x < width;
            }
            let idx = calculate_led_index(y, x, height);
            let p = pixels[y * width + x];
            let c = gamma_rgb(&p);
            let ghost r0 = r@;
            r.set(idx, c);
            proof {
                assert forall|yy: int, xx: int|
                    (0 <= yy < y && 0 <= xx < width) || (yy == y && 0 <= xx < x + 1)
                        implies #[trigger] r@[led_index_spec(yy, xx, height as int)]
                        == spec_gamma_rgb(pixels@[yy * width + xx]) by {
                    let lidx = led_index_spec(yy, xx, height as int);
                    lemma_led_index_in_range(yy, xx, height as int);
                    assert(xx * height + height <= width * height) by (nonlinear_arith)
                        requires 0 <= xx < width, 0 < height;
                    assert(yy * width + xx < width * height) by (nonlinear_arith)
                        requires 0 <= yy < height, 0 <= xx < width;
                    if yy == y && xx == x {
                        assert(r@[lidx] == c);
                    } else {
                        if lidx == led_index_spec(y as int, x as int, height as int) {
                            lemma_led_index_injective(yy, xx, y as int, x as int, height as int);
                        }
                        assert(r@[lidx] == r0[lidx]);
                        assert(r0[lidx] == spec_gamma_rgb(pixels@[yy * width + xx]));
                    }
                }
            }
            x = x + 1;
        }
        y = y + 1;
    }
    r
}

} // verus!
