//! Gamma-corrected color conversion.
//!
//! LEDs are perceived nonlinearly, so every color channel is passed through
//! a fixed 256-entry lookup table before it reaches the device. The table is
//! monotonically non-decreasing, which this module proves.

use vstd::prelude::*;

verus! {

/// Fixed lookup table approximating the panel's perceptual response; the
/// same table is applied independently to the R, G and B channels.
pub const GAMMA_LUT: [u8; 256] = [
    0, 0, 0, 0, 0, 0, 0, 0, 0, 0, 0, 0, 0, 0, 0, 0, 0, 0, 0, 0, 0, 0, 0, 0, 0, 0, 0, 0, 1, 1, 1, 1,
    1, 1, 1, 1, 1, 1, 1, 1, 1, 2, 2, 2, 2, 2, 2, 2, 2, 3, 3, 3, 3, 3, 3, 3, 4, 4, 4, 4, 4, 5, 5, 5,
    5, 6, 6, 6, 6, 7, 7, 7, 7, 8, 8, 8, 9, 9, 9, 10, 10, 10, 11, 11, 11, 12, 12, 13, 13, 13, 14,
    14, 15, 15, 16, 16, 17, 17, 18, 18, 19, 19, 20, 20, 21, 21, 22, 22, 23, 24, 24, 25, 25, 26, 27,
    27, 28, 29, 29, 30, 31, 32, 32, 33, 34, 35, 35, 36, 37, 38, 39, 39, 40, 41, 42, 43, 44, 45, 46,
    47, 48, 49, 50, 50, 51, 52, 54, 55, 56, 57, 58, 59, 60, 61, 62, 63, 64, 66, 67, 68, 69, 70, 72,
    73, 74, 75, 77, 78, 79, 81, 82, 83, 85, 86, 87, 89, 90, 92, 93, 95, 96, 98, 99, 101, 102, 104,
    105, 107, 109, 110, 112, 114, 115, 117, 119, 120, 122, 124, 126, 127, 129, 131, 133, 135, 137,
    138, 140, 142, 144, 146, 148, 150, 152, 154, 156, 158, 160, 162, 164, 167, 169, 171, 173, 175,
    177, 180, 182, 184, 186, 189, 191, 193, 196, 198, 200, 203, 205, 208, 210, 213, 215, 218, 220,
    223, 225, 228, 231, 233, 236, 239, 241, 244, 247, 249, 252, 255,
];

/// Gamma-corrects a single color channel through the lookup table.
pub fn gamma_correct(channel: u8) -> (r: u8)
    ensures
        r == GAMMA_LUT[channel as int],
{
    GAMMA_LUT[channel as usize]
}

/// Neighbouring table entries never decrease.
proof fn lemma_gamma_adjacent()
    ensures
        forall|i: int| 0 <= i < 255 ==> #[trigger] GAMMA_LUT[i] <= GAMMA_LUT[i + 1],
{
}

/// Walks the table entry by entry from `a` up to `b`.
proof fn lemma_gamma_monotone_int(a: int, b: int)
    requires
        0 <= a <= b < 256,
    ensures
        GAMMA_LUT[a] <= GAMMA_LUT[b],
    decreases b - a,
{
    if a < b {
        lemma_gamma_adjacent();
        lemma_gamma_monotone_int(a, b - 1);
        assert(GAMMA_LUT[b - 1] <= GAMMA_LUT[b]);
    }
}

/// The gamma table is monotonically non-decreasing: a channel value that is
/// at least as bright going in comes out at least as bright.
pub proof fn lemma_gamma_monotone(a: u8, b: u8)
    requires
        a <= b,
    ensures
        GAMMA_LUT[a as int] <= GAMMA_LUT[b as int],
{
    lemma_gamma_monotone_int(a as int, b as int);
}

} // verus!
