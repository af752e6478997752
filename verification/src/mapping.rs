//! Serpentine coordinate mapping.
//!
//! The panel is wired in a boustrophedon pattern: even columns run
//! bottom-to-top, odd columns run top-to-bottom, because software addresses
//! row 0 as the visual top while the physical strip starts at the bottom of
//! column 0. The mapping from a 2D pixel position to the linear LED index is
//! a permutation of `0 .. width * height`, which this module proves.

use vstd::prelude::*;

verus! {

/// Linear LED index of the pixel at `(row, col)` on a serpentine-wired
/// panel of the given height.
pub open spec fn led_index_spec(row: int, col: int, height: int) -> int {
    if col % 2 == 0 {
        col * height + (height - 1 - row)
    } else {
        col * height + row
    }
}

/// Maps a 2D pixel position to the physical LED index for serpentine
/// wiring. Callers must range-check `row` and `col` first: the result is
/// only meaningful for `row < height` and `col` within the matrix width.
pub fn calculate_led_index(row: usize, col: usize, height: usize) -> (index: usize)
    requires
        0 < height,
        row < height,
        col * height + height <= usize::MAX,
    ensures
        index == led_index_spec(row as int, col as int, height as int),
        col * height <= index < col * height + height,
{
    // Determine if the current column is going upwards or downwards.
    let is_going_up = col % 2 == 0;
    // Software addresses the top left, but the strip starts at the bottom
    // left, so reverse the row index within the column.
    let adjusted_row = (height - 1) - row;
    if is_going_up {
        col * height + adjusted_row
    } else {
        col * height + row
    }
}

/// The index of a valid pixel lands in the column's own stripe of the
/// linear index space.
pub proof fn lemma_led_index_in_range(row: int, col: int, height: int)
    requires
        0 < height,
        0 <= row < height,
        0 <= col,
    ensures
        col * height <= led_index_spec(row, col, height) < col * height + height,
{
}

/// Two distinct valid pixel positions never share an LED index.
pub proof fn lemma_led_index_injective(r1: int, c1: int, r2: int, c2: int, height: int)
    requires
        0 < height,
        0 <= r1 < height,
        0 <= r2 < height,
        0 <= c1,
        0 <= c2,
        led_index_spec(r1, c1, height) == led_index_spec(r2, c2, height),
    ensures
        r1 == r2,
        c1 == c2,
{
    lemma_led_index_in_range(r1, c1, height);
    lemma_led_index_in_range(r2, c2, height);
    if c1 < c2 {
        assert(c1 * height + height <= c2 * height) by (nonlinear_arith)
            requires 0 < height, c1 < c2;
    }
    if c2 < c1 {
        assert(c2 * height + height <= c1 * height) by (nonlinear_arith)
            requires 0 < height, c2 < c1;
    }
}

/// Column of the pixel that drives the LED at linear index `idx`.
pub open spec fn led_col_of(idx: int, height: int) -> int {
    idx / height
}

/// Row of the pixel that drives the LED at linear index `idx`.
pub open spec fn led_row_of(idx: int, height: int) -> int {
    if led_col_of(idx, height) % 2 == 0 {
        height - 1 - idx % height
    } else {
        idx % height
    }
}

/// Every linear index below `width * height` is the image of some valid
/// pixel position.
pub proof fn lemma_led_index_surjective(idx: int, width: int, height: int)
    requires
        0 < width,
        0 < height,
        0 <= idx < width * height,
    ensures
        0 <= led_row_of(idx, height) < height,
        0 <= led_col_of(idx, height) < width,
        led_index_spec(led_row_of(idx, height), led_col_of(idx, height), height) == idx,
{
    let c = idx / height;
    let rem = idx % height;
    vstd::arithmetic::div_mod::lemma_fundamental_div_mod(idx, height);
    vstd::arithmetic::div_mod::lemma_mod_bound(idx, height);
    assert(0 <= c) by (nonlinear_arith)
        requires 0 < height, 0 <= idx, c == idx / height, idx == height * c + rem, 0 <= rem < height;
    assert(c < width) by (nonlinear_arith)
        requires 0 < height, idx < width * height, idx == height * c + rem, 0 <= rem < height;
    let r = if c % 2 == 0 { height - 1 - rem } else { rem };
    assert(led_index_spec(r, c, height) == idx) by (nonlinear_arith)
        requires
            0 < height,
            idx == height * c + rem,
            0 <= rem < height,
            r == if c % 2 == 0 { height - 1 - rem } else { rem },
            led_index_spec(r, c, height) == if c % 2 == 0 { c * height + (height - 1 - r) } else { c * height + r };
    assert(r == led_row_of(idx, height));
    assert(c == led_col_of(idx, height));
}

/// The LED at linear index `idx` is driven by the valid pixel position
/// `(led_row_of(idx, height), led_col_of(idx, height))`.
pub open spec fn led_index_covered(idx: int, width: int, height: int) -> bool {
    &&& 0 <= led_row_of(idx, height) < height
    &&& 0 <= led_col_of(idx, height) < width
    &&& led_index_spec(led_row_of(idx, height), led_col_of(idx, height), height) == idx
}

/// The serpentine mapping, restricted to valid pixel positions, is a
/// bijection onto `0 .. width * height`: every linear index is produced by
/// exactly one `(row, col)` pair.
pub proof fn lemma_led_index_bijective(width: int, height: int)
    requires
        0 < width,
        0 < height,
    ensures
        forall|r: int, c: int|
            0 <= r < height && 0 <= c < width
                ==> 0 <= #[trigger] led_index_spec(r, c, height) < width * height,
        forall|r1: int, c1: int, r2: int, c2: int|
            0 <= r1 < height && 0 <= c1 < width && 0 <= r2 < height && 0 <= c2 < width
                && #[trigger] led_index_spec(r1, c1, height) == #[trigger] led_index_spec(r2, c2, height)
                ==> r1 == r2 && c1 == c2,
        forall|idx: int| 0 <= idx < width * height ==> #[trigger] led_index_covered(idx, width, height),
{
    assert forall|r: int, c: int| 0 <= r < height && 0 <= c < width
        implies 0 <= #[trigger] led_index_spec(r, c, height) < width * height by {
        lemma_led_index_in_range(r, c, height);
        assert(c * height + height <= width * height) by (nonlinear_arith)
            requires 0 < height, c < width;
    }
    assert forall|r1: int, c1: int, r2: int, c2: int|
        0 <= r1 < height && 0 <= c1 < width && 0 <= r2 < height && 0 <= c2 < width
            && #[trigger] led_index_spec(r1, c1, height) == #[trigger] led_index_spec(r2, c2, height)
        implies r1 == r2 && c1 == c2 by {
        lemma_led_index_injective(r1, c1, r2, c2, height);
    }
    assert forall|idx: int| 0 <= idx < width * height
        implies #[trigger] led_index_covered(idx, width, height) by {
        lemma_led_index_surjective(idx, width, height);
    }
}

} // verus!
