use vstd::prelude::*;

verus! {

/// Rows from which an image counts as high resolution.
pub const HIGH_RES_ROWS: i32 = 720;

/// Width, in pixels, of the rectangle that the text mask is dilated with.
pub const KERNEL_COLS: i32 = 5;

/// Height, in pixels, of the rectangle that the text mask is dilated with.
pub const KERNEL_ROWS: i32 = 3;

/// Number of dilation passes for an image of `rows` rows.
pub open spec fn dilation_passes(rows: int) -> int {
    if rows >= HIGH_RES_ROWS { 5 } else { 3 }
}

/// How many times the text mask is dilated: more passes on a taller image.
pub fn iterations(frame_height: i32) -> (r: i32)
    ensures
        r == dilation_passes(frame_height as int),
{
    if frame_height >= HIGH_RES_ROWS {
        5
    } else {
        3
    }
}

/// Upper bound of the value channel below which an achromatic pixel counts as text.
pub open spec fn value_bound(rows: int) -> int {
    if rows >= HIGH_RES_ROWS { 30 } else { 80 }
}

/// Upper bound, on the 0..=255 scale, of the value channel of a text pixel:
/// tighter on a taller image, looser where antialiasing blurs the strokes.
pub fn max_range(frame_height: i32) -> (r: u8)
    ensures
        r == value_bound(frame_height as int),
{
    if frame_height >= HIGH_RES_ROWS {
        30
    } else {
        80
    }
}

} // verus!
