use vstd::prelude::*;

verus! {

/// Side of one grid cell, in pixels.
pub const BLOCK_SIZE: u32 = 25;

/// The pixel coordinate of grid coordinate `c`, clamped to `u32`'s range.
pub open spec fn coord_pixels(c: int) -> int {
    let p = c * BLOCK_SIZE;
    if p < 0 {
        0
    } else if p > u32::MAX {
        u32::MAX as int
    } else {
        p
    }
}

/// Converts a grid coordinate to pixels; negative coordinates give 0 and
/// coordinates too large for `u32` give `u32::MAX`.
pub fn to_coord_u32(game_coord: i32) -> (r: u32)
    ensures
        r == coord_pixels(game_coord as int),
{
    let p: i64 = game_coord as i64 * BLOCK_SIZE as i64;
    if p < 0 {
        0
    } else if p > u32::MAX as i64 {
        u32::MAX
    } else {
        p as u32
    }
}

} // verus!
