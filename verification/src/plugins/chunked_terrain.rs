//! Mesh resolution of terrain chunks by depth.
use vstd::prelude::*;

verus! {

/// The grid resolution of a chunk at `depth`.
pub open spec fn spec_resolution_for_depth(depth: u8) -> u32 {
    if depth <= 2 {
        16
    } else if depth <= 5 {
        32
    } else if depth <= 8 {
        64
    } else if depth <= 12 {
        128
    } else {
        64
    }
}

/// Resolution scales with depth: low at orbital, high at ground, back down at micro.
pub fn resolution_for_depth(depth: u8) -> (r: u32)
    ensures
        r == spec_resolution_for_depth(depth),
        depth <= 2 ==> r == 16,
        3 <= depth <= 5 ==> r == 32,
        6 <= depth <= 8 ==> r == 64,
        9 <= depth <= 12 ==> r == 128,
        depth >= 13 ==> r == 64,
{
    match depth {
        0..=2 => 16,  // Planetary view
        3..=5 => 32,  // Orbital
        6..=8 => 64,  // Flyover
        9..=12 => 128,  // Ground level (hero detail)
        _ => 64,  // Micro scale (diminishing returns)
    }
}

/// Law: the resolution bands by depth: 16 vertices a side for the
/// planetary view (depths 0 to 2), 32 in orbit (3 to 5), 64 in flyover (6
/// to 8), 128 at ground level (9 to 12), and 64 again below.
pub proof fn law_resolution_bands(depth: u8)
    ensures
        depth <= 2 ==> spec_resolution_for_depth(depth) == 16,
        3 <= depth <= 5 ==> spec_resolution_for_depth(depth) == 32,
        6 <= depth <= 8 ==> spec_resolution_for_depth(depth) == 64,
        9 <= depth <= 12 ==> spec_resolution_for_depth(depth) == 128,
        depth >= 13 ==> spec_resolution_for_depth(depth) == 64,
{
}

} // verus!
