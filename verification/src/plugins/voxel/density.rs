//! Flat storage of the cubic density grid of a voxel chunk: cell (x, y, z)
//! of a `size³` grid lives at index `x + y * size + z * size²`.
use vstd::prelude::*;

verus! {

/// The flat index of cell (x, y, z) in a grid `size` cells wide.
pub open spec fn spec_voxel_index(size: nat, x: nat, y: nat, z: nat) -> nat {
    z * size * size + y * size + x
}

/// Index into the flat arrays of a chunk `size` cells wide (computed in
/// 32-bit arithmetic); a cell inside the grid lands inside the arrays.
pub fn voxel_index(size: u32, x: u32, y: u32, z: u32) -> (r: usize)
    requires
        spec_voxel_index(size as nat, x as nat, y as nat, z as nat) <= u32::MAX,
    ensures
        r == spec_voxel_index(size as nat, x as nat, y as nat, z as nat),
        x < size && y < size && z < size ==> r < size * size * size,
{
    proof {
        let zs = z as int * size as int;
        let zss = zs * size as int;
        let ys = y as int * size as int;
        assert(0 <= zs && 0 <= zss && 0 <= ys) by (nonlinear_arith)
            requires
                zs == z as int * size as int,
                zss == zs * size as int,
                ys == y as int * size as int,
        ;
        assert(zs <= zss || size == 0) by (nonlinear_arith)
            requires
                zss == zs * size as int,
                zs >= 0,
        ;
        if x < size && y < size && z < size {
            assert(zss + ys + x < size as int * size as int * size as int) by (nonlinear_arith)
                requires
                    x < size,
                    y < size,
                    z < size,
                    zs == z as int * size as int,
                    zss == zs * size as int,
                    ys == y as int * size as int,
            ;
        }
    }
    (z * size * size + y * size + x) as usize
}

/// Law: the first cell is at index 0, and a step along x, y or z moves the
/// index by 1, `size` or `size²`.
pub proof fn law_voxel_index_steps(size: nat, x: nat, y: nat, z: nat)
    ensures
        spec_voxel_index(size, 0, 0, 0) == 0,
        spec_voxel_index(size, x + 1, y, z) == spec_voxel_index(size, x, y, z) + 1,
        spec_voxel_index(size, x, y + 1, z) == spec_voxel_index(size, x, y, z) + size,
        spec_voxel_index(size, x, y, z + 1) == spec_voxel_index(size, x, y, z) + size * size,
{
    assert((z + 1) * size * size == z * size * size + size * size) by (nonlinear_arith);
    assert((y + 1) * size == y * size + size) by (nonlinear_arith);
    assert(0 * size * size == 0) by (nonlinear_arith);
    assert(0 * size == 0) by (nonlinear_arith);
}

} // verus!
