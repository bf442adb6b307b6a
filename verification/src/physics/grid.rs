//! Flat storage of 3D simulation grids: a cell (x, y, z) of an
//! `nx * ny * nz` grid lives at index `x + y * nx + z * nx * ny`.
use vstd::prelude::*;

verus! {

/// The flat index of cell (x, y, z) in a grid `nx` cells wide and `ny` deep.
pub open spec fn spec_grid_index(nx: nat, ny: nat, x: nat, y: nat, z: nat) -> nat {
    x + y * nx + z * nx * ny
}

/// Get index from 3D coordinates
pub fn grid_index(dimensions: (usize, usize, usize), x: usize, y: usize, z: usize) -> (r: usize)
    requires
        spec_grid_index(dimensions.0 as nat, dimensions.1 as nat, x as nat, y as nat, z as nat) <= usize::MAX,
    ensures
        r == spec_grid_index(dimensions.0 as nat, dimensions.1 as nat, x as nat, y as nat, z as nat),
{
    let (nx, ny, _) = dimensions;
    proof {
        let a = y as int * nx as int;
        let b = z as int * nx as int * ny as int;
        assert(0 <= a && 0 <= b) by (nonlinear_arith)
            requires
                a == y as int * nx as int,
                b == z as int * nx as int * ny as int,
        ;
        assert(z as int * nx as int <= b || ny == 0) by (nonlinear_arith)
            requires
                b == z as int * nx as int * ny as int,
        ;
    }
    if ny == 0 {
        proof {
            assert(z as int * nx as int * 0 == 0) by (nonlinear_arith);
        }
        x + y * nx
    } else {
        proof {
            assert(z as int * nx as int <= z as int * nx as int * ny as int) by (nonlinear_arith)
                requires
                    ny >= 1,
            ;
        }
        x + y * nx + z * nx * ny
    }
}

/// Get 3D coordinates from index
pub fn grid_coords(dimensions: (usize, usize, usize), idx: usize) -> (r: (usize, usize, usize))
    requires
        dimensions.0 > 0,
        dimensions.1 > 0,
        dimensions.0 * dimensions.1 <= usize::MAX,
    ensures
        r.0 == idx % dimensions.0,
        r.1 == (idx / dimensions.0) % dimensions.1,
        r.2 == idx as int / (dimensions.0 * dimensions.1),
{
    let (nx, ny, _) = dimensions;
    let x = idx % nx;
    let y = (idx / nx) % ny;
    proof {
        assert(nx * ny > 0) by (nonlinear_arith)
            requires
                nx > 0,
                ny > 0,
        ;
    }
    let z = idx / (nx * ny);
    (x, y, z)
}

/// Law: the coordinates of an index lead back to the same index.
pub proof fn law_coords_round_trip(nx: nat, ny: nat, idx: nat)
    requires
        nx > 0,
        ny > 0,
    ensures
        spec_grid_index(nx, ny, idx % nx, (idx / nx) % ny, idx / (nx * ny)) == idx,
{
    let q = idx / nx;
    vstd::arithmetic::div_mod::lemma_fundamental_div_mod(idx as int, nx as int);
    vstd::arithmetic::div_mod::lemma_fundamental_div_mod(q as int, ny as int);
    vstd::arithmetic::div_mod::lemma_div_denominator(idx as int, nx as int, ny as int);
    assert(idx == nx * q + idx % nx);
    assert(q == ny * (q / ny) + q % ny);
    let a = q / ny;
    let b = q % ny;
    assert(nx * q == a * nx * ny + b * nx) by (nonlinear_arith)
        requires
            q == ny * a + b,
    ;
}

/// Law: the coordinates of the index of a cell inside the grid are that cell.
pub proof fn law_index_round_trip(nx: nat, ny: nat, x: nat, y: nat, z: nat)
    requires
        x < nx,
        y < ny,
    ensures
        ({
            let idx = spec_grid_index(nx, ny, x, y, z);
            &&& idx % nx == x
            &&& (idx / nx) % ny == y
            &&& idx / (nx * ny) == z
        }),
{
    let idx = spec_grid_index(nx, ny, x, y, z);
    let q = y + z * ny;
    assert(idx == q * nx + x) by (nonlinear_arith)
        requires
            idx == x + y * nx + z * nx * ny,
            q == y + z * ny,
    ;
    vstd::arithmetic::div_mod::lemma_fundamental_div_mod_converse(idx as int, nx as int, q as int, x as int);
    vstd::arithmetic::div_mod::lemma_fundamental_div_mod_converse(q as int, ny as int, z as int, y as int);
    vstd::arithmetic::div_mod::lemma_div_denominator(idx as int, nx as int, ny as int);
}

/// Law: the first cell is at index 0, and a step along x, y or z moves the
/// index by 1, `nx` or `nx * ny`.
pub proof fn law_grid_index_steps(nx: nat, ny: nat, x: nat, y: nat, z: nat)
    ensures
        spec_grid_index(nx, ny, 0, 0, 0) == 0,
        spec_grid_index(nx, ny, x + 1, y, z) == spec_grid_index(nx, ny, x, y, z) + 1,
        spec_grid_index(nx, ny, x, y + 1, z) == spec_grid_index(nx, ny, x, y, z) + nx,
        spec_grid_index(nx, ny, x, y, z + 1) == spec_grid_index(nx, ny, x, y, z) + nx * ny,
{
    assert((z + 1) * nx * ny == z * nx * ny + nx * ny) by (nonlinear_arith);
    assert((y + 1) * nx == y * nx + nx) by (nonlinear_arith);
    assert(0 * nx * ny == 0) by (nonlinear_arith);
    assert(0 * nx == 0) by (nonlinear_arith);
}

} // verus!
