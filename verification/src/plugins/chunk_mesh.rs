//! The triangle layout of a terrain chunk mesh: a square grid of vertices,
//! row by row, two triangles per cell, and a skirt below each of the four
//! edges that hides cracks between neighbouring levels of detail.
use vstd::prelude::*;

verus! {

/// The six indices of the two triangles of the grid cell whose lower
/// corner is vertex (`x`, `y`), counter-clockwise seen from outside.
pub open spec fn cell_triangles(resolution: int, x: int, y: int) -> Seq<u32> {
    let i = y * resolution + x;
    seq![i as u32, (i + resolution + 1) as u32, (i + resolution) as u32, i as u32, (i + 1) as u32, (i + resolution + 1) as u32]
}

/// The triangles of the first `cells` cells of the grid, row by row.
pub open spec fn grid_indices(resolution: int, cells: nat) -> Seq<u32>
    decreases cells,
{
    if cells == 0 {
        Seq::empty()
    } else {
        let c = cells - 1;
        grid_indices(resolution, (cells - 1) as nat) + cell_triangles(resolution, c % (resolution - 1), c / (resolution - 1))
    }
}

/// The number of vertices a grid of `resolution` vertices a side has, with
/// a skirt vertex below each of the vertices of its four edges.
pub open spec fn mesh_vertex_count(resolution: int) -> int {
    resolution * resolution + 4 * resolution
}

/// Cell `c` of a row of `w` cells lies at column `c % w` and row `c / w`.
proof fn lemma_cell_position(c: int, w: int, x: int, y: int)
    requires
        w > 0,
        0 <= x < w,
        0 <= y,
        c == y * w + x,
    ensures
        c % w == x,
        c / w == y,
{
    vstd::arithmetic::div_mod::lemma_fundamental_div_mod_converse(c, w, y, x);
}

/// The triangle indices of the grid of a chunk with `resolution` vertices
/// a side, row by row: for each cell, the two triangles of `cell_triangles`.
pub fn grid_triangle_indices(resolution: u32) -> (r: Vec<u32>)
    requires
        1 <= resolution,
        resolution * resolution <= 0x1_0000_0000,
    ensures
        r@ == grid_indices(resolution as int, ((resolution - 1) * (resolution - 1)) as nat),
        r@.len() == 6 * (resolution - 1) * (resolution - 1),
        forall|k: int|
            0 <= k < r@.len() ==> #[trigger] r@[k] == ({
                let c = k / 6;
                let i = (c / (resolution - 1)) * resolution + c % (resolution - 1);
                if k % 6 == 0 || k % 6 == 3 {
                    i
                } else if k % 6 == 1 || k % 6 == 5 {
                    i + resolution + 1
                } else if k % 6 == 2 {
                    i + resolution
                } else {
                    i + 1
                }
            }),
{
    let w: u32 = resolution - 1;
    let ghost res = resolution as int;
    let mut out: Vec<u32> = Vec::new();
    let mut y: u32 = 0;
    while y < w
        invariant
            w == resolution - 1,
            res == resolution,
            1 <= resolution,
            resolution * resolution <= 0x1_0000_0000,
            y <= w,
            out@ == grid_indices(res, (y * w) as nat),
        decreases w - y,
    {
        let mut x: u32 = 0;
        while x < w
            invariant
                w == resolution - 1,
                res == resolution,
                resolution * resolution <= 0x1_0000_0000,
                y < w,
                x <= w,
                out@ == grid_indices(res, (y * w + x) as nat),
            decreases w - x,
        {
            proof {
                assert(y * res + x + res + 1 <= res * res - 1) by (nonlinear_arith)
                    requires
                        y < w,
                        x < w,
                        w == res - 1,
                        y >= 0,
                        x >= 0,
                ;
                lemma_cell_position(y * w + x, w as int, x as int, y as int);
                assert(y * w + x >= 0) by (nonlinear_arith)
                    requires
                        y >= 0,
                        w >= 0,
                        x >= 0,
                ;
            }
            let i: u32 = y * resolution + x;
            let ghost before = out@;
            out.push(i);
            out.push(i + resolution + 1);
            out.push(i + resolution);
            out.push(i);
            out.push(i + 1);
            out.push(i + resolution + 1);
            proof {
                let c = y * w + x;
                assert(grid_indices(res, (c + 1) as nat) == before + cell_triangles(res, x as int, y as int));
                assert(out@ =~= before + cell_triangles(res, x as int, y as int));
            }
            x = x + 1;
        }
        proof {
            assert(y * w + w == (y + 1) * w) by (nonlinear_arith);
        }
        y = y + 1;
    }
    proof {
        if resolution >= 2 {
            assert(w * w == (resolution - 1) * (resolution - 1));
            law_grid_layout(res, (w * w) as nat);
            assert(6 * (w * w) == 6 * (res - 1) * (res - 1)) by (nonlinear_arith)
                requires
                    w == res - 1,
            ;
        }
    }
    out
}

/// Law: the grid triangles of a chunk run cell by cell, row by row; the
/// cell with lower corner vertex `i` (column `x`, row `y`, `i = y * res +
/// x`) gives the triangles `i, i + res + 1, i + res` and `i, i + 1, i + res
/// + 1`, the same counter-clockwise winding in every cell.
pub proof fn law_grid_layout(resolution: int, cells: nat)
    requires
        resolution >= 2,
        cells <= (resolution - 1) * (resolution - 1),
        resolution * resolution <= 0x1_0000_0000,
    ensures
        grid_indices(resolution, cells).len() == 6 * cells,
        forall|k: int|
            0 <= k < 6 * cells ==> #[trigger] grid_indices(resolution, cells)[k] == ({
                let c = k / 6;
                let i = (c / (resolution - 1)) * resolution + c % (resolution - 1);
                if k % 6 == 0 || k % 6 == 3 {
                    i
                } else if k % 6 == 1 || k % 6 == 5 {
                    i + resolution + 1
                } else if k % 6 == 2 {
                    i + resolution
                } else {
                    i + 1
                }
            }),
    decreases cells,
{
    if cells > 0 {
        let w = resolution - 1;
        let c = cells - 1;
        law_grid_layout(resolution, (cells - 1) as nat);
        let x = c % w;
        let y = c / w;
        vstd::arithmetic::div_mod::lemma_fundamental_div_mod(c, w);
        assert(0 <= y < w) by (nonlinear_arith)
            requires
                c == w * y + x,
                0 <= x < w,
                0 <= c < w * w,
        ;
        assert(y * resolution + x + resolution + 1 <= resolution * resolution - 1 && y * resolution + x >= 0)
            by (nonlinear_arith)
            requires
                0 <= y < w,
                0 <= x < w,
                w == resolution - 1,
        ;
        let prev = grid_indices(resolution, (cells - 1) as nat);
        let tri = cell_triangles(resolution, x, y);
        assert forall|k: int| 0 <= k < 6 * cells implies #[trigger] grid_indices(resolution, cells)[k] == ({
            let c = k / 6;
            let i = (c / (resolution - 1)) * resolution + c % (resolution - 1);
            if k % 6 == 0 || k % 6 == 3 {
                i
            } else if k % 6 == 1 || k % 6 == 5 {
                i + resolution + 1
            } else if k % 6 == 2 {
                i + resolution
            } else {
                i + 1
            }
        }) by {
            if k >= prev.len() {
                vstd::arithmetic::div_mod::lemma_fundamental_div_mod_converse(k, 6, c, k - 6 * c);
                assert(grid_indices(resolution, cells)[k] == tri[k - prev.len()]);
            } else {
                assert(grid_indices(resolution, cells)[k] == prev[k]);
            }
        }
    }
}

/// Boundary vertex `i` of edge `e` of the grid: the bottom row (`e` 0), the
/// top row (1), the left column (2) and the right column (3), each from its
/// first vertex.
pub open spec fn edge_vertex(resolution: int, e: int, i: int) -> int {
    if e == 0 {
        i
    } else if e == 1 {
        i + (resolution - 1) * resolution
    } else if e == 2 {
        i * resolution
    } else {
        (resolution - 1) + i * resolution
    }
}

/// The skirt vertex below boundary vertex `i` of edge `e`: the skirt
/// vertices follow those of the grid, edge by edge.
pub open spec fn skirt_vertex(resolution: int, e: int, i: int) -> int {
    resolution * resolution + e * resolution + i
}

/// The two triangles that join the boundary segment from vertex `i` to
/// `i + 1` of edge `e` with the skirt below it.
pub open spec fn skirt_triangles(resolution: int, e: int, i: int) -> Seq<u32> {
    seq![
        edge_vertex(resolution, e, i) as u32,
        edge_vertex(resolution, e, i + 1) as u32,
        skirt_vertex(resolution, e, i) as u32,
        edge_vertex(resolution, e, i + 1) as u32,
        skirt_vertex(resolution, e, i + 1) as u32,
        skirt_vertex(resolution, e, i) as u32,
    ]
}

/// The skirt triangles of the first `segments` boundary segments, edge by
/// edge; each edge has one segment fewer than it has vertices.
pub open spec fn skirt_indices(resolution: int, segments: nat) -> Seq<u32>
    decreases segments,
{
    if segments == 0 {
        Seq::empty()
    } else {
        let s = segments - 1;
        skirt_indices(resolution, (segments - 1) as nat) + skirt_triangles(
            resolution,
            s / (resolution - 1),
            s % (resolution - 1),
        )
    }
}

/// The triangle indices of the skirts of a chunk with `resolution`
/// vertices a side, edge by edge: for each boundary segment, the two
/// triangles of `skirt_triangles`. Every vertex, skirts included, must be
/// addressable by a 32-bit index.
pub fn skirt_triangle_indices(resolution: u32) -> (r: Vec<u32>)
    requires
        1 <= resolution,
        mesh_vertex_count(resolution as int) <= 0x1_0000_0000,
    ensures
        r@ == skirt_indices(resolution as int, (4 * (resolution - 1)) as nat),
        r@.len() == 24 * (resolution - 1),
        forall|k: int|
            0 <= k < r@.len() ==> #[trigger] r@[k] == ({
                let s = k / 6;
                let e = s / (resolution - 1);
                let i = s % (resolution - 1);
                let t = if k % 6 == 0 {
                    i
                } else {
                    i + 1
                };
                let edge = if e == 0 {
                    t
                } else if e == 1 {
                    t + (resolution - 1) * resolution
                } else if e == 2 {
                    t * resolution
                } else {
                    resolution - 1 + t * resolution
                };
                let skirt = resolution * resolution + e * resolution + i;
                if k % 6 == 0 || k % 6 == 1 || k % 6 == 3 {
                    edge
                } else if k % 6 == 4 {
                    skirt + 1
                } else {
                    skirt
                }
            }),
{
    let w: u32 = resolution - 1;
    let ghost res = resolution as int;
    proof {
        assert(res * res >= res) by (nonlinear_arith)
            requires
                res >= 1,
        ;
    }
    let base: u32 = resolution * resolution;
    let mut out: Vec<u32> = Vec::new();
    let mut e: u32 = 0;
    while e < 4
        invariant
            w == resolution - 1,
            res == resolution,
            1 <= resolution,
            mesh_vertex_count(res) <= 0x1_0000_0000,
            base == res * res,
            e <= 4,
            out@ == skirt_indices(res, (e * w) as nat),
        decreases 4 - e,
    {
        let mut i: u32 = 0;
        while i < w
            invariant
                w == resolution - 1,
                res == resolution,
                mesh_vertex_count(res) <= 0x1_0000_0000,
                base == res * res,
                e < 4,
                i <= w,
                out@ == skirt_indices(res, (e * w + i) as nat),
            decreases w - i,
        {
            proof {
                assert(i * res + res <= res * res && (res - 1) * res + i + 1 <= res * res && (res - 1) + (i + 1)
                    * res <= res * res - 1 + res) by (nonlinear_arith)
                    requires
                        i < w,
                        w == res - 1,
                        i >= 0,
                ;
                assert(res * res - 1 + res < 0x1_0000_0000);
                assert(e * res + i + 1 <= 4 * res - 1) by (nonlinear_arith)
                    requires
                        e < 4,
                        i < w,
                        w == res - 1,
                        e >= 0,
                        i >= 0,
                ;
                lemma_cell_position(e * w + i, w as int, i as int, e as int);
                assert(e * w + i >= 0) by (nonlinear_arith)
                    requires
                        e >= 0,
                        w >= 0,
                        i >= 0,
                ;
            }
            let (a, b): (u32, u32) = if e == 0 {
                (i, i + 1)
            } else if e == 1 {
                (i + w * resolution, i + 1 + w * resolution)
            } else if e == 2 {
                (i * resolution, (i + 1) * resolution)
            } else {
                (w + i * resolution, w + (i + 1) * resolution)
            };
            let s: u32 = base + e * resolution + i;
            let ghost before = out@;
            out.push(a);
            out.push(b);
            out.push(s);
            out.push(b);
            out.push(s + 1);
            out.push(s);
            proof {
                let c = e * w + i;
                assert(skirt_indices(res, (c + 1) as nat) == before + skirt_triangles(res, e as int, i as int));
                assert(out@ =~= before + skirt_triangles(res, e as int, i as int));
            }
            i = i + 1;
        }
        proof {
            assert(e * w + w == (e + 1) * w) by (nonlinear_arith);
        }
        e = e + 1;
    }
    proof {
        if resolution >= 2 {
            law_skirt_layout(res, (4 * w) as nat);
        }
    }
    out
}

/// Law: the skirt triangles of a chunk run edge by edge (bottom row, top
/// row, left column, right column), segment by segment; the segment from
/// boundary vertex `a` to `b` of an edge, above skirt vertices `s` and
/// `s + 1` (numbered after the grid's `res * res` vertices, `res` per edge),
/// gives the triangles `a, b, s` and `b, s + 1, s`.
pub proof fn law_skirt_layout(resolution: int, segments: nat)
    requires
        resolution >= 2,
        segments <= 4 * (resolution - 1),
        mesh_vertex_count(resolution) <= 0x1_0000_0000,
    ensures
        skirt_indices(resolution, segments).len() == 6 * segments,
        forall|k: int|
            0 <= k < 6 * segments ==> #[trigger] skirt_indices(resolution, segments)[k] == ({
            let s = k / 6;
            let e = s / (resolution - 1);
            let i = s % (resolution - 1);
            let t = if k % 6 == 0 {
                i
            } else {
                i + 1
            };
            let edge = if e == 0 {
                t
            } else if e == 1 {
                t + (resolution - 1) * resolution
            } else if e == 2 {
                t * resolution
            } else {
                resolution - 1 + t * resolution
            };
            let skirt = resolution * resolution + e * resolution + i;
            if k % 6 == 0 || k % 6 == 1 || k % 6 == 3 {
                edge
            } else if k % 6 == 4 {
                skirt + 1
            } else {
                skirt
            }
        }),
    decreases segments,
{
    if segments > 0 {
        let w = resolution - 1;
        let s = segments - 1;
        law_skirt_layout(resolution, (segments - 1) as nat);
        let e = s / w;
        let i = s % w;
        vstd::arithmetic::div_mod::lemma_fundamental_div_mod(s, w);
        assert(0 <= e < 4) by (nonlinear_arith)
            requires
                s == w * e + i,
                0 <= i < w,
                0 <= s < 4 * w,
        ;
        assert(i * resolution + resolution <= resolution * resolution && (resolution - 1) * resolution + i + 1
            <= resolution * resolution && (resolution - 1) + (i + 1) * resolution <= resolution * resolution - 1
            + resolution && e * resolution + i + 1 <= 4 * resolution - 1 && (resolution - 1) * resolution >= 0
            && i * resolution >= 0) by (nonlinear_arith)
            requires
                0 <= i < w,
                w == resolution - 1,
                0 <= e < 4,
        ;
        let prev = skirt_indices(resolution, (segments - 1) as nat);
        let tri = skirt_triangles(resolution, e, i);
        assert forall|k: int| 0 <= k < 6 * segments implies #[trigger] skirt_indices(resolution, segments)[k] == ({
            let s = k / 6;
            let e = s / (resolution - 1);
            let i = s % (resolution - 1);
            let t = if k % 6 == 0 {
                i
            } else {
                i + 1
            };
            let edge = if e == 0 {
                t
            } else if e == 1 {
                t + (resolution - 1) * resolution
            } else if e == 2 {
                t * resolution
            } else {
                resolution - 1 + t * resolution
            };
            let skirt = resolution * resolution + e * resolution + i;
            if k % 6 == 0 || k % 6 == 1 || k % 6 == 3 {
                edge
            } else if k % 6 == 4 {
                skirt + 1
            } else {
                skirt
            }
        }) by {
            if k >= prev.len() {
                vstd::arithmetic::div_mod::lemma_fundamental_div_mod_converse(k, 6, s, k - 6 * s);
                assert(skirt_indices(resolution, segments)[k] == tri[k - prev.len()]);
            } else {
                assert(skirt_indices(resolution, segments)[k] == prev[k]);
            }
        }
    }
}

/// Law: the grid triangles of a chunk name only vertices of the grid, six
/// indices (two triangles) per cell.
pub proof fn law_grid_indices_in_range(resolution: int, cells: nat)
    requires
        resolution >= 2,
        cells <= (resolution - 1) * (resolution - 1),
        resolution * resolution <= 0x1_0000_0000,
    ensures
        grid_indices(resolution, cells).len() == 6 * cells,
        forall|k: int|
            0 <= k < grid_indices(resolution, cells).len() ==> #[trigger] grid_indices(resolution, cells)[k]
                < resolution * resolution,
    decreases cells,
{
    if cells > 0 {
        let w = resolution - 1;
        let c = cells - 1;
        law_grid_indices_in_range(resolution, (cells - 1) as nat);
        let x = c % w;
        let y = c / w;
        vstd::arithmetic::div_mod::lemma_fundamental_div_mod(c, w);
        assert(y < w) by (nonlinear_arith)
            requires
                c == w * y + x,
                0 <= x < w,
                c < w * w,
        ;
        assert(0 <= y) by (nonlinear_arith)
            requires
                c == w * y + x,
                x < w,
                c >= 0,
                w > 0,
        ;
        assert(y * resolution + x + resolution + 1 <= resolution * resolution - 1) by (nonlinear_arith)
            requires
                y < w,
                x < w,
                w == resolution - 1,
                y >= 0,
                x >= 0,
        ;
        assert(y * resolution + x >= 0) by (nonlinear_arith)
            requires
                y >= 0,
                x >= 0,
                resolution >= 0,
        ;
        let prev = grid_indices(resolution, (cells - 1) as nat);
        let tri = cell_triangles(resolution, x, y);
        assert forall|k: int| 0 <= k < grid_indices(resolution, cells).len() implies #[trigger] grid_indices(
            resolution,
            cells,
        )[k] < resolution * resolution by {
            if k >= prev.len() {
                assert(grid_indices(resolution, cells)[k] == tri[k - prev.len()]);
            } else {
                assert(grid_indices(resolution, cells)[k] == prev[k]);
            }
        }
    }
}

/// Law: the skirt triangles of a chunk name only vertices of the mesh
/// (grid and skirt), six indices (two triangles) per boundary segment.
pub proof fn law_skirt_indices_in_range(resolution: int, segments: nat)
    requires
        resolution >= 2,
        segments <= 4 * (resolution - 1),
        mesh_vertex_count(resolution) <= 0x1_0000_0000,
    ensures
        skirt_indices(resolution, segments).len() == 6 * segments,
        forall|k: int|
            0 <= k < skirt_indices(resolution, segments).len() ==> #[trigger] skirt_indices(resolution, segments)[k]
                < mesh_vertex_count(resolution),
    decreases segments,
{
    if segments > 0 {
        let w = resolution - 1;
        let s = segments - 1;
        law_skirt_indices_in_range(resolution, (segments - 1) as nat);
        let e = s / w;
        let i = s % w;
        vstd::arithmetic::div_mod::lemma_fundamental_div_mod(s, w);
        assert(0 <= e < 4) by (nonlinear_arith)
            requires
                s == w * e + i,
                0 <= i < w,
                0 <= s < 4 * w,
        ;
        assert(i * resolution + resolution <= resolution * resolution && (resolution - 1) * resolution + i + 1
            <= resolution * resolution && (resolution - 1) + (i + 1) * resolution <= resolution * resolution - 1
            + resolution && e * resolution + i + 1 <= 4 * resolution - 1 && (resolution - 1) * resolution >= 0
            && i * resolution >= 0) by (nonlinear_arith)
            requires
                0 <= i < w,
                w == resolution - 1,
                0 <= e < 4,
        ;
        let prev = skirt_indices(resolution, (segments - 1) as nat);
        let tri = skirt_triangles(resolution, e, i);
        assert forall|k: int| 0 <= k < skirt_indices(resolution, segments).len() implies #[trigger] skirt_indices(
            resolution,
            segments,
        )[k] < mesh_vertex_count(resolution) by {
            if k >= prev.len() {
                assert(skirt_indices(resolution, segments)[k] == tri[k - prev.len()]);
            } else {
                assert(skirt_indices(resolution, segments)[k] == prev[k]);
            }
        }
    }
}

} // verus!
