//! The mesh: one vertex for each cell of the height field and two triangles
//! for each quad between four neighbouring cells.

use vstd::prelude::*;
use crate::field::{lemma_cell_in_grid, HeightField, MAX_SIZE, MIN_SIZE};
use crate::height::{coord_bits, coordinate_bits};

verus! {

/// Vertex positions and triangle indices, flattened. `positions` holds three
/// binary32 patterns for each vertex, `indices` three vertex numbers for
/// each triangle.
#[derive(Debug)]
pub struct Mesh {
    pub positions: Vec<u32>,
    pub indices: Vec<u32>,
}

/// One word of the flattened positions: the vertex of cell `j / 3` is the
/// triple of the cell's column, its elevation and its row.
pub open spec fn position_word(size: nat, cells: Seq<u32>, j: int) -> u32 {
    let c = j / 3;
    if j % 3 == 0 {
        coord_bits((c % size as int) as nat) as u32
    } else if j % 3 == 1 {
        cells[c]
    } else {
        coord_bits((c / size as int) as nat) as u32
    }
}

/// The flattened positions of a height field, vertex by vertex in row-major
/// order.
pub open spec fn grid_positions(size: nat, cells: Seq<u32>) -> Seq<u32> {
    Seq::new(3 * size * size, |j: int| position_word(size, cells, j))
}

/// The vertex at corner `k` of the two triangles of quad `q`. The quads are
/// numbered row by row, `size - 1` to a row. With `i` the vertex at the
/// quad's first corner, its triangles are `(i, i + 1, i + size)` and
/// `(i + 1, i + size + 1, i + size)`.
pub open spec fn quad_corner(size: nat, q: int, k: int) -> int {
    let x = q % (size - 1);
    let z = q / (size - 1);
    let i = z * size + x;
    if k == 0 {
        i
    } else if k == 1 || k == 3 {
        i + 1
    } else if k == 2 || k == 5 {
        i + size
    } else {
        i + size + 1
    }
}

/// The flattened triangle indices of a grid of side `size`.
pub open spec fn grid_indices(size: nat) -> Seq<u32> {
    Seq::new(
        (6 * (size - 1) * (size - 1)) as nat,
        |j: int| quad_corner(size, j / 6, j % 6) as u32,
    )
}

/// The quad in column `x` of row `z` has the number `z * (size - 1) + x`,
/// and its corners are vertices of the grid.
pub proof fn lemma_quad(size: nat, x: nat, z: nat)
    requires
        MIN_SIZE <= size <= MAX_SIZE,
        x < size - 1,
        z < size - 1,
    ensures
        ({
            let q = z * (size - 1) + x;
            &&& 0 <= q < (size - 1) * (size - 1)
            &&& q % (size - 1) == x
            &&& q / (size - 1) == z
            &&& z * size + x + size + 1 < size * size
            &&& size * size <= MAX_SIZE * MAX_SIZE
        }),
{
    let w = (size - 1) as nat;
    assert(z * w + x < w * w && (z * w + x) % w == x && (z * w + x) / w == z)
        by (nonlinear_arith)
        requires
            x < w,
            z < w,
    ;
    assert(z * size + x + size + 1 < size * size) by (nonlinear_arith)
        requires
            x + 1 < size,
            z + 1 < size,
    ;
    assert(size * size <= MAX_SIZE * MAX_SIZE) by (nonlinear_arith)
        requires
            size <= MAX_SIZE,
    ;
}

/// A grid of side `size` has three position words for each of its `size *
/// size` cells and six indices for each of its `(size - 1) * (size - 1)`
/// quads.
pub proof fn lemma_mesh_lengths(size: nat, cells: Seq<u32>)
    requires
        MIN_SIZE <= size,
    ensures
        grid_positions(size, cells).len() == 3 * size * size,
        grid_indices(size).len() == 6 * (size - 1) * (size - 1),
{
    assert(3 * size * size >= 0) by (nonlinear_arith);
    assert(6 * (size - 1) * (size - 1) >= 0) by (nonlinear_arith)
        requires
            size >= 1,
    ;
}

/// Every index of the mesh names a vertex of the grid.
pub proof fn lemma_indices_in_range(size: nat)
    requires
        MIN_SIZE <= size <= MAX_SIZE,
    ensures
        forall|j: int|
            0 <= j < grid_indices(size).len() ==> #[trigger] grid_indices(size)[j] < size * size,
{
    assert forall|j: int| 0 <= j < grid_indices(size).len() implies #[trigger] grid_indices(
        size,
    )[j] < size * size by {
        lemma_index_in_range(size, j);
    }
}

/// The index at place `j` names a vertex of the grid.
proof fn lemma_index_in_range(size: nat, j: int)
    requires
        MIN_SIZE <= size <= MAX_SIZE,
        0 <= j < grid_indices(size).len(),
    ensures
        0 <= quad_corner(size, j / 6, j % 6) < size * size,
        grid_indices(size)[j] < size * size,
{
    lemma_mesh_lengths(size, Seq::empty());
    let w = (size - 1) as nat;
    let q = j / 6;
    assert(q < w * w) by (nonlinear_arith)
        requires
            q == j / 6,
            0 <= j < 6 * w * w,
    ;
    let x = (q % (w as int)) as nat;
    let z = (q / (w as int)) as nat;
    assert(z < w && z * w + x == q) by (nonlinear_arith)
        requires
            0 <= q < w * w,
            x == q % (w as int),
            z == q / (w as int),
            w > 0,
    ;
    lemma_quad(size, x, z);
    assert(0 <= z * size + x) by (nonlinear_arith);
}

/// Flattens the height field into vertex positions.
pub fn emit_positions(field: &HeightField) -> (positions: Vec<u32>)
    requires
        field.wf(),
    ensures
        positions@ == grid_positions(field@.size, field@.cells),
{
    let size = field.size();
    let ghost n = size as nat;
    let ghost cells = field@.cells;
    let mut positions: Vec<u32> = Vec::new();
    let mut z: u32 = 0;
    proof {
        lemma_mesh_lengths(n, cells);
    }
    while z < size
        invariant
            field.wf(),
            field@.size == n,
            field@.cells == cells,
            size == n,
            z <= size,
            positions@.len() == 3 * (z * n),
            forall|j: int|
                0 <= j < positions@.len() ==> positions@[j] == position_word(n, cells, j),
        decreases size - z,
    {
        let mut x: u32 = 0;
        while x < size
            invariant
                field.wf(),
                field@.size == n,
                field@.cells == cells,
                size == n,
                z < size,
                x <= size,
                positions@.len() == 3 * (z * n + x),
                forall|j: int|
                    0 <= j < positions@.len() ==> positions@[j] == position_word(n, cells, j),
            decreases size - x,
        {
            proof {
                lemma_cell_in_grid(n, x as nat, z as nat);
            }
            let h = field.height_at(x, z);
            let ghost c = z * n + x;
            positions.push(coordinate_bits(x));
            positions.push(h);
            positions.push(coordinate_bits(z));
            proof {
                assert forall|j: int| 0 <= j < positions@.len() implies positions@[j]
                    == position_word(n, cells, j) by {
                    if j >= 3 * c {
                        assert(j / 3 == c);
                    }
                }
            }
            x = x + 1;
        }
        proof {
            assert(3 * (z * n + n) == 3 * ((z + 1) * n)) by (nonlinear_arith);
        }
        z = z + 1;
    }
    proof {
        assert(3 * (n * n) == 3 * n * n) by (nonlinear_arith);
        assert(positions@ =~= grid_positions(n, cells));
    }
    positions
}

/// Lists the triangles of a grid of side `size`, two for each quad.
pub fn emit_indices(size: u32) -> (indices: Vec<u32>)
    requires
        MIN_SIZE <= size <= MAX_SIZE,
    ensures
        indices@ == grid_indices(size as nat),
{
    let ghost n = size as nat;
    let ghost w = (size - 1) as nat;
    let mut indices: Vec<u32> = Vec::new();
    let mut z: u32 = 0;
    proof {
        lemma_mesh_lengths(n, Seq::empty());
    }
    while z < size - 1
        invariant
            MIN_SIZE <= size <= MAX_SIZE,
            size == n,
            w == n - 1,
            z <= size - 1,
            indices@.len() == 6 * (z * w),
            forall|j: int|
                0 <= j < indices@.len() ==> indices@[j] == quad_corner(n, j / 6, j % 6) as u32,
        decreases size - z,
    {
        let mut x: u32 = 0;
        while x < size - 1
            invariant
                MIN_SIZE <= size <= MAX_SIZE,
                size == n,
                w == n - 1,
                z < size - 1,
                x <= size - 1,
                indices@.len() == 6 * (z * w + x),
                forall|j: int|
                    0 <= j < indices@.len() ==> indices@[j] == quad_corner(n, j / 6, j % 6) as u32,
            decreases size - x,
        {
            proof {
                lemma_quad(n, x as nat, z as nat);
                lemma_cell_in_grid(n, x as nat, z as nat);
            }
            let ghost q = z * w + x;
            let i: u32 = z * size + x;
            indices.push(i);
            indices.push(i + 1);
            indices.push(i + size);
            indices.push(i + 1);
            indices.push(i + size + 1);
            indices.push(i + size);
            proof {
                assert forall|j: int| 0 <= j < indices@.len() implies indices@[j] == quad_corner(
                    n,
                    j / 6,
                    j % 6,
                ) as u32 by {
                    if j >= 6 * q {
                        assert(j / 6 == q);
                    }
                }
            }
            x = x + 1;
        }
        proof {
            assert(6 * (z * w + w) == 6 * ((z + 1) * w)) by (nonlinear_arith);
        }
        z = z + 1;
    }
    proof {
        assert(6 * (w * w) == 6 * (n - 1) * (n - 1)) by (nonlinear_arith)
            requires
                w == n - 1,
        ;
        assert(indices@ =~= grid_indices(n));
    }
    indices
}

/// Builds the mesh of a height field.
pub fn emit_mesh(field: &HeightField) -> (mesh: Mesh)
    requires
        field.wf(),
    ensures
        mesh.positions@ == grid_positions(field@.size, field@.cells),
        mesh.indices@ == grid_indices(field@.size),
{
    let positions = emit_positions(field);
    let indices = emit_indices(field.size());
    Mesh { positions, indices }
}

} // verus!
