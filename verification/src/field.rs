//! The height field: a square grid of elevations in row-major order.

use vstd::prelude::*;
use crate::error::TerrainError;
use crate::height::{is_lower, is_nan, is_number, rank};

verus! {

/// The smallest grid that has a quad.
pub const MIN_SIZE: u32 = 2;

/// The largest grid whose container still fits the 32-bit length fields of
/// the binary format.
pub const MAX_SIZE: u32 = 10923;

/// What a height field is, as mathematics: the side of the grid and its
/// cells, row by row, each an elevation's bit pattern.
pub struct Grid {
    pub size: nat,
    pub cells: Seq<u32>,
}

/// A grid of `size` by `size` elevations. Its fields are private, so that a
/// value can only be made by `new`, which checks it.
#[derive(Debug)]
pub struct HeightField {
    size: u32,
    cells: Vec<u32>,
}

/// A grid point: its column `x` and its row `z`.
#[derive(Debug, Clone, Copy, PartialEq, Eq, Structural)]
pub struct Cell {
    pub x: u32,
    pub z: u32,
}

/// The place of the cell `(x, z)` in the row-major sequence.
pub open spec fn cell_index(size: nat, x: nat, z: nat) -> nat {
    z * size + x
}

/// The place of a cell in the row-major sequence.
pub open spec fn index_of(size: nat, c: Cell) -> int {
    cell_index(size, c.x as nat, c.z as nat) as int
}

/// Whether `cells` is a height field of side `size`: the side is supported,
/// there is one cell for each grid point, and every cell is a number.
pub open spec fn is_grid(size: nat, cells: Seq<u32>) -> bool {
    &&& MIN_SIZE <= size <= MAX_SIZE
    &&& cells.len() == size * size
    &&& forall|i: int| 0 <= i < cells.len() ==> is_number(#[trigger] cells[i])
}

/// Whether `p` is the peak of `cells`: no cell is higher, and every cell
/// before it in the scan is strictly lower. There is at most one such `p`.
pub open spec fn is_peak(cells: Seq<u32>, p: int) -> bool {
    &&& 0 <= p < cells.len()
    &&& forall|i: int| 0 <= i < cells.len() ==> rank(#[trigger] cells[i]) <= rank(cells[p])
    &&& forall|i: int| 0 <= i < p ==> rank(#[trigger] cells[i]) < rank(cells[p])
}

impl View for HeightField {
    type V = Grid;

    closed spec fn view(&self) -> Grid {
        Grid { size: self.size as nat, cells: self.cells@ }
    }
}

/// A cell of the grid lies inside the row-major sequence, and the sequence's
/// length fits in 32 bits.
pub proof fn lemma_cell_in_grid(size: nat, x: nat, z: nat)
    requires
        size <= MAX_SIZE,
        x < size,
        z < size,
    ensures
        cell_index(size, x, z) < size * size,
        size * size <= MAX_SIZE * MAX_SIZE,
        cell_index(size, x, z) / size == z,
        cell_index(size, x, z) % size == x,
{
    assert(z * size + x < size * size) by (nonlinear_arith)
        requires
            x < size,
            z < size,
    ;
    assert(size * size <= MAX_SIZE * MAX_SIZE) by (nonlinear_arith)
        requires
            size <= MAX_SIZE,
    ;
    assert((z * size + x) / size == z && (z * size + x) % size == x) by (nonlinear_arith)
        requires
            x < size,
    ;
}

/// A place in the row-major sequence is the cell of its column and row.
pub proof fn lemma_index_is_cell(size: nat, i: nat)
    requires
        0 < size,
        i < size * size,
    ensures
        i % size < size,
        i / size < size,
        cell_index(size, i % size, i / size) == i,
{
    assert(i / size < size && (i / size) * size + i % size == i && i % size < size)
        by (nonlinear_arith)
        requires
            0 < size,
            i < size * size,
    ;
}

/// Two peaks of one sequence are the same place.
pub proof fn lemma_peak_unique(cells: Seq<u32>, p: int, q: int)
    requires
        is_peak(cells, p),
        is_peak(cells, q),
    ensures
        p == q,
{
    if p < q {
        assert(rank(cells[p]) < rank(cells[q]));
        assert(rank(cells[q]) <= rank(cells[p]));
    } else if q < p {
        assert(rank(cells[q]) < rank(cells[p]));
        assert(rank(cells[p]) <= rank(cells[q]));
    }
}

impl HeightField {
    /// Whether the value is a height field. Every value that `new` hands
    /// out is, and the methods keep it so.
    pub open spec fn wf(&self) -> bool {
        is_grid(self@.size, self@.cells)
    }

    /// Makes a height field of side `size` from its cells in row-major
    /// order, or refuses what is none.
    pub fn new(size: u32, cells: Vec<u32>) -> (r: Result<HeightField, TerrainError>)
        ensures
            match r {
                Ok(field) => {
                    &&& is_grid(size as nat, cells@)
                    &&& field@ == (Grid { size: size as nat, cells: cells@ })
                    &&& field.wf()
                },
                Err(e) => !is_grid(size as nat, cells@) && e == TerrainError::InvalidParameter,
            },
    {
        if size < MIN_SIZE || size > MAX_SIZE {
            return Err(TerrainError::InvalidParameter);
        }
        proof {
            lemma_cell_in_grid(size as nat, 0, 0);
        }
        let wanted: u32 = size * size;
        if cells.len() != wanted as usize {
            return Err(TerrainError::InvalidParameter);
        }
        let mut i: usize = 0;
        while i < cells.len()
            invariant
                i <= cells.len(),
                forall|j: int| 0 <= j < i ==> is_number(#[trigger] cells@[j]),
            decreases cells.len() - i,
        {
            if is_nan(cells[i]) {
                return Err(TerrainError::InvalidParameter);
            }
            i = i + 1;
        }
        Ok(HeightField { size, cells })
    }

    /// The side of the grid.
    pub fn size(&self) -> (size: u32)
        ensures
            size == self@.size,
    {
        self.size
    }

    /// The cells in row-major order.
    pub fn cells(&self) -> (cells: &Vec<u32>)
        ensures
            cells@ == self@.cells,
    {
        &self.cells
    }

    /// The elevation of the cell `(x, z)`.
    pub fn height_at(&self, x: u32, z: u32) -> (h: u32)
        requires
            self.wf(),
            x < self@.size,
            z < self@.size,
        ensures
            h == self@.cells[cell_index(self@.size, x as nat, z as nat) as int],
            is_number(h),
    {
        proof {
            lemma_cell_in_grid(self.size as nat, x as nat, z as nat);
        }
        self.cells[(z * self.size + x) as usize]
    }

    /// Sets the elevation of the cell `(x, z)` and leaves the others alone.
    pub fn set_height(&mut self, x: u32, z: u32, h: u32)
        requires
            old(self).wf(),
            x < old(self)@.size,
            z < old(self)@.size,
            is_number(h),
        ensures
            final(self).wf(),
            final(self)@.size == old(self)@.size,
            final(self)@.cells == old(self)@.cells.update(
                cell_index(old(self)@.size, x as nat, z as nat) as int,
                h,
            ),
    {
        proof {
            lemma_cell_in_grid(self.size as nat, x as nat, z as nat);
        }
        let i: usize = (z * self.size + x) as usize;
        self.cells.set(i, h);
    }

    /// Finds the peak: the highest cell, and among equally high ones the
    /// first in row-major order.
    pub fn find_peak(&self) -> (p: usize)
        requires
            self.wf(),
        ensures
            is_peak(self@.cells, p as int),
    {
        let mut peak: usize = 0;
        let mut i: usize = 0;
        proof {
            lemma_cell_in_grid(self.size as nat, 0, 0);
        }
        while i < self.cells.len()
            invariant
                self.wf(),
                i <= self.cells.len(),
                0 <= peak < self.cells.len(),
                peak <= i,
                forall|j: int| 0 <= j < i ==> rank(#[trigger] self.cells@[j]) <= rank(self.cells@[peak as int]),
                forall|j: int| 0 <= j < peak ==> rank(#[trigger] self.cells@[j]) < rank(self.cells@[peak as int]),
            decreases self.cells.len() - i,
        {
            if is_lower(self.cells[peak], self.cells[i]) {
                peak = i;
            }
            i = i + 1;
        }
        peak
    }
}

} // verus!
