//! The river: a walk of steepest descent from the peak, which carves its bed
//! into the height field.

use vstd::prelude::*;
use crate::field::{cell_index, index_of, is_grid, lemma_cell_in_grid, Cell, HeightField};
use crate::height::{at_most, is_at_most, is_lower, is_number, lower};

verus! {

/// Whether the walk goes on from `c`: it does while `c` is more than one
/// step away from every edge of the grid.
pub open spec fn in_walk(size: nat, c: Cell) -> bool {
    1 < c.x < size - 1 && 1 < c.z < size - 1
}

/// Whether the walk may step onto `(x, z)`: it may unless the point lies on
/// the first row or column, on the outermost ring, or outside the grid.
pub open spec fn is_candidate(size: nat, x: int, z: int) -> bool {
    0 < x < size - 1 && 0 < z < size - 1
}

/// The lower of `best` and the point `(x, z)`: the point, if the walk may
/// step onto it and it is strictly lower; else `best`.
pub open spec fn better(cells: Seq<u32>, size: nat, best: Cell, x: int, z: int) -> Cell {
    if is_candidate(size, x, z) && lower(
        cells[cell_index(size, x as nat, z as nat) as int],
        cells[index_of(size, best)],
    ) {
        Cell { x: x as u32, z: z as u32 }
    } else {
        best
    }
}

/// The lowest of `c` and its four axis neighbours: the neighbours are taken
/// in the order left, right, up, down, and one replaces the lowest so far
/// only if it is strictly lower. The result is `c` itself exactly when no
/// neighbour that the walk may step onto is strictly lower than `c`.
pub open spec fn lowest_neighbor(cells: Seq<u32>, size: nat, c: Cell) -> Cell {
    let left = better(cells, size, c, c.x - 1, c.z as int);
    let right = better(cells, size, left, c.x + 1, c.z as int);
    let up = better(cells, size, right, c.x as int, c.z - 1);
    better(cells, size, up, c.x as int, c.z + 1)
}

/// One coordinate after the diagonal step that frees the walk from a pit:
/// one down if it lies below the middle of the grid, else one up.
pub open spec fn nudged(size: nat, v: u32) -> u32 {
    if v < size / 2 {
        (v - 1) as u32
    } else {
        (v + 1) as u32
    }
}

/// Where the walk goes from `c`: to the lowest neighbour if one is strictly
/// lower than `c`, else one step along the diagonal.
pub open spec fn next_cell(cells: Seq<u32>, size: nat, c: Cell) -> Cell {
    let n = lowest_neighbor(cells, size, c);
    if n == c {
        Cell { x: nudged(size, c.x), z: nudged(size, c.z) }
    } else {
        n
    }
}

/// How many cells lie strictly below `bed`.
pub open spec fn count_lower(cells: Seq<u32>, bed: u32) -> nat
    decreases cells.len(),
{
    if cells.len() == 0 {
        0
    } else {
        count_lower(cells.drop_last(), bed) + if lower(cells.last(), bed) {
            1nat
        } else {
            0nat
        }
    }
}

/// How far a coordinate is from the edge that the diagonal step moves it to.
pub open spec fn margin(size: nat, v: u32) -> int {
    if v < size / 2 {
        v as int
    } else {
        size - 1 - v
    }
}

/// What a walk leaves behind: the cells it carved, in order; the cell it
/// stopped on; and the height field with the bed carved in.
pub struct Trace {
    pub path: Seq<Cell>,
    pub mouth: Cell,
    pub cells: Seq<u32>,
}

/// The walk from `c` over `cells`. While `c` is inside the walk's region the
/// cell is recorded and carved down to `bed`. If the bed is at or below
/// `sea_level`, the river has reached the sea and the walk stops there;
/// else it goes on from the next cell. Outside the region nothing is
/// recorded or carved.
///
/// The walk ends: a step to a lower neighbour leads to a cell below the bed,
/// and carving it leaves one such cell fewer; a diagonal step moves away
/// from the middle of the grid, and the grid is finite.
pub open spec fn walk(cells: Seq<u32>, size: nat, c: Cell, sea_level: u32, bed: u32) -> Trace
    decreases count_lower(cells.update(index_of(size, c), bed), bed), margin(size, c.x),
    when is_grid(size, cells) && is_number(bed)
    via walk_decreases
{
    if !in_walk(size, c) {
        Trace { path: Seq::empty(), mouth: c, cells }
    } else {
        let carved = cells.update(index_of(size, c), bed);
        if at_most(bed, sea_level) {
            Trace { path: seq![c], mouth: c, cells: carved }
        } else {
            let rest = walk(carved, size, next_cell(carved, size, c), sea_level, bed);
            Trace { path: seq![c] + rest.path, mouth: rest.mouth, cells: rest.cells }
        }
    }
}

#[via_fn]
proof fn walk_decreases(cells: Seq<u32>, size: nat, c: Cell, sea_level: u32, bed: u32) {
    if in_walk(size, c) {
        lemma_step_decreases(cells, size, c, bed);
    }
}

/// Setting one cell changes the count of the cells below `bed` by what that
/// cell was and what it becomes.
proof fn lemma_count_update(cells: Seq<u32>, i: int, v: u32, bed: u32)
    requires
        0 <= i < cells.len(),
    ensures
        count_lower(cells.update(i, v), bed) + (if lower(cells[i], bed) {
            1int
        } else {
            0int
        }) == count_lower(cells, bed) + (if lower(v, bed) {
            1int
        } else {
            0int
        }),
    decreases cells.len(),
{
    if i == cells.len() - 1 {
        assert(cells.update(i, v).drop_last() =~= cells.drop_last());
    } else {
        assert(cells.update(i, v).drop_last() =~= cells.drop_last().update(i, v));
        lemma_count_update(cells.drop_last(), i, v, bed);
    }
}

/// One comparison of the scan keeps the lowest so far inside the grid and
/// never raises it.
proof fn lemma_better(cells: Seq<u32>, size: nat, c: Cell, best: Cell, x: int, z: int)
    requires
        is_grid(size, cells),
        c.x < size,
        c.z < size,
        best == c || (is_candidate(size, best.x as int, best.z as int) && lower(
            cells[index_of(size, best)],
            cells[index_of(size, c)],
        )),
    ensures
        ({
            let r = better(cells, size, best, x, z);
            r == c || (is_candidate(size, r.x as int, r.z as int) && lower(
                cells[index_of(size, r)],
                cells[index_of(size, c)],
            ))
        }),
{
    if is_candidate(size, x, z) {
        lemma_cell_in_grid(size, x as nat, z as nat);
    }
    lemma_cell_in_grid(size, c.x as nat, c.z as nat);
    if best != c {
        lemma_cell_in_grid(size, best.x as nat, best.z as nat);
    }
}

/// The lowest neighbour is the cell itself, or a cell that the walk may step
/// onto and that is strictly lower.
pub proof fn lemma_lowest_neighbor_descends(cells: Seq<u32>, size: nat, c: Cell)
    requires
        is_grid(size, cells),
        c.x < size,
        c.z < size,
    ensures
        ({
            let r = lowest_neighbor(cells, size, c);
            r == c || (is_candidate(size, r.x as int, r.z as int) && lower(
                cells[index_of(size, r)],
                cells[index_of(size, c)],
            ))
        }),
{
    let left = better(cells, size, c, c.x - 1, c.z as int);
    let right = better(cells, size, left, c.x + 1, c.z as int);
    let up = better(cells, size, right, c.x as int, c.z - 1);
    lemma_better(cells, size, c, c, c.x - 1, c.z as int);
    lemma_better(cells, size, c, left, c.x + 1, c.z as int);
    lemma_better(cells, size, c, right, c.x as int, c.z - 1);
    lemma_better(cells, size, c, up, c.x as int, c.z + 1);
}

/// The lowest neighbour is the lowest: no axis neighbour of `c` that the
/// walk may step onto is strictly lower than it. So the walk stays on `c`,
/// and takes the diagonal step, exactly when no such neighbour is strictly
/// lower than `c` itself.
pub proof fn lemma_lowest_neighbor_is_lowest(cells: Seq<u32>, size: nat, c: Cell, x: int, z: int)
    requires
        is_grid(size, cells),
        c.x < size,
        c.z < size,
        is_candidate(size, x, z),
        (z == c.z && (x == c.x - 1 || x == c.x + 1)) || (x == c.x && (z == c.z - 1 || z == c.z
            + 1)),
    ensures
        !lower(
            cells[cell_index(size, x as nat, z as nat) as int],
            cells[index_of(size, lowest_neighbor(cells, size, c))],
        ),
        lower(cells[cell_index(size, x as nat, z as nat) as int], cells[index_of(size, c)])
            ==> lowest_neighbor(cells, size, c) != c,
{
    let left = better(cells, size, c, c.x - 1, c.z as int);
    let right = better(cells, size, left, c.x + 1, c.z as int);
    let up = better(cells, size, right, c.x as int, c.z - 1);
    let down = better(cells, size, up, c.x as int, c.z + 1);
    lemma_better(cells, size, c, c, c.x - 1, c.z as int);
    lemma_better(cells, size, c, left, c.x + 1, c.z as int);
    lemma_better(cells, size, c, right, c.x as int, c.z - 1);
    lemma_better(cells, size, c, up, c.x as int, c.z + 1);
    lemma_cell_in_grid(size, x as nat, z as nat);
    lemma_cell_in_grid(size, c.x as nat, c.z as nat);
    lemma_cell_in_grid(size, left.x as nat, left.z as nat);
    lemma_cell_in_grid(size, right.x as nat, right.z as nat);
    lemma_cell_in_grid(size, up.x as nat, up.z as nat);
    lemma_cell_in_grid(size, down.x as nat, down.z as nat);
}

/// A step of the walk brings it nearer to its end: either one cell fewer
/// lies below the bed once the next cell is carved, or no more do and the
/// walk has moved towards an edge.
proof fn lemma_step_decreases(cells: Seq<u32>, size: nat, c: Cell, bed: u32)
    requires
        is_grid(size, cells),
        is_number(bed),
        in_walk(size, c),
    ensures
        ({
            let carved = cells.update(index_of(size, c), bed);
            let n = next_cell(carved, size, c);
            let before = count_lower(carved, bed);
            let after = count_lower(carved.update(index_of(size, n), bed), bed);
            &&& is_grid(size, carved)
            &&& n.x < size && n.z < size
            &&& after < before || (after == before && 0 <= margin(size, n.x) < margin(size, c.x))
        }),
{
    lemma_cell_in_grid(size, c.x as nat, c.z as nat);
    let carved = cells.update(index_of(size, c), bed);
    assert(is_grid(size, carved));
    let n = next_cell(carved, size, c);
    lemma_lowest_neighbor_descends(carved, size, c);
    assert(n.x < size && n.z < size);
    lemma_cell_in_grid(size, n.x as nat, n.z as nat);
    lemma_count_update(carved, index_of(size, n), bed, bed);
}

/// What a river is once traced: the cells it runs through, from the spring
/// on, and the cell where it ends.
#[derive(Debug)]
pub struct River {
    pub path: Vec<Cell>,
    pub mouth: Cell,
}

/// Compares the lowest cell so far with the point `(x, z)`.
fn consider(field: &HeightField, best: Cell, x: u32, z: u32) -> (r: Cell)
    requires
        field.wf(),
        best.x < field@.size,
        best.z < field@.size,
    ensures
        r == better(field@.cells, field@.size, best, x as int, z as int),
        r.x < field@.size,
        r.z < field@.size,
{
    let size = field.size();
    if x > 0 && z > 0 && x < size - 1 && z < size - 1 && is_lower(
        field.height_at(x, z),
        field.height_at(best.x, best.z),
    ) {
        Cell { x, z }
    } else {
        best
    }
}

/// Finds the lowest of a cell and its four axis neighbours. A neighbour on
/// the first row or column or on the outermost ring of the grid is left out.
pub fn find_lowest_neighbor(field: &HeightField, at: Cell) -> (r: Cell)
    requires
        field.wf(),
        at.x < field@.size,
        at.z < field@.size,
    ensures
        r == lowest_neighbor(field@.cells, field@.size, at),
        r.x < field@.size,
        r.z < field@.size,
{
    let mut best = at;
    if at.x > 0 {
        best = consider(field, best, at.x - 1, at.z);
    }
    best = consider(field, best, at.x + 1, at.z);
    if at.z > 0 {
        best = consider(field, best, at.x, at.z - 1);
    }
    best = consider(field, best, at.x, at.z + 1);
    best
}

/// Moves a coordinate one step away from the middle of the grid.
fn nudge(size: u32, v: u32) -> (r: u32)
    requires
        0 < v < size,
    ensures
        r == nudged(size as nat, v),
        r <= size,
{
    if v < size / 2 {
        v - 1
    } else {
        v + 1
    }
}

/// Finds where the walk goes from a cell inside its region.
pub fn find_next_cell(field: &HeightField, at: Cell) -> (r: Cell)
    requires
        field.wf(),
        in_walk(field@.size, at),
    ensures
        r == next_cell(field@.cells, field@.size, at),
{
    let n = find_lowest_neighbor(field, at);
    if n.x == at.x && n.z == at.z {
        let size = field.size();
        Cell { x: nudge(size, at.x), z: nudge(size, at.z) }
    } else {
        n
    }
}

/// Traces a river from `start` and carves its bed into the field.
pub fn trace_river(field: &mut HeightField, start: Cell, sea_level: u32, bed: u32) -> (river: River)
    requires
        old(field).wf(),
        is_number(bed),
    ensures
        final(field).wf(),
        final(field)@.size == old(field)@.size,
        ({
            let t = walk(old(field)@.cells, old(field)@.size, start, sea_level, bed);
            &&& river.path@ == t.path
            &&& river.mouth == t.mouth
            &&& final(field)@.cells == t.cells
        }),
{
    let size = field.size();
    let ghost total = walk(field@.cells, size as nat, start, sea_level, bed);
    let mut at = start;
    let mut path: Vec<Cell> = Vec::new();
    while at.x > 1 && at.z > 1 && at.x < size - 1 && at.z < size - 1
        invariant_except_break
            total.path == path@ + walk(field@.cells, size as nat, at, sea_level, bed).path,
            total.mouth == walk(field@.cells, size as nat, at, sea_level, bed).mouth,
            total.cells == walk(field@.cells, size as nat, at, sea_level, bed).cells,
        invariant
            field.wf(),
            field@.size == size,
            is_number(bed),
        ensures
            total.path == path@,
            total.mouth == at,
            total.cells == field@.cells,
        decreases
            count_lower(field@.cells.update(index_of(size as nat, at), bed), bed),
            margin(size as nat, at.x),
    {
        let ghost before = field@.cells;
        let ghost carved = before.update(index_of(size as nat, at), bed);
        let ghost walked = path@;
        proof {
            lemma_cell_in_grid(size as nat, at.x as nat, at.z as nat);
            lemma_step_decreases(before, size as nat, at, bed);
        }
        path.push(at);
        field.set_height(at.x, at.z, bed);
        if is_at_most(field.height_at(at.x, at.z), sea_level) {
            assert(path@ =~= walked + seq![at]);
            break;
        }
        let next = find_next_cell(field, at);
        proof {
            let rest = walk(carved, size as nat, next, sea_level, bed);
            assert(path@ + rest.path =~= walked + (seq![at] + rest.path));
        }
        at = next;
    }
    River { path, mouth: at }
}

/// Where the bed lies at or below the sea, the walk stops on the cell it
/// starts from: it carves that cell if it lies inside the walk's region,
/// and nothing else.
pub proof fn lemma_walk_reaches_sea(cells: Seq<u32>, size: nat, c: Cell, sea_level: u32, bed: u32)
    requires
        is_grid(size, cells),
        is_number(bed),
        at_most(bed, sea_level),
    ensures
        ({
            let t = walk(cells, size, c, sea_level, bed);
            &&& t.mouth == c
            &&& in_walk(size, c) ==> t.path == seq![c] && t.cells == cells.update(
                index_of(size, c),
                bed,
            )
            &&& !in_walk(size, c) ==> t.path == Seq::<Cell>::empty() && t.cells == cells
        }),
{
}

/// Whatever the bed, the walk ends on a cell where it must stop: the bed is
/// at or below the sea, or the cell lies outside the walk's region. Every
/// cell of its path lies inside that region, and the field it leaves is a
/// height field of the same size.
pub proof fn lemma_walk_stops(cells: Seq<u32>, size: nat, c: Cell, sea_level: u32, bed: u32)
    requires
        is_grid(size, cells),
        is_number(bed),
    ensures
        ({
            let t = walk(cells, size, c, sea_level, bed);
            &&& at_most(bed, sea_level) || !in_walk(size, t.mouth)
            &&& forall|i: int| 0 <= i < t.path.len() ==> in_walk(size, #[trigger] t.path[i])
            &&& is_grid(size, t.cells)
        }),
    decreases count_lower(cells.update(index_of(size, c), bed), bed), margin(size, c.x),
{
    if in_walk(size, c) && !at_most(bed, sea_level) {
        let carved = cells.update(index_of(size, c), bed);
        lemma_step_decreases(cells, size, c, bed);
        lemma_walk_stops(carved, size, next_cell(carved, size, c), sea_level, bed);
    } else if in_walk(size, c) {
        lemma_step_decreases(cells, size, c, bed);
    }
}

} // verus!
