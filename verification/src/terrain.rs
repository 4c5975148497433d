//! From a height field to a mesh and its landmarks: the peak, the river
//! that runs from it, and the forest on the river's way.

use vstd::prelude::*;
use crate::field::{
    cell_index, index_of, is_grid, is_peak, lemma_cell_in_grid, lemma_index_is_cell,
    lemma_peak_unique, Cell, HeightField,
};
use crate::height::{at_most, lemma_bed_below_sea, rank, RIVER_BED, SEA_LEVEL};
use crate::mesh::{
    emit_mesh, grid_indices, grid_positions, lemma_indices_in_range, lemma_mesh_lengths, Mesh,
};
use crate::river::{
    in_walk, lemma_walk_reaches_sea, lemma_walk_stops, trace_river, walk, Trace,
};

verus! {

/// A landmark of the terrain: a grid point and what is found there, one of
/// `mountain`, `river_mouth` and `forest`.
#[derive(Debug)]
pub struct InterestPoint {
    pub x: u32,
    pub z: u32,
    pub kind: String,
}

/// What an interest point is, as mathematics.
pub struct Landmark {
    pub x: u32,
    pub z: u32,
    pub kind: Seq<char>,
}

impl View for InterestPoint {
    type V = Landmark;

    open spec fn view(&self) -> Landmark {
        Landmark { x: self.x, z: self.z, kind: self.kind@ }
    }
}

/// The landmarks that a sequence of interest points stands for.
pub open spec fn landmarks(points: Seq<InterestPoint>) -> Seq<Landmark> {
    points.map_values(|p: InterestPoint| p@)
}

/// The landmark of the given kind at a cell.
pub open spec fn landmark_at(c: Cell, kind: Seq<char>) -> Landmark {
    Landmark { x: c.x, z: c.z, kind }
}

/// The place of the peak in the row-major sequence.
pub open spec fn peak_of(cells: Seq<u32>) -> int {
    choose|p: int| is_peak(cells, p)
}

/// The cell of the peak.
pub open spec fn peak_cell(size: nat, cells: Seq<u32>) -> Cell {
    let p = peak_of(cells);
    Cell { x: (p % size as int) as u32, z: (p / size as int) as u32 }
}

/// The river of a height field: the walk from its peak that carves down to
/// the river bed and stops at the sea.
pub open spec fn river_of(size: nat, cells: Seq<u32>) -> Trace {
    walk(cells, size, peak_cell(size, cells), SEA_LEVEL, RIVER_BED)
}

/// The landmarks of a height field, in the order in which they are handed
/// out: the mountain at the peak, the river mouth where the river ends and,
/// if the river has a path, the forest at the middle cell of that path.
pub open spec fn landmarks_of(size: nat, cells: Seq<u32>) -> Seq<Landmark> {
    let river = river_of(size, cells);
    let fixed = seq![
        landmark_at(peak_cell(size, cells), "mountain"@),
        landmark_at(river.mouth, "river_mouth"@),
    ];
    if river.path.len() > 0 {
        fixed.push(landmark_at(river.path[river.path.len() as int / 2], "forest"@))
    } else {
        fixed
    }
}

/// Whether a mesh and a list of interest points are the terrain of a height
/// field: the mesh is that of the field once the river is carved in, and
/// the points are the field's landmarks.
pub open spec fn is_terrain_of(
    size: nat,
    cells: Seq<u32>,
    positions: Seq<u32>,
    indices: Seq<u32>,
    points: Seq<Landmark>,
) -> bool {
    &&& positions == grid_positions(size, river_of(size, cells).cells)
    &&& indices == grid_indices(size)
    &&& points == landmarks_of(size, cells)
}

/// The first `n` cells have a peak.
proof fn lemma_prefix_peak(cells: Seq<u32>, n: int) -> (p: int)
    requires
        0 < n <= cells.len(),
    ensures
        is_peak(cells.take(n), p),
    decreases n,
{
    if n == 1 {
        0
    } else {
        let q = lemma_prefix_peak(cells, n - 1);
        let shorter = cells.take(n - 1);
        let longer = cells.take(n);
        assert forall|i: int| 0 <= i < n - 1 implies shorter[i] == longer[i] by {}
        if rank(cells[q]) < rank(cells[n - 1]) {
            assert forall|i: int| 0 <= i < n implies rank(#[trigger] longer[i]) <= rank(
                longer[n - 1],
            ) by {
                if i < n - 1 {
                    assert(rank(shorter[i]) <= rank(shorter[q]));
                }
            }
            assert forall|i: int| 0 <= i < n - 1 implies rank(#[trigger] longer[i]) < rank(
                longer[n - 1],
            ) by {
                assert(rank(shorter[i]) <= rank(shorter[q]));
            }
            n - 1
        } else {
            assert forall|i: int| 0 <= i < n implies rank(#[trigger] longer[i]) <= rank(
                longer[q],
            ) by {
                if i < n - 1 {
                    assert(rank(shorter[i]) <= rank(shorter[q]));
                }
            }
            assert forall|i: int| 0 <= i < q implies rank(#[trigger] longer[i]) < rank(
                longer[q],
            ) by {
                assert(rank(shorter[i]) < rank(shorter[q]));
            }
            q
        }
    }
}

/// Every height field has a peak, and `peak_of` is its place.
pub proof fn lemma_peak_exists(cells: Seq<u32>)
    requires
        cells.len() > 0,
    ensures
        is_peak(cells, peak_of(cells)),
{
    let p = lemma_prefix_peak(cells, cells.len() as int);
    assert(cells.take(cells.len() as int) =~= cells);
}

/// A height field has one terrain: two results that are both its terrain
/// are the same mesh and the same landmarks.
pub proof fn lemma_terrain_is_unique(
    size: nat,
    cells: Seq<u32>,
    positions: Seq<u32>,
    indices: Seq<u32>,
    points: Seq<Landmark>,
    other_positions: Seq<u32>,
    other_indices: Seq<u32>,
    other_points: Seq<Landmark>,
)
    requires
        is_terrain_of(size, cells, positions, indices, points),
        is_terrain_of(size, cells, other_positions, other_indices, other_points),
    ensures
        positions == other_positions,
        indices == other_indices,
        points == other_points,
{
}

/// The mountain stands on the peak of the field as it is before the river
/// is carved: no cell is higher than the mountain's, and every cell before
/// it in row-major order is strictly lower. No other cell is such a peak.
pub proof fn lemma_mountain_is_peak(size: nat, cells: Seq<u32>)
    requires
        is_grid(size, cells),
    ensures
        ({
            let mountain = landmarks_of(size, cells)[0];
            let place = cell_index(size, mountain.x as nat, mountain.z as nat) as int;
            &&& mountain.kind == "mountain"@
            &&& mountain.x < size && mountain.z < size
            &&& is_peak(cells, place)
            &&& forall|q: int| is_peak(cells, q) ==> q == place
        }),
{
    lemma_cell_in_grid(size, 0, 0);
    lemma_peak_exists(cells);
    let p = peak_of(cells);
    lemma_index_is_cell(size, p as nat);
    assert forall|q: int| is_peak(cells, q) implies q == p by {
        lemma_peak_unique(cells, q, p);
    }
}

/// The river ends where it starts. The river bed lies below the sea, so
/// the walk stops on the peak after at most one step, which is fewer than
/// twice the side of the grid: it carves the peak if the peak lies inside
/// the walk's region, and nothing else. Where it stops, the cell is at or
/// below the sea or lies outside the walk's region.
pub proof fn lemma_river_ends_on_peak(size: nat, cells: Seq<u32>)
    requires
        is_grid(size, cells),
    ensures
        ({
            let river = river_of(size, cells);
            let peak = peak_cell(size, cells);
            &&& river.mouth == peak
            &&& river.path.len() <= 1
            &&& river.path.len() <= 2 * size
            &&& river.path == if in_walk(size, peak) {
                seq![peak]
            } else {
                Seq::<Cell>::empty()
            }
            &&& river.cells == if in_walk(size, peak) {
                cells.update(index_of(size, peak), RIVER_BED)
            } else {
                cells
            }
            &&& is_grid(size, river.cells)
            &&& !in_walk(size, river.mouth) || at_most(
                river.cells[index_of(size, river.mouth)],
                SEA_LEVEL,
            )
        }),
{
    let peak = peak_cell(size, cells);
    lemma_bed_below_sea();
    lemma_walk_reaches_sea(cells, size, peak, SEA_LEVEL, RIVER_BED);
    lemma_walk_stops(cells, size, peak, SEA_LEVEL, RIVER_BED);
    if in_walk(size, peak) {
        lemma_cell_in_grid(size, peak.x as nat, peak.z as nat);
    }
}

/// Of the landmarks exactly one is a mountain, the first; exactly one is a
/// river mouth, the second; and at most one is a forest, the third, which
/// is there exactly when the peak lies inside the walk's region. All of
/// them stand on the peak.
pub proof fn lemma_landmark_kinds(size: nat, cells: Seq<u32>)
    requires
        is_grid(size, cells),
    ensures
        ({
            let points = landmarks_of(size, cells);
            let peak = peak_cell(size, cells);
            &&& points.len() == if in_walk(size, peak) {
                3nat
            } else {
                2nat
            }
            &&& forall|i: int|
                0 <= i < points.len() ==> (#[trigger] points[i].kind == "mountain"@ <==> i == 0)
            &&& forall|i: int|
                0 <= i < points.len() ==> (#[trigger] points[i].kind == "river_mouth"@ <==> i
                    == 1)
            &&& forall|i: int|
                0 <= i < points.len() ==> (#[trigger] points[i].kind == "forest"@ <==> i == 2)
            &&& forall|i: int|
                0 <= i < points.len() ==> (#[trigger] points[i]).x == peak.x && points[i].z
                    == peak.z
        }),
{
    lemma_river_ends_on_peak(size, cells);
    reveal_strlit("mountain");
    reveal_strlit("river_mouth");
    reveal_strlit("forest");
    assert("mountain"@.len() == 8);
    assert("river_mouth"@.len() == 11);
    assert("forest"@.len() == 6);
}

/// Builds the mesh and the landmarks of a height field. The river is carved
/// into the field before the mesh is made.
///
/// The mountain stands on the peak. The river bed lies below the sea, so
/// the river ends on the peak too, and the forest, which is there when the
/// river has carved a cell, stands on that same cell.
pub fn generate_terrain(field: HeightField) -> (r: (Mesh, Vec<InterestPoint>))
    requires
        field.wf(),
    ensures
        is_terrain_of(
            field@.size,
            field@.cells,
            r.0.positions@,
            r.0.indices@,
            landmarks(r.1@),
        ),
        r.0.positions@.len() == 3 * field@.size * field@.size,
        r.0.indices@.len() == 6 * (field@.size - 1) * (field@.size - 1),
        forall|j: int|
            0 <= j < r.0.indices@.len() ==> #[trigger] r.0.indices@[j] < field@.size
                * field@.size,
        ({
            let peak = peak_cell(field@.size, field@.cells);
            &&& peak.x < field@.size && peak.z < field@.size
            &&& is_peak(field@.cells, index_of(field@.size, peak))
            &&& r.1@.len() == if in_walk(field@.size, peak) {
                3nat
            } else {
                2nat
            }
            &&& r.1@[0]@ == landmark_at(peak, "mountain"@)
            &&& r.1@[1]@ == landmark_at(peak, "river_mouth"@)
            &&& r.1@.len() == 3 ==> r.1@[2]@ == landmark_at(peak, "forest"@)
        }),
{
    proof {
        lemma_mesh_lengths(field@.size, river_of(field@.size, field@.cells).cells);
        lemma_indices_in_range(field@.size);
        lemma_mountain_is_peak(field@.size, field@.cells);
        lemma_river_ends_on_peak(field@.size, field@.cells);
    }
    let mut field = field;
    let ghost size = field@.size;
    let ghost cells = field@.cells;
    let side = field.size();
    let peak_idx = field.find_peak();
    proof {
        lemma_peak_exists(cells);
        lemma_peak_unique(cells, peak_idx as int, peak_of(cells));
        lemma_cell_in_grid(size, 0, 0);
        lemma_index_is_cell(size, peak_idx as nat);
    }
    let peak = Cell { x: (peak_idx as u32) % side, z: (peak_idx as u32) / side };
    assert(peak == peak_cell(size, cells));

    let river = trace_river(&mut field, peak, SEA_LEVEL, RIVER_BED);

    let mut points: Vec<InterestPoint> = Vec::new();
    points.push(InterestPoint { x: peak.x, z: peak.z, kind: "mountain".to_owned() });
    points.push(
        InterestPoint { x: river.mouth.x, z: river.mouth.z, kind: "river_mouth".to_owned() },
    );
    if river.path.len() > 0 {
        let middle = river.path[river.path.len() / 2];
        points.push(InterestPoint { x: middle.x, z: middle.z, kind: "forest".to_owned() });
    }
    assert(landmarks(points@) =~= landmarks_of(size, cells));

    let mesh = emit_mesh(&field);
    (mesh, points)
}

} // verus!
