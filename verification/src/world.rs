//! A whole world in one call: the terrain of a height field and its
//! container.

use vstd::prelude::*;
use crate::error::TerrainError;
use crate::field::{HeightField, MAX_SIZE, MIN_SIZE};
use crate::glb::{container, fits, lemma_small_mesh_fits, pack, write_metadata, MAX_WORDS};
use crate::height::{is_lower, lower};
use crate::mesh::{grid_indices, grid_positions, lemma_mesh_lengths, Mesh};
use crate::terrain::{generate_terrain, landmarks, landmarks_of, river_of, InterestPoint};

verus! {

/// The pattern of the number zero.
pub const ZERO: u32 = 0;

/// A generated world: the container of its mesh, and its landmarks.
#[derive(Debug)]
pub struct WorldResult {
    pub glb: Vec<u8>,
    pub points: Vec<InterestPoint>,
}

/// Whether a grid size and a noise scale, given as a binary32 pattern, can
/// be worked on: the size is supported and the scale is a number above
/// zero.
pub open spec fn valid_parameters(size: u32, scale: u32) -> bool {
    MIN_SIZE <= size <= MAX_SIZE && lower(ZERO, scale)
}

/// The mesh of a height field in its container.
pub open spec fn world_container(size: nat, cells: Seq<u32>) -> Seq<u8> {
    container(grid_positions(size, river_of(size, cells).cells), grid_indices(size))
}

/// The container of every supported grid fits: the largest has 10923 cells
/// to a side, and with them 4 294 705 164 bytes of positions and indices.
pub proof fn lemma_grid_fits(size: nat)
    requires
        MIN_SIZE <= size <= MAX_SIZE,
    ensures
        3 * size * size <= MAX_WORDS,
        6 * (size - 1) * (size - 1) <= MAX_WORDS,
        fits((3 * size * size) as nat, (6 * (size - 1) * (size - 1)) as nat),
{
    assert(0 <= 3 * size * size <= 3 * MAX_SIZE * MAX_SIZE) by (nonlinear_arith)
        requires
            size <= MAX_SIZE,
    ;
    assert(0 <= 6 * (size - 1) * (size - 1) <= 6 * (MAX_SIZE - 1) * (MAX_SIZE - 1))
        by (nonlinear_arith)
        requires
            1 <= size <= MAX_SIZE,
    ;
    lemma_small_mesh_fits((3 * size * size) as nat, (6 * (size - 1) * (size - 1)) as nat);
}

/// One cell more to a side, and the container no longer fits.
pub proof fn lemma_max_size_is_largest()
    ensures
        !fits((3 * (MAX_SIZE + 1) * (MAX_SIZE + 1)) as nat, (6 * MAX_SIZE * MAX_SIZE) as nat),
{
    assert(3 * (MAX_SIZE + 1) * (MAX_SIZE + 1) == 358_001_328) by (nonlinear_arith);
    assert(6 * MAX_SIZE * MAX_SIZE == 715_871_574) by (nonlinear_arith);
}

impl WorldResult {
    /// A copy of the container.
    pub fn glb(&self) -> (bytes: Vec<u8>)
        ensures
            bytes@ == self.glb@,
    {
        self.glb.clone()
    }
}

/// Accepts a grid size and a noise scale, or refuses them.
pub fn check_parameters(size: u32, scale: u32) -> (r: Result<(), TerrainError>)
    ensures
        r is Ok <==> valid_parameters(size, scale),
        r is Err ==> r == Err::<(), TerrainError>(TerrainError::InvalidParameter),
{
    if size < MIN_SIZE || size > MAX_SIZE || !is_lower(ZERO, scale) {
        Err(TerrainError::InvalidParameter)
    } else {
        Ok(())
    }
}

/// Packs the mesh of a supported grid.
fn pack_mesh(mesh: &Mesh, size: Ghost<nat>, cells: Ghost<Seq<u32>>) -> (bytes: Vec<u8>)
    requires
        MIN_SIZE <= size@ <= MAX_SIZE,
        mesh.positions@ == grid_positions(size@, cells@),
        mesh.indices@ == grid_indices(size@),
    ensures
        bytes@ == container(mesh.positions@, mesh.indices@),
{
    proof {
        lemma_mesh_lengths(size@, cells@);
        lemma_grid_fits(size@);
    }
    let json = write_metadata(mesh.positions.len(), mesh.indices.len());
    pack(mesh.positions.as_slice(), mesh.indices.as_slice(), json.as_slice())
}

/// Generates the terrain of a height field and returns the container of
/// its mesh.
pub fn generate_heightmap_glb(field: HeightField) -> (bytes: Vec<u8>)
    requires
        field.wf(),
    ensures
        bytes@ == world_container(field@.size, field@.cells),
{
    let ghost size = field@.size;
    let ghost cells = field@.cells;
    let (mesh, _) = generate_terrain(field);
    pack_mesh(&mesh, Ghost(size), Ghost(river_of(size, cells).cells))
}

/// Generates the terrain of a height field and returns the container of
/// its mesh together with the landmarks: the mountain, the mouth of the
/// river that runs from it, and the forest on the river's way.
pub fn generate_world(field: HeightField) -> (world: WorldResult)
    requires
        field.wf(),
    ensures
        world.glb@ == world_container(field@.size, field@.cells),
        landmarks(world.points@) == landmarks_of(field@.size, field@.cells),
{
    let ghost size = field@.size;
    let ghost cells = field@.cells;
    let (mesh, points) = generate_terrain(field);
    let glb = pack_mesh(&mesh, Ghost(size), Ghost(river_of(size, cells).cells));
    WorldResult { glb, points }
}

} // verus!
