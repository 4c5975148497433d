//! Terrain meshes with landmarks, packed as binary glTF containers.
//!
//! A height field goes in: a square grid of elevations, each a binary32
//! bit pattern. Out come the mesh of the terrain, the landmarks on it (the
//! mountain, the mouth of the river that runs from it, the forest on the
//! river's way) and the mesh packed into a container.

pub mod error;
pub mod field;
pub mod glb;
pub mod height;
pub mod mesh;
pub mod river;
pub mod terrain;
pub mod world;

pub use error::TerrainError;
pub use field::{Cell, HeightField, MAX_SIZE, MIN_SIZE};
pub use glb::build_glb;
pub use mesh::Mesh;
pub use terrain::{generate_terrain, InterestPoint};
pub use world::{check_parameters, generate_heightmap_glb, generate_world, WorldResult};
