use noise::{NoiseFn, Perlin};
use rust_land::height::RIVER_BED;
use rust_land::{
    build_glb, check_parameters, generate_heightmap_glb, generate_terrain, generate_world,
    HeightField, InterestPoint, TerrainError, WorldResult, MAX_SIZE,
};

fn field_of(size: u32, default: f32, cells: &[(u32, u32, f32)]) -> HeightField {
    let mut values = vec![default.to_bits(); (size * size) as usize];
    for &(x, z, h) in cells {
        values[(z * size + x) as usize] = h.to_bits();
    }
    HeightField::new(size, values).unwrap()
}

fn sample_heights(size: u32, scale: f32, seed: u32) -> Vec<u32> {
    let perlin = Perlin::new(seed);
    let center = size as f32 / 2.0;
    let mut heights = Vec::new();
    for z in 0..size {
        for x in 0..size {
            let mut h = 0.0f32;
            let mut f = 1.0f64;
            let mut a = 1.0f64;
            for _ in 0..4 {
                let nx = x as f64 * scale as f64 * f;
                let nz = z as f64 * scale as f64 * f;
                h += perlin.get([nx, nz]) as f32 * a as f32;
                f *= 2.0;
                a *= 0.5;
            }
            let dx = x as f32 - center;
            let dz = z as f32 - center;
            let dist = (dx * dx + dz * dz).sqrt() / center;
            let mask = (1.0 - dist).max(0.0);
            heights.push((h * mask).to_bits());
        }
    }
    heights
}

fn triple(p: &InterestPoint) -> (u32, u32, &str) {
    (p.x, p.z, p.kind.as_str())
}

fn triples(points: &[InterestPoint]) -> Vec<(u32, u32, &str)> {
    points.iter().map(triple).collect()
}

#[test]
fn parameters_in_range_are_accepted() {
    assert_eq!(check_parameters(2, 0.1f32.to_bits()), Ok(()));
    assert_eq!(check_parameters(3, 0.1f32.to_bits()), Ok(()));
    assert_eq!(check_parameters(256, 0.1f32.to_bits()), Ok(()));
    assert_eq!(check_parameters(MAX_SIZE, 1.0e-30f32.to_bits()), Ok(()));
    assert_eq!(check_parameters(10923, f32::MAX.to_bits()), Ok(()));
    assert_eq!(check_parameters(2, 1), Ok(()));
    assert_eq!(check_parameters(2, f32::INFINITY.to_bits()), Ok(()));
}

#[test]
fn a_size_out_of_range_is_refused() {
    let scale = 0.1f32.to_bits();
    assert_eq!(check_parameters(0, scale), Err(TerrainError::InvalidParameter));
    assert_eq!(check_parameters(1, scale), Err(TerrainError::InvalidParameter));
    assert_eq!(check_parameters(10924, scale), Err(TerrainError::InvalidParameter));
    assert_eq!(check_parameters(65536, scale), Err(TerrainError::InvalidParameter));
    assert_eq!(check_parameters(u32::MAX, scale), Err(TerrainError::InvalidParameter));
}

#[test]
fn a_scale_that_is_not_above_zero_is_refused() {
    for scale in [0.0f32, -0.0, -0.1, -1.0, f32::NEG_INFINITY, f32::NAN, -f32::NAN, f32::MIN] {
        assert_eq!(
            check_parameters(16, scale.to_bits()),
            Err(TerrainError::InvalidParameter),
            "{:?}",
            scale
        );
    }
}

#[test]
fn check_parameters_agrees_with_the_comparison_on_many_scales() {
    let mut bits: u32 = 0xDEAD_BEEF;
    for _ in 0..100_000 {
        bits = bits.wrapping_mul(1_664_525).wrapping_add(1_013_904_223);
        assert_eq!(check_parameters(8, bits).is_ok(), f32::from_bits(bits) > 0.0);
    }
}

#[test]
fn a_peak_inside_the_region_carries_all_three_landmarks() {
    let field = field_of(7, 0.25, &[(3, 4, 0.9)]);
    let (mesh, points) = generate_terrain(field);
    assert_eq!(
        triples(&points),
        vec![(3, 4, "mountain"), (3, 4, "river_mouth"), (3, 4, "forest")]
    );
    let carved = (4 * 7 + 3) * 3 + 1;
    assert_eq!(mesh.positions[carved], RIVER_BED);
    assert_eq!(f32::from_bits(mesh.positions[carved]), -0.02);
    for (i, p) in mesh.positions.iter().enumerate() {
        if i % 3 == 1 && i != carved {
            assert_eq!(f32::from_bits(*p), 0.25);
        }
    }
}

#[test]
fn a_peak_outside_the_region_has_no_forest() {
    for (x, z) in [(0, 0), (1, 3), (3, 1), (6, 6), (6, 2), (2, 6), (5, 0)] {
        let field = field_of(7, 0.25, &[(x, z, 0.9)]);
        let before = field.cells().clone();
        let (mesh, points) = generate_terrain(field);
        assert_eq!(triples(&points), vec![(x, z, "mountain"), (x, z, "river_mouth")]);
        let heights: Vec<u32> = mesh.positions.iter().skip(1).step_by(3).copied().collect();
        assert_eq!(heights, before);
    }
}

#[test]
fn the_mountain_is_the_first_of_the_highest_cells() {
    let field = field_of(7, 0.0, &[(4, 2, 0.5), (2, 4, 0.5), (5, 5, 0.5), (3, 3, 0.25)]);
    let (_, points) = generate_terrain(field);
    assert_eq!(triple(&points[0]), (4, 2, "mountain"));
    let field = field_of(5, 0.0, &[]);
    let (_, points) = generate_terrain(field);
    assert_eq!(triples(&points), vec![(0, 0, "mountain"), (0, 0, "river_mouth")]);
}

#[test]
fn the_mountain_is_the_highest_cell_of_a_noise_field() {
    for seed in 0..6u32 {
        let size = 24u32;
        let heights = sample_heights(size, 0.1, seed);
        let field = HeightField::new(size, heights.clone()).unwrap();
        let (_, points) = generate_terrain(field);
        let peak = (points[0].z * size + points[0].x) as usize;
        let top = f32::from_bits(heights[peak]);
        for (i, h) in heights.iter().enumerate() {
            let h = f32::from_bits(*h);
            assert!(h <= top);
            if i < peak {
                assert!(h < top);
            }
        }
    }
}

#[test]
fn landmarks_are_a_mountain_a_river_mouth_and_at_most_a_forest() {
    for seed in 0..20u32 {
        for size in [2u32, 3, 4, 5, 8, 17] {
            let field = HeightField::new(size, sample_heights(size, 0.1, seed)).unwrap();
            let world = generate_world(field);
            let kinds: Vec<&str> = world.points.iter().map(|p| p.kind.as_str()).collect();
            assert!(kinds == ["mountain", "river_mouth"] || kinds == ["mountain", "river_mouth", "forest"]);
            for p in &world.points {
                assert!(p.x < size && p.z < size);
            }
        }
    }
}

#[test]
fn the_river_of_a_noise_field_ends_on_the_peak() {
    for seed in 0..10u32 {
        let size = 32u32;
        let heights = sample_heights(size, 0.1, seed);
        let field = HeightField::new(size, heights.clone()).unwrap();
        let (mesh, points) = generate_terrain(field);
        let (x, z) = (points[0].x, points[0].z);
        assert_eq!((points[1].x, points[1].z), (x, z));
        let inside = x > 1 && z > 1 && x < size - 1 && z < size - 1;
        assert_eq!(points.len(), if inside { 3 } else { 2 });
        let mut expected = heights;
        if inside {
            expected[(z * size + x) as usize] = RIVER_BED;
            assert_eq!((points[2].x, points[2].z), (x, z));
        }
        let got: Vec<u32> = mesh.positions.iter().skip(1).step_by(3).copied().collect();
        assert_eq!(got, expected);
    }
}

#[test]
fn a_world_is_the_terrain_in_its_container() {
    let heights = sample_heights(16, 0.1, 7);
    let world = generate_world(HeightField::new(16, heights.clone()).unwrap());
    let (mesh, points) = generate_terrain(HeightField::new(16, heights.clone()).unwrap());
    assert_eq!(world.glb, build_glb(&mesh.positions, &mesh.indices).unwrap());
    assert_eq!(triples(&world.points), triples(&points));
    let glb = generate_heightmap_glb(HeightField::new(16, heights).unwrap());
    assert_eq!(glb, world.glb);
}

#[test]
fn the_same_field_gives_the_same_world() {
    for seed in [1u32, 2, 99] {
        let one = generate_world(HeightField::new(20, sample_heights(20, 0.1, seed)).unwrap());
        let two = generate_world(HeightField::new(20, sample_heights(20, 0.1, seed)).unwrap());
        assert_eq!(one.glb, two.glb);
        assert_eq!(triples(&one.points), triples(&two.points));
    }
}

#[test]
fn the_smallest_world() {
    let field = field_of(2, 0.0, &[(1, 1, 0.5)]);
    let world = generate_world(field);
    assert_eq!(triples(&world.points), vec![(1, 1, "mountain"), (1, 1, "river_mouth")]);
    let json_len = u32::from_le_bytes([world.glb[12], world.glb[13], world.glb[14], world.glb[15]]);
    assert_eq!(world.glb.len(), 12 + 8 + json_len as usize + 8 + 4 * 12 + 6 * 4);
    let bin = &world.glb[world.glb.len() - 72..];
    let words: Vec<u32> = bin
        .chunks(4)
        .map(|c| u32::from_le_bytes([c[0], c[1], c[2], c[3]]))
        .collect();
    let floats: Vec<f32> = words[..12].iter().map(|w| f32::from_bits(*w)).collect();
    assert_eq!(floats, vec![0.0, 0.0, 0.0, 1.0, 0.0, 0.0, 0.0, 0.0, 1.0, 1.0, 0.5, 1.0]);
    assert_eq!(&words[12..], &[0, 1, 2, 1, 3, 2]);
}

#[test]
fn the_getter_hands_out_a_copy_of_the_container() {
    let world = generate_world(field_of(4, 0.0, &[(2, 2, 1.0)]));
    let copy = world.glb();
    assert_eq!(copy, world.glb);
    assert!(!copy.is_empty());
    let made = WorldResult { glb: vec![1, 2, 3], points: Vec::new() };
    assert_eq!(made.glb(), vec![1, 2, 3]);
}

#[test]
fn a_large_world_fits_its_container() {
    let size = 256u32;
    let world = generate_world(HeightField::new(size, sample_heights(size, 0.1, 3)).unwrap());
    let declared = u32::from_le_bytes([world.glb[8], world.glb[9], world.glb[10], world.glb[11]]);
    assert_eq!(declared as usize, world.glb.len());
    let json_len = u32::from_le_bytes([world.glb[12], world.glb[13], world.glb[14], world.glb[15]]);
    let bin_len = (12 * size * size + 24 * (size - 1) * (size - 1)) as usize;
    assert_eq!(world.glb.len(), 28 + json_len as usize + bin_len);
}
