use rust_land::field::HeightField;
use rust_land::mesh::{emit_indices, emit_mesh, emit_positions};

fn field_of(size: u32, values: &[f32]) -> HeightField {
    HeightField::new(size, values.iter().map(|v| v.to_bits()).collect()).unwrap()
}

fn floats(words: &[u32]) -> Vec<f32> {
    words.iter().map(|w| f32::from_bits(*w)).collect()
}

#[test]
fn positions_of_the_smallest_grid() {
    let field = field_of(2, &[0.5, -0.25, 1.5, 0.0]);
    let positions = emit_positions(&field);
    assert_eq!(
        floats(&positions),
        vec![0.0, 0.5, 0.0, 1.0, -0.25, 0.0, 0.0, 1.5, 1.0, 1.0, 0.0, 1.0]
    );
}

#[test]
fn positions_keep_the_bits_of_each_elevation() {
    let cells = vec![0x8000_0000, 0x0000_0001, 0x7F80_0000, 0xFF80_0000];
    let field = HeightField::new(2, cells.clone()).unwrap();
    let positions = emit_positions(&field);
    for (i, c) in cells.iter().enumerate() {
        assert_eq!(positions[3 * i + 1], *c);
    }
}

#[test]
fn positions_run_row_by_row() {
    let values: Vec<f32> = (0..12 * 12).map(|i| i as f32 * 0.01).collect();
    let field = field_of(12, &values);
    let positions = floats(&emit_positions(&field));
    assert_eq!(positions.len(), 3 * 12 * 12);
    for z in 0..12usize {
        for x in 0..12usize {
            let i = z * 12 + x;
            assert_eq!(positions[3 * i], x as f32);
            assert_eq!(positions[3 * i + 1], values[i]);
            assert_eq!(positions[3 * i + 2], z as f32);
        }
    }
}

#[test]
fn indices_of_the_smallest_grid() {
    assert_eq!(emit_indices(2), vec![0, 1, 2, 1, 3, 2]);
}

#[test]
fn indices_of_a_grid_of_three() {
    assert_eq!(
        emit_indices(3),
        vec![0, 1, 3, 1, 4, 3, 1, 2, 4, 2, 5, 4, 3, 4, 6, 4, 7, 6, 4, 5, 7, 5, 8, 7]
    );
}

#[test]
fn indices_wind_each_quad_the_same_way() {
    let size = 9u32;
    let indices = emit_indices(size);
    let mut k = 0;
    for z in 0..size - 1 {
        for x in 0..size - 1 {
            let i = z * size + x;
            assert_eq!(
                &indices[k..k + 6],
                &[i, i + 1, i + size, i + 1, i + size + 1, i + size]
            );
            k += 6;
        }
    }
    assert_eq!(k, indices.len());
}

#[test]
fn lengths_follow_the_size() {
    for size in 2..=40u32 {
        let field = field_of(size, &vec![0.0; (size * size) as usize]);
        let mesh = emit_mesh(&field);
        assert_eq!(mesh.positions.len(), (3 * size * size) as usize);
        assert_eq!(mesh.indices.len(), (6 * (size - 1) * (size - 1)) as usize);
    }
}

#[test]
fn every_index_names_a_vertex() {
    for size in 2..=40u32 {
        let indices = emit_indices(size);
        assert!(indices.iter().all(|i| *i < size * size));
        assert_eq!(*indices.iter().max().unwrap(), size * size - 1);
        assert_eq!(*indices.iter().min().unwrap(), 0);
    }
}

#[test]
fn the_mesh_is_made_of_both_parts() {
    let field = field_of(3, &[0.0, 0.1, 0.2, 0.3, 0.4, 0.5, 0.6, 0.7, 0.8]);
    let mesh = emit_mesh(&field);
    assert_eq!(mesh.positions, emit_positions(&field));
    assert_eq!(mesh.indices, emit_indices(3));
}
