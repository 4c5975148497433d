use rust_land::field::{Cell, HeightField, MAX_SIZE, MIN_SIZE};
use rust_land::TerrainError;

fn bits(values: &[f32]) -> Vec<u32> {
    values.iter().map(|v| v.to_bits()).collect()
}

fn flat(size: u32, value: f32) -> Vec<u32> {
    vec![value.to_bits(); (size * size) as usize]
}

#[test]
fn limits_are_as_documented() {
    assert_eq!(MIN_SIZE, 2);
    assert_eq!(MAX_SIZE, 10923);
}

#[test]
fn new_accepts_a_grid_of_the_right_length() {
    let cells = bits(&[0.0, 1.0, 2.0, 3.0]);
    let field = HeightField::new(2, cells.clone()).unwrap();
    assert_eq!(field.size(), 2);
    assert_eq!(field.cells(), &cells);
}

#[test]
fn new_refuses_a_size_below_two() {
    assert_eq!(HeightField::new(0, vec![]).err(), Some(TerrainError::InvalidParameter));
    assert_eq!(HeightField::new(1, bits(&[0.5])).err(), Some(TerrainError::InvalidParameter));
}

#[test]
fn new_refuses_a_size_above_the_limit() {
    assert_eq!(
        HeightField::new(MAX_SIZE + 1, vec![]).err(),
        Some(TerrainError::InvalidParameter)
    );
    assert_eq!(HeightField::new(u32::MAX, vec![]).err(), Some(TerrainError::InvalidParameter));
    assert_eq!(HeightField::new(65536, vec![]).err(), Some(TerrainError::InvalidParameter));
}

#[test]
fn new_refuses_a_wrong_number_of_cells() {
    assert_eq!(HeightField::new(2, flat(3, 0.0)).err(), Some(TerrainError::InvalidParameter));
    assert_eq!(HeightField::new(3, flat(2, 0.0)).err(), Some(TerrainError::InvalidParameter));
    assert_eq!(HeightField::new(2, vec![]).err(), Some(TerrainError::InvalidParameter));
    assert_eq!(HeightField::new(2, bits(&[0.0; 5])).err(), Some(TerrainError::InvalidParameter));
}

#[test]
fn new_refuses_a_nan() {
    let mut cells = flat(3, 0.25);
    cells[8] = f32::NAN.to_bits();
    assert_eq!(HeightField::new(3, cells).err(), Some(TerrainError::InvalidParameter));
    let mut cells = flat(3, 0.25);
    cells[0] = 0xFFC0_0000;
    assert_eq!(HeightField::new(3, cells).err(), Some(TerrainError::InvalidParameter));
}

#[test]
fn new_accepts_infinities_and_both_zeros() {
    let cells = bits(&[f32::INFINITY, f32::NEG_INFINITY, 0.0, -0.0]);
    assert!(HeightField::new(2, cells).is_ok());
}

#[test]
fn height_at_reads_row_major() {
    let cells = bits(&[0.0, 1.0, 2.0, 3.0, 4.0, 5.0, 6.0, 7.0, 8.0]);
    let field = HeightField::new(3, cells).unwrap();
    assert_eq!(field.height_at(0, 0), 0.0f32.to_bits());
    assert_eq!(field.height_at(2, 0), 2.0f32.to_bits());
    assert_eq!(field.height_at(0, 1), 3.0f32.to_bits());
    assert_eq!(field.height_at(1, 2), 7.0f32.to_bits());
    assert_eq!(field.height_at(2, 2), 8.0f32.to_bits());
}

#[test]
fn set_height_changes_one_cell() {
    let cells = bits(&[0.0, 1.0, 2.0, 3.0, 4.0, 5.0, 6.0, 7.0, 8.0]);
    let mut field = HeightField::new(3, cells.clone()).unwrap();
    field.set_height(1, 2, (-0.02f32).to_bits());
    let mut expected = cells;
    expected[7] = (-0.02f32).to_bits();
    assert_eq!(field.cells(), &expected);
    assert_eq!(field.size(), 3);
}

#[test]
fn find_peak_finds_the_highest_cell() {
    let field = HeightField::new(3, bits(&[0.0, 0.1, 0.2, 0.3, 0.9, 0.5, 0.6, 0.7, 0.8])).unwrap();
    assert_eq!(field.find_peak(), 4);
    let field = HeightField::new(2, bits(&[-3.0, -1.0, -2.0, -4.0])).unwrap();
    assert_eq!(field.find_peak(), 1);
}

#[test]
fn find_peak_takes_the_first_of_equal_cells() {
    let field = HeightField::new(3, bits(&[0.0, 0.7, 0.2, 0.7, 0.1, 0.7, 0.6, 0.7, 0.3])).unwrap();
    assert_eq!(field.find_peak(), 1);
    let field = HeightField::new(3, flat(3, 0.0)).unwrap();
    assert_eq!(field.find_peak(), 0);
}

#[test]
fn find_peak_treats_both_zeros_as_equal() {
    let field = HeightField::new(2, bits(&[-0.0, 0.0, -1.0, 0.0])).unwrap();
    assert_eq!(field.find_peak(), 0);
}

#[test]
fn find_peak_is_the_last_cell_of_a_rising_grid() {
    let values: Vec<f32> = (0..25).map(|i| i as f32 * 0.125 - 1.0).collect();
    let field = HeightField::new(5, bits(&values)).unwrap();
    assert_eq!(field.find_peak(), 24);
}

#[test]
fn cells_compare_by_their_fields() {
    assert_eq!(Cell { x: 1, z: 2 }, Cell { x: 1, z: 2 });
    assert_ne!(Cell { x: 1, z: 2 }, Cell { x: 2, z: 1 });
}
