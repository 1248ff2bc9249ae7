use grid_analysis::error::ProcessingFault;
use grid_analysis::grid::Grid;
use grid_analysis::matrix::{Matrix, HIGH, LOW};

fn matrix(width: usize, height: usize, levels: &[u8]) -> Matrix {
    Matrix::from_parts(width, height, levels.to_vec()).expect("buffer matches the dimensions")
}

#[test]
fn sentinels_are_the_ends_of_the_byte_range() {
    assert_eq!(LOW, 0);
    assert_eq!(HIGH, 255);
}

#[test]
fn buffer_of_matching_size_is_taken() {
    let m = matrix(3, 2, &[1, 2, 3, 4, 5, 6]);
    assert_eq!((m.width(), m.height()), (3, 2));
    assert_eq!(m.levels(), &vec![1, 2, 3, 4, 5, 6]);
    assert_eq!(m.level(0, 0), 1);
    assert_eq!(m.level(0, 2), 3);
    assert_eq!(m.level(1, 0), 4);
    assert_eq!(m.level(1, 2), 6);
}

#[test]
fn buffer_of_other_size_is_refused() {
    assert_eq!(Matrix::from_parts(3, 2, vec![0; 5]).err(), Some(ProcessingFault::Dimensions));
    assert_eq!(Matrix::from_parts(3, 2, vec![0; 7]).err(), Some(ProcessingFault::Dimensions));
    assert_eq!(Matrix::from_parts(0, 2, Vec::new()).err(), Some(ProcessingFault::Dimensions));
    assert_eq!(Matrix::from_parts(2, 0, Vec::new()).err(), Some(ProcessingFault::Dimensions));
    assert_eq!(
        Matrix::from_parts(0x8000_0000, 1, Vec::new()).err(),
        Some(ProcessingFault::Dimensions)
    );
}

#[test]
fn constant_matrix_has_the_grid_dimensions() {
    let grid = Grid::from_rows(&vec![vec![1u32, 2, 3], vec![4, 5, 6]]).unwrap();
    let m = Matrix::constant(&grid, 9);
    assert_eq!((m.width(), m.height()), (3, 2));
    assert_eq!(m.levels(), &vec![9u8; 6]);
}

#[test]
fn invert_complements_every_level() {
    let m = matrix(2, 2, &[0, 1, 128, 255]);
    let inv = m.invert();
    assert_eq!((inv.width(), inv.height()), (2, 2));
    assert_eq!(inv.levels(), &vec![255, 254, 127, 0]);
}

#[test]
fn invert_twice_gives_the_matrix_back() {
    let all: Vec<u8> = (0..=255).collect();
    let m = matrix(16, 16, &all);
    assert_eq!(m.invert().invert().levels(), m.levels());
    assert_ne!(m.invert().levels(), m.levels());
}

#[test]
fn two_level_matrices_are_told_apart() {
    assert!(matrix(2, 2, &[0, 255, 255, 0]).is_two_level());
    assert!(matrix(2, 1, &[0, 0]).is_two_level());
    assert!(matrix(2, 1, &[255, 255]).is_two_level());
    assert!(!matrix(2, 2, &[0, 255, 254, 0]).is_two_level());
    assert!(!matrix(1, 1, &[1]).is_two_level());
}

#[test]
fn cut_yields_its_least_threshold() {
    let source = matrix(3, 2, &[10, 20, 30, 200, 210, 220]);
    let binary = matrix(3, 2, &[0, 0, 0, 255, 255, 255]);
    assert_eq!(binary.split_threshold(&source), Some(30));
    let binary = matrix(3, 2, &[0, 255, 255, 255, 255, 255]);
    assert_eq!(binary.split_threshold(&source), Some(10));
}

#[test]
fn one_sided_cuts_have_thresholds_too() {
    let source = matrix(2, 2, &[10, 20, 30, 40]);
    assert_eq!(matrix(2, 2, &[255; 4]).split_threshold(&source), Some(0));
    assert_eq!(matrix(2, 2, &[0; 4]).split_threshold(&source), Some(40));
    let with_zero = matrix(2, 2, &[0, 20, 30, 40]);
    assert_eq!(matrix(2, 2, &[255; 4]).split_threshold(&with_zero), None);
    let with_top = matrix(2, 2, &[0, 20, 30, 255]);
    assert_eq!(matrix(2, 2, &[0; 4]).split_threshold(&with_top), Some(255));
}

#[test]
fn matrices_that_cut_nothing_are_refused() {
    let source = matrix(3, 2, &[10, 20, 30, 200, 210, 220]);
    // a low cell above a high cell
    assert_eq!(matrix(3, 2, &[0, 255, 0, 255, 255, 255]).split_threshold(&source), None);
    // equal source levels on both sides
    let ties = matrix(2, 1, &[50, 50]);
    assert_eq!(matrix(2, 1, &[0, 255]).split_threshold(&ties), None);
    // a third level
    assert_eq!(matrix(3, 2, &[0, 0, 1, 255, 255, 255]).split_threshold(&source), None);
    // another size
    assert_eq!(matrix(2, 2, &[0, 0, 255, 255]).split_threshold(&source), None);
}
