use fracgm::matrix::Matrix;
use fracgm::registration::{
    rotation_block, se3_mat_to_vec, se3_vec_to_mat, with_rotation_block, LinearRegistrationSolver,
};
use fracgm::rotation::{rot_mat_to_vec, rot_vec_to_mat, LinearRotationSolver};
use fracgm::translation::{trans_mat_to_vec, trans_vec_to_mat, LinearTranslationSolver};

fn matrix(rows: usize, cols: usize, cells: &[f64]) -> Matrix<f64> {
    Matrix::from_vec(rows, cols, cells.to_vec()).unwrap()
}

fn rotation() -> Matrix<f64> {
    matrix(3, 3, &[11.0, 12.0, 13.0, 21.0, 22.0, 23.0, 31.0, 32.0, 33.0])
}

fn transform() -> Matrix<f64> {
    matrix(
        4,
        4,
        &[
            11.0, 12.0, 13.0, 0.3, //
            21.0, 22.0, 23.0, 0.2, //
            31.0, 32.0, 33.0, 0.6, //
            0.0, 0.0, 0.0, 1.0,
        ],
    )
}

#[test]
fn from_vec_checks_the_number_of_cells() {
    assert!(Matrix::from_vec(2, 3, vec![0.0; 6]).is_some());
    assert!(Matrix::from_vec(2, 3, vec![0.0; 5]).is_none());
    assert!(Matrix::from_vec(2, 3, vec![0.0; 7]).is_none());
    assert!(Matrix::from_vec(0, 3, Vec::<f64>::new()).is_some());
    assert!(Matrix::from_vec(usize::MAX, 2, vec![0.0; 4]).is_none());
}

#[test]
fn cells_are_stored_row_by_row() {
    let m = matrix(2, 3, &[1.0, 2.0, 3.0, 4.0, 5.0, 6.0]);
    assert_eq!(m.nrows(), 2);
    assert_eq!(m.ncols(), 3);
    assert_eq!(m.get(0, 0), 1.0);
    assert_eq!(m.get(0, 2), 3.0);
    assert_eq!(m.get(1, 0), 4.0);
    assert_eq!(m.get(1, 2), 6.0);
    assert_eq!(m.as_slice(), &[1.0, 2.0, 3.0, 4.0, 5.0, 6.0]);
    assert_eq!(m.to_vec(), vec![1.0, 2.0, 3.0, 4.0, 5.0, 6.0]);
    assert_eq!(m.into_vec(), vec![1.0, 2.0, 3.0, 4.0, 5.0, 6.0]);
}

#[test]
fn set_changes_one_cell_only() {
    let mut m = Matrix::filled(2, 2, 7.0);
    assert_eq!(m.to_vec(), vec![7.0; 4]);
    m.set(1, 0, -1.0);
    assert_eq!(m.to_vec(), vec![7.0, 7.0, -1.0, 7.0]);
}

#[test]
fn rotation_is_flattened_column_by_column() {
    let v = rot_mat_to_vec(&rotation(), 1.0);
    assert_eq!(v.nrows(), 10);
    assert_eq!(v.ncols(), 1);
    assert_eq!(v.to_vec(), vec![11.0, 21.0, 31.0, 12.0, 22.0, 32.0, 13.0, 23.0, 33.0, 1.0]);
}

#[test]
fn rotation_is_read_back_from_the_vector() {
    let v = matrix(10, 1, &[11.0, 21.0, 31.0, 12.0, 22.0, 32.0, 13.0, 23.0, 33.0, 1.0]);
    let rot = rot_vec_to_mat(&v);
    assert_eq!(rot.nrows(), 3);
    assert_eq!(rot.ncols(), 3);
    assert_eq!(rot.to_vec(), rotation().to_vec());
}

#[test]
fn rotation_decoding_takes_nine_entries_of_a_longer_vector() {
    let v = matrix(9, 1, &[1.0, 2.0, 3.0, 4.0, 5.0, 6.0, 7.0, 8.0, 9.0]);
    assert_eq!(rot_vec_to_mat(&v).to_vec(), vec![1.0, 4.0, 7.0, 2.0, 5.0, 8.0, 3.0, 6.0, 9.0]);
}

#[test]
fn rotation_round_trips() {
    let solver = LinearRotationSolver::new(100, 1e-6, 0.1, 1.0);
    let back = solver.vec_to_mat(&solver.mat_to_vec(&rotation(), 1.0));
    assert_eq!(back.to_vec(), rotation().to_vec());
    assert_eq!(solver.dim(), 10);
    assert_eq!(solver.max_iteration(), 100);
    assert_eq!(solver.tol(), 1e-6);
    assert_eq!(solver.c(), 1.0);
    assert_eq!(solver.noise_bound, 0.1);
}

#[test]
fn rigid_motion_is_flattened_rotation_then_translation_then_one() {
    let v = se3_mat_to_vec(&transform(), 1.0);
    assert_eq!(v.nrows(), 13);
    assert_eq!(v.ncols(), 1);
    assert_eq!(
        v.to_vec(),
        vec![11.0, 21.0, 31.0, 12.0, 22.0, 32.0, 13.0, 23.0, 33.0, 0.3, 0.2, 0.6, 1.0]
    );
}

#[test]
fn rigid_motion_is_read_back_as_a_homogeneous_transform() {
    let v = matrix(
        13,
        1,
        &[11.0, 21.0, 31.0, 12.0, 22.0, 32.0, 13.0, 23.0, 33.0, 0.3, 0.2, 0.6, 5.0],
    );
    let mat = se3_vec_to_mat(&v, 0.0, 1.0);
    assert_eq!(mat.to_vec(), transform().to_vec());
}

#[test]
fn rigid_motion_round_trips() {
    let solver = LinearRegistrationSolver::new(50, 1e-6, 0.1, 1.0);
    let back = solver.vec_to_mat(&solver.mat_to_vec(&transform(), 1.0), 0.0, 1.0);
    assert_eq!(back.to_vec(), transform().to_vec());
    assert_eq!(solver.dim(), 13);
    assert_eq!(solver.max_iteration(), 50);
}

#[test]
fn rotation_block_is_the_top_left_corner() {
    assert_eq!(rotation_block(&transform()).to_vec(), rotation().to_vec());
}

#[test]
fn replacing_the_rotation_block_keeps_the_rest() {
    let eye = matrix(3, 3, &[1.0, 0.0, 0.0, 0.0, 1.0, 0.0, 0.0, 0.0, 1.0]);
    let out = with_rotation_block(&transform(), &eye);
    assert_eq!(
        out.to_vec(),
        vec![
            1.0, 0.0, 0.0, 0.3, //
            0.0, 1.0, 0.0, 0.2, //
            0.0, 0.0, 1.0, 0.6, //
            0.0, 0.0, 0.0, 1.0,
        ]
    );
}

#[test]
fn registration_projection_replaces_only_the_rotation_block() {
    let solver = LinearRegistrationSolver::new(50, 1e-6, 0.1, 1.0);
    // A stand-in for the projection onto the rotations: negate the block.
    let out = solver.project(&transform(), |block: Matrix<f64>| {
        let cells: Vec<f64> = block.to_vec().iter().map(|x| -x).collect();
        Matrix::from_vec(3, 3, cells).unwrap()
    });
    assert_eq!(
        out.to_vec(),
        vec![
            -11.0, -12.0, -13.0, 0.3, //
            -21.0, -22.0, -23.0, 0.2, //
            -31.0, -32.0, -33.0, 0.6, //
            0.0, 0.0, 0.0, 1.0,
        ]
    );
}

#[test]
fn translation_is_followed_by_one() {
    let t = matrix(3, 1, &[0.3, 0.2, 0.6]);
    let v = trans_mat_to_vec(&t, 1.0);
    assert_eq!(v.nrows(), 4);
    assert_eq!(v.to_vec(), vec![0.3, 0.2, 0.6, 1.0]);
}

#[test]
fn translation_is_the_first_three_rows() {
    let v = matrix(4, 1, &[0.3, 0.2, 0.6, 1.0]);
    let t = trans_vec_to_mat(&v);
    assert_eq!(t.nrows(), 3);
    assert_eq!(t.ncols(), 1);
    assert_eq!(t.to_vec(), vec![0.3, 0.2, 0.6]);
}

#[test]
fn translation_round_trips_and_projects_onto_itself() {
    let solver = LinearTranslationSolver::new(10, 1e-9, 0.1, 1.0);
    let t = matrix(3, 1, &[0.3, 0.2, 0.6]);
    let back = solver.vec_to_mat(&solver.mat_to_vec(&t, 1.0));
    assert_eq!(back.to_vec(), t.to_vec());
    let projected = solver.project(&t);
    assert_eq!(projected.nrows(), 3);
    assert_eq!(projected.ncols(), 1);
    assert_eq!(projected.to_vec(), t.to_vec());
    assert_eq!(solver.dim(), 4);
}
