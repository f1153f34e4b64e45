use recon_core::{
    mart_reconstruct, mart_step, update_ray, DenseMatrix, MartOps, MatrixError, ReconError,
};

fn f32_ops(
    relaxation: f32,
) -> MartOps<
    f32,
    impl Fn(f32, f32, f32) -> f32,
    impl Fn(f32) -> bool,
    impl Fn(f32) -> bool,
    impl Fn(f32, f32) -> f32,
    impl Fn(f32, f32) -> f32,
> {
    MartOps {
        zero: 0.0,
        one: 1.0,
        mul_add: |acc: f32, a: f32, x: f32| acc + a * x,
        skips: |p: f32| p <= 0.0,
        weighted: |a: f32| a > 0.0,
        factor: move |y: f32, p: f32| (y / p).powf(relaxation),
        scale: |x: f32, f: f32| x * f,
    }
}

fn matrix(cols: usize, rows: Vec<Vec<f32>>) -> DenseMatrix<f32> {
    DenseMatrix::from_rows(cols, rows).unwrap()
}

fn residuals(a: &[Vec<f32>], y: &[f32], x: &[f32]) -> f32 {
    let mut worst = 0.0f32;
    for (row, yi) in a.iter().zip(y) {
        let p: f32 = row.iter().zip(x).map(|(w, v)| w * v).sum();
        worst = worst.max((p - yi).abs());
    }
    worst
}

#[test]
fn end_to_end_consistent_start_is_kept() {
    let a = matrix(2, vec![vec![1.0, 1.0], vec![1.0, 0.0]]);
    let x = mart_reconstruct(&f32_ops(1.0), &vec![2.0, 1.0], &a, 1).unwrap();
    assert_eq!(x, vec![1.0, 1.0]);
}

#[test]
fn end_to_end_nontrivial_update() {
    let a = matrix(2, vec![vec![1.0, 1.0]]);
    let x = mart_reconstruct(&f32_ops(1.0), &vec![4.0], &a, 1).unwrap();
    assert_eq!(x, vec![2.0, 2.0]);
}

#[test]
fn zero_iterations_give_uniform_volume() {
    let a = matrix(3, vec![vec![1.0, 2.0, 0.5], vec![0.0, 3.0, 1.0]]);
    let x = mart_reconstruct(&f32_ops(0.5), &vec![7.0, 2.0], &a, 0).unwrap();
    assert_eq!(x, vec![1.0, 1.0, 1.0]);
}

#[test]
fn zero_relaxation_gives_uniform_volume() {
    let a = matrix(3, vec![vec![1.0, 2.0, 0.5], vec![0.0, 3.0, 1.0]]);
    let x = mart_reconstruct(&f32_ops(0.0), &vec![7.0, 2.0], &a, 25).unwrap();
    assert_eq!(x, vec![1.0, 1.0, 1.0]);
}

#[test]
fn zero_row_leaves_volume_unchanged() {
    for relaxation in [0.0f32, 0.5, 1.0, 2.0] {
        let mut x = vec![3.0f32, 0.25, 8.0];
        update_ray(&f32_ops(relaxation), &vec![0.0, 0.0, 0.0], 5.0, &mut x);
        assert_eq!(x, vec![3.0, 0.25, 8.0]);
    }
}

#[test]
fn negative_prediction_is_skipped() {
    let mut x = vec![1.0f32, 1.0];
    update_ray(&f32_ops(1.0), &vec![1.0, -2.0], 5.0, &mut x);
    assert_eq!(x, vec![1.0, 1.0]);
}

#[test]
fn unweighted_voxel_is_untouched() {
    let mut x = vec![1.0f32, 1.0];
    update_ray(&f32_ops(1.0), &vec![1.0, 0.0], 4.0, &mut x);
    assert_eq!(x, vec![4.0, 1.0]);
}

#[test]
fn voxel_crossed_by_no_ray_stays_at_one() {
    let a = matrix(3, vec![vec![1.0, 0.0, 2.0], vec![3.0, 0.0, 1.0]]);
    let x = mart_reconstruct(&f32_ops(0.5), &vec![9.0, 4.0], &a, 10).unwrap();
    assert_eq!(x[1], 1.0);
    assert_ne!(x[0], 1.0);
}

#[test]
fn rays_see_the_latest_volume_within_a_pass() {
    // Ray 0 doubles both voxels; ray 1 then predicts 2 and halves voxel 0.
    let a = matrix(2, vec![vec![1.0, 1.0], vec![1.0, 0.0]]);
    let x = mart_reconstruct(&f32_ops(1.0), &vec![4.0, 1.0], &a, 1).unwrap();
    assert_eq!(x, vec![1.0, 2.0]);
}

#[test]
fn one_pass_updates_in_place() {
    let a = matrix(2, vec![vec![1.0, 1.0], vec![1.0, 0.0]]);
    let mut x = vec![1.0f32, 1.0];
    mart_step(&f32_ops(1.0), &vec![4.0, 1.0], &a, &mut x);
    assert_eq!(x, vec![1.0, 2.0]);
    // Ray 0 predicts 3 and scales both by 4/3; ray 1 then predicts 4/3.
    mart_step(&f32_ops(1.0), &vec![4.0, 1.0], &a, &mut x);
    assert!((x[0] - 1.0).abs() < 1e-6);
    assert!((x[1] - 8.0 / 3.0).abs() < 1e-6);
}

#[test]
fn relaxed_factor_is_a_power_of_the_ratio() {
    let a = matrix(2, vec![vec![1.0, 1.0]]);
    let x = mart_reconstruct(&f32_ops(0.5), &vec![8.0], &a, 1).unwrap();
    assert!((x[0] - 2.0).abs() < 1e-6);
    assert!((x[1] - 2.0).abs() < 1e-6);
}

#[test]
fn consistent_system_converges() {
    let rows = vec![vec![1.0f32, 1.0, 0.0], vec![0.0, 1.0, 1.0], vec![1.0, 0.0, 1.0]];
    let truth = [2.0f32, 0.5, 1.5];
    let y: Vec<f32> = rows.iter().map(|r| r.iter().zip(&truth).map(|(w, v)| w * v).sum()).collect();
    let a = matrix(3, rows.clone());
    let start = residuals(&rows, &y, &[1.0, 1.0, 1.0]);
    let early = residuals(&rows, &y, &mart_reconstruct(&f32_ops(0.5), &y, &a, 5).unwrap());
    let late = residuals(&rows, &y, &mart_reconstruct(&f32_ops(0.5), &y, &a, 500).unwrap());
    assert!(early < start);
    assert!(late < early);
    assert!(late < 1e-3);
}

#[test]
fn more_rows_than_measurements_is_rejected() {
    let a = matrix(2, vec![vec![1.0, 1.0], vec![1.0, 0.0], vec![0.0, 1.0]]);
    let r = mart_reconstruct(&f32_ops(1.0), &vec![2.0, 1.0], &a, 3);
    assert_eq!(r, Err(ReconError::DimensionMismatch { measurements: 2, rows: 3 }));
}

#[test]
fn fewer_rows_than_measurements_is_rejected() {
    let a = matrix(2, vec![vec![1.0, 1.0]]);
    let r = mart_reconstruct(&f32_ops(1.0), &vec![2.0, 1.0], &a, 0);
    assert_eq!(r, Err(ReconError::DimensionMismatch { measurements: 2, rows: 1 }));
}

#[test]
fn no_rays_give_uniform_volume() {
    let a = matrix(4, vec![]);
    let x = mart_reconstruct(&f32_ops(1.0), &vec![], &a, 5).unwrap();
    assert_eq!(x, vec![1.0; 4]);
}

#[test]
fn no_voxels_give_empty_volume() {
    let a = matrix(0, vec![vec![], vec![]]);
    let x = mart_reconstruct(&f32_ops(1.0), &vec![1.0, 2.0], &a, 5).unwrap();
    assert!(x.is_empty());
}

#[test]
fn ragged_rows_are_rejected() {
    let r = DenseMatrix::from_rows(2, vec![vec![1.0f32, 1.0], vec![1.0], vec![2.0, 2.0, 2.0]]);
    assert_eq!(r.unwrap_err(), MatrixError::RowLength { row: 1, len: 1 });
}

#[test]
fn matrix_reports_its_shape() {
    let a = matrix(3, vec![vec![1.0, 2.0, 3.0], vec![4.0, 5.0, 6.0]]);
    assert_eq!(a.n_rows(), 2);
    assert_eq!(a.n_cols(), 3);
    assert_eq!(a.row(1), &vec![4.0, 5.0, 6.0]);
}
