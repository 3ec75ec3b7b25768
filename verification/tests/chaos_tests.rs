use ifs_fractal::matrix::Matrix;

fn add(a: f64, b: f64) -> f64 {
    a + b
}

fn fma(acc: f64, a: f64, b: f64) -> f64 {
    acc + a * b
}

fn half_toward(x: f64, y: f64) -> (Matrix<f64>, Matrix<f64>) {
    (
        Matrix::new(vec![vec![0.5, 0.0], vec![0.0, 0.5]]),
        Matrix::new(vec![vec![x], vec![y]]),
    )
}

#[test]
fn chaos_positions_follow_choices() {
    let maps = vec![half_toward(0.0, 0.0), half_toward(0.5, 0.0), half_toward(0.25, 0.5)];
    let start = Matrix::new(vec![vec![0.0], vec![0.0]]);
    let ps = Matrix::chaos_positions(&maps, &vec![1, 2, 0], &start, 0.0, &fma, &add);
    assert_eq!(ps.len(), 3);
    assert_eq!(ps[0].matrix, vec![vec![0.5], vec![0.0]]);
    assert_eq!(ps[1].matrix, vec![vec![0.5], vec![0.5]]);
    assert_eq!(ps[2].matrix, vec![vec![0.25], vec![0.25]]);
}

#[test]
fn chaos_positions_no_choices() {
    let maps = vec![half_toward(0.0, 0.0)];
    let start = Matrix::new(vec![vec![1.0], vec![1.0]]);
    let ps = Matrix::chaos_positions(&maps, &vec![], &start, 0.0, &fma, &add);
    assert!(ps.is_empty());
}

#[test]
fn chaos_positions_translation_added_after_product() {
    // (a * p) then b: with a shear the order is visible.
    let maps = vec![(
        Matrix::new(vec![vec![1.0, 1.0], vec![0.0, 1.0]]),
        Matrix::new(vec![vec![10.0], vec![20.0]]),
    )];
    let start = Matrix::new(vec![vec![1.0], vec![2.0]]);
    let ps = Matrix::chaos_positions(&maps, &vec![0, 0], &start, 0.0, &fma, &add);
    assert_eq!(ps[0].matrix, vec![vec![13.0], vec![22.0]]);
    assert_eq!(ps[1].matrix, vec![vec![45.0], vec![42.0]]);
}
