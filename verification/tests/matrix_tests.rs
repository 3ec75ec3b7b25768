use ifs_fractal::matrix::{print_widths, reverse_vec, Matrix, ScalarOps, ShapeError};

fn mat(rows: Vec<Vec<f64>>) -> Matrix<f64> {
    Matrix { matrix: rows }
}

fn add(a: f64, b: f64) -> f64 {
    a + b
}

fn sub(a: f64, b: f64) -> f64 {
    a - b
}

fn mul(a: f64, b: f64) -> f64 {
    a * b
}

fn fma(acc: f64, a: f64, b: f64) -> f64 {
    acc + a * b
}

fn det(m: &Matrix<f64>) -> f64 {
    m.det(0.0, 1.0, mul, add, sub)
}

#[test]
fn shape_of_rectangle() {
    let m = mat(vec![vec![1.0, 2.0, 3.0], vec![4.0, 5.0, 6.0]]);
    assert_eq!(m.shape(), [2, 3]);
    assert_eq!(m.checked_shape(), Ok([2, 3]));
}

#[test]
fn checked_shape_errors() {
    assert_eq!(mat(vec![]).checked_shape(), Err(ShapeError::NoRows));
    assert_eq!(
        mat(vec![vec![1.0, 2.0], vec![3.0, 4.0], vec![5.0]]).checked_shape(),
        Err(ShapeError::JaggedRow(2))
    );
    assert_eq!(mat(vec![vec![], vec![1.0]]).checked_shape(), Err(ShapeError::JaggedRow(1)));
    assert_eq!(mat(vec![vec![], vec![]]).checked_shape(), Err(ShapeError::Empty));
}

#[test]
fn m_gives_rows() {
    let m = mat(vec![vec![1.0], vec![2.0]]);
    assert_eq!(m.m(), &vec![vec![1.0], vec![2.0]]);
}

#[test]
fn push_row_and_col() {
    let mut m = Matrix::new(vec![vec![1.0, 2.0], vec![3.0, 4.0]]);
    m.push_row(vec![5.0, 6.0]);
    assert_eq!(m.matrix, vec![vec![1.0, 2.0], vec![3.0, 4.0], vec![5.0, 6.0]]);
    m.push_col(vec![7.0, 8.0, 9.0]);
    assert_eq!(m.matrix, vec![vec![1.0, 2.0, 7.0], vec![3.0, 4.0, 8.0], vec![5.0, 6.0, 9.0]]);
    assert_eq!(m.shape(), [3, 3]);
}

#[test]
fn insert_row_and_col() {
    let mut m = Matrix::new(vec![vec![1.0, 2.0, 3.0], vec![4.0, 5.0, 6.0]]);
    m.insert_row(vec![7.0, 8.0, 9.0], 1);
    assert_eq!(m.matrix, vec![vec![1.0, 2.0, 3.0], vec![7.0, 8.0, 9.0], vec![4.0, 5.0, 6.0]]);
    m.insert_col(vec![0.5, 0.6, 0.7], 0);
    assert_eq!(
        m.matrix,
        vec![vec![0.5, 1.0, 2.0, 3.0], vec![0.6, 7.0, 8.0, 9.0], vec![0.7, 4.0, 5.0, 6.0]]
    );
}

#[test]
fn insert_row_below_row_count() {
    let mut m = Matrix::new(vec![vec![1.0, 2.0], vec![3.0, 4.0], vec![5.0, 6.0]]);
    m.insert_row(vec![9.0, 9.0], 2);
    assert_eq!(m.matrix, vec![vec![1.0, 2.0], vec![3.0, 4.0], vec![9.0, 9.0], vec![5.0, 6.0]]);
}

#[test]
fn insert_col_below_col_count() {
    let mut m = Matrix::new(vec![vec![1.0, 2.0, 3.0], vec![4.0, 5.0, 6.0]]);
    m.insert_col(vec![7.0, 8.0], 2);
    assert_eq!(m.matrix, vec![vec![1.0, 2.0, 7.0, 3.0], vec![4.0, 5.0, 8.0, 6.0]]);
}

#[test]
fn flip_half_turn() {
    let mut m = mat(vec![vec![1.0, 2.0, 3.0], vec![4.0, 5.0, 6.0]]);
    m.flip();
    assert_eq!(m.matrix, vec![vec![6.0, 5.0, 4.0], vec![3.0, 2.0, 1.0]]);
}

#[test]
fn flip_twice_is_identity_even_jagged() {
    let rows = vec![vec![1.0, 2.0, 3.0], vec![4.0], vec![]];
    let mut m = mat(rows.clone());
    m.flip();
    assert_eq!(m.matrix, vec![vec![], vec![4.0], vec![3.0, 2.0, 1.0]]);
    m.flip();
    assert_eq!(m.matrix, rows);
}

#[test]
fn rot90_quarter_turns() {
    let base = vec![vec![1.0, 2.0, 3.0], vec![4.0, 5.0, 6.0]];
    let mut m = Matrix::new(base.clone());
    m.rot90(1);
    assert_eq!(m.matrix, vec![vec![4.0, 1.0], vec![5.0, 2.0], vec![6.0, 3.0]]);
    let mut m = Matrix::new(base.clone());
    m.rot90(2);
    assert_eq!(m.matrix, vec![vec![6.0, 5.0, 4.0], vec![3.0, 2.0, 1.0]]);
    let mut m = Matrix::new(base.clone());
    m.rot90(3);
    assert_eq!(m.matrix, vec![vec![3.0, 6.0], vec![2.0, 5.0], vec![1.0, 4.0]]);
    let mut m = Matrix::new(base.clone());
    m.rot90(4);
    assert_eq!(m.matrix, base);
    let mut m = Matrix::new(base.clone());
    m.rot90(5);
    assert_eq!(m.matrix, vec![vec![4.0, 1.0], vec![5.0, 2.0], vec![6.0, 3.0]]);
}

#[test]
fn rot90_composes() {
    let base = vec![vec![1.0, 2.0], vec![3.0, 4.0], vec![5.0, 6.0]];
    let mut a = Matrix::new(base.clone());
    a.rot90(1);
    a.rot90(2);
    let mut b = Matrix::new(base.clone());
    b.rot90(3);
    assert_eq!(a.matrix, b.matrix);
    let mut c = Matrix::new(base.clone());
    for _ in 0..4 {
        c.rot90(1);
    }
    assert_eq!(c.matrix, base);
}

#[test]
fn identity_matrix() {
    let i = Matrix::identity(3, 0.0, 1.0);
    assert_eq!(i.matrix, vec![vec![1.0, 0.0, 0.0], vec![0.0, 1.0, 0.0], vec![0.0, 0.0, 1.0]]);
    assert_eq!(Matrix::identity(0, 0.0, 1.0).matrix, Vec::<Vec<f64>>::new());
}

#[test]
fn plus_and_minus_matrix() {
    let a = Matrix::new(vec![vec![1.0, 2.0], vec![3.0, 4.0]]);
    let b = Matrix::new(vec![vec![10.0, 20.0], vec![30.0, 40.0]]);
    assert_eq!(a.plus_matrix(&b, &add).matrix, vec![vec![11.0, 22.0], vec![33.0, 44.0]]);
    assert_eq!(b.minus_matrix(&a, &sub).matrix, vec![vec![9.0, 18.0], vec![27.0, 36.0]]);
}

#[test]
fn plus_matrix_order_of_operands() {
    // The rhs entry is the first argument of the addition.
    let a = Matrix::new(vec![vec![1.0]]);
    let b = Matrix::new(vec![vec![10.0]]);
    let first = |x: f64, _y: f64| x;
    assert_eq!(a.plus_matrix(&b, &first).matrix, vec![vec![10.0]]);
    assert_eq!(a.minus_matrix(&b, &first).matrix, vec![vec![1.0]]);
}

#[test]
fn scalar_ops() {
    let a = mat(vec![vec![1.0, 2.0], vec![3.0]]);
    assert_eq!(a.plus_scalar(1.0, add).matrix, vec![vec![2.0, 3.0], vec![4.0]]);
    assert_eq!(a.minus_scalar(1.0, sub).matrix, vec![vec![0.0, 1.0], vec![2.0]]);
    assert_eq!(a.mul_scalar(2.0, mul).matrix, vec![vec![2.0, 4.0], vec![6.0]]);
    assert_eq!(a._op_scalar(2.0, ScalarOps::sadd, add, sub, mul).matrix, vec![
        vec![3.0, 4.0],
        vec![5.0],
    ]);
    assert_eq!(a._op_scalar(2.0, ScalarOps::ssub, add, sub, mul).matrix, vec![
        vec![-1.0, 0.0],
        vec![1.0],
    ]);
    assert_eq!(a._op_scalar(2.0, ScalarOps::smul, add, sub, mul).matrix, vec![
        vec![2.0, 4.0],
        vec![6.0],
    ]);
}

#[test]
fn mul_matrix_row_by_column() {
    let a = Matrix::new(vec![vec![1.0, 2.0, 3.0], vec![4.0, 5.0, 6.0]]);
    let b = Matrix::new(vec![vec![7.0, 8.0], vec![9.0, 10.0], vec![11.0, 12.0]]);
    let c = a.mul_matrix(&b, 0.0, &fma);
    assert_eq!(c.matrix, vec![vec![58.0, 64.0], vec![139.0, 154.0]]);
    let v = Matrix::new(vec![vec![1.0], vec![1.0]]);
    let r = Matrix::new(vec![vec![0.5, 0.0], vec![0.0, 0.5]]).mul_matrix(&v, 0.0, &fma);
    assert_eq!(r.matrix, vec![vec![0.5], vec![0.5]]);
}

#[test]
fn mul_matrix_accumulates_in_order() {
    // With a non-commutative step the order of the pairs shows: k counts up.
    let a = Matrix::new(vec![vec![1.0, 2.0, 3.0]]);
    let b = Matrix::new(vec![vec![1.0], vec![1.0], vec![1.0]]);
    let digits = |acc: f64, x: f64, _y: f64| acc * 10.0 + x;
    assert_eq!(a.mul_matrix(&b, 0.0, &digits).matrix, vec![vec![123.0]]);
}

#[test]
fn mul_by_identity() {
    let a = Matrix::new(vec![vec![1.0, 2.0], vec![3.0, 4.0]]);
    let i = Matrix::identity(2, 0.0, 1.0);
    assert_eq!(a.mul_matrix(&i, 0.0, &fma).matrix, a.matrix);
    assert_eq!(i.mul_matrix(&a, 0.0, &fma).matrix, a.matrix);
}

#[test]
fn det_two_by_two() {
    let m = Matrix::new(vec![vec![1.0, 2.0], vec![3.0, 4.0]]);
    assert_eq!(det(&m), -2.0);
}

#[test]
fn det_three_by_three() {
    let m = Matrix::new(vec![vec![6.0, 1.0, 1.0], vec![4.0, -2.0, 5.0], vec![2.0, 8.0, 7.0]]);
    assert_eq!(det(&m), -306.0);
    let i = Matrix::identity(3, 0.0, 1.0);
    assert_eq!(det(&i), 1.0);
}

#[test]
fn det_one_by_one_cancels() {
    // The single diagonal is added and, as its own mirror, subtracted.
    let m = Matrix::new(vec![vec![5.0]]);
    assert_eq!(det(&m), 0.0);
}

#[test]
fn dil_and_shear() {
    assert_eq!(Matrix::dil_mat2d(2.0, 3.0, 0.0).matrix, vec![vec![2.0, 0.0], vec![0.0, 3.0]]);
    assert_eq!(Matrix::shear_mat2d(2.0, 3.0, 1.0).matrix, vec![vec![1.0, 2.0], vec![3.0, 1.0]]);
}

#[test]
fn build_transformation_multiplies_last_first() {
    let a = Matrix::new(vec![vec![1.0, 1.0], vec![0.0, 1.0]]);
    let b = Matrix::new(vec![vec![2.0, 0.0], vec![0.0, 3.0]]);
    let t = Matrix::build_transformation(2, vec![a.clone(), b.clone()], 0.0, 1.0, fma);
    // I * b * a
    assert_eq!(t.matrix, vec![vec![2.0, 2.0], vec![0.0, 3.0]]);
    let empty = Matrix::build_transformation(2, vec![], 0.0, 1.0, fma);
    assert_eq!(empty.matrix, vec![vec![1.0, 0.0], vec![0.0, 1.0]]);
}

#[test]
fn print_summary_keeps_ends() {
    let rows: Vec<Vec<f64>> =
        (0..8).map(|i| (0..7).map(|j| (i * 10 + j) as f64).collect()).collect();
    let m = Matrix::new(rows);
    let s = m.print_summary();
    assert_eq!(s.matrix.len(), 6);
    assert_eq!(s.matrix[0], vec![0.0, 1.0, 2.0, 4.0, 5.0, 6.0]);
    assert_eq!(s.matrix[3], vec![50.0, 51.0, 52.0, 54.0, 55.0, 56.0]);
    assert_eq!(s.matrix[5], vec![70.0, 71.0, 72.0, 74.0, 75.0, 76.0]);
    let small = Matrix::new(vec![vec![1.0, 2.0], vec![3.0, 4.0]]);
    assert_eq!(small.print_summary().matrix, small.matrix);
}

#[test]
fn print_widths_maxima() {
    let lengths = vec![vec![3, 1, 7], vec![5, 2, 2], vec![1, 9]];
    assert_eq!(print_widths(&lengths), (5, 9));
    assert_eq!(print_widths(&vec![]), (0, 0));
}

#[test]
fn reverse_vec_reverses() {
    assert_eq!(reverse_vec(vec![1, 2, 3]), vec![3, 2, 1]);
    assert_eq!(reverse_vec(Vec::<i32>::new()), Vec::<i32>::new());
}

#[test]
fn identity_is_neutral_for_rectangles() {
    let a = Matrix::new(vec![vec![1.5, -2.0, 3.0], vec![4.0, 0.25, -6.0]]);
    let left = Matrix::identity(2, 0.0, 1.0).mul_matrix(&a, 0.0, &fma);
    let right = a.mul_matrix(&Matrix::identity(3, 0.0, 1.0), 0.0, &fma);
    assert_eq!(left.matrix, a.matrix);
    assert_eq!(right.matrix, a.matrix);
}
