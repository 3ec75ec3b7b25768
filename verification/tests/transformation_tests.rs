use ifs_fractal::matrix::Matrix;
use ifs_fractal::transformation::{Transformation, TransformationType};

fn fma(acc: f64, a: f64, b: f64) -> f64 {
    acc + a * b
}

/// Quarter turns only, exact, so that the tests do not depend on rounding.
fn rot(angle: f64, using_rad: bool) -> Matrix<f64> {
    let quarter = if using_rad { std::f64::consts::FRAC_PI_2 } else { 90.0 };
    if angle == quarter {
        Matrix::new(vec![vec![0.0, -1.0], vec![1.0, 0.0]])
    } else {
        Matrix::identity(2, 0.0, 1.0)
    }
}

fn refl(_angle: f64, _using_rad: bool) -> Matrix<f64> {
    Matrix::new(vec![vec![1.0, 0.0], vec![0.0, -1.0]])
}

#[test]
fn new_transformation_is_empty() {
    let t: Transformation<f64> = Transformation::new(false, 0.0);
    assert!(t.actions.is_empty());
    assert_eq!(t.translation, [0.0, 0.0]);
    assert!(!t.using_rad);
}

#[test]
fn steps_are_appended_in_order() {
    let mut t = Transformation::new(true, 0.0);
    t.dilate([0.5, 0.5]);
    t.shear([1.0, 0.0]);
    t.rotate(30.0);
    t.reflect(45.0);
    t.translate([0.25, 0.5]);
    assert_eq!(t.actions, vec![
        TransformationType::Dilation([0.5, 0.5]),
        TransformationType::Shear([1.0, 0.0]),
        TransformationType::Rotation(30.0),
        TransformationType::Reflection(45.0),
    ]);
    assert_eq!(t.translation, [0.25, 0.5]);
}

#[test]
fn remove_action_in_range() {
    let mut t = Transformation::new(false, 0.0);
    t.rotate(1.0);
    t.rotate(2.0);
    t.rotate(3.0);
    assert_eq!(t.remove_action(1), Ok(()));
    assert_eq!(t.actions, vec![TransformationType::Rotation(1.0), TransformationType::Rotation(3.0)]);
}

#[test]
fn remove_action_out_of_range() {
    let mut t = Transformation::new(false, 0.0);
    t.rotate(1.0);
    assert_eq!(
        t.remove_action(3),
        Err(String::from("remove_action: target_index is too large! 3 >= 1"))
    );
    assert_eq!(t.actions, vec![TransformationType::Rotation(1.0)]);
}

#[test]
fn push_then_remove_last_restores() {
    let mut t = Transformation::new(false, 0.0);
    t.rotate(1.0);
    let before = t.actions.clone();
    t.shear([2.0, 3.0]);
    assert_eq!(t.remove_action(1), Ok(()));
    assert_eq!(t.actions, before);
}

#[test]
fn move_to_moves_and_back() {
    let mut t = Transformation::new(false, 0.0);
    for a in [1.0, 2.0, 3.0, 4.0] {
        t.rotate(a);
    }
    let before = t.actions.clone();
    assert_eq!(t.move_to(0, 2), Ok(()));
    assert_eq!(t.actions, vec![
        TransformationType::Rotation(2.0),
        TransformationType::Rotation(3.0),
        TransformationType::Rotation(1.0),
        TransformationType::Rotation(4.0),
    ]);
    assert_eq!(t.move_to(2, 0), Ok(()));
    assert_eq!(t.actions, before);
}

#[test]
fn move_to_out_of_range() {
    let mut t = Transformation::new(false, 0.0);
    t.rotate(1.0);
    assert_eq!(t.move_to(0, 1), Err(String::from("move_to: index is too large! (0, 1) >= 1")));
    assert_eq!(t.actions, vec![TransformationType::Rotation(1.0)]);
}

#[test]
fn edit_steps() {
    let mut t = Transformation::new(false, 0.0);
    t.dilate([1.0, 1.0]);
    t.reflect(0.0);
    t.set_two_var_step(0, 1, 0.25);
    t.set_one_var_step(1, 90.0);
    t.set_translation(0, -0.5);
    t.set_using_rad(true);
    assert_eq!(t.actions, vec![
        TransformationType::Dilation([1.0, 0.25]),
        TransformationType::Reflection(90.0),
    ]);
    assert_eq!(t.translation, [-0.5, 0.0]);
    assert!(t.using_rad);
}

#[test]
fn add_step_defaults() {
    let mut t = Transformation::new(false, 0.0);
    t.add_step(&TransformationType::Dilation([7.0, 7.0]), 0.0, 1.0);
    t.add_step(&TransformationType::Shear([7.0, 7.0]), 0.0, 1.0);
    t.add_step(&TransformationType::Rotation(7.0), 0.0, 1.0);
    t.add_step(&TransformationType::Reflection(7.0), 0.0, 1.0);
    assert_eq!(t.actions, vec![
        TransformationType::Dilation([1.0, 1.0]),
        TransformationType::Shear([0.0, 0.0]),
        TransformationType::Rotation(0.0),
        TransformationType::Reflection(0.0),
    ]);
}

#[test]
fn build_multiplies_each_step_on_the_left() {
    let mut t = Transformation::new(false, 0.0);
    t.dilate([2.0, 3.0]);
    t.rotate(90.0);
    t.translate([0.5, 0.25]);
    let (a, b) = t.build(0.0, 1.0, &fma, &rot, &refl);
    // rot * dil
    assert_eq!(a.matrix, vec![vec![0.0, -3.0], vec![2.0, 0.0]]);
    assert_eq!(b.matrix, vec![vec![0.5], vec![0.25]]);
}

#[test]
fn build_of_no_steps_is_identity() {
    let t = Transformation::new(true, 0.0);
    let (a, b) = t.build(0.0, 1.0, &fma, &rot, &refl);
    assert_eq!(a.matrix, vec![vec![1.0, 0.0], vec![0.0, 1.0]]);
    assert_eq!(b.matrix, vec![vec![0.0], vec![0.0]]);
}

#[test]
fn build_reflection_and_shear() {
    let mut t = Transformation::new(false, 0.0);
    t.shear([1.0, 0.0]);
    t.reflect(0.0);
    let (a, _) = t.build(0.0, 1.0, &fma, &rot, &refl);
    // refl * shear = [[1,0],[0,-1]] * [[1,1],[0,1]]
    assert_eq!(a.matrix, vec![vec![1.0, 1.0], vec![0.0, -1.0]]);
}
