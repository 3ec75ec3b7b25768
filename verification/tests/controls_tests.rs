use ifs_fractal::controls::{
    clamp_color, clamp_magnitude, color_input, dot_size_input, final_points_input,
    render_points_input, step_input, translation_input, two_var_input, MAX_FINAL_POINTS,
    MAX_RENDER_POINTS,
};

#[test]
fn clamp_color_edges() {
    assert_eq!(clamp_color(0), 0);
    assert_eq!(clamp_color(255), 255);
    assert_eq!(clamp_color(256), 0);
    assert_eq!(clamp_color(257), 255);
    assert_eq!(clamp_color(100_000), 255);
}

#[test]
fn color_input_parses() {
    assert_eq!(color_input("12"), Some(12));
    assert_eq!(color_input("+12"), Some(12));
    assert_eq!(color_input("300"), Some(255));
    assert_eq!(color_input("256"), Some(0));
    assert_eq!(color_input("-1"), None);
    assert_eq!(color_input(""), None);
    assert_eq!(color_input("1a"), None);
    assert_eq!(color_input(" 1"), None);
}

#[test]
fn points_inputs_are_capped() {
    assert_eq!(render_points_input("3000"), Some(3000));
    assert_eq!(render_points_input("30000"), Some(MAX_RENDER_POINTS));
    assert_eq!(render_points_input("25000"), Some(25_000));
    assert_eq!(final_points_input("600000"), Some(MAX_FINAL_POINTS));
    assert_eq!(final_points_input("100000"), Some(100_000));
    assert_eq!(final_points_input("x"), None);
    assert_eq!(render_points_input("99999999999999999999999999"), None);
}

#[test]
fn dot_size_input_parses() {
    assert_eq!(dot_size_input("15"), Some(15));
    assert_eq!(dot_size_input("4294967295"), Some(u32::MAX));
    assert_eq!(dot_size_input("4294967296"), None);
    assert_eq!(dot_size_input("1.5"), None);
}

#[test]
fn step_input_partial_numbers() {
    assert_eq!(step_input(""), Some(0));
    assert_eq!(step_input("-"), Some(0));
    assert_eq!(step_input("+"), None);
    assert_eq!(step_input("-42"), Some(-42));
    assert_eq!(step_input("42"), Some(42));
    assert_eq!(step_input("4x"), None);
    assert_eq!(step_input("--1"), None);
}

#[test]
fn clamp_magnitude_keeps_sign() {
    assert_eq!(clamp_magnitude(150, 100), 100);
    assert_eq!(clamp_magnitude(-150, 100), -100);
    assert_eq!(clamp_magnitude(-100, 100), -100);
    assert_eq!(clamp_magnitude(99, 100), 99);
    assert_eq!(clamp_magnitude(0, 0), 0);
}

#[test]
fn translation_and_two_var_inputs() {
    assert_eq!(translation_input("150"), Some(100));
    assert_eq!(translation_input("-150"), Some(-100));
    assert_eq!(translation_input("-"), Some(0));
    assert_eq!(translation_input("37"), Some(37));
    assert_eq!(translation_input("a"), None);
    assert_eq!(two_var_input("-1000"), Some(-400));
    assert_eq!(two_var_input("399"), Some(399));
    assert_eq!(two_var_input(""), Some(0));
}
