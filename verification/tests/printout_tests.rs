use ifs_fractal::matrix::Matrix;
use ifs_fractal::printout::{print_layout, print_text};

/// The printout built directly with `String` pushes and byte lengths,
/// for comparison.
fn byte_counted_layout(matrix: &Vec<Vec<f64>>) -> String {
    let shape = [matrix.len(), matrix[0].len()];
    let mut output = String::new();
    let mut pad_len = 0;
    let mut req_len = 0;
    let mut front_req_len = 0;
    let mut input_mat = matrix.clone();
    let mut row_summarise = false;
    let mut col_summarise = false;
    let mut pad_len_const = 3;
    if shape[0] > 6 {
        row_summarise = true;
        input_mat = matrix[..3].to_vec();
        input_mat.append(&mut matrix[(shape[0] - 3)..].to_vec());
    }
    if shape[1] > 6 {
        col_summarise = true;
        pad_len_const = 5;
        let mut new_input_mat = vec![];
        for row in input_mat.iter() {
            let mut newrow = row[..3].to_vec();
            newrow.append(&mut row[(shape[1] - 3)..].to_vec());
            new_input_mat.push(newrow);
        }
        input_mat = new_input_mat;
    }
    for row in input_mat.iter() {
        let first_length = format!("{}", row[0]).len();
        if first_length > front_req_len {
            front_req_len = first_length;
        }
        for col in row.iter() {
            let num_length = format!("{}", col).len();
            if num_length > req_len {
                req_len = num_length;
            }
        }
    }
    for (y, row) in input_mat.iter().enumerate() {
        let mut output_row = String::from("│ ");
        for (x, col) in row.iter().enumerate() {
            let num_padding;
            if x == 3 && col_summarise {
                output_row.push_str(" ⋯  ");
            }
            if x == 0 {
                num_padding = " ".repeat(front_req_len - format!("{}", col).len());
            } else {
                num_padding = " ".repeat(req_len - format!("{}", col).len());
            }
            output_row.push_str(&format!("{num_padding}{} ", col));
        }
        pad_len = output_row.len() - pad_len_const;
        output_row.push_str("│\n");
        output.push_str(&output_row);
        if y == 2 && row_summarise {
            let dp = " ".repeat(req_len);
            let fdp = " ".repeat(front_req_len);
            output.push_str(&format!("│{fdp}⋮{dp}⋮{dp}⋮    {dp}⋮{dp}⋮{dp}⋮ │\n"));
        }
    }
    let padding = " ".repeat(pad_len);
    format!("┌{padding}┐\n{output}└{padding}┘")
}

fn layout(rows: Vec<Vec<f64>>) -> String {
    let m = Matrix::new(rows);
    let shape = m.shape();
    let s = m.print_summary();
    let cells: Vec<Vec<String>> =
        s.matrix.iter().map(|r| r.iter().map(|c| format!("{}", c)).collect()).collect();
    print_layout(&cells, shape[0] > 6, shape[1] > 6)
}

fn grid(nrows: usize, ncols: usize) -> Vec<Vec<f64>> {
    (0..nrows)
        .map(|i| (0..ncols).map(|j| (i as f64) * 1.5 - (j as f64) * 10.0).collect())
        .collect()
}

#[test]
fn layout_two_by_two() {
    let out = layout(vec![vec![1.0, 2.0], vec![3.0, 4.0]]);
    assert_eq!(out, "┌     ┐\n│ 1 2 │\n│ 3 4 │\n└     ┘");
}

#[test]
fn layout_aligns_columns() {
    let out = layout(vec![vec![10.0, 2.0], vec![3.0, 400.0]]);
    assert_eq!(out, "┌        ┐\n│ 10   2 │\n│  3 400 │\n└        ┘");
}

#[test]
fn layout_matches_byte_counted_small() {
    for rows in [grid(1, 1), grid(2, 3), grid(6, 6), vec![vec![-0.5, 12.25], vec![3.0, -400.0]]] {
        assert_eq!(layout(rows.clone()), byte_counted_layout(&rows));
    }
}

#[test]
fn layout_matches_byte_counted_elided() {
    for rows in [grid(7, 2), grid(2, 7), grid(8, 9), grid(10, 10)] {
        assert_eq!(layout(rows.clone()), byte_counted_layout(&rows));
    }
}

#[test]
fn layout_elided_columns_marker() {
    let out = layout(vec![vec![1.0, 2.0, 3.0, 4.0, 5.0, 6.0, 7.0]]);
    assert_eq!(out, "┌                 ┐\n│ 1 2 3  ⋯  5 6 7 │\n└                 ┘");
}

#[test]
fn layout_of_strings() {
    let cells = vec![vec![String::from("a"), String::from("bcd")]];
    assert_eq!(print_layout(&cells, false, false), "┌       ┐\n│ a bcd │\n└       ┘");
}

fn text_of(rows: &Vec<Vec<f64>>) -> String {
    let cells: Vec<Vec<String>> =
        rows.iter().map(|r| r.iter().map(|c| format!("{}", c)).collect()).collect();
    print_text(&cells)
}

#[test]
fn print_text_chooses_elision_from_shape() {
    for rows in [grid(1, 1), grid(3, 3), grid(6, 7), grid(7, 6), grid(9, 9), grid(12, 2)] {
        assert_eq!(text_of(&rows), byte_counted_layout(&rows));
    }
}

#[test]
fn print_text_short_matrix_has_no_dots_line() {
    let out = text_of(&vec![vec![1.0], vec![2.0], vec![3.0], vec![4.0]]);
    assert!(!out.contains('⋮'));
    assert_eq!(out.lines().count(), 6);
}

#[test]
fn print_text_tall_matrix_line_count() {
    // min(nr, 6) + 1 dots line + 2 borders
    let out = text_of(&grid(10, 2));
    assert_eq!(out.lines().count(), 9);
    assert!(out.contains('⋮'));
}
