use colorls::grid::{as_rows, column_widths, is_valid};

#[test]
fn small_case() {
    assert_eq!(false, is_valid(vec![vec![1, 2], vec![2, 1]], 2))
}

#[test]
fn fitting_columns_are_valid() {
    assert_eq!(true, is_valid(vec![vec![1, 2], vec![2, 1]], 5));
    assert_eq!(false, is_valid(vec![vec![1, 2], vec![2, 1]], 4));
}

#[test]
fn empty_grid_fits_any_positive_width() {
    assert_eq!(true, is_valid(vec![], 1));
    assert_eq!(false, is_valid(vec![], 0));
}

#[test]
fn rows_keep_the_remainder() {
    let rows = as_rows(vec![1, 2, 3, 4, 5], 2);
    assert_eq!(rows, vec![vec![1, 2], vec![3, 4], vec![5]]);
}

#[test]
fn rows_of_exact_multiple() {
    let rows = as_rows(vec![1, 2, 3, 4], 2);
    assert_eq!(rows, vec![vec![1, 2], vec![3, 4]]);
    let none: Vec<Vec<u8>> = as_rows(Vec::new(), 3);
    assert!(none.is_empty());
}

#[test]
fn column_widths_take_the_maximum() {
    let widths = column_widths(&vec![vec![3, 9, 1], vec![7, 2]]);
    assert_eq!(widths, vec![7, 9, 1]);
}

#[test]
fn huge_widths_do_not_overflow() {
    assert_eq!(false, is_valid(vec![vec![usize::MAX, usize::MAX]], usize::MAX));
}
