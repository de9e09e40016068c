use ratrix::Cell;
use ratrix::Matrix;
use ratrix::RatrixError;
use ratrix::print_position_value;
use ratrix::print_values;

fn grid_with(values: impl Fn(usize, usize) -> [i32; 3]) -> Matrix {
    let mut rows = Vec::new();
    for i in 0..8 {
        let mut row = Vec::new();
        for j in 0..8 {
            row.push(Cell::new(values(i, j)));
        }
        rows.push(row);
    }
    Matrix::new(rows)
}

fn sample() -> Matrix {
    grid_with(|i, j| {
        if i == 0 && j == 0 {
            [1, 2, 3]
        } else if i == 7 && j == 7 {
            [9, 8, 7]
        } else {
            [0, 0, 0]
        }
    })
}

#[test]
fn prints_the_selected_cell_value() {
    let m = sample();
    assert_eq!(print_position_value(&m, "A11").unwrap(), "A11: 1");
    assert_eq!(print_position_value(&m, "A12").unwrap(), "A12: 2");
    assert_eq!(print_position_value(&m, "A13").unwrap(), "A13: 3");
    assert_eq!(print_position_value(&m, "H83").unwrap(), "H83: 7");
}

#[test]
fn prints_negative_values_verbatim() {
    let m = grid_with(|_, _| [-5, 0, 11]);
    assert_eq!(print_position_value(&m, "C41").unwrap(), "C41: -5");
    assert_eq!(print_position_value(&m, "D23").unwrap(), "D23: 11");
}

#[test]
fn looks_up_tokens_in_the_order_supplied() {
    let m = sample();
    let lines = print_values(&m, "A11,H83").unwrap();
    assert_eq!(lines, vec!["A11: 1".to_string(), "H83: 7".to_string()]);
}

#[test]
fn duplicate_tokens_each_get_a_line() {
    let m = sample();
    let lines = print_values(&m, "A11,A11,A12").unwrap();
    assert_eq!(lines, vec!["A11: 1".to_string(), "A11: 1".to_string(), "A12: 2".to_string()]);
}

#[test]
fn digit_and_letter_selectors_are_interchangeable() {
    let m = sample();
    let lines = print_values(&m, "11A,8H3").unwrap();
    assert_eq!(lines, vec!["11A: 1".to_string(), "8H3: 7".to_string()]);
}

#[test]
fn channel_selector_beyond_the_third_channel_is_rejected() {
    let m = sample();
    assert_eq!(print_position_value(&m, "H88"), Err(RatrixError::InvalidCoordinate));
    assert_eq!(print_position_value(&m, "A14"), Err(RatrixError::InvalidCoordinate));
    assert_eq!(print_values(&m, "A11,H88"), Err(RatrixError::InvalidCoordinate));
}

#[test]
fn malformed_tokens_are_rejected() {
    let m = sample();
    assert_eq!(print_position_value(&m, "A1"), Err(RatrixError::InvalidCoordinate));
    assert_eq!(print_position_value(&m, "A111"), Err(RatrixError::InvalidCoordinate));
    assert_eq!(print_position_value(&m, "A1x"), Err(RatrixError::InvalidCoordinate));
    assert_eq!(print_position_value(&m, ""), Err(RatrixError::InvalidCoordinate));
    assert_eq!(print_values(&m, "A11,Z11"), Err(RatrixError::InvalidCoordinate));
}
