use ratrix::Cell;
use ratrix::File;
use ratrix::Matrix;

#[test]
fn a_cell_keeps_its_three_channels() {
    let c = Cell::new([10, -20, 30]);
    assert_eq!(c.get_position(0), 10);
    assert_eq!(c.get_position(1), -20);
    assert_eq!(c.get_position(2), 30);
}

#[test]
fn cells_are_value_types() {
    let a = Cell::new([1, 2, 3]);
    let b = a;
    assert_eq!(a.get_position(0), b.get_position(0));
    assert_eq!(a.get_position(2), b.get_position(2));
}

#[test]
fn the_matrix_is_indexed_row_then_column() {
    let mut rows = Vec::new();
    for i in 0..8 {
        let mut row = Vec::new();
        for j in 0..8 {
            row.push(Cell::new([(i * 8 + j) as i32, 0, -(i as i32)]));
        }
        rows.push(row);
    }
    let m = Matrix::new(rows);
    assert_eq!(m.get_cell_value(0, 0, 0), 0);
    assert_eq!(m.get_cell_value(0, 7, 0), 7);
    assert_eq!(m.get_cell_value(7, 0, 0), 56);
    assert_eq!(m.get_cell_value(7, 7, 0), 63);
    assert_eq!(m.get_cell_value(3, 5, 2), -3);
    let c = m.get_cell_position(2, 4);
    assert_eq!(c.get_position(0), 20);
}

#[test]
fn a_file_pairs_name_and_contents() {
    let f = File::new("file_dec".to_string(), "1,2,3".to_string());
    assert_eq!(f.get_name(), "file_dec");
    assert_eq!(f.get_contents(), "1,2,3");
}
