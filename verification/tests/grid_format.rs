use ratrix::Cell;
use ratrix::File;
use ratrix::Matrix;
use ratrix::RatrixError;
use ratrix::extract_cell_values;
use ratrix::matrix_to_text;
use ratrix::process_file_contents;

fn grid_with(values: impl Fn(usize, usize) -> [i32; 3]) -> Matrix {
    let mut rows = Vec::new();
    for i in 0..8 {
        let mut row = Vec::new();
        for j in 0..8 {
            row.push(Cell::new(values(i, j)));
        }
        rows.push(row);
    }
    Matrix::new(rows)
}

fn text_with(values: impl Fn(usize, usize) -> [i32; 3]) -> String {
    let mut lines = Vec::new();
    for i in 0..8 {
        let mut cells = Vec::new();
        for j in 0..8 {
            let v = values(i, j);
            cells.push(format!("{},{},{}", v[0], v[1], v[2]));
        }
        lines.push(cells.join(" "));
    }
    lines.join("\n")
}

fn parse(text: &str) -> Result<Matrix, RatrixError> {
    process_file_contents(&File::new("file_dec".to_string(), text.to_string()))
}

fn assert_malformed(r: Result<Matrix, RatrixError>) {
    assert!(matches!(r, Err(RatrixError::MalformedGrid)));
}

#[test]
fn parses_a_full_grid() {
    let m = parse(&text_with(|i, j| [i as i32, j as i32, (i + j) as i32])).unwrap();
    for i in 0..8u32 {
        for j in 0..8u32 {
            assert_eq!(m.get_cell_value(i, j, 0), i as i32);
            assert_eq!(m.get_cell_value(i, j, 1), j as i32);
            assert_eq!(m.get_cell_value(i, j, 2), (i + j) as i32);
        }
    }
}

#[test]
fn serializes_to_the_plaintext_format() {
    let m = grid_with(|i, j| [i as i32, j as i32, 0]);
    assert_eq!(matrix_to_text(&m), text_with(|i, j| [i as i32, j as i32, 0]));
}

#[test]
fn round_trip_preserves_all_values() {
    let values = |i: usize, j: usize| {
        [
            (i * 8 + j) as i32 - 32,
            if (i + j) % 2 == 0 { 2147483647 } else { -2147483648 },
            -(i as i32) * (j as i32),
        ]
    };
    let m = grid_with(values);
    let text = matrix_to_text(&m);
    let m2 = parse(&text).unwrap();
    for i in 0..8u32 {
        for j in 0..8u32 {
            for k in 0..3u32 {
                assert_eq!(m2.get_cell_value(i, j, k), m.get_cell_value(i, j, k));
            }
        }
    }
}

#[test]
fn rejects_wrong_line_counts() {
    let good = text_with(|_, _| [0, 0, 0]);
    let seven: Vec<&str> = good.lines().take(7).collect();
    assert_malformed(parse(&seven.join("\n")));
    let mut nine: Vec<&str> = good.lines().collect();
    nine.push("0,0,0 0,0,0 0,0,0 0,0,0 0,0,0 0,0,0 0,0,0 0,0,0");
    assert_malformed(parse(&nine.join("\n")));
    assert_malformed(parse(""));
}

#[test]
fn rejects_wrong_cell_counts() {
    let good = text_with(|_, _| [1, 2, 3]);
    let mut lines: Vec<String> = good.lines().map(|l| l.to_string()).collect();
    lines[3] = "1,2,3 1,2,3 1,2,3 1,2,3 1,2,3 1,2,3 1,2,3".to_string();
    assert_malformed(parse(&lines.join("\n")));
    let mut lines: Vec<String> = good.lines().map(|l| l.to_string()).collect();
    lines[0].push_str(" 1,2,3");
    assert_malformed(parse(&lines.join("\n")));
}

#[test]
fn rejects_wrong_channel_counts() {
    let good = text_with(|_, _| [1, 2, 3]);
    for bad_cell in ["1,2", "1,2,3,4", "1", ""] {
        let mut lines: Vec<String> = good.lines().map(|l| l.to_string()).collect();
        let mut cells: Vec<&str> = lines[5].split(' ').collect();
        cells[2] = bad_cell;
        let line = cells.join(" ");
        lines[5] = line;
        assert_malformed(parse(&lines.join("\n")));
    }
}

#[test]
fn rejects_non_canonical_numbers() {
    let good = text_with(|_, _| [1, 2, 3]);
    for bad_cell in ["01,2,3", "+1,2,3", "-0,2,3", "1,2,x", "1, 2,3", "2147483648,0,0"] {
        let mut lines: Vec<String> = good.lines().map(|l| l.to_string()).collect();
        let line = {
            let mut cells: Vec<&str> = lines[0].split(' ').collect();
            cells[0] = bad_cell;
            cells.join(" ")
        };
        lines[0] = line;
        assert_malformed(parse(&lines.join("\n")));
    }
}

#[test]
fn extracts_three_channel_values() {
    assert_eq!(extract_cell_values("1,2,3"), Ok([1, 2, 3]));
    assert_eq!(extract_cell_values("-7,0,2147483647"), Ok([-7, 0, 2147483647]));
    assert_eq!(extract_cell_values("-2147483648,1,-1"), Ok([-2147483648, 1, -1]));
    assert_eq!(extract_cell_values("1,2"), Err(RatrixError::MalformedGrid));
    assert_eq!(extract_cell_values("1,2,3,4"), Err(RatrixError::MalformedGrid));
    assert_eq!(extract_cell_values("a,b,c"), Err(RatrixError::MalformedGrid));
    assert_eq!(extract_cell_values(""), Err(RatrixError::MalformedGrid));
}
