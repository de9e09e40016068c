use vstd::prelude::*;

use crate::errors::RatrixError;
use crate::numbers::decimal_of;
use crate::numbers::i32_to_string;
use crate::numbers::is_digit_char;
use crate::numbers::lemma_decimal_injective;
use crate::numbers::lemma_decimal_shape;
use crate::numbers::parse_channel;
use crate::structure::Cell;
use crate::structure::File;
use crate::structure::Matrix;
use crate::structure::wf_cell;
use crate::structure::wf_grid;
use crate::structure::wf_row;
use crate::text::join;
use crate::text::lemma_join_chars;
use crate::text::lemma_join_push;
use crate::text::lemma_join_unique;
use crate::text::lemma_split_join;
use crate::text::lemma_split_len;
use crate::text::sep_free;
use crate::text::split_char;
use crate::text::split_spec;

verus! {

/// The plaintext form of one cell: its three channel values in canonical
/// decimal, joined by commas.
pub open spec fn cell_text(c: Seq<int>) -> Seq<char> {
    join(seq![decimal_of(c[0]), decimal_of(c[1]), decimal_of(c[2])], ',')
}

/// The plaintext form of one row: its eight cells joined by single spaces.
pub open spec fn row_text(r: Seq<Seq<int>>) -> Seq<char> {
    join(r.map_values(|c: Seq<int>| cell_text(c)), ' ')
}

/// The plaintext form of the whole grid: its eight rows joined by newlines.
pub open spec fn grid_text(m: Seq<Seq<Seq<int>>>) -> Seq<char> {
    join(m.map_values(|r: Seq<Seq<int>>| row_text(r)), '\n')
}

/// The text is exactly the plaintext form of the well-formed grid `m`.
pub open spec fn text_parses_to(t: Seq<char>, m: Seq<Seq<Seq<int>>>) -> bool {
    wf_grid(m) && grid_text(m) == t
}

pub open spec fn number_char_ok(c: char) -> bool {
    is_digit_char(c) || c == '-'
}

pub open spec fn cell_char_ok(c: char) -> bool {
    number_char_ok(c) || c == ','
}

pub open spec fn row_char_ok(c: char) -> bool {
    cell_char_ok(c) || c == ' '
}

/// The view of a parsed cell token: the three channel values as integers.
pub open spec fn cell_view_of(vals: [i32; 3]) -> Seq<int> {
    vals@.map_values(|x: i32| x as int)
}

proof fn lemma_decimal_chars(v: int)
    ensures
        forall|k: int|
            0 <= k < decimal_of(v).len() ==> number_char_ok(#[trigger] decimal_of(v)[k]),
{
    lemma_decimal_shape(v);
}

proof fn lemma_cell_text_chars(c: Seq<int>)
    ensures
        forall|k: int| 0 <= k < cell_text(c).len() ==> cell_char_ok(#[trigger] cell_text(c)[k]),
{
    let parts = seq![decimal_of(c[0]), decimal_of(c[1]), decimal_of(c[2])];
    let ok = |ch: char| cell_char_ok(ch);
    assert forall|i: int, k: int|
        0 <= i < parts.len() && 0 <= k < (#[trigger] parts[i]).len() implies ok(
        #[trigger] parts[i][k]) by {
        lemma_decimal_chars(c[0]);
        lemma_decimal_chars(c[1]);
        lemma_decimal_chars(c[2]);
        if i == 0 {
            assert(parts[i] == decimal_of(c[0]));
        } else if i == 1 {
            assert(parts[i] == decimal_of(c[1]));
        } else {
            assert(parts[i] == decimal_of(c[2]));
        }
    }
    lemma_join_chars(parts, ',', ok);
    assert forall|k: int| 0 <= k < cell_text(c).len() implies cell_char_ok(
        #[trigger] cell_text(c)[k]) by {
        assert(ok(join(parts, ',')[k]));
    }
}

proof fn lemma_row_text_chars(r: Seq<Seq<int>>)
    ensures
        forall|k: int| 0 <= k < row_text(r).len() ==> row_char_ok(#[trigger] row_text(r)[k]),
{
    let parts = r.map_values(|c: Seq<int>| cell_text(c));
    let ok = |ch: char| row_char_ok(ch);
    assert forall|i: int, k: int|
        0 <= i < parts.len() && 0 <= k < (#[trigger] parts[i]).len() implies ok(
        #[trigger] parts[i][k]) by {
        lemma_cell_text_chars(r[i]);
        assert(parts[i] == cell_text(r[i]));
    }
    lemma_join_chars(parts, ' ', ok);
    assert forall|k: int| 0 <= k < row_text(r).len() implies row_char_ok(
        #[trigger] row_text(r)[k]) by {
        assert(ok(join(parts, ' ')[k]));
    }
}

/// The cell tokens of a rendered cell are exactly its three rendered
/// channel values.
proof fn lemma_cell_decomp(c: Seq<int>)
    ensures
        split_spec(cell_text(c), ',') == seq![
            decimal_of(c[0]),
            decimal_of(c[1]),
            decimal_of(c[2]),
        ],
{
    let parts = seq![decimal_of(c[0]), decimal_of(c[1]), decimal_of(c[2])];
    assert(sep_free(parts, ',')) by {
        assert forall|i: int| 0 <= i < parts.len() implies !(#[trigger] parts[i]).contains(
            ',',
        ) by {
            lemma_decimal_chars(c[0]);
            lemma_decimal_chars(c[1]);
            lemma_decimal_chars(c[2]);
            if i == 0 {
                assert(parts[i] == decimal_of(c[0]));
            } else if i == 1 {
                assert(parts[i] == decimal_of(c[1]));
            } else {
                assert(parts[i] == decimal_of(c[2]));
            }
            if parts[i].contains(',') {
                let k = parts[i].index_of(',');
                assert(number_char_ok(parts[i][k]));
            }
        }
    }
    lemma_split_len(cell_text(c), ',');
    lemma_split_join(cell_text(c), ',');
    lemma_join_unique(split_spec(cell_text(c), ','), parts, ',');
}

/// The space-separated tokens of a rendered row are exactly its rendered
/// cells.
proof fn lemma_row_decomp(r: Seq<Seq<int>>)
    requires
        r.len() >= 1,
    ensures
        split_spec(row_text(r), ' ') == r.map_values(|c: Seq<int>| cell_text(c)),
{
    let parts = r.map_values(|c: Seq<int>| cell_text(c));
    assert(sep_free(parts, ' ')) by {
        assert forall|i: int| 0 <= i < parts.len() implies !(#[trigger] parts[i]).contains(
            ' ',
        ) by {
            lemma_cell_text_chars(r[i]);
            assert(parts[i] == cell_text(r[i]));
            if parts[i].contains(' ') {
                let k = parts[i].index_of(' ');
                assert(cell_char_ok(parts[i][k]));
            }
        }
    }
    lemma_split_len(row_text(r), ' ');
    lemma_split_join(row_text(r), ' ');
    lemma_join_unique(split_spec(row_text(r), ' '), parts, ' ');
}

/// The lines of a rendered grid are exactly its rendered rows.
proof fn lemma_grid_decomp(m: Seq<Seq<Seq<int>>>)
    requires
        m.len() >= 1,
    ensures
        split_spec(grid_text(m), '\n') == m.map_values(|r: Seq<Seq<int>>| row_text(r)),
{
    let parts = m.map_values(|r: Seq<Seq<int>>| row_text(r));
    assert(sep_free(parts, '\n')) by {
        assert forall|i: int| 0 <= i < parts.len() implies !(#[trigger] parts[i]).contains(
            '\n',
        ) by {
            lemma_row_text_chars(m[i]);
            assert(parts[i] == row_text(m[i]));
            if parts[i].contains('\n') {
                let k = parts[i].index_of('\n');
                assert(row_char_ok(parts[i][k]));
            }
        }
    }
    lemma_split_len(grid_text(m), '\n');
    lemma_split_join(grid_text(m), '\n');
    lemma_join_unique(split_spec(grid_text(m), '\n'), parts, '\n');
}

proof fn lemma_cell_text_injective(c1: Seq<int>, c2: Seq<int>)
    requires
        c1.len() == 3,
        c2.len() == 3,
        cell_text(c1) == cell_text(c2),
    ensures
        c1 == c2,
{
    lemma_cell_decomp(c1);
    lemma_cell_decomp(c2);
    assert(decimal_of(c1[0]) == decimal_of(c2[0])) by {
        assert(split_spec(cell_text(c1), ',')[0] == decimal_of(c1[0]));
        assert(split_spec(cell_text(c2), ',')[0] == decimal_of(c2[0]));
    }
    assert(decimal_of(c1[1]) == decimal_of(c2[1])) by {
        assert(split_spec(cell_text(c1), ',')[1] == decimal_of(c1[1]));
        assert(split_spec(cell_text(c2), ',')[1] == decimal_of(c2[1]));
    }
    assert(decimal_of(c1[2]) == decimal_of(c2[2])) by {
        assert(split_spec(cell_text(c1), ',')[2] == decimal_of(c1[2]));
        assert(split_spec(cell_text(c2), ',')[2] == decimal_of(c2[2]));
    }
    lemma_decimal_injective(c1[0], c2[0]);
    lemma_decimal_injective(c1[1], c2[1]);
    lemma_decimal_injective(c1[2], c2[2]);
    assert(c1 =~= c2);
}

proof fn lemma_row_text_injective(r1: Seq<Seq<int>>, r2: Seq<Seq<int>>)
    requires
        wf_row(r1),
        wf_row(r2),
        row_text(r1) == row_text(r2),
    ensures
        r1 == r2,
{
    lemma_row_decomp(r1);
    lemma_row_decomp(r2);
    let p1 = r1.map_values(|c: Seq<int>| cell_text(c));
    let p2 = r2.map_values(|c: Seq<int>| cell_text(c));
    assert(p1 == p2);
    assert forall|j: int| 0 <= j < 8 implies r1[j] == r2[j] by {
        assert(p1[j] == cell_text(r1[j]));
        assert(p2[j] == cell_text(r2[j]));
        lemma_cell_text_injective(r1[j], r2[j]);
    }
    assert(r1 =~~= r2);
}

/// The plaintext format is unambiguous: two well-formed grids with the same
/// rendering hold the same values at all 64 positions and 3 channels.
pub proof fn lemma_grid_text_injective(m1: Seq<Seq<Seq<int>>>, m2: Seq<Seq<Seq<int>>>)
    requires
        wf_grid(m1),
        wf_grid(m2),
        grid_text(m1) == grid_text(m2),
    ensures
        m1 == m2,
{
    lemma_grid_decomp(m1);
    lemma_grid_decomp(m2);
    let p1 = m1.map_values(|r: Seq<Seq<int>>| row_text(r));
    let p2 = m2.map_values(|r: Seq<Seq<int>>| row_text(r));
    assert(p1 == p2);
    assert forall|i: int| 0 <= i < 8 implies m1[i] == m2[i] by {
        assert(p1[i] == row_text(m1[i]));
        assert(p2[i] == row_text(m2[i]));
        lemma_row_text_injective(m1[i], m2[i]);
    }
    assert(m1 =~~= m2);
}

/// Round trip: a matrix serialized to the plaintext format and re-parsed is
/// the identical matrix. Whatever well-formed grid the rendered text parses
/// to is the grid that was rendered.
pub proof fn lemma_round_trip(m: Seq<Seq<Seq<int>>>, m2: Seq<Seq<Seq<int>>>)
    requires
        wf_grid(m),
        text_parses_to(grid_text(m), m2),
    ensures
        m2 == m,
{
    lemma_grid_text_injective(m2, m);
}

/// A text whose line count is not eight is the rendering of no grid.
pub proof fn lemma_rejects_wrong_line_count(t: Seq<char>)
    requires
        split_spec(t, '\n').len() != 8,
    ensures
        forall|m: Seq<Seq<Seq<int>>>| !text_parses_to(t, m),
{
    assert forall|m: Seq<Seq<Seq<int>>>| !text_parses_to(t, m) by {
        if text_parses_to(t, m) {
            lemma_grid_decomp(m);
        }
    }
}

/// A text one of whose lines does not hold exactly eight cell tokens is the
/// rendering of no grid.
pub proof fn lemma_rejects_wrong_cell_count(t: Seq<char>, i: int)
    requires
        0 <= i < split_spec(t, '\n').len(),
        split_spec(split_spec(t, '\n')[i], ' ').len() != 8,
    ensures
        forall|m: Seq<Seq<Seq<int>>>| !text_parses_to(t, m),
{
    assert forall|m: Seq<Seq<Seq<int>>>| !text_parses_to(t, m) by {
        if text_parses_to(t, m) {
            lemma_grid_decomp(m);
            assert(split_spec(t, '\n')[i] == row_text(m[i]));
            lemma_row_decomp(m[i]);
        }
    }
}

/// A text one of whose cell tokens does not hold exactly three channel
/// tokens is the rendering of no grid.
pub proof fn lemma_rejects_wrong_channel_count(t: Seq<char>, i: int, j: int)
    requires
        0 <= i < split_spec(t, '\n').len(),
        0 <= j < split_spec(split_spec(t, '\n')[i], ' ').len(),
        split_spec(split_spec(split_spec(t, '\n')[i], ' ')[j], ',').len() != 3,
    ensures
        forall|m: Seq<Seq<Seq<int>>>| !text_parses_to(t, m),
{
    assert forall|m: Seq<Seq<Seq<int>>>| !text_parses_to(t, m) by {
        if text_parses_to(t, m) {
            lemma_grid_decomp(m);
            assert(split_spec(t, '\n')[i] == row_text(m[i]));
            lemma_row_decomp(m[i]);
            assert(split_spec(split_spec(t, '\n')[i], ' ')[j] == cell_text(m[i][j]));
            lemma_cell_decomp(m[i][j]);
        }
    }
}

/// Parses one cell token into its three channel values. Accepts exactly the
/// texts of the form `<int>,<int>,<int>` in canonical decimal.
pub fn extract_cell_values(cell: &str) -> (r: Result<[i32; 3], RatrixError>)
    ensures
        r matches Ok(vals) ==> cell@ == cell_text(cell_view_of(vals)) && wf_cell(
            cell_view_of(vals),
        ),
        r is Err ==> r == Err::<[i32; 3], RatrixError>(RatrixError::MalformedGrid) && (forall|
            c: Seq<int>,
        |
            wf_cell(c) ==> cell@ != #[trigger] cell_text(c)),
{
    let toks = split_char(cell, ',');
    let ghost tv = toks@.map_values(|p: String| p@);
    if toks.len() != 3 {
        proof {
            assert forall|c: Seq<int>| wf_cell(c) implies cell@ != #[trigger] cell_text(c) by {
                if cell@ == cell_text(c) {
                    lemma_cell_decomp(c);
                }
            }
        }
        return Err(RatrixError::MalformedGrid);
    }
    let mut vals: [i32; 3] = [0; 3];
    let mut k: usize = 0;
    while k < 3
        invariant
            0 <= k <= 3,
            toks@.len() == 3,
            tv == toks@.map_values(|p: String| p@),
            tv == split_spec(cell@, ','),
            forall|kk: int| 0 <= kk < k ==> tv[kk] == decimal_of(#[trigger] vals@[kk] as int),
        decreases 3 - k,
    {
        match parse_channel(toks[k].as_str()) {
            Some(v) => {
                let ghost old_vals = vals@;
                vals[k] = v;
                proof {
                    assert(vals@ == old_vals.update(k as int, v));
                    assert(tv[k as int] == toks@[k as int]@);
                }
            },
            None => {
                proof {
                    assert forall|c: Seq<int>| wf_cell(c) implies cell@ != #[trigger] cell_text(
                        c,
                    ) by {
                        if cell@ == cell_text(c) {
                            lemma_cell_decomp(c);
                            assert(tv[k as int] == decimal_of(c[k as int]));
                            let w: i32 = c[k as int] as i32;
                            assert(w as int == c[k as int]);
                            assert(toks@[k as int]@ != decimal_of(w as int));
                        }
                    }
                }
                return Err(RatrixError::MalformedGrid);
            },
        }
        k += 1;
    }
    proof {
        lemma_split_join(cell@, ',');
        assert(tv =~= seq![tv[0], tv[1], tv[2]]);
        assert(cell_view_of(vals).len() == 3);
        assert(cell_view_of(vals)[0] == vals@[0] as int);
        assert(cell_view_of(vals)[1] == vals@[1] as int);
        assert(cell_view_of(vals)[2] == vals@[2] as int);
        assert(seq![
            decimal_of(cell_view_of(vals)[0]),
            decimal_of(cell_view_of(vals)[1]),
            decimal_of(cell_view_of(vals)[2]),
        ] =~= tv);
        assert(cell_text(cell_view_of(vals)) == join(tv, ','));
        assert(cell@ == cell_text(cell_view_of(vals)));
    }
    Ok(vals)
}

/// Parses one line into a row of eight cells. Accepts exactly the renderings
/// of well-formed rows.
fn parse_row(line: &str) -> (r: Result<Vec<Cell>, RatrixError>)
    ensures
        r matches Ok(row) ==> row@.len() == 8 && wf_row(row.deep_view()) && line@ == row_text(
            row.deep_view(),
        ),
        r is Err ==> r == Err::<Vec<Cell>, RatrixError>(RatrixError::MalformedGrid) && (forall|
            rv: Seq<Seq<int>>,
        |
            wf_row(rv) ==> line@ != #[trigger] row_text(rv)),
{
    let toks = split_char(line, ' ');
    let ghost tv = toks@.map_values(|p: String| p@);
    if toks.len() != 8 {
        proof {
            assert forall|rv: Seq<Seq<int>>| wf_row(rv) implies line@ != #[trigger] row_text(
                rv,
            ) by {
                if line@ == row_text(rv) {
                    lemma_row_decomp(rv);
                }
            }
        }
        return Err(RatrixError::MalformedGrid);
    }
    let mut cells: Vec<Cell> = Vec::new();
    let mut j: usize = 0;
    while j < 8
        invariant
            0 <= j <= 8,
            toks@.len() == 8,
            tv == toks@.map_values(|p: String| p@),
            tv == split_spec(line@, ' '),
            cells@.len() == j,
            forall|jj: int|
                0 <= jj < j ==> tv[jj] == cell_text(#[trigger] cells@[jj]@) && wf_cell(
                    cells@[jj]@,
                ),
        decreases 8 - j,
    {
        match extract_cell_values(toks[j].as_str()) {
            Ok(vals) => {
                cells.push(Cell::new(vals));
                proof {
                    assert(tv[j as int] == toks@[j as int]@);
                    assert(cells@[j as int]@ =~= cell_view_of(vals));
                }
            },
            Err(_) => {
                proof {
                    assert forall|rv: Seq<Seq<int>>| wf_row(rv) implies line@
                        != #[trigger] row_text(rv) by {
                        if line@ == row_text(rv) {
                            lemma_row_decomp(rv);
                            assert(tv[j as int] == cell_text(rv[j as int]));
                            assert(wf_cell(rv[j as int]));
                        }
                    }
                }
                return Err(RatrixError::MalformedGrid);
            },
        }
        j += 1;
    }
    proof {
        lemma_split_join(line@, ' ');
        let dv = cells.deep_view();
        assert(dv.len() == 8);
        assert forall|jj: int| 0 <= jj < 8 implies #[trigger] dv[jj] == cells@[jj]@ by {
            assert(dv[jj] == cells@[jj].deep_view());
        }
        assert(dv.map_values(|c: Seq<int>| cell_text(c)) =~= tv);
        assert(row_text(dv) == join(tv, ' '));
        assert(wf_row(dv));
    }
    Ok(cells)
}

/// Parses decrypted plaintext into the 8x8 grid. Returns `Ok` exactly on the
/// renderings of well-formed grids and `MalformedGrid` on every other text;
/// no partial matrix is ever produced.
pub fn process_file_contents(file: &File) -> (r: Result<Matrix, RatrixError>)
    ensures
        r matches Ok(m) ==> text_parses_to(file@.contents, m@),
        r is Err ==> r == Err::<Matrix, RatrixError>(RatrixError::MalformedGrid) && (forall|
            mv: Seq<Seq<Seq<int>>>,
        | !text_parses_to(file@.contents, mv)),
{
    let contents = file.get_contents();
    let lines = split_char(contents, '\n');
    let ghost lv = lines@.map_values(|p: String| p@);
    if lines.len() != 8 {
        proof {
            assert forall|mv: Seq<Seq<Seq<int>>>| !text_parses_to(file@.contents, mv) by {
                if text_parses_to(file@.contents, mv) {
                    lemma_grid_decomp(mv);
                }
            }
        }
        return Err(RatrixError::MalformedGrid);
    }
    let mut rows: Vec<Vec<Cell>> = Vec::new();
    let mut i: usize = 0;
    while i < 8
        invariant
            0 <= i <= 8,
            lines@.len() == 8,
            lv == lines@.map_values(|p: String| p@),
            lv == split_spec(file@.contents, '\n'),
            rows@.len() == i,
            forall|ii: int|
                0 <= ii < i ==> lv[ii] == row_text(#[trigger] rows.deep_view()[ii]) && wf_row(
                    rows.deep_view()[ii],
                ) && rows@[ii]@.len() == 8,
        decreases 8 - i,
    {
        match parse_row(lines[i].as_str()) {
            Ok(row) => {
                let ghost prev = rows@;
                let ghost prev_dv = rows.deep_view();
                rows.push(row);
                proof {
                    assert(rows@ == prev.push(row));
                    assert(lv[i as int] == lines@[i as int]@);
                    assert forall|ii: int| 0 <= ii < i + 1 implies lv[ii] == row_text(
                        #[trigger] rows.deep_view()[ii]) && wf_row(rows.deep_view()[ii])
                        && rows@[ii]@.len() == 8 by {
                        assert(rows.deep_view()[ii] == rows@[ii].deep_view());
                        if ii < i {
                            assert(rows@[ii] == prev[ii]);
                            assert(prev_dv[ii] == prev[ii].deep_view());
                            assert(lv[ii] == row_text(prev_dv[ii]));
                            assert(wf_row(prev_dv[ii]));
                        } else {
                            assert(rows@[ii] == row);
                        }
                    }
                }
            },
            Err(_) => {
                proof {
                    assert forall|mv: Seq<Seq<Seq<int>>>| !text_parses_to(
                        file@.contents,
                        mv,
                    ) by {
                        if text_parses_to(file@.contents, mv) {
                            lemma_grid_decomp(mv);
                            assert(lv[i as int] == row_text(mv[i as int]));
                            assert(wf_row(mv[i as int]));
                        }
                    }
                }
                return Err(RatrixError::MalformedGrid);
            },
        }
        i += 1;
    }
    proof {
        assert forall|ii: int| 0 <= ii < 8 implies #[trigger] rows@[ii]@.len() == 8 by {
            assert(rows.deep_view()[ii] == rows@[ii].deep_view());
        }
    }
    let m = Matrix::new(rows);
    proof {
        lemma_split_join(file@.contents, '\n');
        assert(m@.map_values(|r: Seq<Seq<int>>| row_text(r)) =~= lv);
        assert(grid_text(m@) == join(lv, '\n'));
        assert(wf_grid(m@));
    }
    Ok(m)
}

/// Joins already rendered parts with a one-character separator.
fn join_with(parts: &Vec<String>, sep: &str) -> (r: String)
    requires
        parts@.len() >= 1,
        sep@.len() == 1,
    ensures
        r@ == join(parts@.map_values(|p: String| p@), sep@[0]),
{
    let ghost pv = parts@.map_values(|p: String| p@);
    let mut s = parts[0].clone();
    proof {
        assert(pv.subrange(0, 1) =~= seq![pv[0]]);
        assert(join(pv.subrange(0, 1), sep@[0]) == pv[0]);
    }
    let mut k: usize = 1;
    while k < parts.len()
        invariant
            1 <= k <= parts@.len(),
            sep@.len() == 1,
            pv == parts@.map_values(|p: String| p@),
            s@ == join(pv.subrange(0, k as int), sep@[0]),
        decreases parts@.len() - k,
    {
        s.append(sep);
        s.append(parts[k].as_str());
        proof {
            lemma_join_push(pv.subrange(0, k as int), pv[k as int], sep@[0]);
            assert(pv.subrange(0, k as int).push(pv[k as int]) =~= pv.subrange(0, k + 1));
            assert(s@ =~= join(pv.subrange(0, k + 1), sep@[0]));
        }
        k += 1;
    }
    proof {
        assert(pv.subrange(0, pv.len() as int) =~= pv);
    }
    s
}

/// Renders one cell in the plaintext cell format.
fn cell_to_string(c: &Cell) -> (r: String)
    ensures
        r@ == cell_text(c@),
{
    let mut parts: Vec<String> = Vec::new();
    parts.push(i32_to_string(c.get_position(0)));
    parts.push(i32_to_string(c.get_position(1)));
    parts.push(i32_to_string(c.get_position(2)));
    proof {
        reveal_strlit(",");
        assert(parts@.map_values(|p: String| p@) =~= seq![
            decimal_of(c@[0]),
            decimal_of(c@[1]),
            decimal_of(c@[2]),
        ]);
    }
    let r = join_with(&parts, ",");
    r
}

/// Serializes the matrix to the plaintext format the parser accepts: eight
/// newline-separated lines of eight space-separated cells of three
/// comma-separated channel values.
pub fn matrix_to_text(m: &Matrix) -> (r: String)
    requires
        wf_grid(m@),
    ensures
        r@ == grid_text(m@),
{
    let mut rows: Vec<String> = Vec::new();
    let mut i: u32 = 0;
    while i < 8
        invariant
            wf_grid(m@),
            0 <= i <= 8,
            rows@.len() == i as int,
            forall|ii: int|
                0 <= ii < i as int ==> (#[trigger] rows@[ii])@ == row_text(m@[ii]),
        decreases 8 - i,
    {
        let mut cells: Vec<String> = Vec::new();
        let mut j: u32 = 0;
        while j < 8
            invariant
                wf_grid(m@),
                0 <= i < 8,
                0 <= j <= 8,
                cells@.len() == j as int,
                forall|jj: int|
                    0 <= jj < j as int ==> (#[trigger] cells@[jj])@ == cell_text(
                        m@[i as int][jj],
                    ),
            decreases 8 - j,
        {
            let c = m.get_cell_position(i, j);
            cells.push(cell_to_string(c));
            j += 1;
        }
        proof {
            reveal_strlit(" ");
            assert(cells@.map_values(|p: String| p@) =~= m@[i as int].map_values(
                |c: Seq<int>| cell_text(c),
            ));
        }
        rows.push(join_with(&cells, " "));
        i += 1;
    }
    proof {
        reveal_strlit("\n");
        assert(rows@.map_values(|p: String| p@) =~= m@.map_values(
            |r: Seq<Seq<int>>| row_text(r),
        ));
    }
    join_with(&rows, "\n")
}

} // verus!
