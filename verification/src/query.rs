use vstd::prelude::*;

use crate::errors::RatrixError;
use crate::numbers::decimal_of;
use crate::numbers::i32_to_string;
use crate::structure::Matrix;
use crate::text::split_char;
use crate::text::split_spec;

verus! {

/// The coordinate alphabet: the letters 'A'..'H' and the digits '1'..'8'
/// both denote the zero-based indices 0..7; any other character denotes
/// nothing.
pub open spec fn resolve_spec(c: char) -> Option<int> {
    if c == 'A' || c == '1' {
        Some(0int)
    } else if c == 'B' || c == '2' {
        Some(1int)
    } else if c == 'C' || c == '3' {
        Some(2int)
    } else if c == 'D' || c == '4' {
        Some(3int)
    } else if c == 'E' || c == '5' {
        Some(4int)
    } else if c == 'F' || c == '6' {
        Some(5int)
    } else if c == 'G' || c == '7' {
        Some(6int)
    } else if c == 'H' || c == '8' {
        Some(7int)
    } else {
        None
    }
}

/// Maps one coordinate character to its zero-based index; every character
/// outside the sixteen-character alphabet is an `InvalidCoordinate` error.
pub fn convert_position(ch: char) -> (r: Result<u32, RatrixError>)
    ensures
        r matches Ok(i) ==> resolve_spec(ch) == Some(i as int) && i < 8,
        r is Err ==> r == Err::<u32, RatrixError>(RatrixError::InvalidCoordinate)
            && resolve_spec(ch) is None,
{
    match ch {
        'A' | '1' => Ok(0),
        'B' | '2' => Ok(1),
        'C' | '3' => Ok(2),
        'D' | '4' => Ok(3),
        'E' | '5' => Ok(4),
        'F' | '6' => Ok(5),
        'G' | '7' => Ok(6),
        'H' | '8' => Ok(7),
        _ => Err(RatrixError::InvalidCoordinate),
    }
}

/// The indices a three-character token resolves to, if all three characters
/// belong to the coordinate alphabet.
pub open spec fn token_indices(tok: Seq<char>) -> Option<(int, int, int)> {
    if tok.len() == 3 {
        match (resolve_spec(tok[0]), resolve_spec(tok[1]), resolve_spec(tok[2])) {
            (Some(r), Some(c), Some(p)) => Some((r, c, p)),
            _ => None,
        }
    } else {
        None
    }
}

/// Whether a token selects a value from the grid: its characters must
/// resolve, and the channel selector must name one of the three channels.
pub open spec fn lookup_spec(m: Seq<Seq<Seq<int>>>, tok: Seq<char>) -> Option<int> {
    match token_indices(tok) {
        Some(rcp) => if rcp.2 < 3 {
            Some(m[rcp.0][rcp.1][rcp.2])
        } else {
            None
        },
        None => None,
    }
}

/// The selected value (0 where the token selects nothing; `lookup_spec`
/// says when it does).
pub open spec fn lookup_value(m: Seq<Seq<Seq<int>>>, tok: Seq<char>) -> int {
    match token_indices(tok) {
        Some(rcp) => m[rcp.0][rcp.1][rcp.2],
        None => 0,
    }
}

/// The output line for one token and the value it selected.
pub open spec fn line_text(tok: Seq<char>, v: int) -> Seq<char> {
    tok + ": "@ + decimal_of(v)
}

/// Resolves one coordinate token against the grid and renders its output
/// line `<token>: <value>`; any token that selects nothing is an
/// `InvalidCoordinate` error.
pub fn print_position_value(matrix: &Matrix, position: &str) -> (r: Result<String, RatrixError>)
    ensures
        r matches Ok(line) ==> lookup_spec(matrix@, position@) is Some && line@ == line_text(
            position@,
            lookup_value(matrix@, position@),
        ),
        r is Err ==> r == Err::<String, RatrixError>(RatrixError::InvalidCoordinate)
            && lookup_spec(matrix@, position@) is None,
{
    let len = position.unicode_len();
    if len != 3 {
        return Err(RatrixError::InvalidCoordinate);
    }
    let row = match convert_position(position.get_char(0)) {
        Ok(v) => v,
        Err(e) => {
            return Err(e);
        },
    };
    let column = match convert_position(position.get_char(1)) {
        Ok(v) => v,
        Err(e) => {
            return Err(e);
        },
    };
    let channel = match convert_position(position.get_char(2)) {
        Ok(v) => v,
        Err(e) => {
            return Err(e);
        },
    };
    if channel >= 3 {
        // the channel selector resolves, but a cell only has channels 0..3
        return Err(RatrixError::InvalidCoordinate);
    }
    let value = matrix.get_cell_value(row, column, channel);
    let mut s = String::from_str(position);
    s.append(": ");
    let vs = i32_to_string(value);
    s.append(vs.as_str());
    proof {
        reveal_strlit(": ");
        assert(s@ =~= line_text(position@, lookup_value(matrix@, position@)));
    }
    Ok(s)
}

/// Looks up every token of the comma-separated list, in order, duplicates
/// included, and returns one output line per token; the first token that
/// selects nothing makes the whole lookup an `InvalidCoordinate` error.
pub fn print_values(matrix: &Matrix, positions: &str) -> (r: Result<Vec<String>, RatrixError>)
    ensures
        r matches Ok(lines) ==> lines@.len() == split_spec(positions@, ',').len() && (forall|
            k: int,
        |
            0 <= k < split_spec(positions@, ',').len() ==> lookup_spec(
                matrix@,
                #[trigger] split_spec(positions@, ',')[k],
            ) is Some && lines@[k]@ == line_text(
                split_spec(positions@, ',')[k],
                lookup_value(matrix@, split_spec(positions@, ',')[k]),
            )),
        r is Err ==> r == Err::<Vec<String>, RatrixError>(RatrixError::InvalidCoordinate) && (
        exists|k: int|
            0 <= k < split_spec(positions@, ',').len() && lookup_spec(
                matrix@,
                #[trigger] split_spec(positions@, ',')[k],
            ) is None && (forall|j: int|
                0 <= j < k ==> lookup_spec(
                    matrix@,
                    #[trigger] split_spec(positions@, ',')[j],
                ) is Some)),
{
    let toks = split_char(positions, ',');
    let ghost tv = toks@.map_values(|p: String| p@);
    let mut lines: Vec<String> = Vec::new();
    let mut k: usize = 0;
    while k < toks.len()
        invariant
            0 <= k <= toks@.len(),
            tv == toks@.map_values(|p: String| p@),
            tv == split_spec(positions@, ','),
            lines@.len() == k,
            forall|kk: int|
                0 <= kk < k ==> lookup_spec(matrix@, #[trigger] tv[kk]) is Some && lines@[kk]@
                    == line_text(tv[kk], lookup_value(matrix@, tv[kk])),
        decreases toks@.len() - k,
    {
        match print_position_value(matrix, toks[k].as_str()) {
            Ok(line) => {
                lines.push(line);
                proof {
                    assert(tv[k as int] == toks@[k as int]@);
                }
            },
            Err(e) => {
                proof {
                    assert(tv[k as int] == toks@[k as int]@);
                    assert(lookup_spec(matrix@, tv[k as int]) is None);
                }
                return Err(e);
            },
        }
        k += 1;
    }
    Ok(lines)
}

} // verus!
