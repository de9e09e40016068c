use vstd::prelude::*;

verus! {

/// The decimal digit character for a value 0 through 9.
pub open spec fn digit_char(d: int) -> char {
    if d == 0 {
        '0'
    } else if d == 1 {
        '1'
    } else if d == 2 {
        '2'
    } else if d == 3 {
        '3'
    } else if d == 4 {
        '4'
    } else if d == 5 {
        '5'
    } else if d == 6 {
        '6'
    } else if d == 7 {
        '7'
    } else if d == 8 {
        '8'
    } else {
        '9'
    }
}

pub open spec fn is_digit_char(c: char) -> bool {
    ||| c == '0'
    ||| c == '1'
    ||| c == '2'
    ||| c == '3'
    ||| c == '4'
    ||| c == '5'
    ||| c == '6'
    ||| c == '7'
    ||| c == '8'
    ||| c == '9'
}

/// The numeric value of a digit character (0 for any other character).
pub open spec fn digit_val(c: char) -> int {
    if c == '0' {
        0
    } else if c == '1' {
        1
    } else if c == '2' {
        2
    } else if c == '3' {
        3
    } else if c == '4' {
        4
    } else if c == '5' {
        5
    } else if c == '6' {
        6
    } else if c == '7' {
        7
    } else if c == '8' {
        8
    } else if c == '9' {
        9
    } else {
        0
    }
}

/// The decimal digits of `n`, most significant first, with no leading zero
/// except for the single digit of zero itself.
pub open spec fn digits_of(n: nat) -> Seq<char>
    decreases n,
{
    if n < 10 {
        seq![digit_char(n as int)]
    } else {
        digits_of(n / 10).push(digit_char((n % 10) as int))
    }
}

/// The value denoted by a sequence of digit characters.
pub open spec fn digits_val(s: Seq<char>) -> int
    decreases s.len(),
{
    if s.len() == 0 {
        0
    } else {
        digits_val(s.drop_last()) * 10 + digit_val(s.last())
    }
}

/// The canonical decimal rendering of an integer: an optional leading minus
/// sign followed by the digits of the magnitude.
pub open spec fn decimal_of(v: int) -> Seq<char> {
    if v < 0 {
        seq!['-'] + digits_of((-v) as nat)
    } else {
        digits_of(v as nat)
    }
}

pub proof fn lemma_digits_of_chars(n: nat)
    ensures
        digits_of(n).len() >= 1,
        forall|k: int| 0 <= k < digits_of(n).len() ==> is_digit_char(#[trigger] digits_of(n)[k]),
    decreases n,
{
    if n >= 10 {
        lemma_digits_of_chars(n / 10);
    }
}

proof fn lemma_digit_char_val(d: int)
    requires
        0 <= d < 10,
    ensures
        digit_val(digit_char(d)) == d,
{
}

/// Reading back the digits of `n` yields `n`.
pub proof fn lemma_digits_val_of_digits(n: nat)
    ensures
        digits_val(digits_of(n)) == n,
    decreases n,
{
    if n < 10 {
        lemma_digit_char_val(n as int);
        assert(digits_of(n) == seq![digit_char(n as int)]);
        assert(digits_of(n).drop_last() =~= Seq::<char>::empty());
        assert(digits_of(n).last() == digit_char(n as int));
        assert(digits_val(digits_of(n)) == digits_val(digits_of(n).drop_last()) * 10 + digit_val(
            digits_of(n).last(),
        ));
        assert(digits_val(digits_of(n).drop_last()) == 0);
    } else {
        lemma_digit_char_val((n % 10) as int);
        lemma_digits_val_of_digits(n / 10);
        assert(digits_of(n).drop_last() =~= digits_of(n / 10));
        assert(digits_of(n).last() == digit_char((n % 10) as int));
        assert(n == (n / 10) * 10 + n % 10) by {
            vstd::arithmetic::div_mod::lemma_fundamental_div_mod(n as int, 10);
        }
    }
}

pub proof fn lemma_digits_val_nonneg(s: Seq<char>)
    ensures
        digits_val(s) >= 0,
    decreases s.len(),
{
    if s.len() > 0 {
        lemma_digits_val_nonneg(s.drop_last());
    }
}

/// The value of a prefix of a digit string never exceeds the whole.
pub proof fn lemma_digits_val_prefix(s: Seq<char>, i: int)
    requires
        0 <= i <= s.len(),
    ensures
        digits_val(s.subrange(0, i)) <= digits_val(s),
    decreases s.len() - i,
{
    if i == s.len() {
        assert(s.subrange(0, i) =~= s);
    } else {
        let t = s.subrange(0, i + 1);
        assert(t.drop_last() =~= s.subrange(0, i));
        lemma_digits_val_nonneg(s.subrange(0, i));
        lemma_digits_val_prefix(s, i + 1);
    }
}

/// The shape of a canonical decimal rendering: nonempty, a minus sign
/// exactly on negative values, digits everywhere else.
pub proof fn lemma_decimal_shape(v: int)
    ensures
        decimal_of(v).len() >= 1,
        v >= 0 ==> decimal_of(v) == digits_of(v as nat),
        v >= 0 ==> is_digit_char(decimal_of(v)[0]),
        v < 0 ==> decimal_of(v)[0] == '-' && decimal_of(v).len() >= 2,
        v < 0 ==> decimal_of(v).subrange(1, decimal_of(v).len() as int) =~= digits_of((-v) as nat),
        forall|k: int|
            (if v < 0 { 1int } else { 0int }) <= k < decimal_of(v).len() ==> is_digit_char(
                #[trigger] decimal_of(v)[k],
            ),
{
    if v < 0 {
        lemma_digits_of_chars((-v) as nat);
        assert(decimal_of(v).subrange(1, decimal_of(v).len() as int) =~= digits_of((-v) as nat));
    } else {
        lemma_digits_of_chars(v as nat);
    }
}

/// No integer renders to two different strings and no two integers render
/// to the same string.
pub proof fn lemma_decimal_injective(v1: int, v2: int)
    requires
        decimal_of(v1) == decimal_of(v2),
    ensures
        v1 == v2,
{
    lemma_decimal_shape(v1);
    lemma_decimal_shape(v2);
    if v1 < 0 && v2 < 0 {
        assert(digits_of((-v1) as nat) =~= digits_of((-v2) as nat));
        lemma_digits_val_of_digits((-v1) as nat);
        lemma_digits_val_of_digits((-v2) as nat);
    } else if v1 >= 0 && v2 >= 0 {
        lemma_digits_val_of_digits(v1 as nat);
        lemma_digits_val_of_digits(v2 as nat);
    }
}

fn digit_str(d: u64) -> (r: &'static str)
    requires
        d < 10,
    ensures
        r@ == seq![digit_char(d as int)],
{
    let s: &'static str = if d == 0 {
        "0"
    } else if d == 1 {
        "1"
    } else if d == 2 {
        "2"
    } else if d == 3 {
        "3"
    } else if d == 4 {
        "4"
    } else if d == 5 {
        "5"
    } else if d == 6 {
        "6"
    } else if d == 7 {
        "7"
    } else if d == 8 {
        "8"
    } else {
        "9"
    };
    proof {
        reveal_strlit("0");
        reveal_strlit("1");
        reveal_strlit("2");
        reveal_strlit("3");
        reveal_strlit("4");
        reveal_strlit("5");
        reveal_strlit("6");
        reveal_strlit("7");
        reveal_strlit("8");
        reveal_strlit("9");
        assert(s@ =~= seq![digit_char(d as int)]);
    }
    s
}

fn u64_digits(n: u64) -> (r: String)
    ensures
        r@ == digits_of(n as nat),
    decreases n,
{
    if n < 10 {
        String::from_str(digit_str(n))
    } else {
        let mut s = u64_digits(n / 10);
        s.append(digit_str(n % 10));
        proof {
            assert(s@ =~= digits_of(n as nat));
        }
        s
    }
}

/// Renders an integer in the canonical decimal form used by the grid's
/// plaintext format.
pub fn i32_to_string(v: i32) -> (r: String)
    ensures
        r@ == decimal_of(v as int),
{
    if v >= 0 {
        u64_digits(v as u64)
    } else {
        let m: u64 = (-(v as i64)) as u64;
        let mut s = String::from_str("-");
        let ds = u64_digits(m);
        s.append(ds.as_str());
        proof {
            reveal_strlit("-");
            assert(s@ =~= decimal_of(v as int));
        }
        s
    }
}

/// Parses a channel token; accepts exactly the canonical decimal renderings
/// of the values an `i32` can hold, and nothing else.
pub fn parse_channel(tok: &str) -> (r: Option<i32>)
    ensures
        r matches Some(v) ==> tok@ == decimal_of(v as int),
        r is None ==> forall|v: i32| tok@ != decimal_of(v as int),
{
    let len = tok.unicode_len();
    if len == 0 {
        proof {
            assert forall|v: i32| tok@ != decimal_of(v as int) by {
                lemma_decimal_shape(v as int);
            }
        }
        return None;
    }
    let neg = tok.get_char(0) == '-';
    let start: usize = if neg {
        1
    } else {
        0
    };
    if start >= len {
        // the token is a lone minus sign
        proof {
            assert forall|v: i32| tok@ != decimal_of(v as int) by {
                lemma_decimal_shape(v as int);
                if tok@ == decimal_of(v as int) {
                    if v >= 0 {
                        assert(is_digit_char(tok@[0]));
                    } else {
                        assert(decimal_of(v as int).len() >= 2);
                    }
                }
            }
        }
        return None;
    }
    let mut acc: u64 = 0;
    let mut i: usize = start;
    while i < len
        invariant
            start <= i <= len,
            len == tok@.len(),
            start == (if neg { 1int } else { 0int }),
            neg ==> tok@[0] == '-',
            !neg ==> tok@[0] != '-',
            acc <= 0x8000_0000,
            acc as int == digits_val(tok@.subrange(start as int, i as int)),
        decreases len - i,
    {
        let c = tok.get_char(i);
        let d: u64 = if c == '0' {
            0
        } else if c == '1' {
            1
        } else if c == '2' {
            2
        } else if c == '3' {
            3
        } else if c == '4' {
            4
        } else if c == '5' {
            5
        } else if c == '6' {
            6
        } else if c == '7' {
            7
        } else if c == '8' {
            8
        } else if c == '9' {
            9
        } else {
            // a character outside the digit alphabet at a digit position
            proof {
                assert forall|v: i32| tok@ != decimal_of(v as int) by {
                    lemma_decimal_shape(v as int);
                    if tok@ == decimal_of(v as int) {
                        if v >= 0 {
                            assert(is_digit_char(tok@[i as int]));
                        } else {
                            assert(tok@[0] == '-');
                            assert(is_digit_char(tok@[i as int]));
                        }
                    }
                }
            }
            return None;
        };
        proof {
            let t = tok@.subrange(start as int, i + 1);
            assert(t.drop_last() =~= tok@.subrange(start as int, i as int));
            assert(t.last() == tok@[i as int]);
        }
        acc = acc * 10 + d;
        if acc > 0x8000_0000 {
            // the magnitude already exceeds what an i32 can hold
            proof {
                assert forall|v: i32| tok@ != decimal_of(v as int) by {
                    lemma_decimal_shape(v as int);
                    if tok@ == decimal_of(v as int) {
                        let off: int = if v < 0 { 1 } else { 0 };
                        let mag: nat = (if v < 0 { -(v as int) } else { v as int }) as nat;
                        let ds = tok@.subrange(off, len as int);
                        assert(ds =~= digits_of(mag));
                        lemma_digits_val_of_digits(mag);
                        assert(off == start as int);
                        lemma_digits_val_prefix(ds, i + 1 - start);
                        assert(ds.subrange(0, i + 1 - start) =~= tok@.subrange(
                            start as int,
                            i + 1,
                        ));
                        assert(digits_val(tok@.subrange(start as int, i + 1)) <= mag);
                        assert(mag <= 0x8000_0000);
                    }
                }
            }
            return None;
        }
        i += 1;
    }
    let v: i32 = if neg {
        (-(acc as i64)) as i32
    } else {
        if acc > 0x7fff_ffff {
            // too large for a non-negative i32
            proof {
                assert forall|v: i32| tok@ != decimal_of(v as int) by {
                    lemma_decimal_shape(v as int);
                    if tok@ == decimal_of(v as int) {
                        assert(v >= 0) by {
                            if v < 0 {
                                assert(tok@[0] == '-');
                            }
                        }
                        let ds = tok@.subrange(0, len as int);
                        assert(ds =~= digits_of(v as nat));
                        lemma_digits_val_of_digits(v as nat);
                        assert(ds =~= tok@.subrange(start as int, len as int));
                    }
                }
            }
            return None;
        }
        acc as i32
    };
    let rendered = i32_to_string(v);
    let owned = tok.to_owned();
    if rendered == owned {
        proof {
            assert(tok@ == decimal_of(v as int));
        }
        Some(v)
    } else {
        proof {
            assert forall|v2: i32| tok@ != decimal_of(v2 as int) by {
                lemma_decimal_shape(v2 as int);
                if tok@ == decimal_of(v2 as int) {
                    if v2 >= 0 {
                        assert(!neg) by {
                            assert(is_digit_char(tok@[0]));
                        }
                        let ds = tok@.subrange(start as int, len as int);
                        assert(ds =~= digits_of(v2 as nat));
                        lemma_digits_val_of_digits(v2 as nat);
                        assert(acc as int == v2 as int);
                        assert(v == v2);
                    } else {
                        assert(neg);
                        let mag: nat = (-(v2 as int)) as nat;
                        let ds = tok@.subrange(start as int, len as int);
                        assert(ds =~= digits_of(mag));
                        lemma_digits_val_of_digits(mag);
                        assert(acc as int == mag);
                        assert(v as int == -(acc as int));
                        assert(v == v2);
                    }
                    assert(rendered@ == tok@);
                }
            }
        }
        None
    }
}

} // verus!
