use vstd::prelude::*;

verus! {

/// The parts interspersed with the delimiter: the inverse of splitting.
pub open spec fn join(parts: Seq<Seq<char>>, d: char) -> Seq<char>
    decreases parts.len(),
{
    if parts.len() == 0 {
        Seq::<char>::empty()
    } else if parts.len() == 1 {
        parts[0]
    } else {
        parts[0] + seq![d] + join(parts.drop_first(), d)
    }
}

/// No part contains the delimiter.
pub open spec fn sep_free(parts: Seq<Seq<char>>, d: char) -> bool {
    forall|i: int| 0 <= i < parts.len() ==> !(#[trigger] parts[i]).contains(d)
}

/// Splitting on a delimiter, defined character by character.
pub open spec fn split_spec(s: Seq<char>, d: char) -> Seq<Seq<char>>
    decreases s.len(),
{
    if s.len() == 0 {
        seq![Seq::<char>::empty()]
    } else {
        let rest = split_spec(s.drop_first(), d);
        if s[0] == d {
            seq![Seq::<char>::empty()] + rest
        } else {
            seq![seq![s[0]] + rest[0]] + rest.drop_first()
        }
    }
}

pub proof fn lemma_split_len(s: Seq<char>, d: char)
    ensures
        split_spec(s, d).len() >= 1,
    decreases s.len(),
{
    if s.len() > 0 {
        lemma_split_len(s.drop_first(), d);
    }
}

/// Splitting is a right inverse of joining, and its parts are free of the
/// delimiter.
pub proof fn lemma_split_join(s: Seq<char>, d: char)
    ensures
        join(split_spec(s, d), d) == s,
        sep_free(split_spec(s, d), d),
    decreases s.len(),
{
    lemma_split_len(s, d);
    if s.len() == 0 {
        assert(join(split_spec(s, d), d) =~= s);
        assert forall|i: int| 0 <= i < split_spec(s, d).len() implies !(#[trigger] split_spec(
            s,
            d,
        )[i]).contains(d) by {
            assert(!split_spec(s, d)[i].contains(d));
        }
    } else {
        let tail = s.drop_first();
        lemma_split_len(tail, d);
        lemma_split_join(tail, d);
        let rest = split_spec(tail, d);
        if s[0] == d {
            let parts = split_spec(s, d);
            assert(parts == seq![Seq::<char>::empty()] + rest);
            assert(parts.len() >= 2);
            assert(parts.drop_first() =~= rest);
            assert(join(parts, d) =~= s);
            assert forall|i: int| 0 <= i < parts.len() implies !(#[trigger] parts[i]).contains(
                d,
            ) by {
                if i > 0 {
                    assert(parts[i] == rest[i - 1]);
                }
            }
        } else {
            let parts = split_spec(s, d);
            assert(parts == seq![seq![s[0]] + rest[0]] + rest.drop_first());
            if rest.len() == 1 {
                assert(parts.len() == 1);
                assert(parts[0] == seq![s[0]] + rest[0]);
                assert(join(rest, d) == rest[0]);
                assert(join(parts, d) == parts[0]);
                assert(join(parts, d) =~= s);
            } else {
                assert(parts.len() >= 2);
                assert(parts.drop_first() =~= rest.drop_first());
                assert(parts[0] == seq![s[0]] + rest[0]);
                assert(join(rest, d) == rest[0] + seq![d] + join(rest.drop_first(), d));
                assert(join(parts, d) == parts[0] + seq![d] + join(parts.drop_first(), d));
                assert(s =~= seq![s[0]] + tail);
                assert(tail == join(rest, d));
                assert(join(parts, d) =~= seq![s[0]] + (rest[0] + seq![d] + join(
                    rest.drop_first(),
                    d,
                )));
                assert(join(parts, d) =~= s);
            }
            assert forall|i: int| 0 <= i < parts.len() implies !(#[trigger] parts[i]).contains(
                d,
            ) by {
                if i == 0 {
                    assert(!rest[0].contains(d));
                    assert forall|k: int| 0 <= k < parts[0].len() implies parts[0][k] != d by {
                        if k > 0 {
                            assert(parts[0][k] == rest[0][k - 1]);
                        }
                    }
                } else {
                    assert(parts[i] == rest[i]);
                }
            }
        }
    }
}

/// Appending one more part to a join.
pub proof fn lemma_join_push(parts: Seq<Seq<char>>, x: Seq<char>, d: char)
    ensures
        join(parts.push(x), d) == if parts.len() == 0 {
            x
        } else {
            join(parts, d) + seq![d] + x
        },
    decreases parts.len(),
{
    if parts.len() == 0 {
        assert(parts.push(x) =~= seq![x]);
        assert(join(parts.push(x), d) =~= x);
    } else if parts.len() == 1 {
        assert(parts.push(x).drop_first() =~= seq![x]);
        assert(join(parts.push(x), d) == parts.push(x)[0] + seq![d] + join(
            parts.push(x).drop_first(),
            d,
        ));
        assert(join(seq![x], d) == x);
        assert(parts.push(x)[0] == parts[0]);
        assert(join(parts, d) == parts[0]);
        assert(join(parts.push(x), d) =~= join(parts, d) + seq![d] + x);
    } else {
        lemma_join_push(parts.drop_first(), x, d);
        assert(parts.push(x).drop_first() =~= parts.drop_first().push(x));
        assert(join(parts, d) + seq![d] + x =~= parts[0] + seq![d] + (join(
            parts.drop_first(),
            d,
        ) + seq![d] + x));
    }
}

/// A string decomposes in at most one way into delimiter-free parts: whoever
/// joins to the same text with the same delimiter used the same parts.
pub proof fn lemma_join_unique(xs: Seq<Seq<char>>, ys: Seq<Seq<char>>, d: char)
    requires
        xs.len() >= 1,
        ys.len() >= 1,
        sep_free(xs, d),
        sep_free(ys, d),
        join(xs, d) == join(ys, d),
    ensures
        xs =~~= ys,
    decreases xs.len(),
{
    let s = join(xs, d);
    if xs.len() == 1 && ys.len() == 1 {
        assert(xs[0] == ys[0]);
        assert(xs =~~= ys);
    } else if xs.len() == 1 {
        // join(ys, d) holds a delimiter that xs[0] cannot contain
        assert(ys.len() >= 2);
        assert(s == ys[0] + seq![d] + join(ys.drop_first(), d));
        assert(s[ys[0].len() as int] == d);
        assert(xs[0].contains(d));
        assert(false);
    } else if ys.len() == 1 {
        assert(xs.len() >= 2);
        assert(s == xs[0] + seq![d] + join(xs.drop_first(), d));
        assert(s[xs[0].len() as int] == d);
        assert(ys[0].contains(d));
        assert(false);
    } else {
        assert(s == xs[0] + seq![d] + join(xs.drop_first(), d));
        assert(s == ys[0] + seq![d] + join(ys.drop_first(), d));
        let lx = xs[0].len() as int;
        let ly = ys[0].len() as int;
        assert(s[lx] == d);
        assert(s[ly] == d);
        if lx < ly {
            assert(ys[0][lx] == s[lx]);
            assert(ys[0].contains(d));
            assert(false);
        }
        if ly < lx {
            assert(xs[0][ly] == s[ly]);
            assert(xs[0].contains(d));
            assert(false);
        }
        assert forall|k: int| 0 <= k < lx implies xs[0][k] == ys[0][k] by {
            assert(s[k] == xs[0][k]);
            assert(s[k] == ys[0][k]);
        }
        assert(xs[0] =~= ys[0]);
        assert(join(xs.drop_first(), d) =~= join(ys.drop_first(), d)) by {
            let tx = join(xs.drop_first(), d);
            let ty = join(ys.drop_first(), d);
            assert(tx =~= s.subrange(lx + 1, s.len() as int));
            assert(ty =~= s.subrange(ly + 1, s.len() as int));
        }
        assert(sep_free(xs.drop_first(), d)) by {
            assert forall|i: int| 0 <= i < xs.drop_first().len() implies !(
            #[trigger] xs.drop_first()[i]).contains(d) by {
                assert(xs.drop_first()[i] == xs[i + 1]);
            }
        }
        assert(sep_free(ys.drop_first(), d)) by {
            assert forall|i: int| 0 <= i < ys.drop_first().len() implies !(
            #[trigger] ys.drop_first()[i]).contains(d) by {
                assert(ys.drop_first()[i] == ys[i + 1]);
            }
        }
        lemma_join_unique(xs.drop_first(), ys.drop_first(), d);
        assert(xs.drop_first() == ys.drop_first());
        assert forall|i: int| 0 <= i < xs.len() implies xs[i] == ys[i] by {
            if i >= 1 {
                assert(xs[i] == xs.drop_first()[i - 1]);
                assert(ys[i] == ys.drop_first()[i - 1]);
            }
        }
        assert(xs =~~= ys);
    }
}

/// All characters of a join satisfy whatever all characters of the parts and
/// the delimiter satisfy.
pub proof fn lemma_join_chars(parts: Seq<Seq<char>>, d: char, ok: spec_fn(char) -> bool)
    requires
        forall|i: int, k: int|
            0 <= i < parts.len() && 0 <= k < (#[trigger] parts[i]).len() ==> ok(
                #[trigger] parts[i][k],
            ),
        ok(d),
    ensures
        forall|k: int| 0 <= k < join(parts, d).len() ==> ok(#[trigger] join(parts, d)[k]),
    decreases parts.len(),
{
    if parts.len() <= 1 {
    } else {
        assert forall|i: int, k: int|
            0 <= i < parts.drop_first().len() && 0 <= k < (
            #[trigger] parts.drop_first()[i]).len() implies ok(
            #[trigger] parts.drop_first()[i][k]) by {
            assert(parts.drop_first()[i] == parts[i + 1]);
        }
        lemma_join_chars(parts.drop_first(), d, ok);
        let s = join(parts, d);
        assert forall|k: int| 0 <= k < s.len() implies ok(#[trigger] s[k]) by {
            let l0 = parts[0].len() as int;
            if k < l0 {
                assert(s[k] == parts[0][k]);
            } else if k == l0 {
                assert(s[k] == d);
            } else {
                assert(s[k] == join(parts.drop_first(), d)[k - l0 - 1]);
            }
        }
    }
}

/// Splits a string at every occurrence of a one-character delimiter.
pub fn split_char(s: &str, d: char) -> (r: Vec<String>)
    ensures
        r@.map_values(|p: String| p@) == split_spec(s@, d),
        r@.len() >= 1,
{
    let len = s.unicode_len();
    let mut parts: Vec<String> = Vec::new();
    let mut cur = String::new();
    let mut start: usize = 0;
    let mut i: usize = 0;
    while i < len
        invariant
            0 <= start <= i <= len,
            len == s@.len(),
            cur@ == s@.subrange(start as int, i as int),
            !cur@.contains(d),
            parts@.len() == 0 ==> start == 0,
            parts@.len() >= 1 ==> join(parts@.map_values(|p: String| p@), d) + seq![d]
                =~= s@.subrange(0, start as int),
            sep_free(parts@.map_values(|p: String| p@), d),
        decreases len - i,
    {
        let c = s.get_char(i);
        if c == d {
            let ghost old_parts = parts@.map_values(|p: String| p@);
            let ghost old_cur = cur@;
            parts.push(cur);
            cur = String::new();
            proof {
                assert(parts@.map_values(|p: String| p@) =~= old_parts.push(old_cur));
                lemma_join_push(old_parts, old_cur, d);
                assert(join(parts@.map_values(|p: String| p@), d) + seq![d] =~= s@.subrange(
                    0,
                    i + 1,
                ));
                assert(sep_free(parts@.map_values(|p: String| p@), d)) by {
                    let np = parts@.map_values(|p: String| p@);
                    assert forall|k: int| 0 <= k < np.len() implies !(#[trigger] np[k]).contains(
                        d,
                    ) by {
                        if k < np.len() - 1 {
                            assert(np[k] == old_parts[k]);
                        }
                    }
                }
            }
            start = i + 1;
        } else {
            let piece = s.substring_char(i, i + 1);
            cur.append(piece);
            proof {
                assert(cur@ =~= s@.subrange(start as int, i + 1));
                assert(!cur@.contains(d)) by {
                    assert forall|k: int| 0 <= k < cur@.len() implies cur@[k] != d by {
                        assert(cur@[k] == s@[start + k]);
                    }
                }
            }
        }
        i += 1;
    }
    let ghost old_parts = parts@.map_values(|p: String| p@);
    let ghost old_cur = cur@;
    parts.push(cur);
    proof {
        assert(parts@.map_values(|p: String| p@) =~= old_parts.push(old_cur));
        lemma_join_push(old_parts, old_cur, d);
        assert(join(parts@.map_values(|p: String| p@), d) =~= s@);
        assert(sep_free(parts@.map_values(|p: String| p@), d)) by {
            let np = parts@.map_values(|p: String| p@);
            assert forall|k: int| 0 <= k < np.len() implies !(#[trigger] np[k]).contains(d) by {
                if k < np.len() - 1 {
                    assert(np[k] == old_parts[k]);
                }
            }
        }
        lemma_split_len(s@, d);
        lemma_split_join(s@, d);
        lemma_join_unique(parts@.map_values(|p: String| p@), split_spec(s@, d), d);
        assert(parts@.map_values(|p: String| p@) =~~= split_spec(s@, d));
    }
    parts
}

} // verus!
