//! String built-ins of the standard library: split and substr.
use vstd::prelude::*;
use vstd::string::*;
use crate::value::{Value, Val, LangError, view_seq, lemma_view_seq, lemma_view_seq_push, reply_view, fail, give};
use crate::text::{text, push_text, unsigned_text, decimal, chars_of, string_of_range};

verus! {

/// `d` occurs in `s` at position `i`.
pub open spec fn occurs_at(s: Seq<char>, d: Seq<char>, i: int) -> bool {
    0 <= i && i + d.len() <= s.len() && s.subrange(i, i + d.len()) == d
}

/// The first position at or after `from` where `d` occurs in `s`.
pub open spec fn find_from(s: Seq<char>, d: Seq<char>, from: int) -> Option<int>
    decreases s.len() + 1 - from,
{
    if from < 0 || from > s.len() {
        None
    } else if occurs_at(s, d, from) {
        Some(from)
    } else {
        find_from(s, d, from + 1)
    }
}

pub proof fn lemma_find_from(s: Seq<char>, d: Seq<char>, from: int)
    requires
        0 <= from,
    ensures
        find_from(s, d, from) matches Some(i) ==> from <= i && occurs_at(s, d, i),
        find_from(s, d, from) is None ==> forall|j: int|
            from <= j ==> !#[trigger] occurs_at(s, d, j),
    decreases s.len() + 1 - from,
{
    if 0 <= from <= s.len() && !occurs_at(s, d, from) {
        lemma_find_from(s, d, from + 1);
        assert forall|j: int| from <= j && find_from(s, d, from) is None implies !#[trigger] occurs_at(
            s,
            d,
            j,
        ) by {
            if j == from {
            }
        }
    }
}

/// The pieces of `s[start..]` between the occurrences of a non-empty `d`,
/// matched from the left without overlap.
pub open spec fn split_from(s: Seq<char>, d: Seq<char>, start: int) -> Seq<Seq<char>>
    decreases s.len() + 1 - start,
{
    if d.len() == 0 || start < 0 || start > s.len() {
        Seq::empty()
    } else {
        match find_from(s, d, start) {
            Some(i) => {
                proof {
                    lemma_find_from(s, d, start);
                }
                seq![s.subrange(start, i)] + split_from(s, d, i + d.len())
            },
            None => seq![s.subrange(start, s.len() as int)],
        }
    }
}

/// The pieces of `s` around the empty delimiter: an empty piece, each
/// character, an empty piece.
pub open spec fn split_empty(s: Seq<char>) -> Seq<Seq<char>> {
    seq![Seq::empty()] + Seq::new(s.len(), |i: int| seq![s[i]]) + seq![Seq::empty()]
}

/// The pieces that `str::split` gives for the delimiter `d`.
pub open spec fn split_pieces(s: Seq<char>, d: Seq<char>) -> Seq<Seq<char>> {
    if d.len() == 0 {
        split_empty(s)
    } else {
        split_from(s, d, 0)
    }
}

/// The string values of some texts.
pub open spec fn str_vals(ps: Seq<Seq<char>>) -> Seq<Val> {
    ps.map_values(|p: Seq<char>| Val::Str(p))
}

/// `split(s, delimiter)`.
pub open spec fn split_reply(a: Seq<Val>) -> Result<Option<Val>, Seq<char>> {
    match (a[0], a[1]) {
        (Val::Str(s), Val::Str(d)) => Ok(Some(Val::Arr(str_vals(split_pieces(s, d))))),
        _ => Err("Expected two strings: string to split and delimiter"@),
    }
}

/// Whether `d` occurs in `s` at `i`.
fn matches_at(s: &Vec<char>, d: &Vec<char>, i: usize) -> (r: bool)
    requires
        i + d.len() <= s.len(),
    ensures
        r == occurs_at(s@, d@, i as int),
{
    let m = d.len();
    let mut j: usize = 0;
    while j < m
        invariant
            m == d.len(),
            i + m <= s.len(),
            j <= m,
            forall|k: int| 0 <= k < j ==> s@[i + k] == d@[k],
        decreases m - j,
    {
        if s[i + j] != d[j] {
            assert(s@.subrange(i as int, i + m)[j as int] != d@[j as int]);
            return false;
        }
        j = j + 1;
    }
    assert(s@.subrange(i as int, i + m) =~= d@);
    true
}

/// The pieces of `s` around a non-empty delimiter `d`.
fn split_nonempty(s: &Vec<char>, d: &Vec<char>) -> (r: Vec<Value>)
    requires
        d.len() > 0,
    ensures
        view_seq(r@) == str_vals(split_from(s@, d@, 0)),
{
    let n = s.len();
    let m = d.len();
    let mut out: Vec<Value> = Vec::new();
    let ghost mut pieces: Seq<Seq<char>> = Seq::empty();
    let mut start: usize = 0;
    let mut i: usize = 0;
    proof {
        lemma_view_seq(out@);
    }
    while m <= n && i <= n - m
        invariant
            n == s.len(),
            m == d.len(),
            m > 0,
            start <= i <= n,
            pieces + split_from(s@, d@, start as int) == split_from(s@, d@, 0),
            find_from(s@, d@, start as int) == find_from(s@, d@, i as int),
            view_seq(out@) == str_vals(pieces),
        decreases n - i,
    {
        if matches_at(s, d, i) {
            let piece = string_of_range(s, start, i);
            let ghost p = piece@;
            proof {
                assert(split_from(s@, d@, start as int) == seq![s@.subrange(start as int, i as int)]
                    + split_from(s@, d@, i + m));
                assert(pieces.push(p) + split_from(s@, d@, i + m) =~= pieces + split_from(
                    s@,
                    d@,
                    start as int,
                ));
            }
            let ghost old_out = out@;
            let ghost old_pieces = pieces;
            let v = Value::String(piece);
            proof {
                lemma_view_seq_push(old_out, v);
            }
            out.push(v);
            proof {
                pieces = pieces.push(p);
                assert(str_vals(pieces) =~= str_vals(old_pieces).push(Val::Str(p)));
            }
            start = i + m;
            i = i + m;
        } else {
            i = i + 1;
        }
    }
    proof {
        lemma_find_from(s@, d@, i as int);
        assert(find_from(s@, d@, i as int) is None);
        assert(split_from(s@, d@, start as int) == seq![s@.subrange(start as int, n as int)]);
    }
    let piece = string_of_range(s, start, n);
    let ghost p = piece@;
    let ghost old_out = out@;
    let ghost old_pieces = pieces;
    let v = Value::String(piece);
    proof {
        lemma_view_seq_push(old_out, v);
    }
    out.push(v);
    proof {
        pieces = pieces.push(p);
        assert(str_vals(pieces) =~= str_vals(old_pieces).push(Val::Str(p)));
        assert(pieces =~= split_from(s@, d@, 0));
    }
    out
}

/// The pieces of `s` around the empty delimiter.
fn split_around_empty(s: &Vec<char>) -> (r: Vec<Value>)
    ensures
        view_seq(r@) == str_vals(split_empty(s@)),
{
    let n = s.len();
    let mut out: Vec<Value> = Vec::new();
    out.push(Value::String(String::new()));
    let mut i: usize = 0;
    while i < n
        invariant
            n == s.len(),
            i <= n,
            out.len() == i + 1,
            out@[0].model() == Val::Str(Seq::empty()),
            forall|k: int| 1 <= k <= i ==> #[trigger] out@[k].model() == Val::Str(seq![s@[k - 1]]),
        decreases n - i,
    {
        let piece = string_of_range(s, i, i + 1);
        assert(piece@ =~= seq![s@[i as int]]);
        out.push(Value::String(piece));
        i = i + 1;
    }
    out.push(Value::String(String::new()));
    proof {
        lemma_view_seq(out@);
        assert(view_seq(out@) =~= str_vals(split_empty(s@)));
    }
    out
}

/// `split(s, delimiter)`: the pieces of `s` between the occurrences of the
/// delimiter, as `str::split` gives them.
pub fn split(args: &Vec<Value>) -> (r: Result<Option<Value>, LangError>)
    requires
        args.len() >= 2,
    ensures
        reply_view(r) == split_reply(view_seq(args@)),
{
    proof {
        lemma_view_seq(args@);
    }
    if let Value::String(s) = &args[0] {
        if let Value::String(delim) = &args[1] {
            let sc = chars_of(s.as_str());
            let dc = chars_of(delim.as_str());
            let parts = if dc.len() == 0 {
                split_around_empty(&sc)
            } else {
                split_nonempty(&sc, &dc)
            };
            return give(Value::Array(parts));
        }
    }
    fail(text("Expected two strings: string to split and delimiter"))
}

/// `substr(s, start, end)`. The bounds are taken as unsigned machine words,
/// as a cast of the integers gives them.
pub open spec fn substr_reply(a: Seq<Val>) -> Result<Option<Val>, Seq<char>> {
    match (a[0], a[1], a[2]) {
        (Val::Str(s), Val::Int(start), Val::Int(end)) => {
            let su = (start as u64) as int;
            let eu = (end as u64) as int;
            if su > s.len() || eu > s.len() || su > eu {
                Err(
                    "Invalid substring bounds: start="@ + decimal(su) + ", end="@ + decimal(eu)
                        + ", len="@ + decimal(s.len() as int),
                )
            } else {
                Ok(Some(Val::Str(s.subrange(su, eu))))
            }
        },
        _ => Err("Expected string and two integers (start, end)"@),
    }
}

/// `substr(s, start, end)`: the characters of `s` from `start` to `end`.
pub fn substr(args: &Vec<Value>) -> (r: Result<Option<Value>, LangError>)
    requires
        args.len() >= 3,
    ensures
        reply_view(r) == substr_reply(view_seq(args@)),
{
    proof {
        lemma_view_seq(args@);
    }
    if let Value::String(s) = &args[0] {
        if let Value::Integer(start) = &args[1] {
            if let Value::Integer(end) = &args[2] {
                let s_len = s.as_str().unicode_len();
                let su = *start as u64;
                let eu = *end as u64;
                if su > s_len as u64 || eu > s_len as u64 || su > eu {
                    let mut m = text("Invalid substring bounds: start=");
                    push_text(&mut m, unsigned_text(su).as_str());
                    push_text(&mut m, ", end=");
                    push_text(&mut m, unsigned_text(eu).as_str());
                    push_text(&mut m, ", len=");
                    push_text(&mut m, unsigned_text(s_len as u64).as_str());
                    return fail(m);
                }
                let piece = s.as_str().substring_char(su as usize, eu as usize);
                return give(Value::String(text(piece)));
            }
        }
    }
    fail(text("Expected string and two integers (start, end)"))
}

/// Texts joined with a separator between each two.
pub open spec fn joined_with(pieces: Seq<Seq<char>>, sep: Seq<char>) -> Seq<char>
    decreases pieces.len(),
{
    if pieces.len() == 0 {
        Seq::empty()
    } else if pieces.len() == 1 {
        pieces[0]
    } else {
        pieces[0] + sep + joined_with(pieces.drop_first(), sep)
    }
}

proof fn lemma_split_from_join(s: Seq<char>, d: Seq<char>, start: int)
    requires
        d.len() > 0,
        0 <= start <= s.len(),
    ensures
        split_from(s, d, start).len() >= 1,
        joined_with(split_from(s, d, start), d) == s.subrange(start, s.len() as int),
    decreases s.len() + 1 - start,
{
    lemma_find_from(s, d, start);
    match find_from(s, d, start) {
        Some(i) => {
            let rest = split_from(s, d, i + d.len());
            lemma_split_from_join(s, d, i + d.len());
            let all = seq![s.subrange(start, i)] + rest;
            assert(all.drop_first() =~= rest);
            assert(s.subrange(i, i + d.len()) == d);
            assert(s.subrange(start, s.len() as int) =~= s.subrange(start, i) + d + s.subrange(
                i + d.len(),
                s.len() as int,
            ));
        },
        None => {},
    }
}

proof fn lemma_join_singletons(s: Seq<char>)
    ensures
        joined_with(Seq::new(s.len(), |i: int| seq![s[i]]) + seq![Seq::<char>::empty()], Seq::empty())
            == s,
    decreases s.len(),
{
    let ps = Seq::new(s.len(), |i: int| seq![s[i]]) + seq![Seq::<char>::empty()];
    if s.len() > 0 {
        let t = s.drop_first();
        lemma_join_singletons(t);
        assert(ps.drop_first() =~= Seq::new(t.len(), |i: int| seq![t[i]]) + seq![
            Seq::<char>::empty(),
        ]);
        assert(s =~= seq![s[0]] + Seq::<char>::empty() + t);
    }
}

/// Joining the pieces of `split(s, d)` with `d` gives back `s`.
pub proof fn law_split_join(s: Seq<char>, d: Seq<char>)
    ensures
        joined_with(split_pieces(s, d), d) == s,
{
    if d.len() == 0 {
        let inner = Seq::new(s.len(), |i: int| seq![s[i]]) + seq![Seq::<char>::empty()];
        let ps = split_empty(s);
        assert(ps =~= seq![Seq::<char>::empty()] + inner);
        assert(ps.drop_first() =~= inner);
        lemma_join_singletons(s);
        assert(d =~= Seq::<char>::empty());
        assert(joined_with(ps, d) =~= s);
    } else {
        lemma_split_from_join(s, d, 0);
        assert(s.subrange(0, s.len() as int) =~= s);
    }
}

/// No piece of `split(s, d)` holds the non-empty delimiter `d`.
pub proof fn law_split_pieces_free_of_delimiter(s: Seq<char>, d: Seq<char>, k: int, j: int)
    requires
        d.len() > 0,
        0 <= k < split_pieces(s, d).len(),
    ensures
        !occurs_at(split_pieces(s, d)[k], d, j),
{
    lemma_split_from_free(s, d, 0, k, j);
}

proof fn lemma_split_from_free(s: Seq<char>, d: Seq<char>, start: int, k: int, j: int)
    requires
        d.len() > 0,
        0 <= start <= s.len(),
        0 <= k < split_from(s, d, start).len(),
    ensures
        !occurs_at(split_from(s, d, start)[k], d, j),
    decreases s.len() + 1 - start,
{
    lemma_find_from(s, d, start);
    match find_from(s, d, start) {
        Some(i) => {
            let rest = split_from(s, d, i + d.len());
            if k == 0 {
                let p = s.subrange(start, i);
                if occurs_at(p, d, j) {
                    assert(p.subrange(j, j + d.len()) =~= s.subrange(start + j, start + j + d.len()));
                    assert(occurs_at(s, d, start + j));
                    assert(start + j < i);
                    lemma_find_first(s, d, start, start + j);
                }
            } else {
                lemma_split_from_free(s, d, i + d.len(), k - 1, j);
                assert(split_from(s, d, start)[k] == rest[k - 1]);
            }
        },
        None => {
            let p = s.subrange(start, s.len() as int);
            if occurs_at(p, d, j) {
                assert(p.subrange(j, j + d.len()) =~= s.subrange(start + j, start + j + d.len()));
                assert(occurs_at(s, d, start + j));
            }
        },
    }
}

proof fn lemma_find_first(s: Seq<char>, d: Seq<char>, from: int, j: int)
    requires
        0 <= from <= j,
        occurs_at(s, d, j),
    ensures
        find_from(s, d, from) matches Some(i) && i <= j,
    decreases j - from,
{
    if !occurs_at(s, d, from) {
        lemma_find_first(s, d, from + 1, j);
    }
}

} // verus!
