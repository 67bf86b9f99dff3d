//! The random library: guid, rand_str, shuffle and choice. What comes out of
//! the random number generator is stated only as what holds of every outcome.
//! `rand` and `sample` give floats, which this library does not make.
use vstd::prelude::*;
use crate::interp::{Interpreter, registered, table_view, define_natives, table_names_unique};
use crate::natives::{arity, builtin_name};
use crate::value::{Builtin, Value, Val, LangError, view_seq, lemma_view_seq, reply_view, fail, give, copy_values};
use crate::text::{text, push_char, push_text, decimal, unsigned_text, DIGITS};
use rand::Rng;
use rand::seq::SliceRandom;

verus! {

broadcast use vstd::seq_lib::group_to_multiset_ensures;

/// Whether a character is a lower-case hexadecimal digit.
pub open spec fn is_hex_digit(c: char) -> bool {
    ('0' <= c && c <= '9') || ('a' <= c && c <= 'f')
}

/// The hyphenated lower-case text of a version-4 UUID: 36 characters, hyphens
/// at 8, 13, 18 and 23, the version digit `4` at 14, a variant digit of 8, 9,
/// a or b at 19, and hexadecimal digits elsewhere.
pub open spec fn is_uuid_v4_text(s: Seq<char>) -> bool {
    &&& s.len() == 36
    &&& s[8] == '-' && s[13] == '-' && s[18] == '-' && s[23] == '-'
    &&& s[14] == '4'
    &&& (s[19] == '8' || s[19] == '9' || s[19] == 'a' || s[19] == 'b')
    &&& forall|i: int|
        0 <= i < 36 && i != 8 && i != 13 && i != 18 && i != 23 ==> is_hex_digit(#[trigger] s[i])
}

/// `uuid::Uuid::new_v4()`, displayed: a random version-4 UUID in its
/// hyphenated lower-case form.
#[verifier::external_body]
fn new_uuid_v4_text() -> (r: String)
    ensures
        is_uuid_v4_text(r@),
{
    uuid::Uuid::new_v4().to_string()
}

/// `Rng::gen_range(0..n)` on the thread's generator: a random index below `n`.
#[verifier::external_body]
fn random_below(n: u32) -> (r: u32)
    requires
        n >= 1,
    ensures
        r < n,
{
    rand::thread_rng().gen_range(0..n)
}

/// `SliceRandom::shuffle` with the thread's generator: the same values in a
/// random order.
#[verifier::external_body]
fn shuffle_in_place(v: &mut Vec<Value>)
    ensures
        final(v)@.to_multiset() == old(v)@.to_multiset(),
{
    v.shuffle(&mut rand::thread_rng())
}

/// `SliceRandom::choose` with the thread's generator: a random element, or
/// nothing for an empty array.
#[verifier::external_body]
fn choose_one(v: &Vec<Value>) -> (r: Option<&Value>)
    ensures
        r is None <==> v.len() == 0,
        r matches Some(x) ==> v@.contains(*x),
{
    v.choose(&mut rand::thread_rng())
}

/// Two sequences with the same elements keep the same elements under a map.
pub proof fn lemma_map_keeps_multiset<A, B>(a: Seq<A>, b: Seq<A>, f: spec_fn(A) -> B)
    requires
        a.to_multiset() == b.to_multiset(),
    ensures
        a.map_values(f).to_multiset() == b.map_values(f).to_multiset(),
    decreases a.len(),
{
    broadcast use vstd::multiset::group_multiset_axioms;

    if a.len() == 0 {
        assert(b.to_multiset().len() == 0);
        assert(b.len() == 0);
        assert(a.map_values(f) =~= b.map_values(f));
    } else {
        let e = a.last();
        let ad = a.drop_last();
        assert(a.to_multiset().count(e) > 0) by {
            assert(a.contains(e)) by {
                assert(a[a.len() - 1] == e);
            }
        }
        assert(b.contains(e));
        let j = choose|j: int| 0 <= j < b.len() && b[j] == e;
        let bj = b.remove(j);
        assert(a.remove(a.len() - 1) =~= ad);
        assert(ad.to_multiset() == a.to_multiset().remove(e));
        assert(bj.to_multiset() == b.to_multiset().remove(e));
        lemma_map_keeps_multiset(ad, bj, f);
        let am = a.map_values(f);
        let bm = b.map_values(f);
        assert(am =~= ad.map_values(f).push(f(e)));
        assert(bm.remove(j) =~= bj.map_values(f));
        assert(bm.remove(j).to_multiset() == bm.to_multiset().remove(f(e)));
        assert(bm.to_multiset().count(f(e)) > 0) by {
            assert(bm[j] == f(e));
            assert(bm.contains(f(e)));
        }
        assert(bm.to_multiset() =~= bm.to_multiset().remove(f(e)).insert(f(e)));
    }
}

/// `guid()`: a random version-4 UUID.
pub fn guid() -> (r: Result<Option<Value>, LangError>)
    ensures
        reply_view(r) matches Ok(Some(Val::Str(s))) && is_uuid_v4_text(s),
{
    give(Value::String(new_uuid_v4_text()))
}

/// The inputs on which `rand_str` asks for a string longer than memory can
/// index.
pub open spec fn rand_str_overflows(a: Seq<Val>) -> bool {
    match (a[0], a[1]) {
        (Val::Int(l), Val::Int(b)) => 2 <= (b as u32) <= 36 && (l as u64) > i64::MAX,
        _ => false,
    }
}

/// What holds of every outcome of `rand_str(length, base)`. The length and the
/// base are taken as machine words, as casts of the integers give them.
pub open spec fn rand_str_outcome(a: Seq<Val>, reply: Result<Option<Val>, Seq<char>>) -> bool {
    match (a[0], a[1]) {
        (Val::Int(l), Val::Int(b)) => {
            let base = b as u32;
            if base < 2 || base > 36 {
                reply == Err::<Option<Val>, Seq<char>>(
                    "Base must be between 2 and 36, got "@ + decimal(base as int),
                )
            } else {
                reply matches Ok(Some(Val::Str(s))) && s.len() == (l as u64) && forall|i: int|
                    0 <= i < s.len() ==> DIGITS@.take(base as int).contains(#[trigger] s[i])
            }
        },
        _ => reply == Err::<Option<Val>, Seq<char>>(
            "Expected two integers: length and base (2-36)"@,
        ),
    }
}

/// `rand_str(length, base)`: a random string of digits of the base. The base
/// is read as its low 32 bits before the range check.
pub fn rand_str(args: &Vec<Value>) -> (r: Result<Option<Value>, LangError>)
    requires
        args.len() >= 2,
        !rand_str_overflows(view_seq(args@)),
    ensures
        rand_str_outcome(view_seq(args@), reply_view(r)),
{
    proof {
        lemma_view_seq(args@);
    }
    if let Value::Integer(length) = &args[0] {
        if let Value::Integer(base) = &args[1] {
            let len = *length as u64;
            let b = *base as u32;
            if b < 2 || b > 36 {
                let mut m = text("Base must be between 2 and 36, got ");
                push_text(&mut m, unsigned_text(b as u64).as_str());
                return fail(m);
            }
            let mut out = String::new();
            let mut i: u64 = 0;
            while i < len
                invariant
                    i <= len,
                    2 <= b <= 36,
                    out@.len() == i,
                    forall|k: int|
                        0 <= k < out@.len() ==> DIGITS@.take(b as int).contains(#[trigger] out@[k]),
                decreases len - i,
            {
                let idx = random_below(b);
                let c = DIGITS[idx as usize];
                assert(DIGITS@.take(b as int)[idx as int] == c);
                push_char(&mut out, c);
                i = i + 1;
            }
            return give(Value::String(out));
        }
    }
    fail(text("Expected two integers: length and base (2-36)"))
}

/// What holds of every outcome of `shuffle(arr)`: the same elements, in some order.
pub open spec fn shuffle_outcome(a: Seq<Val>, reply: Result<Option<Val>, Seq<char>>) -> bool {
    match a[0] {
        Val::Arr(x) => reply matches Ok(Some(Val::Arr(y))) && y.to_multiset() == x.to_multiset(),
        _ => reply == Err::<Option<Val>, Seq<char>>("Expected array to shuffle"@),
    }
}

/// `shuffle(arr)`: a new array with the elements in a random order.
pub fn shuffle(args: &Vec<Value>) -> (r: Result<Option<Value>, LangError>)
    requires
        args.len() >= 1,
    ensures
        shuffle_outcome(view_seq(args@), reply_view(r)),
{
    proof {
        lemma_view_seq(args@);
    }
    if let Value::Array(arr) = &args[0] {
        let mut items = copy_values(arr);
        let ghost before = items@;
        shuffle_in_place(&mut items);
        proof {
            let f = |v: Value| v.model();
            lemma_view_seq(before);
            lemma_view_seq(items@);
            lemma_map_keeps_multiset(items@, before, f);
            assert(view_seq(items@) =~= items@.map_values(f));
            assert(view_seq(before) =~= before.map_values(f));
        }
        return give(Value::Array(items));
    }
    fail(text("Expected array to shuffle"))
}

/// What holds of every outcome of `choice(arr)`: an element of the array, or
/// nothing for an empty one.
pub open spec fn choice_outcome(a: Seq<Val>, reply: Result<Option<Val>, Seq<char>>) -> bool {
    match a[0] {
        Val::Arr(x) => if x.len() == 0 {
            reply == Ok::<Option<Val>, Seq<char>>(None)
        } else {
            reply matches Ok(Some(v)) && x.contains(v)
        },
        _ => reply == Err::<Option<Val>, Seq<char>>("Expected array to get choice from"@),
    }
}

/// `choice(arr)`: a random element of the array.
pub fn choice(args: &Vec<Value>) -> (r: Result<Option<Value>, LangError>)
    requires
        args.len() >= 1,
    ensures
        choice_outcome(view_seq(args@), reply_view(r)),
{
    proof {
        lemma_view_seq(args@);
    }
    if let Value::Array(arr) = &args[0] {
        proof {
            lemma_view_seq(arr@);
        }
        match choose_one(arr) {
            Some(x) => {
                let c = x.copy();
                proof {
                    let j = choose|j: int| 0 <= j < arr@.len() && arr@[j] == *x;
                    assert(view_seq(arr@)[j] == c@);
                }
                return give(c);
            },
            None => {
                return Ok(None);
            },
        }
    }
    fail(text("Expected array to get choice from"))
}

/// The names, arities and functions of the random library, in the order in
/// which they are bound.
pub open spec fn rand_table() -> Seq<(Seq<char>, nat, Builtin)> {
    seq![
        ("rand"@, 0nat, Builtin::Rand),
        ("guid"@, 0nat, Builtin::Guid),
        ("rand_str"@, 2nat, Builtin::RandStr),
        ("shuffle"@, 1nat, Builtin::Shuffle),
        ("choice"@, 1nat, Builtin::Choice),
        ("sample"@, 1nat, Builtin::Sample),
    ]
}

/// Binds the random library's native functions.
pub fn get(state: &mut Interpreter)
    ensures
        final(state).variables.view() == registered(old(state).variables.view(), rand_table()),
{
    let table: Vec<(&str, usize, Builtin)> = vec![
        ("rand", 0, Builtin::Rand),
        ("guid", 0, Builtin::Guid),
        ("rand_str", 2, Builtin::RandStr),
        ("shuffle", 1, Builtin::Shuffle),
        ("choice", 1, Builtin::Choice),
        ("sample", 1, Builtin::Sample),
    ];
    assert(table_view(table@) =~= rand_table());
    define_natives(state, &table);
}

/// Each name of the random library's table is bound once, with the arity its
/// function takes.
pub proof fn law_rand_table_well_formed()
    ensures
        table_names_unique(rand_table()),
        forall|i: int| 0 <= i < rand_table().len() ==> #[trigger] rand_table()[i].1 == arity(rand_table()[i].2),
{
    let t = rand_table();
    reveal_strlit("rand");
    reveal_strlit("guid");
    reveal_strlit("rand_str");
    reveal_strlit("shuffle");
    reveal_strlit("choice");
    reveal_strlit("sample");
    assert forall|i: int, j: int| 0 <= i < j < t.len() implies t[i].0 != t[j].0 by {
        lemma_rand_name(i);
        lemma_rand_name(j);
        assert(t[i].0.len() != t[j].0.len() || t[i].0[0] != t[j].0[0] || t[i].0[1] != t[j].0[1]);
    }
}

/// Each name of the table is one of its literal names.
pub(crate) proof fn lemma_rand_name(i: int)
    requires
        0 <= i < rand_table().len(),
    ensures
        ({
            let n = rand_table()[i].0;
            n == "rand"@
                || n == "guid"@
                || n == "rand_str"@
                || n == "shuffle"@
                || n == "choice"@
                || n == "sample"@
        }),
{
    let t = rand_table();
    if i == 0 {
        assert(t[i].0 == "rand"@);
    } else if i == 1 {
        assert(t[i].0 == "guid"@);
    } else if i == 2 {
        assert(t[i].0 == "rand_str"@);
    } else if i == 3 {
        assert(t[i].0 == "shuffle"@);
    } else if i == 4 {
        assert(t[i].0 == "choice"@);
    } else if i == 5 {
        assert(t[i].0 == "sample"@);
    }
}

/// Each entry of the random library's table binds a native function under
/// that function's own name.
pub proof fn law_rand_table_names()
    ensures
        forall|i: int|
            0 <= i < rand_table().len() ==> #[trigger] rand_table()[i].0 == builtin_name(rand_table()[i].2),
{
    let t = rand_table();
    assert forall|i: int| 0 <= i < t.len() implies #[trigger] t[i].0 == builtin_name(t[i].2) by {
        if i == 0 {
        } else if i == 1 {
        } else if i == 2 {
        } else if i == 3 {
        } else if i == 4 {
        } else if i == 5 {
        }
    }
}

} // verus!
