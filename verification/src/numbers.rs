//! Built-ins of the standard library on numbers, characters and kinds of
//! values: len, chr, ord, radix, type, hash.
use vstd::prelude::*;
use vstd::string::*;
use crate::value::{
    Value, Val, Builtin, FunctionBody, LangError, view_seq, view_entries, view_strings, lemma_view_seq,
    lemma_view_entries, reply_view, fail, give,
};
use crate::text::{text, push_char, push_text, decimal, decimal_text, unsigned_text, chars_of, digits_in_base, DIGITS};
use std::hash::Hash;
use std::hash::Hasher;

verus! {

/// `len(v)`.
pub open spec fn len_reply(a: Seq<Val>) -> Result<Option<Val>, Seq<char>> {
    match a[0] {
        Val::Arr(x) => Ok(Some(Val::Int(x.len() as i64))),
        Val::Dict(d) => Ok(Some(Val::Int(d.len() as i64))),
        Val::SetOf(x) => Ok(Some(Val::Int(x.len() as i64))),
        Val::Str(s) => Ok(Some(Val::Int(s.len() as i64))),
        _ => Err("Tried to get the length of an unsized value"@),
    }
}

/// `len(v)`: the number of elements, entries or characters.
pub fn len(args: &Vec<Value>) -> (r: Result<Option<Value>, LangError>)
    requires
        args.len() >= 1,
    ensures
        reply_view(r) == len_reply(view_seq(args@)),
{
    proof {
        lemma_view_seq(args@);
    }
    match &args[0] {
        Value::Array(arr) => {
            proof {
                lemma_view_seq(arr@);
            }
            give(Value::Integer(arr.len() as i64))
        },
        Value::Dictionary(dict) => {
            proof {
                crate::value::lemma_view_entries(dict.entries@);
            }
            give(Value::Integer(dict.entries.len() as i64))
        },
        Value::SetValue(set) => {
            proof {
                lemma_view_seq(set.items@);
            }
            give(Value::Integer(set.items.len() as i64))
        },
        Value::String(s) => give(Value::Integer(s.as_str().unicode_len() as i64)),
        _ => fail(text("Tried to get the length of an unsized value")),
    }
}

/// Whether a code is a Unicode scalar value, the codes that `char` holds.
pub open spec fn is_scalar(u: u32) -> bool {
    u <= 0x10FFFF && !(0xD800 <= u <= 0xDFFF)
}

/// `char::from_u32`: the character with the given code, where there is one.
#[verifier::external_body]
fn char_from_code(u: u32) -> (r: Option<char>)
    ensures
        r is Some <==> is_scalar(u),
        r matches Some(c) ==> c == u as char,
{
    char::from_u32(u)
}

/// `chr(code)`. The code is taken modulo 2^32, as a cast of the integer gives it.
pub open spec fn chr_reply(a: Seq<Val>) -> Result<Option<Val>, Seq<char>> {
    match a[0] {
        Val::Int(i) => {
            if i < 0 {
                Err("Can't get a negative character"@)
            } else if is_scalar(i as u32) {
                Ok(Some(Val::Str(seq![(i as u32) as char])))
            } else {
                Err("Invalid character: "@ + decimal(i as int))
            }
        },
        _ => Err("Expected integer for call to chr"@),
    }
}

/// `chr(code)`: the one-character string of a code point.
pub fn chr(args: &Vec<Value>) -> (r: Result<Option<Value>, LangError>)
    requires
        args.len() >= 1,
    ensures
        reply_view(r) == chr_reply(view_seq(args@)),
{
    proof {
        lemma_view_seq(args@);
    }
    if let Value::Integer(i) = &args[0] {
        if *i < 0 {
            return fail(text("Can't get a negative character"));
        }
        let code = *i as u32;
        match char_from_code(code) {
            Some(c) => {
                let mut out = String::new();
                push_char(&mut out, c);
                assert(out@ =~= seq![code as char]);
                return give(Value::String(out));
            },
            None => {
                let mut m = text("Invalid character: ");
                push_text(&mut m, decimal_text(*i).as_str());
                return fail(m);
            },
        }
    }
    fail(text("Expected integer for call to chr"))
}

/// `ord(s)`.
pub open spec fn ord_reply(a: Seq<Val>) -> Result<Option<Val>, Seq<char>> {
    match a[0] {
        Val::Str(s) => {
            if s.len() == 1 {
                Ok(Some(Val::Int(s[0] as i64)))
            } else {
                Err(
                    "Expected string of length 1 for call to ord, got length "@ + decimal(
                        s.len() as int,
                    ),
                )
            }
        },
        _ => Err("Expected string for call to ord"@),
    }
}

/// `ord(s)`: the code point of a one-character string.
pub fn ord(args: &Vec<Value>) -> (r: Result<Option<Value>, LangError>)
    requires
        args.len() >= 1,
    ensures
        reply_view(r) == ord_reply(view_seq(args@)),
{
    proof {
        lemma_view_seq(args@);
    }
    if let Value::String(s) = &args[0] {
        let n = s.as_str().unicode_len();
        if n == 1 {
            let c = s.as_str().get_char(0);
            return give(Value::Integer(c as u32 as i64));
        }
        let mut m = text("Expected string of length 1 for call to ord, got length ");
        push_text(&mut m, unsigned_text(n as u64).as_str());
        return fail(m);
    }
    fail(text("Expected string for call to ord"))
}

/// The text that `radix_fmt::radix(n, base)` displays: the decimal text with
/// its sign in base ten, and in any other base the digits of the integer's
/// two's-complement machine word.
pub open spec fn radix_text(n: i64, base: nat) -> Seq<char> {
    if base == 10 {
        decimal(n as int)
    } else {
        digits_in_base((n as u64) as nat, base)
    }
}

/// `radix_fmt::radix(n, base)`, displayed.
#[verifier::external_body]
fn radix_format(n: i64, base: u8) -> (r: String)
    requires
        2 <= base <= 36,
    ensures
        r@ == radix_text(n, base as nat),
{
    format!("{}", radix_fmt::radix(n, base))
}

/// The value of a digit character in bases up to 36; 36 for any other character.
pub open spec fn digit_value(c: char) -> int {
    let v = c as int;
    if 48 <= v <= 57 {
        v - 48
    } else if 97 <= v <= 122 {
        v - 87
    } else if 65 <= v <= 90 {
        v - 55
    } else {
        36
    }
}

/// The number that digits in base `b` write, most significant first.
pub open spec fn digits_value(ds: Seq<char>, b: int) -> int
    decreases ds.len(),
{
    if ds.len() == 0 {
        0
    } else {
        digits_value(ds.drop_last(), b) * b + digit_value(ds.last())
    }
}

/// The digits of an unsigned number's text: all but a leading `+`.
pub open spec fn unsigned_digits(s: Seq<char>) -> Seq<char> {
    if s.len() > 0 && s[0] == '+' {
        s.skip(1)
    } else {
        s
    }
}

/// What `u32::from_str_radix(s, b)` gives: the number, when the text is an
/// optional `+` followed by at least one digit of base `b` and the number fits
/// in 32 bits.
pub open spec fn parse_u32(s: Seq<char>, b: int) -> Option<int> {
    let ds = unsigned_digits(s);
    if ds.len() > 0 && (forall|i: int| 0 <= i < ds.len() ==> digit_value(#[trigger] ds[i]) < b)
        && digits_value(ds, b) <= u32::MAX {
        Some(digits_value(ds, b))
    } else {
        None
    }
}

/// The value of a digit character, 36 for a non-digit.
fn digit_of(c: char) -> (r: u64)
    ensures
        r == digit_value(c),
{
    let v = c as u32;
    if 48 <= v && v <= 57 {
        (v - 48) as u64
    } else if 97 <= v && v <= 122 {
        (v - 87) as u64
    } else if 65 <= v && v <= 90 {
        (v - 55) as u64
    } else {
        36
    }
}

proof fn lemma_digits_value_nonneg(ds: Seq<char>, b: int)
    requires
        b >= 2,
        forall|i: int| 0 <= i < ds.len() ==> digit_value(#[trigger] ds[i]) < b,
    ensures
        digits_value(ds, b) >= 0,
    decreases ds.len(),
{
    if ds.len() > 0 {
        lemma_digits_value_nonneg(ds.drop_last(), b);
        assert(digit_value(ds[ds.len() - 1]) >= 0);
        let v = digits_value(ds.drop_last(), b);
        assert(v * b >= 0) by (nonlinear_arith)
            requires
                v >= 0,
                b >= 2,
        ;
    }
}

/// `u32::from_str_radix(s, b)`, as a number or nothing.
pub fn parse_unsigned(s: &str, b: u64) -> (r: Option<u64>)
    requires
        2 <= b <= 36,
    ensures
        r matches Some(v) ==> parse_u32(s@, b as int) == Some(v as int),
        r is None ==> parse_u32(s@, b as int) is None,
{
    let cs = chars_of(s);
    let start: usize = if cs.len() > 0 && cs[0] == '+' {
        1
    } else {
        0
    };
    let ghost ds = unsigned_digits(s@);
    assert(ds =~= cs@.skip(start as int));
    if start >= cs.len() {
        assert(ds.len() == 0);
        return None;
    }
    let limit: u64 = 0x1_0000_0000;
    let mut acc: u64 = 0;
    let mut i: usize = start;
    while i < cs.len()
        invariant
            start <= i <= cs.len(),
            ds == cs@.skip(start as int),
            ds == unsigned_digits(s@),
            2 <= b <= 36,
            limit == 0x1_0000_0000,
            forall|k: int| 0 <= k < i - start ==> digit_value(#[trigger] ds[k]) < b,
            digits_value(ds.take(i - start), b as int) >= limit ==> acc == limit,
            digits_value(ds.take(i - start), b as int) < limit ==> acc == digits_value(
                ds.take(i - start),
                b as int,
            ),
            acc <= limit,
        decreases cs.len() - i,
    {
        let d = digit_of(cs[i]);
        if d >= b {
            assert(digit_value(ds[i - start]) >= b);
            return None;
        }
        let ghost k = i - start;
        let ghost prev = digits_value(ds.take(k), b as int);
        assert(ds.take(k + 1).drop_last() =~= ds.take(k));
        assert(digits_value(ds.take(k + 1), b as int) == prev * b + d);
        proof {
            lemma_digits_value_nonneg(ds.take(k), b as int);
        }
        if acc == limit {
            assert(prev * b + d >= limit) by (nonlinear_arith)
                requires
                    prev >= limit,
                    b >= 2,
                    d >= 0,
            ;
        } else {
            assert(acc * b + d < 0x100_0000_0000) by (nonlinear_arith)
                requires
                    acc < 0x1_0000_0000,
                    b <= 36,
                    d < 36,
            ;
            let next = acc * b + d;
            if next >= limit {
                acc = limit;
            } else {
                acc = next;
            }
        }
        i = i + 1;
    }
    assert(ds.take(cs.len() - start) =~= ds);
    if acc >= limit {
        None
    } else {
        Some(acc)
    }
}

/// `radix(value, base)`.
pub open spec fn radix_reply(a: Seq<Val>) -> Result<Option<Val>, Seq<char>> {
    match a[1] {
        Val::Int(b) => {
            if !(2 <= b <= 36) {
                Err("Base for radix should be in range [2, 36], got "@ + decimal(b as int))
            } else {
                match a[0] {
                    Val::Int(i) => Ok(Some(Val::Str(radix_text(i, b as nat)))),
                    Val::Str(s) => match parse_u32(s, b as int) {
                        Some(v) => Ok(Some(Val::Int(v as i64))),
                        None => Err(
                            "Failed to convert "@ + s + " to int of base "@ + decimal(b as int),
                        ),
                    },
                    _ => Err("Expected string or integer for first value of radix"@),
                }
            }
        },
        _ => Err("Expected an integer for base of radix"@),
    }
}

/// `radix(value, base)`: an integer written in the base, or a string in the
/// base read as an unsigned 32-bit integer.
pub fn radix(args: &Vec<Value>) -> (r: Result<Option<Value>, LangError>)
    requires
        args.len() >= 2,
    ensures
        reply_view(r) == radix_reply(view_seq(args@)),
{
    proof {
        lemma_view_seq(args@);
    }
    if let Value::Integer(b) = &args[1] {
        if !(2 <= *b && *b <= 36) {
            let mut m = text("Base for radix should be in range [2, 36], got ");
            push_text(&mut m, decimal_text(*b).as_str());
            return fail(m);
        }
        match &args[0] {
            Value::Integer(i) => {
                return give(Value::String(radix_format(*i, *b as u8)));
            },
            Value::String(s) => {
                match parse_unsigned(s.as_str(), *b as u64) {
                    Some(v) => {
                        return give(Value::Integer(v as i64));
                    },
                    None => {
                        let mut m = text("Failed to convert ");
                        push_text(&mut m, s.as_str());
                        push_text(&mut m, " to int of base ");
                        push_text(&mut m, unsigned_text(*b as u64).as_str());
                        return fail(m);
                    },
                }
            },
            _ => {
                return fail(text("Expected string or integer for first value of radix"));
            },
        }
    }
    fail(text("Expected an integer for base of radix"))
}

/// The name that `type` gives each kind of value.
pub open spec fn kind_name(v: Val) -> Seq<char> {
    match v {
        Val::Int(_) => "int"@,
        Val::Float(_) => "float"@,
        Val::Bool(_) => "bool"@,
        Val::Str(_) => "str"@,
        Val::Arr(_) => "arr"@,
        Val::Dict(_) => "dict"@,
        Val::SetOf(_) => "set"@,
        Val::Func(_, _) => "func"@,
        Val::Null => "null"@,
        Val::Break => "break"@,
        Val::Continue => "continue"@,
    }
}

/// `type(v)`: the name of the kind of a value.
pub fn type_of(args: &Vec<Value>) -> (r: Result<Option<Value>, LangError>)
    requires
        args.len() >= 1,
    ensures
        reply_view(r) == Ok::<Option<Val>, Seq<char>>(
            Some(Val::Str(kind_name(view_seq(args@)[0]))),
        ),
{
    proof {
        lemma_view_seq(args@);
    }
    let name = match &args[0] {
        Value::Integer(_) => text("int"),
        Value::Float(_) => text("float"),
        Value::Boolean(_) => text("bool"),
        Value::String(_) => text("str"),
        Value::Array(_) => text("arr"),
        Value::Dictionary(_) => text("dict"),
        Value::SetValue(_) => text("set"),
        Value::Function(_, _) => text("func"),
        Value::Null => text("null"),
        Value::Break => text("break"),
        Value::Continue => text("continue"),
    };
    give(Value::String(name))
}

/// The number that stands for each native function in a value's words.
pub open spec fn builtin_code(b: Builtin) -> u64 {
    match b {
        Builtin::Print => 0,
        Builtin::Println => 1,
        Builtin::Flush => 2,
        Builtin::Range => 3,
        Builtin::Join => 4,
        Builtin::Concat => 5,
        Builtin::Split => 6,
        Builtin::SplitAt => 7,
        Builtin::ArrayModify => 8,
        Builtin::ArrayRemove => 9,
        Builtin::Substr => 10,
        Builtin::Len => 11,
        Builtin::Input => 12,
        Builtin::Chr => 13,
        Builtin::Ord => 14,
        Builtin::Radix => 15,
        Builtin::Sleep => 16,
        Builtin::Time => 17,
        Builtin::Type => 18,
        Builtin::Hash => 19,
        Builtin::DictMerge => 20,
        Builtin::DictSet => 21,
        Builtin::DictGet => 22,
        Builtin::DictRemove => 23,
        Builtin::DictHas => 24,
        Builtin::DictKeys => 25,
        Builtin::DictValues => 26,
        Builtin::DictItems => 27,
        Builtin::Rand => 28,
        Builtin::Guid => 29,
        Builtin::RandStr => 30,
        Builtin::Shuffle => 31,
        Builtin::Choice => 32,
        Builtin::Sample => 33,
        Builtin::CryptoHash => 34,
        Builtin::CryptoHmac => 35,
        Builtin::BcryptHash => 36,
        Builtin::BcryptVerify => 37,
    }
}

/// The number that stands for a native function in a value's words.
pub fn code_of_builtin(b: Builtin) -> (r: u64)
    ensures
        r == builtin_code(b),
{
    match b {
        Builtin::Print => 0,
        Builtin::Println => 1,
        Builtin::Flush => 2,
        Builtin::Range => 3,
        Builtin::Join => 4,
        Builtin::Concat => 5,
        Builtin::Split => 6,
        Builtin::SplitAt => 7,
        Builtin::ArrayModify => 8,
        Builtin::ArrayRemove => 9,
        Builtin::Substr => 10,
        Builtin::Len => 11,
        Builtin::Input => 12,
        Builtin::Chr => 13,
        Builtin::Ord => 14,
        Builtin::Radix => 15,
        Builtin::Sleep => 16,
        Builtin::Time => 17,
        Builtin::Type => 18,
        Builtin::Hash => 19,
        Builtin::DictMerge => 20,
        Builtin::DictSet => 21,
        Builtin::DictGet => 22,
        Builtin::DictRemove => 23,
        Builtin::DictHas => 24,
        Builtin::DictKeys => 25,
        Builtin::DictValues => 26,
        Builtin::DictItems => 27,
        Builtin::Rand => 28,
        Builtin::Guid => 29,
        Builtin::RandStr => 30,
        Builtin::Shuffle => 31,
        Builtin::Choice => 32,
        Builtin::Sample => 33,
        Builtin::CryptoHash => 34,
        Builtin::CryptoHmac => 35,
        Builtin::BcryptHash => 36,
        Builtin::BcryptVerify => 37,
    }
}

/// The words of a text: its length, then each character's code.
pub open spec fn str_words(s: Seq<char>) -> Seq<u64> {
    seq![s.len() as u64] + s.map_values(|c: char| (c as u32) as u64)
}

/// The words of a value: a word for its kind, then what it holds. Two values
/// with the same model have the same words.
pub open spec fn words_of(v: Val) -> Seq<u64>
    decreases v,
{
    match v {
        Val::Int(i) => seq![0u64, i as u64],
        Val::Float(b) => seq![1u64, b],
        Val::Bool(b) => seq![2u64, if b { 1u64 } else { 0u64 }],
        Val::Str(s) => seq![3u64] + str_words(s),
        Val::Arr(x) => seq![4u64, x.len() as u64] + words_list(x),
        Val::Dict(d) => seq![5u64, d.len() as u64] + words_entries(d),
        Val::SetOf(x) => seq![6u64, x.len() as u64] + words_list(x),
        Val::Func(p, FunctionBody::Native(b)) => seq![7u64, p.len() as u64] + words_texts(p) + seq![
            builtin_code(b),
        ],
        Val::Null => seq![8u64],
        Val::Break => seq![9u64],
        Val::Continue => seq![10u64],
    }
}

/// The words of some values, one after another.
pub open spec fn words_list(x: Seq<Val>) -> Seq<u64>
    decreases x,
{
    if x.len() == 0 {
        Seq::empty()
    } else {
        words_list(x.drop_last()) + words_of(x.last())
    }
}

/// The words of some entries: each key's, then its value's.
pub open spec fn words_entries(d: Seq<(Val, Val)>) -> Seq<u64>
    decreases d,
{
    if d.len() == 0 {
        Seq::empty()
    } else {
        words_entries(d.drop_last()) + words_of(d.last().0) + words_of(d.last().1)
    }
}

/// The words of some texts, one after another.
pub open spec fn words_texts(p: Seq<Seq<char>>) -> Seq<u64>
    decreases p.len(),
{
    if p.len() == 0 {
        Seq::empty()
    } else {
        words_texts(p.drop_last()) + str_words(p.last())
    }
}

/// Appends the words of a text.
fn push_str_words(s: &str, out: &mut Vec<u64>)
    ensures
        final(out)@ == old(out)@ + str_words(s@),
{
    let cs = chars_of(s);
    let ghost start = out@;
    out.push(cs.len() as u64);
    let n = cs.len();
    let mut i: usize = 0;
    while i < n
        invariant
            n == cs.len(),
            i <= n,
            cs@ == s@,
            out@ == start + seq![n as u64] + cs@.take(i as int).map_values(
                |c: char| (c as u32) as u64,
            ),
        decreases n - i,
    {
        out.push(cs[i] as u32 as u64);
        assert(cs@.take(i + 1).map_values(|c: char| (c as u32) as u64) =~= cs@.take(
            i as int,
        ).map_values(|c: char| (c as u32) as u64).push((cs@[i as int] as u32) as u64));
        i = i + 1;
    }
    assert(cs@.take(n as int) =~= cs@);
    assert(out@ =~= start + str_words(s@));
}

/// Appends the words of a value.
pub fn push_words(v: &Value, out: &mut Vec<u64>)
    ensures
        final(out)@ == old(out)@ + words_of(v@),
    decreases v,
{
    let ghost start = out@;
    match v {
        Value::Integer(i) => {
            out.push(0);
            out.push(*i as u64);
        },
        Value::Float(b) => {
            out.push(1);
            out.push(*b);
        },
        Value::Boolean(b) => {
            out.push(2);
            out.push(if *b { 1 } else { 0 });
        },
        Value::String(t) => {
            out.push(3);
            push_str_words(t.as_str(), out);
        },
        Value::Array(items) => {
            proof {
                lemma_view_seq(items@);
            }
            out.push(4);
            out.push(items.len() as u64);
            push_list_words(items, out);
        },
        Value::Dictionary(d) => {
            proof {
                lemma_view_entries(d.entries@);
            }
            out.push(5);
            out.push(d.entries.len() as u64);
            push_entry_words(&d.entries, out);
        },
        Value::SetValue(set) => {
            proof {
                lemma_view_seq(set.items@);
            }
            out.push(6);
            out.push(set.items.len() as u64);
            push_list_words(&set.items, out);
        },
        Value::Function(params, FunctionBody::Native(b)) => {
            out.push(7);
            out.push(params.len() as u64);
            let ghost p = view_strings(params@);
            let ghost mid = out@;
            let n = params.len();
            let mut i: usize = 0;
            while i < n
                invariant
                    n == params.len(),
                    i <= n,
                    p == view_strings(params@),
                    p.len() == n,
                    out@ == mid + words_texts(p.take(i as int)),
                decreases n - i,
            {
                assert(p.take(i + 1).drop_last() =~= p.take(i as int));
                assert(p[i as int] == params@[i as int]@);
                push_str_words(params[i].as_str(), out);
                i = i + 1;
            }
            assert(p.take(n as int) =~= p);
            out.push(code_of_builtin(*b));
        },
        Value::Null => {
            out.push(8);
        },
        Value::Break => {
            out.push(9);
        },
        Value::Continue => {
            out.push(10);
        },
    }
    assert(out@ =~= start + words_of(v@));
}

/// Appends the words of some values.
fn push_list_words(items: &Vec<Value>, out: &mut Vec<u64>)
    ensures
        final(out)@ == old(out)@ + words_list(view_seq(items@)),
    decreases items,
{
    proof {
        lemma_view_seq(items@);
    }
    let ghost x = view_seq(items@);
    let ghost start = out@;
    let n = items.len();
    let mut i: usize = 0;
    assert(x.take(0) =~= Seq::<Val>::empty());
    assert(start + words_list(x.take(0)) =~= start);
    while i < n
        invariant
            n == items.len(),
            i <= n,
            x == view_seq(items@),
            x.len() == n,
            forall|k: int| 0 <= k < items@.len() ==> #[trigger] x[k] == items@[k].model(),
            out@ == start + words_list(x.take(i as int)),
        decreases n - i,
    {
        assert(x.take(i + 1).drop_last() =~= x.take(i as int));
        push_words(&items[i], out);
        assert(out@ =~= start + words_list(x.take(i + 1)));
        i = i + 1;
    }
    assert(x.take(n as int) =~= x);
}

/// Appends the words of some entries.
fn push_entry_words(entries: &Vec<(Value, Value)>, out: &mut Vec<u64>)
    ensures
        final(out)@ == old(out)@ + words_entries(view_entries(entries@)),
    decreases entries,
{
    proof {
        lemma_view_entries(entries@);
    }
    let ghost x = view_entries(entries@);
    let ghost start = out@;
    let n = entries.len();
    let mut i: usize = 0;
    assert(x.take(0) =~= Seq::<(Val, Val)>::empty());
    assert(start + words_entries(x.take(0)) =~= start);
    while i < n
        invariant
            n == entries.len(),
            i <= n,
            x == view_entries(entries@),
            x.len() == n,
            forall|k: int|
                0 <= k < entries@.len() ==> #[trigger] x[k] == (
                    entries@[k].0.model(),
                    entries@[k].1.model(),
                ),
            out@ == start + words_entries(x.take(i as int)),
        decreases n - i,
    {
        assert(x.take(i + 1).drop_last() =~= x.take(i as int));
        push_words(&entries[i].0, out);
        push_words(&entries[i].1, out);
        assert(out@ =~= start + words_entries(x.take(i + 1)));
        i = i + 1;
    }
    assert(x.take(n as int) =~= x);
}

/// The words of a value, which depend on its model alone.
pub fn value_words(v: &Value) -> (r: Vec<u64>)
    ensures
        r@ == words_of(v@),
{
    let mut out: Vec<u64> = Vec::new();
    push_words(v, &mut out);
    assert(out@ =~= words_of(v@));
    out
}

/// The `DefaultHasher` hash of a sequence of words. Nothing is stated of the
/// number: the standard library leaves the hashing algorithm unspecified, and
/// it depends on the machine's word width and byte order.
#[verifier::external_body]
fn hash_words(words: &Vec<u64>) -> u64 {
    let mut hasher = std::collections::hash_map::DefaultHasher::new();
    words.hash(&mut hasher);
    hasher.finish()
}

/// `hash(v)`: an integer hash of a value (not a cryptographic one).
pub fn hash(args: &Vec<Value>) -> (r: Result<Option<Value>, LangError>)
    requires
        args.len() >= 1,
    ensures
        reply_view(r) matches Ok(Some(Val::Int(_))),
{
    let words = value_words(&args[0]);
    let h = hash_words(&words);
    give(Value::Integer(h as i64))
}

proof fn lemma_digit_chars_read_back(k: int)
    requires
        0 <= k < 36,
    ensures
        digit_value(DIGITS@[k]) == k,
        DIGITS@[k] != '+',
{
    assert(DIGITS@ =~= seq![
        '0', '1', '2', '3', '4', '5', '6', '7', '8', '9', 'a', 'b', 'c', 'd', 'e', 'f', 'g', 'h',
        'i', 'j', 'k', 'l', 'm', 'n', 'o', 'p', 'q', 'r', 's', 't', 'u', 'v', 'w', 'x', 'y', 'z',
    ]);
}

proof fn lemma_digits_read_back(n: nat, b: nat)
    requires
        2 <= b <= 36,
    ensures
        digits_in_base(n, b).len() > 0,
        digits_value(digits_in_base(n, b), b as int) == n,
        forall|i: int|
            0 <= i < digits_in_base(n, b).len() ==> digit_value(#[trigger] digits_in_base(n, b)[i])
                < b,
        digits_in_base(n, b)[0] != '+',
    decreases n,
{
    let ds = digits_in_base(n, b);
    if n < b {
        lemma_digit_chars_read_back(n as int);
        assert(ds.drop_last() =~= Seq::<char>::empty());
        assert(digits_value(ds.drop_last(), b as int) * b == 0) by (nonlinear_arith)
            requires
                digits_value(ds.drop_last(), b as int) == 0,
        ;
    } else {
        assert(n / b < n) by (nonlinear_arith)
            requires
                n >= b,
                b >= 2,
        ;
        let q = n / b;
        let r = n % b;
        lemma_digits_read_back(q, b);
        lemma_digit_chars_read_back(r as int);
        assert(ds.drop_last() =~= digits_in_base(q, b));
        assert(ds.last() == DIGITS@[r as int]);
        assert(digits_value(ds, b as int) == digits_value(digits_in_base(q, b), b as int) * b
            + digit_value(DIGITS@[r as int]));
        assert(n == q * b + r) by (nonlinear_arith)
            requires
                q == n / b,
                r == n % b,
                b >= 2,
        ;
        assert forall|i: int| 0 <= i < ds.len() implies digit_value(#[trigger] ds[i]) < b by {
            if i < ds.len() - 1 {
                assert(ds[i] == digits_in_base(q, b)[i]);
            }
        }
    }
}

/// Writing a number of 32 bits in a base with `radix` and reading the text
/// back with `radix` gives the number.
pub proof fn law_radix_round_trip(n: i64, b: i64)
    requires
        0 <= n <= u32::MAX,
        2 <= b <= 36,
    ensures
        radix_reply(seq![Val::Int(n), Val::Int(b)]) == Ok::<Option<Val>, Seq<char>>(
            Some(Val::Str(radix_text(n, b as nat))),
        ),
        radix_reply(seq![Val::Str(radix_text(n, b as nat)), Val::Int(b)]) == Ok::<
            Option<Val>,
            Seq<char>,
        >(Some(Val::Int(n))),
{
    let t = radix_text(n, b as nat);
    assert((n as u64) as nat == n as nat);
    assert(t == digits_in_base(n as nat, b as nat));
    lemma_digits_read_back(n as nat, b as nat);
    assert(unsigned_digits(t) == t);
    assert(parse_u32(t, b as int) == Some(n as int));
}

/// `ord(chr(code))` gives back a code that names a character.
pub proof fn law_ord_of_chr(i: i64)
    requires
        0 <= i <= u32::MAX,
        is_scalar(i as u32),
    ensures
        chr_reply(seq![Val::Int(i)]) == Ok::<Option<Val>, Seq<char>>(
            Some(Val::Str(seq![(i as u32) as char])),
        ),
        ord_reply(seq![Val::Str(seq![(i as u32) as char])]) == Ok::<Option<Val>, Seq<char>>(
            Some(Val::Int(i)),
        ),
{
    assert(((i as u32) as char) as i64 == i);
}

/// `chr(ord(s))` gives back a one-character string.
pub proof fn law_chr_of_ord(c: char)
    ensures
        ord_reply(seq![Val::Str(seq![c])]) == Ok::<Option<Val>, Seq<char>>(
            Some(Val::Int(c as i64)),
        ),
        chr_reply(seq![Val::Int(c as i64)]) == Ok::<Option<Val>, Seq<char>>(
            Some(Val::Str(seq![c])),
        ),
{
    assert(((c as i64) as u32) as char == c);
    assert(is_scalar((c as i64) as u32));
}

/// `type` names each kind of value: `int`, `float`, `bool`, `str`, `arr`,
/// `dict`, `set`, `func`, `null`, `break` and `continue`.
pub proof fn law_kind_names(v: Val)
    ensures
        v is Int ==> kind_name(v) == "int"@,
        v is Float ==> kind_name(v) == "float"@,
        v is Bool ==> kind_name(v) == "bool"@,
        v is Str ==> kind_name(v) == "str"@,
        v is Arr ==> kind_name(v) == "arr"@,
        v is Dict ==> kind_name(v) == "dict"@,
        v is SetOf ==> kind_name(v) == "set"@,
        v is Func ==> kind_name(v) == "func"@,
        v is Null ==> kind_name(v) == "null"@,
        v is Break ==> kind_name(v) == "break"@,
        v is Continue ==> kind_name(v) == "continue"@,
{
}

/// A digit reads as in `u32::from_str_radix`: `0` to `9` are zero to nine, a
/// letter, lower-case or upper-case alike, is ten more than its place in the
/// alphabet, and any other character is no digit of any base.
pub proof fn law_digit_values(c: char)
    ensures
        ('0' as int) <= (c as int) <= ('9' as int) ==> digit_value(c) == (c as int) - ('0' as int),
        ('a' as int) <= (c as int) <= ('z' as int) ==> digit_value(c) == (c as int) - ('a' as int)
            + 10,
        ('A' as int) <= (c as int) <= ('Z' as int) ==> digit_value(c) == (c as int) - ('A' as int)
            + 10,
        !(('0' as int) <= (c as int) <= ('9' as int)) && !(('a' as int) <= (c as int) <= ('z' as int))
            && !(('A' as int) <= (c as int) <= ('Z' as int)) ==> digit_value(c) >= 36,
{
}

/// Whether `t` is `s` with some upper-case ASCII letters made lower-case.
pub open spec fn lowered_in_places(s: Seq<char>, t: Seq<char>) -> bool {
    s.len() == t.len() && forall|i: int|
        0 <= i < s.len() ==> s[i] == t[i] || (('A' as int) <= (s[i] as int) <= ('Z' as int) && (
        #[trigger] t[i] as int) == (s[i] as int) + 32)
}

proof fn lemma_digits_value_same(s: Seq<char>, t: Seq<char>, b: int)
    requires
        s.len() == t.len(),
        forall|i: int| 0 <= i < s.len() ==> digit_value(#[trigger] s[i]) == digit_value(t[i]),
    ensures
        digits_value(s, b) == digits_value(t, b),
    decreases s.len(),
{
    if s.len() > 0 {
        lemma_digits_value_same(s.drop_last(), t.drop_last(), b);
        assert(digit_value(s[s.len() - 1]) == digit_value(t[t.len() - 1]));
    }
}

/// Reading a number in a base does not depend on the case of its letters: a
/// text and the same text with some upper-case letters made lower-case read
/// the same, or both fail to read.
pub proof fn law_read_ignores_case(s: Seq<char>, t: Seq<char>, b: int)
    requires
        lowered_in_places(s, t),
    ensures
        parse_u32(s, b) == parse_u32(t, b),
{
    assert forall|i: int| 0 <= i < s.len() implies digit_value(#[trigger] s[i]) == digit_value(
        t[i],
    ) by {
        law_digit_values(s[i]);
        law_digit_values(t[i]);
    }
    let ds = unsigned_digits(s);
    let dt = unsigned_digits(t);
    let off: int = if s.len() > 0 && s[0] == '+' { 1 } else { 0 };
    if s.len() > 0 {
        assert((s[0] == '+') == (t[0] == '+'));
    }
    assert(ds.len() == dt.len());
    assert forall|i: int| 0 <= i < ds.len() implies digit_value(#[trigger] ds[i]) == digit_value(
        dt[i],
    ) by {
        assert(ds[i] == s[i + off]);
        assert(dt[i] == t[i + off]);
    }
    lemma_digits_value_same(ds, dt, b);
    if forall|i: int| 0 <= i < ds.len() ==> digit_value(#[trigger] ds[i]) < b {
        assert forall|i: int| 0 <= i < dt.len() implies digit_value(#[trigger] dt[i]) < b by {
            assert(digit_value(ds[i]) < b);
        }
    }
    if forall|i: int| 0 <= i < dt.len() ==> digit_value(#[trigger] dt[i]) < b {
        assert forall|i: int| 0 <= i < ds.len() implies digit_value(#[trigger] ds[i]) < b by {
            assert(digit_value(dt[i]) < b);
        }
    }
}

/// A number that `radix` reads from a text fits in 32 unsigned bits; a `+` in
/// front of the digits is read as nothing, and a text without digits reads
/// as no number.
pub proof fn law_read_range_and_sign(s: Seq<char>, b: int)
    ensures
        parse_u32(s, b) matches Some(v) ==> 0 <= v <= 4294967295,
        s.len() > 0 && s[0] != '+' ==> parse_u32(seq!['+'] + s, b) == parse_u32(s, b),
        parse_u32(Seq::empty(), b) is None,
        parse_u32(seq!['+'], b) is None,
{
    if s.len() > 0 && s[0] != '+' {
        assert((seq!['+'] + s).skip(1) =~= s);
    }
    assert(seq!['+'].skip(1) =~= Seq::<char>::empty());
    if parse_u32(s, b) is Some {
        let ds = unsigned_digits(s);
        if b >= 2 {
            lemma_digits_value_nonneg(ds, b);
        } else {
            lemma_digits_value_small_base(ds, b);
        }
    }
}

proof fn lemma_digits_value_small_base(ds: Seq<char>, b: int)
    requires
        b < 2,
        forall|i: int| 0 <= i < ds.len() ==> digit_value(#[trigger] ds[i]) < b,
    ensures
        digits_value(ds, b) >= 0,
    decreases ds.len(),
{
    if ds.len() > 0 {
        let l = ds.last();
        law_digit_values(l);
        assert(digit_value(ds[ds.len() - 1]) < b);
        assert(b == 1 && digit_value(l) == 0);
        lemma_digits_value_small_base(ds.drop_last(), b);
    }
}

/// An integer is written in decimal as a `-` for a negative number, then
/// decimal digits that read back as its magnitude.
pub proof fn law_decimal(i: int)
    ensures
        i < 0 ==> decimal(i)[0] == '-' && digits_value(decimal(i).skip(1), 10) == -i,
        i >= 0 ==> digits_value(decimal(i), 10) == i,
        forall|k: int| (if i < 0 { 1int } else { 0int }) <= k < decimal(i).len() ==> digit_value(
            #[trigger] decimal(i)[k],
        ) < 10,
        decimal(i).len() > (if i < 0 { 1int } else { 0int }),
{
    if i < 0 {
        let ds = digits_in_base((-i) as nat, 10);
        lemma_digits_read_back((-i) as nat, 10);
        assert(decimal(i).skip(1) =~= ds);
        assert forall|k: int| 1 <= k < decimal(i).len() implies digit_value(
            #[trigger] decimal(i)[k],
        ) < 10 by {
            assert(decimal(i)[k] == ds[k - 1]);
        }
    } else {
        lemma_digits_read_back(i as nat, 10);
    }
}

/// What `radix(n, base)` writes for an integer: in base ten the decimal text
/// with its sign; in any other base digits of that base, whose value is the
/// integer's 64-bit two's-complement word, which is the integer itself for one
/// at or above zero.
pub proof fn law_radix_writes(n: i64, b: i64)
    requires
        2 <= b <= 36,
    ensures
        b == 10 ==> radix_reply(seq![Val::Int(n), Val::Int(b)]) == Ok::<Option<Val>, Seq<char>>(
            Some(Val::Str(decimal(n as int))),
        ),
        b != 10 ==> (radix_reply(seq![Val::Int(n), Val::Int(b)]) matches Ok(Some(Val::Str(t)))
            && t.len() > 0 && digits_value(t, b as int) == (n as u64) && (n >= 0 ==> digits_value(
            t,
            b as int,
        ) == n) && forall|k: int| 0 <= k < t.len() ==> digit_value(#[trigger] t[k]) < b),
{
    let w = (n as u64) as nat;
    lemma_digits_read_back(w, b as nat);
}

} // verus!
