//! Text helpers: building strings, digits in a base, hexadecimal bytes.
use vstd::prelude::*;
use vstd::string::*;

verus! {

broadcast use vstd::string::to_string_from_display_ensures_for_str;

/// An owned copy of a string slice.
pub fn text(s: &str) -> (r: String)
    ensures
        r@ == s@,
{
    s.to_string()
}

/// `String::push`: appends one character.
#[verifier::external_body]
pub fn push_char(s: &mut String, c: char)
    ensures
        final(s)@ == old(s)@.push(c),
{
    s.push(c)
}

/// Appends a string.
pub fn push_text(s: &mut String, t: &str)
    ensures
        final(s)@ == old(s)@ + t@,
{
    s.append(t)
}

/// The characters of a string, in order.
pub fn chars_of(s: &str) -> (r: Vec<char>)
    ensures
        r@ == s@,
{
    let mut out: Vec<char> = Vec::new();
    for c in it: s.chars()
        invariant
            out@ == it.seq().take(it.index() as int),
    {
        out.push(c);
    }
    out
}

/// A string made of the given characters.
pub fn string_of(cs: &Vec<char>) -> (r: String)
    ensures
        r@ == cs@,
{
    let mut out = String::new();
    let n = cs.len();
    let mut i: usize = 0;
    while i < n
        invariant
            n == cs.len(),
            i <= n,
            out@ == cs@.take(i as int),
        decreases n - i,
    {
        push_char(&mut out, cs[i]);
        assert(cs@.take(i + 1) =~= cs@.take(i as int).push(cs@[i as int]));
        i = i + 1;
    }
    assert(cs@.take(n as int) =~= cs@);
    out
}

/// The digit characters of the bases up to 36, in lower case.
pub const DIGITS: [char; 36] = [
    '0', '1', '2', '3', '4', '5', '6', '7', '8', '9', 'a', 'b', 'c', 'd', 'e', 'f', 'g', 'h', 'i',
    'j', 'k', 'l', 'm', 'n', 'o', 'p', 'q', 'r', 's', 't', 'u', 'v', 'w', 'x', 'y', 'z',
];

/// The digits of `n` in base `b`, most significant first, without leading zeros.
pub open spec fn digits_in_base(n: nat, b: nat) -> Seq<char>
    recommends
        2 <= b <= 36,
    decreases n,
{
    if b < 2 || n < b {
        seq![DIGITS@[n as int]]
    } else {
        proof {
            assert(n / b < n) by (nonlinear_arith)
                requires
                    n >= b,
                    b >= 2,
            ;
        }
        digits_in_base(n / b, b).push(DIGITS@[(n % b) as int])
    }
}

/// The decimal text of an integer: a minus sign before negative ones.
pub open spec fn decimal(i: int) -> Seq<char> {
    if i < 0 {
        seq!['-'] + digits_in_base((-i) as nat, 10)
    } else {
        digits_in_base(i as nat, 10)
    }
}

/// The digits of `n` in base `b`.
pub fn digits(n: u64, b: u64) -> (r: Vec<char>)
    requires
        2 <= b <= 36,
    ensures
        r@ == digits_in_base(n as nat, b as nat),
{
    let mut suffix: Vec<char> = Vec::new();
    let mut q: u64 = n;
    loop
        invariant
            2 <= b <= 36,
            digits_in_base(n as nat, b as nat) == digits_in_base(q as nat, b as nat) + suffix@,
        decreases q,
    {
        if q < b {
            suffix.insert(0, DIGITS[q as usize]);
            assert(digits_in_base(q as nat, b as nat) == seq![DIGITS@[q as int]]);
            assert(digits_in_base(n as nat, b as nat) =~= suffix@);
            return suffix;
        }
        let d = q % b;
        let next = q / b;
        assert(digits_in_base(q as nat, b as nat) == digits_in_base(next as nat, b as nat).push(
            DIGITS@[d as int],
        ));
        suffix.insert(0, DIGITS[d as usize]);
        assert(digits_in_base(n as nat, b as nat) =~= digits_in_base(next as nat, b as nat)
            + suffix@);
        q = next;
    }
}

/// The decimal text of a signed integer.
pub fn decimal_text(i: i64) -> (r: String)
    ensures
        r@ == decimal(i as int),
{
    if i < 0 {
        let m: u64 = (0 - (i as i128)) as u64;
        let ds = digits(m, 10);
        let mut out = text("-");
        proof {
            reveal_strlit("-");
        }
        let rest = string_of(&ds);
        push_text(&mut out, rest.as_str());
        out
    } else {
        let ds = digits(i as u64, 10);
        string_of(&ds)
    }
}

/// The decimal text of an unsigned integer.
pub fn unsigned_text(n: u64) -> (r: String)
    ensures
        r@ == decimal(n as int),
{
    let ds = digits(n, 10);
    string_of(&ds)
}

/// Two lower-case hexadecimal digits for each byte, in order.
pub open spec fn hex_of(bytes: Seq<u8>) -> Seq<char>
    decreases bytes.len(),
{
    if bytes.len() == 0 {
        Seq::empty()
    } else {
        hex_of(bytes.drop_last()) + seq![
            DIGITS@[(bytes.last() / 16) as int],
            DIGITS@[(bytes.last() % 16) as int],
        ]
    }
}

/// The lower-case hexadecimal text of a byte string.
pub fn hex_text(bytes: &Vec<u8>) -> (r: String)
    ensures
        r@ == hex_of(bytes@),
{
    let mut out = String::new();
    let n = bytes.len();
    let mut i: usize = 0;
    while i < n
        invariant
            n == bytes.len(),
            i <= n,
            out@ == hex_of(bytes@.take(i as int)),
        decreases n - i,
    {
        let byte = bytes[i];
        push_char(&mut out, DIGITS[(byte / 16) as usize]);
        push_char(&mut out, DIGITS[(byte % 16) as usize]);
        assert(bytes@.take(i + 1).drop_last() =~= bytes@.take(i as int));
        i = i + 1;
    }
    assert(bytes@.take(n as int) =~= bytes@);
    out
}

/// A string made of the characters `cs[lo..hi]`.
pub fn string_of_range(cs: &Vec<char>, lo: usize, hi: usize) -> (r: String)
    requires
        lo <= hi <= cs.len(),
    ensures
        r@ == cs@.subrange(lo as int, hi as int),
{
    let mut out = String::new();
    let mut i: usize = lo;
    while i < hi
        invariant
            lo <= i <= hi <= cs.len(),
            out@ == cs@.subrange(lo as int, i as int),
        decreases hi - i,
    {
        push_char(&mut out, cs[i]);
        assert(cs@.subrange(lo as int, i + 1) =~= cs@.subrange(lo as int, i as int).push(
            cs@[i as int],
        ));
        i = i + 1;
    }
    out
}

/// Whether a character has the Unicode `White_Space` property.
pub open spec fn is_white_space(c: char) -> bool {
    let v = c as u32;
    (0x9 <= v <= 0xD) || v == 0x20 || v == 0x85 || v == 0xA0 || v == 0x1680 || (0x2000 <= v
        <= 0x200A) || v == 0x2028 || v == 0x2029 || v == 0x202F || v == 0x205F || v == 0x3000
}

/// Whether a character has the Unicode `White_Space` property.
pub fn white_space(c: char) -> (r: bool)
    ensures
        r == is_white_space(c),
{
    let v = c as u32;
    (0x9 <= v && v <= 0xD) || v == 0x20 || v == 0x85 || v == 0xA0 || v == 0x1680 || (0x2000 <= v
        && v <= 0x200A) || v == 0x2028 || v == 0x2029 || v == 0x202F || v == 0x205F || v == 0x3000
}

/// `s` without its leading white space.
pub open spec fn trim_start(s: Seq<char>) -> Seq<char>
    decreases s.len(),
{
    if s.len() > 0 && is_white_space(s[0]) {
        trim_start(s.drop_first())
    } else {
        s
    }
}

/// `s` without its trailing white space.
pub open spec fn trim_end(s: Seq<char>) -> Seq<char>
    decreases s.len(),
{
    if s.len() > 0 && is_white_space(s.last()) {
        trim_end(s.drop_last())
    } else {
        s
    }
}

/// `s` without leading and trailing white space, as `str::trim` gives it.
pub open spec fn trimmed(s: Seq<char>) -> Seq<char> {
    trim_end(trim_start(s))
}

/// `str::trim`: the string without leading and trailing white space.
pub fn trim(s: &str) -> (r: String)
    ensures
        r@ == trimmed(s@),
{
    let cs = chars_of(s);
    let n = cs.len();
    let mut lo: usize = 0;
    assert(cs@.skip(0) =~= cs@);
    while lo < n && white_space(cs[lo])
        invariant
            n == cs.len(),
            lo <= n,
            trim_start(cs@) == trim_start(cs@.skip(lo as int)),
        decreases n - lo,
    {
        assert(cs@.skip(lo as int).drop_first() =~= cs@.skip(lo + 1));
        lo = lo + 1;
    }
    assert(trim_start(cs@) == cs@.skip(lo as int));
    let mut hi: usize = n;
    while hi > lo && white_space(cs[hi - 1])
        invariant
            n == cs.len(),
            lo <= hi <= n,
            trim_end(cs@.skip(lo as int)) == trim_end(cs@.subrange(lo as int, hi as int)),
        decreases hi,
    {
        assert(cs@.subrange(lo as int, hi as int).drop_last() =~= cs@.subrange(
            lo as int,
            hi - 1,
        ));
        hi = hi - 1;
    }
    proof {
        assert(cs@.skip(lo as int) =~= cs@.subrange(lo as int, n as int));
        let t = cs@.subrange(lo as int, hi as int);
        if t.len() > 0 {
            assert(t.last() == cs@[hi - 1]);
        }
        assert(trim_end(t) == t);
    }
    string_of_range(&cs, lo, hi)
}

/// The hexadecimal text of some bytes has two characters for each byte, each
/// a digit of base sixteen in lower case.
pub proof fn law_hex_of(bytes: Seq<u8>)
    ensures
        hex_of(bytes).len() == 2 * bytes.len(),
        forall|i: int| 0 <= i < hex_of(bytes).len() ==> DIGITS@.take(16).contains(#[trigger] hex_of(bytes)[i]),
    decreases bytes.len(),
{
    if bytes.len() > 0 {
        law_hex_of(bytes.drop_last());
        let b = bytes.last();
        let h = hex_of(bytes);
        let p = hex_of(bytes.drop_last());
        assert(DIGITS@.take(16)[(b / 16) as int] == DIGITS@[(b / 16) as int]);
        assert(DIGITS@.take(16)[(b % 16) as int] == DIGITS@[(b % 16) as int]);
        assert forall|i: int| 0 <= i < h.len() implies DIGITS@.take(16).contains(#[trigger] h[i]) by {
            if i < p.len() {
                assert(h[i] == p[i]);
            }
        }
    }
}

/// The white space that `str::trim` removes is Unicode's `White_Space`: tab,
/// line feed, vertical tab, form feed, carriage return, space, next line,
/// no-break space, ogham space mark, the spaces from en quad to hair space,
/// line separator, paragraph separator, narrow no-break space, medium
/// mathematical space and ideographic space; no other character.
pub proof fn law_white_space(c: char)
    ensures
        is_white_space(c) <==> (c == '\t' || c == '\n' || c == '\u{0B}' || c == '\u{0C}' || c
            == '\r' || c == ' ' || c == '\u{85}' || c == '\u{A0}' || c == '\u{1680}' || (('\u{2000}'
            as int) <= (c as int) <= ('\u{200A}' as int)) || c == '\u{2028}' || c == '\u{2029}' || c
            == '\u{202F}' || c == '\u{205F}' || c == '\u{3000}'),
{
}

proof fn lemma_trim_start(s: Seq<char>) -> (k: int)
    ensures
        0 <= k <= s.len(),
        trim_start(s) == s.skip(k),
        forall|i: int| 0 <= i < k ==> is_white_space(#[trigger] s[i]),
        k < s.len() ==> !is_white_space(s[k]),
    decreases s.len(),
{
    if s.len() > 0 && is_white_space(s[0]) {
        let j = lemma_trim_start(s.drop_first());
        assert(s.drop_first().skip(j) =~= s.skip(j + 1));
        assert forall|i: int| 0 <= i < j + 1 implies is_white_space(#[trigger] s[i]) by {
            if i > 0 {
                assert(s[i] == s.drop_first()[i - 1]);
            }
        }
        if j + 1 < s.len() {
            assert(s[j + 1] == s.drop_first()[j]);
        }
        j + 1
    } else {
        assert(s.skip(0) =~= s);
        0
    }
}

proof fn lemma_trim_end(s: Seq<char>) -> (k: int)
    ensures
        0 <= k <= s.len(),
        trim_end(s) == s.take(k),
        forall|i: int| k <= i < s.len() ==> is_white_space(#[trigger] s[i]),
        k > 0 ==> !is_white_space(s[k - 1]),
    decreases s.len(),
{
    if s.len() > 0 && is_white_space(s.last()) {
        let j = lemma_trim_end(s.drop_last());
        assert(s.drop_last().take(j) =~= s.take(j));
        assert forall|i: int| j <= i < s.len() implies is_white_space(#[trigger] s[i]) by {
            if i < s.len() - 1 {
                assert(s[i] == s.drop_last()[i]);
            }
        }
        if j > 0 {
            assert(s[j - 1] == s.drop_last()[j - 1]);
        }
        j
    } else {
        assert(s.take(s.len() as int) =~= s);
        s.len() as int
    }
}

/// What `str::trim` gives is the text between a run of white space at the
/// start and a run of white space at the end: it neither starts nor ends with
/// white space, and only white space was cut off on either side.
pub proof fn law_trim(s: Seq<char>)
    ensures
        exists|lo: int, hi: int|
            0 <= lo <= hi <= s.len() && #[trigger] s.subrange(lo, hi) == trimmed(s) && (forall|i: int|
                0 <= i < lo ==> is_white_space(#[trigger] s[i])) && (forall|i: int|
                hi <= i < s.len() ==> is_white_space(#[trigger] s[i])) && (lo < hi ==> !is_white_space(
                s[lo]) && !is_white_space(s[hi - 1])),
{
    let lo = lemma_trim_start(s);
    let rest = s.skip(lo);
    let k = lemma_trim_end(rest);
    let hi = lo + k;
    assert(rest.take(k) =~= s.subrange(lo, hi));
    assert forall|i: int| hi <= i < s.len() implies is_white_space(#[trigger] s[i]) by {
        assert(s[i] == rest[i - lo]);
    }
    if lo < hi {
        assert(s[hi - 1] == rest[k - 1]);
    }
    assert(s.subrange(lo, hi) == trimmed(s));
}

/// The digits of the bases up to 36 are `0` to `9`, then the lower-case
/// letters `a` to `z`, in order.
pub proof fn law_digits()
    ensures
        forall|k: int| 0 <= k < 10 ==> (#[trigger] DIGITS@[k] as int) == ('0' as int) + k,
        forall|k: int| 10 <= k < 36 ==> (#[trigger] DIGITS@[k] as int) == ('a' as int) + k - 10,
{
    assert(DIGITS@ =~= seq![
        '0', '1', '2', '3', '4', '5', '6', '7', '8', '9', 'a', 'b', 'c', 'd', 'e', 'f', 'g', 'h',
        'i', 'j', 'k', 'l', 'm', 'n', 'o', 'p', 'q', 'r', 's', 't', 'u', 'v', 'w', 'x', 'y', 'z',
    ]);
}

} // verus!
