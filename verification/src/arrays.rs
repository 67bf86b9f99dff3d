//! Array built-ins of the standard library: range, concat, split_at,
//! array_modify, array_remove.
use vstd::prelude::*;
use crate::value::{Value, Val, LangError, view_seq, lemma_view_seq, reply_view, fail, give};
use crate::text::{text, push_text, unsigned_text, decimal};

verus! {

/// The `k`-th element of a range from `start` by `step`.
pub open spec fn range_item(start: int, step: int, k: int) -> int {
    start + k * step
}

/// Whether `v` has not yet passed `end`, going in the direction of `step`.
pub open spec fn in_range(v: int, end: int, step: int) -> bool {
    if step > 0 {
        v < end
    } else {
        v > end
    }
}

/// `n` is the number of elements of the range: the first `n` items lie before
/// `end`, the next one does not.
pub open spec fn counts_range(start: int, end: int, step: int, n: nat) -> bool {
    &&& forall|k: int| 0 <= k < n ==> #[trigger] in_range(range_item(start, step, k), end, step)
    &&& !in_range(range_item(start, step, n as int), end, step)
}

/// The number of elements of the range from `start` towards `end` by `step`.
pub open spec fn range_count(start: int, end: int, step: int) -> nat {
    choose|n: nat| counts_range(start, end, step, n)
}

/// The range from `start` (included) towards `end` (excluded) by `step`.
pub open spec fn range_values(start: int, end: int, step: int) -> Seq<Val> {
    Seq::new(range_count(start, end, step), |k: int| Val::Int(range_item(start, step, k) as i64))
}

/// `range(start, end, step)`.
pub open spec fn range_reply(a: Seq<Val>) -> Result<Option<Val>, Seq<char>> {
    match (a[0], a[1], a[2]) {
        (Val::Int(start), Val::Int(end), Val::Int(step)) => {
            if step == 0 {
                Err("Can't make a range with 0 step"@)
            } else {
                Ok(Some(Val::Arr(range_values(start as int, end as int, step as int))))
            }
        },
        _ => Err("Can't create a non-integer range"@),
    }
}

/// The inputs on which `range` overflows: a downward range that ends at the
/// largest integer, or whose step is the smallest integer.
pub open spec fn range_overflows(a: Seq<Val>) -> bool {
    match (a[0], a[1], a[2]) {
        (Val::Int(start), Val::Int(end), Val::Int(step)) => step < 0 && (end == i64::MAX || step
            == i64::MIN),
        _ => false,
    }
}

/// A range has one length only.
pub proof fn lemma_range_count_unique(start: int, end: int, step: int, n: nat, m: nat)
    requires
        counts_range(start, end, step, n),
        counts_range(start, end, step, m),
    ensures
        n == m,
{
    if n < m {
        assert(in_range(range_item(start, step, n as int), end, step));
    }
    if m < n {
        assert(in_range(range_item(start, step, m as int), end, step));
    }
}

proof fn lemma_range_next(start: int, step: int, k: int)
    ensures
        range_item(start, step, k + 1) == range_item(start, step, k) + step,
{
    assert((k + 1) * step == k * step + step) by (nonlinear_arith);
}

/// The items of a range with a non-zero step.
fn range_items(start: i64, end: i64, step: i64) -> (r: Vec<Value>)
    requires
        step != 0,
        step < 0 ==> end != i64::MAX && step != i64::MIN,
    ensures
        view_seq(r@) == range_values(start as int, end as int, step as int),
{
    let mut out: Vec<Value> = Vec::new();
    let mut cur: i128 = start as i128;
    let ghost s = start as int;
    let ghost e = end as int;
    let ghost st = step as int;
    assert(range_item(s, st, 0) == s) by (nonlinear_arith);
    if step > 0 {
        while cur < end as i128
            invariant
                st > 0,
                s == start,
                e == end,
                st == step,
                cur == range_item(s, st, out.len() as int),
                i64::MIN <= cur <= i64::MAX as int + i64::MAX as int,
                forall|j: int| 0 <= j < out.len() ==> #[trigger] in_range(range_item(s, st, j), e, st),
                forall|j: int|
                    0 <= j < out.len() ==> #[trigger] out@[j].model() == Val::Int(
                        range_item(s, st, j) as i64,
                    ),
            decreases e - cur + st,
        {
            proof {
                lemma_range_next(s, st, out.len() as int);
            }
            out.push(Value::Integer(cur as i64));
            cur = cur + step as i128;
        }
    } else {
        while cur > end as i128
            invariant
                st < 0,
                s == start,
                e == end,
                st == step,
                cur == range_item(s, st, out.len() as int),
                i64::MIN as int + i64::MIN as int <= cur <= i64::MAX,
                forall|j: int| 0 <= j < out.len() ==> #[trigger] in_range(range_item(s, st, j), e, st),
                forall|j: int|
                    0 <= j < out.len() ==> #[trigger] out@[j].model() == Val::Int(
                        range_item(s, st, j) as i64,
                    ),
            decreases cur - e - st,
        {
            proof {
                lemma_range_next(s, st, out.len() as int);
            }
            out.push(Value::Integer(cur as i64));
            cur = cur + step as i128;
        }
    }
    proof {
        let n = out.len() as nat;
        assert(counts_range(s, e, st, n));
        lemma_range_count_unique(s, e, st, n, range_count(s, e, st));
        lemma_view_seq(out@);
        assert(view_seq(out@) =~= range_values(s, e, st));
    }
    out
}

/// `range(start, end, step)`: the integers from `start` towards `end` (excluded)
/// by `step`, going down when `step` is negative.
pub fn range(args: &Vec<Value>) -> (r: Result<Option<Value>, LangError>)
    requires
        args.len() >= 3,
        !range_overflows(view_seq(args@)),
    ensures
        reply_view(r) == range_reply(view_seq(args@)),
{
    proof {
        lemma_view_seq(args@);
    }
    if let Value::Integer(start) = &args[0] {
        if let Value::Integer(end) = &args[1] {
            if let Value::Integer(step) = &args[2] {
                if *step == 0 {
                    return fail(text("Can't make a range with 0 step"));
                }
                let items = range_items(*start, *end, *step);
                return give(Value::Array(items));
            }
        }
    }
    fail(text("Can't create a non-integer range"))
}

/// Copies of the values `v[lo..hi]`.
pub fn copy_slice(v: &Vec<Value>, lo: usize, hi: usize) -> (r: Vec<Value>)
    requires
        lo <= hi <= v.len(),
    ensures
        view_seq(r@) == view_seq(v@).subrange(lo as int, hi as int),
{
    proof {
        lemma_view_seq(v@);
    }
    let mut out: Vec<Value> = Vec::new();
    let mut i: usize = lo;
    while i < hi
        invariant
            lo <= i <= hi <= v.len(),
            out.len() == i - lo,
            view_seq(v@).len() == v.len(),
            forall|k: int| 0 <= k < v@.len() ==> #[trigger] view_seq(v@)[k] == v@[k].model(),
            forall|k: int| 0 <= k < out.len() ==> #[trigger] out@[k].model() == v@[lo + k].model(),
        decreases hi - i,
    {
        out.push(v[i].copy());
        i = i + 1;
    }
    proof {
        lemma_view_seq(out@);
        assert(view_seq(out@) =~= view_seq(v@).subrange(lo as int, hi as int));
    }
    out
}

/// `concat(a, b)`.
pub open spec fn concat_reply(a: Seq<Val>) -> Result<Option<Val>, Seq<char>> {
    match (a[0], a[1]) {
        (Val::Arr(x), Val::Arr(y)) => Ok(Some(Val::Arr(x + y))),
        _ => Err("Expected two arrays"@),
    }
}

/// `concat(a, b)`: the elements of `a` followed by those of `b`.
pub fn concat_arrays(args: &Vec<Value>) -> (r: Result<Option<Value>, LangError>)
    requires
        args.len() >= 2,
    ensures
        reply_view(r) == concat_reply(view_seq(args@)),
{
    proof {
        lemma_view_seq(args@);
    }
    if let Value::Array(first) = &args[0] {
        if let Value::Array(second) = &args[1] {
            proof {
                lemma_view_seq(first@);
                lemma_view_seq(second@);
            }
            let mut result = copy_slice(first, 0, first.len());
            let mut rest = copy_slice(second, 0, second.len());
            proof {
                lemma_view_seq(result@);
                lemma_view_seq(rest@);
                assert(view_seq(first@).subrange(0, first.len() as int) =~= view_seq(first@));
                assert(view_seq(second@).subrange(0, second.len() as int) =~= view_seq(second@));
            }
            let ghost before = result@;
            result.append(&mut rest);
            proof {
                lemma_view_seq(result@);
                lemma_view_seq(before);
                assert(view_seq(result@) =~= view_seq(first@) + view_seq(second@));
            }
            return give(Value::Array(result));
        }
    }
    fail(text("Expected two arrays"))
}

/// The message for an index past the end of an array.
pub open spec fn index_message(idx: int, len: int) -> Seq<char> {
    "Index "@ + decimal(idx) + " out of bounds for array of length "@ + decimal(len)
}

fn index_error(idx: u64, len: usize) -> (r: String)
    ensures
        r@ == index_message(idx as int, len as int),
{
    let mut m = text("Index ");
    push_text(&mut m, unsigned_text(idx).as_str());
    push_text(&mut m, " out of bounds for array of length ");
    push_text(&mut m, unsigned_text(len as u64).as_str());
    m
}

/// `split_at(arr, index)`. The index is taken as an unsigned machine word, as
/// a cast of the integer gives it.
pub open spec fn split_at_reply(a: Seq<Val>) -> Result<Option<Val>, Seq<char>> {
    match (a[0], a[1]) {
        (Val::Arr(x), Val::Int(i)) => {
            let u = (i as u64) as int;
            if u > x.len() {
                Err(
                    "Split index "@ + decimal(u) + " out of bounds (len "@ + decimal(x.len() as int)
                        + ")"@,
                )
            } else {
                Ok(Some(Val::Arr(seq![Val::Arr(x.take(u)), Val::Arr(x.skip(u))])))
            }
        },
        _ => Err("Expected array and integer index"@),
    }
}

/// `split_at(arr, index)`: the array before the index and the array from it.
pub fn split_at(args: &Vec<Value>) -> (r: Result<Option<Value>, LangError>)
    requires
        args.len() >= 2,
    ensures
        reply_view(r) == split_at_reply(view_seq(args@)),
{
    proof {
        lemma_view_seq(args@);
    }
    if let Value::Array(arr) = &args[0] {
        if let Value::Integer(index) = &args[1] {
            proof {
                lemma_view_seq(arr@);
            }
            let idx = *index as u64;
            if idx > arr.len() as u64 {
                let mut m = text("Split index ");
                push_text(&mut m, unsigned_text(idx).as_str());
                push_text(&mut m, " out of bounds (len ");
                push_text(&mut m, unsigned_text(arr.len() as u64).as_str());
                push_text(&mut m, ")");
                return fail(m);
            }
            let left = copy_slice(arr, 0, idx as usize);
            let right = copy_slice(arr, idx as usize, arr.len());
            let ghost lv = view_seq(left@);
            let ghost rv = view_seq(right@);
            let mut parts: Vec<Value> = Vec::new();
            parts.push(Value::Array(left));
            parts.push(Value::Array(right));
            proof {
                lemma_view_seq(parts@);
                lemma_view_seq(arr@);
                assert(lv =~= view_seq(arr@).take(idx as int));
                assert(rv =~= view_seq(arr@).skip(idx as int));
                assert(view_seq(parts@) =~= seq![Val::Arr(lv), Val::Arr(rv)]);
            }
            return give(Value::Array(parts));
        }
    }
    fail(text("Expected array and integer index"))
}

/// `array_modify(arr, index, value)`.
pub open spec fn array_modify_reply(a: Seq<Val>) -> Result<Option<Val>, Seq<char>> {
    match (a[0], a[1]) {
        (Val::Arr(x), Val::Int(i)) => {
            let u = (i as u64) as int;
            if u >= x.len() {
                Err(index_message(u, x.len() as int))
            } else {
                Ok(Some(Val::Arr(x.update(u, a[2]))))
            }
        },
        _ => Err("Expected (array, integer index, new value)"@),
    }
}

/// `array_modify(arr, index, value)`: a new array with the element at the
/// index replaced.
pub fn array_modify(args: &Vec<Value>) -> (r: Result<Option<Value>, LangError>)
    requires
        args.len() >= 3,
    ensures
        reply_view(r) == array_modify_reply(view_seq(args@)),
{
    proof {
        lemma_view_seq(args@);
    }
    if let Value::Array(arr) = &args[0] {
        if let Value::Integer(index) = &args[1] {
            proof {
                lemma_view_seq(arr@);
            }
            let idx = *index as u64;
            if idx >= arr.len() as u64 {
                return fail(index_error(idx, arr.len()));
            }
            let mut result = copy_slice(arr, 0, arr.len());
            proof {
                lemma_view_seq(result@);
                assert(view_seq(arr@).subrange(0, arr.len() as int) =~= view_seq(arr@));
            }
            result.set(idx as usize, args[2].copy());
            proof {
                lemma_view_seq(result@);
                assert(view_seq(result@) =~= view_seq(arr@).update(idx as int, args@[2].model()));
            }
            return give(Value::Array(result));
        }
    }
    fail(text("Expected (array, integer index, new value)"))
}

/// `array_remove(arr, index)`.
pub open spec fn array_remove_reply(a: Seq<Val>) -> Result<Option<Val>, Seq<char>> {
    match (a[0], a[1]) {
        (Val::Arr(x), Val::Int(i)) => {
            let u = (i as u64) as int;
            if u >= x.len() {
                Err(index_message(u, x.len() as int))
            } else {
                Ok(Some(Val::Arr(x.remove(u))))
            }
        },
        _ => Err("Expected (array, integer index)"@),
    }
}

/// `array_remove(arr, index)`: a new array without the element at the index.
pub fn array_remove(args: &Vec<Value>) -> (r: Result<Option<Value>, LangError>)
    requires
        args.len() >= 2,
    ensures
        reply_view(r) == array_remove_reply(view_seq(args@)),
{
    proof {
        lemma_view_seq(args@);
    }
    if let Value::Array(arr) = &args[0] {
        if let Value::Integer(index) = &args[1] {
            proof {
                lemma_view_seq(arr@);
            }
            let idx = *index as u64;
            if idx >= arr.len() as u64 {
                return fail(index_error(idx, arr.len()));
            }
            let mut result = copy_slice(arr, 0, idx as usize);
            let mut rest = copy_slice(arr, idx as usize + 1, arr.len());
            proof {
                lemma_view_seq(result@);
                lemma_view_seq(rest@);
            }
            result.append(&mut rest);
            proof {
                lemma_view_seq(result@);
                lemma_view_seq(arr@);
                assert(view_seq(result@) =~= view_seq(arr@).remove(idx as int));
            }
            return give(Value::Array(result));
        }
    }
    fail(text("Expected (array, integer index)"))
}

/// Concatenating the two halves that `split_at` gives returns the array.
pub proof fn law_split_at_then_concat(x: Seq<Val>, index: i64)
    requires
        (index as u64) <= x.len(),
    ensures
        split_at_reply(seq![Val::Arr(x), Val::Int(index)]) matches Ok(Some(Val::Arr(parts))) && concat_reply(
            parts,
        ) == Ok::<Option<Val>, Seq<char>>(Some(Val::Arr(x))),
{
    let u = (index as u64) as int;
    assert(x.take(u) + x.skip(u) =~= x);
}

/// After `array_modify(arr, i, v)` the element at `i` is `v`, every other
/// element is unchanged, and the length is the same.
pub proof fn law_array_modify_sets(x: Seq<Val>, index: i64, v: Val)
    requires
        (index as u64) < x.len(),
    ensures
        array_modify_reply(seq![Val::Arr(x), Val::Int(index), v]) matches Ok(Some(Val::Arr(y))) && y.len()
            == x.len() && y[(index as u64) as int] == v && forall|k: int|
            0 <= k < x.len() && k != (index as u64) as int ==> y[k] == x[k],
{
}

/// `array_remove(arr, i)` is one element shorter, the elements after `i`
/// moving down by one.
pub proof fn law_array_remove_shifts(x: Seq<Val>, index: i64)
    requires
        (index as u64) < x.len(),
    ensures
        array_remove_reply(seq![Val::Arr(x), Val::Int(index)]) matches Ok(Some(Val::Arr(y))) && y.len()
            == x.len() - 1 && forall|k: int|
            0 <= k < y.len() ==> y[k] == if k < (index as u64) as int {
                x[k]
            } else {
                x[k + 1]
            },
{
}

/// An upward range from `start` to `end` by `step` has
/// `ceil((end - start) / step)` elements, and none when `start >= end`.
pub proof fn law_range_count_upward(start: int, end: int, step: int)
    requires
        step > 0,
    ensures
        counts_range(start, end, step, range_count(start, end, step)),
        range_count(start, end, step) == if start < end {
            ((end - start - 1) / step + 1) as nat
        } else {
            0nat
        },
{
    let n: nat = if start < end {
        ((end - start - 1) / step + 1) as nat
    } else {
        0nat
    };
    if start < end {
        let q = (end - start - 1) / step;
        assert(q >= 0 && q * step <= end - start - 1 && (q + 1) * step > end - start - 1)
            by (nonlinear_arith)
            requires
                q == (end - start - 1) / step,
                step > 0,
                end - start - 1 >= 0,
        ;
        assert forall|k: int| 0 <= k < n implies #[trigger] in_range(range_item(start, step, k), end, step) by {
            assert(k * step <= q * step) by (nonlinear_arith)
                requires
                    0 <= k <= q,
                    step > 0,
            ;
        }
        assert(!in_range(range_item(start, step, n as int), end, step));
    } else {
        assert(range_item(start, step, 0) == start) by (nonlinear_arith);
    }
    assert(counts_range(start, end, step, n));
    lemma_range_count_unique(start, end, step, n, range_count(start, end, step));
}

/// A downward range from `start` to `end` by a negative `step` has
/// `ceil((start - end) / -step)` elements, and none when `start <= end`.
pub proof fn law_range_count_downward(start: int, end: int, step: int)
    requires
        step < 0,
    ensures
        counts_range(start, end, step, range_count(start, end, step)),
        range_count(start, end, step) == if start > end {
            ((start - end - 1) / (-step) + 1) as nat
        } else {
            0nat
        },
{
    let t = -step;
    let n: nat = if start > end {
        ((start - end - 1) / t + 1) as nat
    } else {
        0nat
    };
    if start > end {
        let q = (start - end - 1) / t;
        assert(q >= 0 && q * t <= start - end - 1 && (q + 1) * t > start - end - 1)
            by (nonlinear_arith)
            requires
                q == (start - end - 1) / t,
                t > 0,
                start - end - 1 >= 0,
        ;
        assert forall|k: int| 0 <= k < n implies #[trigger] in_range(range_item(start, step, k), end, step) by {
            assert(k * step == -(k * t) && k * t <= q * t) by (nonlinear_arith)
                requires
                    0 <= k <= q,
                    t > 0,
                    step == -t,
            ;
        }
        assert((q + 1) * step == -((q + 1) * t)) by (nonlinear_arith)
            requires
                step == -t,
        ;
        assert(!in_range(range_item(start, step, n as int), end, step));
    } else {
        assert(range_item(start, step, 0) == start) by (nonlinear_arith);
    }
    assert(counts_range(start, end, step, n));
    lemma_range_count_unique(start, end, step, n, range_count(start, end, step));
}

/// Every range with a non-zero step has a length.
pub proof fn lemma_range_count_exists(start: int, end: int, step: int)
    requires
        step != 0,
    ensures
        counts_range(start, end, step, range_count(start, end, step)),
{
    if step > 0 {
        law_range_count_upward(start, end, step);
    } else {
        law_range_count_downward(start, end, step);
    }
}

/// Each element of a range lies before `end`, going in the direction of
/// `step`; the one after the last does not; consecutive elements differ by
/// `step`.
pub proof fn law_range_items(start: int, end: int, step: int)
    requires
        step != 0,
    ensures
        forall|k: int|
            0 <= k < range_count(start, end, step) ==> in_range(
                #[trigger] range_item(start, step, k),
                end,
                step,
            ),
        !in_range(range_item(start, step, range_count(start, end, step) as int), end, step),
        forall|k: int|
            0 <= k < range_count(start, end, step) ==> range_item(start, step, k + 1)
                == #[trigger] range_item(start, step, k) + step,
{
    lemma_range_count_exists(start, end, step);
    assert forall|k: int| 0 <= k < range_count(start, end, step) implies range_item(
        start,
        step,
        k + 1,
    ) == #[trigger] range_item(start, step, k) + step by {
        lemma_range_next(start, step, k);
    }
}

} // verus!
