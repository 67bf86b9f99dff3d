//! Dictionary built-ins of the standard library. A dictionary is modelled as
//! its entries in insertion order; a key is found at its first entry.
use vstd::prelude::*;
use crate::value::{
    Value, Val, Dict, LangError, view_seq, view_entries, lemma_view_seq, lemma_view_entries,
    copy_entries, reply_view, fail, give,
};
use crate::text::text;

verus! {

/// The first index at or after `i` whose entry has the key `k`.
pub open spec fn key_index_from(d: Seq<(Val, Val)>, k: Val, i: int) -> Option<int>
    decreases d.len() - i,
{
    if i < 0 || i >= d.len() {
        None
    } else if d[i].0 == k {
        Some(i)
    } else {
        key_index_from(d, k, i + 1)
    }
}

/// The index of the entry with the key `k`.
pub open spec fn key_index(d: Seq<(Val, Val)>, k: Val) -> Option<int> {
    key_index_from(d, k, 0)
}

/// The value stored under `k`.
pub open spec fn dict_lookup(d: Seq<(Val, Val)>, k: Val) -> Option<Val> {
    match key_index(d, k) {
        Some(i) => Some(d[i].1),
        None => None,
    }
}

/// The dictionary with `k` bound to `v`: the entry of `k` takes the new value
/// in place, or a new entry comes last.
pub open spec fn dict_insert(d: Seq<(Val, Val)>, k: Val, v: Val) -> Seq<(Val, Val)> {
    match key_index(d, k) {
        Some(i) => d.update(i, (k, v)),
        None => d.push((k, v)),
    }
}

/// The dictionary without the entry of `k`.
pub open spec fn dict_delete(d: Seq<(Val, Val)>, k: Val) -> Seq<(Val, Val)> {
    match key_index(d, k) {
        Some(i) => d.remove(i),
        None => d,
    }
}

/// `d1` with each entry of `d2` inserted, in order.
pub open spec fn dict_insert_all(d1: Seq<(Val, Val)>, d2: Seq<(Val, Val)>) -> Seq<(Val, Val)>
    decreases d2.len(),
{
    if d2.len() == 0 {
        d1
    } else {
        dict_insert(dict_insert_all(d1, d2.drop_last()), d2.last().0, d2.last().1)
    }
}

/// No key has two entries.
pub open spec fn keys_unique(d: Seq<(Val, Val)>) -> bool {
    forall|i: int, j: int| 0 <= i < j < d.len() ==> d[i].0 != d[j].0
}

pub proof fn lemma_key_index_from(d: Seq<(Val, Val)>, k: Val, i: int)
    requires
        0 <= i,
    ensures
        key_index_from(d, k, i) matches Some(j) ==> i <= j < d.len() && d[j].0 == k && forall|
            m: int,
        | i <= m < j ==> d[m].0 != k,
        key_index_from(d, k, i) is None ==> forall|m: int| i <= m < d.len() ==> d[m].0 != k,
    decreases d.len() - i,
{
    if i < d.len() && d[i].0 != k {
        lemma_key_index_from(d, k, i + 1);
        assert forall|m: int| i <= m < d.len() && key_index_from(d, k, i) is None implies d[m].0
            != k by {
            if m == i {
            }
        }
    }
}

/// `key_index` is the first index with the key.
pub proof fn lemma_key_index(d: Seq<(Val, Val)>, k: Val)
    ensures
        key_index(d, k) matches Some(j) ==> 0 <= j < d.len() && d[j].0 == k && forall|m: int|
            0 <= m < j ==> d[m].0 != k,
        key_index(d, k) is None ==> forall|m: int| 0 <= m < d.len() ==> d[m].0 != k,
{
    lemma_key_index_from(d, k, 0);
}

/// Any index with the key, before which no entry has the key, is `key_index`.
pub proof fn lemma_key_index_is(d: Seq<(Val, Val)>, k: Val, j: int)
    requires
        0 <= j < d.len(),
        d[j].0 == k,
        forall|m: int| 0 <= m < j ==> d[m].0 != k,
    ensures
        key_index(d, k) == Some(j),
{
    lemma_key_index(d, k);
    match key_index(d, k) {
        Some(x) => {
            if x < j {
            } else if x > j {
            }
        },
        None => {},
    }
}

/// `key_index` is `None` when no entry has the key.
pub proof fn lemma_key_index_none(d: Seq<(Val, Val)>, k: Val)
    requires
        forall|m: int| 0 <= m < d.len() ==> d[m].0 != k,
    ensures
        key_index(d, k) is None,
{
    lemma_key_index(d, k);
}

/// Where the entries of a dictionary hold the key `k`.
fn find_key(entries: &Vec<(Value, Value)>, key: &Value) -> (r: Option<usize>)
    ensures
        r matches Some(i) ==> key_index(view_entries(entries@), key@) == Some(i as int),
        r is None ==> key_index(view_entries(entries@), key@) is None,
        r matches Some(i) ==> i < entries.len(),
{
    proof {
        lemma_view_entries(entries@);
    }
    let ghost d = view_entries(entries@);
    let n = entries.len();
    let mut i: usize = 0;
    while i < n
        invariant
            n == entries.len(),
            i <= n,
            d == view_entries(entries@),
            d.len() == n,
            forall|k: int|
                0 <= k < entries@.len() ==> #[trigger] d[k] == (
                    entries@[k].0.model(),
                    entries@[k].1.model(),
                ),
            forall|m: int| 0 <= m < i ==> d[m].0 != key@,
        decreases n - i,
    {
        if entries[i].0.equals(key) {
            proof {
                lemma_key_index_is(d, key@, i as int);
            }
            return Some(i);
        }
        i = i + 1;
    }
    proof {
        lemma_key_index_none(d, key@);
    }
    None
}

/// The entries of `entries` with `key` bound to `value`.
fn insert_entry(entries: &Vec<(Value, Value)>, key: &Value, value: &Value) -> (r: Vec<
    (Value, Value),
>)
    ensures
        view_entries(r@) == dict_insert(view_entries(entries@), key@, value@),
{
    let found = find_key(entries, key);
    let mut result = copy_entries(entries);
    proof {
        lemma_view_entries(result@);
        lemma_view_entries(entries@);
    }
    let k = key.copy();
    let v = value.copy();
    match found {
        Some(i) => {
            result.set(i, (k, v));
            proof {
                lemma_view_entries(result@);
                assert(view_entries(result@) =~= view_entries(entries@).update(
                    i as int,
                    (key@, value@),
                ));
            }
        },
        None => {
            result.push((k, v));
            proof {
                lemma_view_entries(result@);
                assert(view_entries(result@) =~= view_entries(entries@).push((key@, value@)));
            }
        },
    }
    result
}

/// `dict_merge(d1, d2)`.
pub open spec fn dict_merge_reply(a: Seq<Val>) -> Result<Option<Val>, Seq<char>> {
    match (a[0], a[1]) {
        (Val::Dict(x), Val::Dict(y)) => Ok(Some(Val::Dict(dict_insert_all(x, y)))),
        _ => Err("Expected two dictionaries"@),
    }
}

/// `dict_merge(d1, d2)`: `d1` with every entry of `d2` set in it, so that the
/// second dictionary wins on a shared key.
pub fn dict_merge(args: &Vec<Value>) -> (r: Result<Option<Value>, LangError>)
    requires
        args.len() >= 2,
    ensures
        reply_view(r) == dict_merge_reply(view_seq(args@)),
{
    proof {
        lemma_view_seq(args@);
    }
    if let Value::Dictionary(d1) = &args[0] {
        if let Value::Dictionary(d2) = &args[1] {
            let mut result = copy_entries(&d1.entries);
            let n = d2.entries.len();
            let mut i: usize = 0;
            proof {
                lemma_view_entries(d2.entries@);
                assert(d2.entries@.take(0) =~= Seq::<(Value, Value)>::empty());
                assert(view_entries(d2.entries@).take(0) =~= Seq::<(Val, Val)>::empty());
            }
            while i < n
                invariant
                    n == d2.entries.len(),
                    i <= n,
                    view_entries(d2.entries@).len() == n,
                    forall|k: int|
                        0 <= k < d2.entries@.len() ==> #[trigger] view_entries(d2.entries@)[k] == (
                            d2.entries@[k].0.model(),
                            d2.entries@[k].1.model(),
                        ),
                    view_entries(result@) == dict_insert_all(
                        view_entries(d1.entries@),
                        view_entries(d2.entries@).take(i as int),
                    ),
                decreases n - i,
            {
                let next = insert_entry(&result, &d2.entries[i].0, &d2.entries[i].1);
                proof {
                    let y = view_entries(d2.entries@);
                    assert(y.take(i + 1).drop_last() =~= y.take(i as int));
                }
                result = next;
                i = i + 1;
            }
            proof {
                assert(view_entries(d2.entries@).take(n as int) =~= view_entries(d2.entries@));
                use_type_invariant(d1);
                law_merge_keeps_keys_unique(view_entries(d1.entries@), view_entries(d2.entries@));
            }
            return give(Value::Dictionary(Dict { entries: result }));
        }
    }
    fail(text("Expected two dictionaries"))
}

/// `dict_set(d, key, value)`.
pub open spec fn dict_set_reply(a: Seq<Val>) -> Result<Option<Val>, Seq<char>> {
    match a[0] {
        Val::Dict(x) => Ok(Some(Val::Dict(dict_insert(x, a[1], a[2])))),
        _ => Err("Expected (dict, key, value)"@),
    }
}

/// `dict_set(d, key, value)`: a new dictionary with the key bound to the value.
pub fn dict_set(args: &Vec<Value>) -> (r: Result<Option<Value>, LangError>)
    requires
        args.len() >= 3,
    ensures
        reply_view(r) == dict_set_reply(view_seq(args@)),
{
    proof {
        lemma_view_seq(args@);
    }
    if let Value::Dictionary(d) = &args[0] {
        let entries = insert_entry(&d.entries, &args[1], &args[2]);
        proof {
            use_type_invariant(d);
            law_set_keeps_keys_unique(view_entries(d.entries@), args@[1]@, args@[2]@);
        }
        return give(Value::Dictionary(Dict { entries }));
    }
    fail(text("Expected (dict, key, value)"))
}

/// `dict_get(d, key)`.
pub open spec fn dict_get_reply(a: Seq<Val>) -> Result<Option<Val>, Seq<char>> {
    match a[0] {
        Val::Dict(x) => Ok(dict_lookup(x, a[1])),
        _ => Err("Expected (dict, key)"@),
    }
}

/// `dict_get(d, key)`: the value under the key, or nothing.
pub fn dict_get(args: &Vec<Value>) -> (r: Result<Option<Value>, LangError>)
    requires
        args.len() >= 2,
    ensures
        reply_view(r) == dict_get_reply(view_seq(args@)),
{
    proof {
        lemma_view_seq(args@);
    }
    if let Value::Dictionary(d) = &args[0] {
        proof {
            lemma_view_entries(d.entries@);
        }
        match find_key(&d.entries, &args[1]) {
            Some(i) => {
                return give(d.entries[i].1.copy());
            },
            None => {
                return Ok(None);
            },
        }
    }
    fail(text("Expected (dict, key)"))
}

/// `dict_remove(d, key)`.
pub open spec fn dict_remove_reply(a: Seq<Val>) -> Result<Option<Val>, Seq<char>> {
    match a[0] {
        Val::Dict(x) => Ok(Some(Val::Dict(dict_delete(x, a[1])))),
        _ => Err("Expected (dict, key)"@),
    }
}

/// `dict_remove(d, key)`: a new dictionary without the key's entry.
pub fn dict_remove(args: &Vec<Value>) -> (r: Result<Option<Value>, LangError>)
    requires
        args.len() >= 2,
    ensures
        reply_view(r) == dict_remove_reply(view_seq(args@)),
{
    proof {
        lemma_view_seq(args@);
    }
    if let Value::Dictionary(d) = &args[0] {
        let found = find_key(&d.entries, &args[1]);
        let mut result = copy_entries(&d.entries);
        proof {
            lemma_view_entries(result@);
            lemma_view_entries(d.entries@);
        }
        if let Some(i) = found {
            result.remove(i);
            proof {
                lemma_view_entries(result@);
                assert(view_entries(result@) =~= view_entries(d.entries@).remove(i as int));
            }
        }
        proof {
            use_type_invariant(d);
            law_remove_keeps_keys_unique(view_entries(d.entries@), args@[1]@);
        }
        return give(Value::Dictionary(Dict { entries: result }));
    }
    fail(text("Expected (dict, key)"))
}

/// `dict_has(d, key)`.
pub open spec fn dict_has_reply(a: Seq<Val>) -> Result<Option<Val>, Seq<char>> {
    match a[0] {
        Val::Dict(x) => Ok(Some(Val::Bool(key_index(x, a[1]) is Some))),
        _ => Err("Expected (dict, key)"@),
    }
}

/// `dict_has(d, key)`: whether the key has an entry.
pub fn dict_has(args: &Vec<Value>) -> (r: Result<Option<Value>, LangError>)
    requires
        args.len() >= 2,
    ensures
        reply_view(r) == dict_has_reply(view_seq(args@)),
{
    proof {
        lemma_view_seq(args@);
    }
    if let Value::Dictionary(d) = &args[0] {
        let found = find_key(&d.entries, &args[1]);
        return give(Value::Boolean(found.is_some()));
    }
    fail(text("Expected (dict, key)"))
}

/// The keys of the entries, in order.
pub open spec fn entry_keys(d: Seq<(Val, Val)>) -> Seq<Val> {
    d.map_values(|e: (Val, Val)| e.0)
}

/// The values of the entries, in order.
pub open spec fn entry_values(d: Seq<(Val, Val)>) -> Seq<Val> {
    d.map_values(|e: (Val, Val)| e.1)
}

/// The entries as two-element arrays, in order.
pub open spec fn entry_pairs(d: Seq<(Val, Val)>) -> Seq<Val> {
    d.map_values(|e: (Val, Val)| Val::Arr(seq![e.0, e.1]))
}

/// `dict_keys(d)`, `dict_values(d)` and `dict_items(d)`: which part of each
/// entry they list.
pub enum EntryPart {
    Keys,
    Values,
    Items,
}

/// What `dict_keys`, `dict_values` or `dict_items` give.
pub open spec fn entries_reply(part: EntryPart, a: Seq<Val>) -> Result<Option<Val>, Seq<char>> {
    match a[0] {
        Val::Dict(x) => Ok(
            Some(
                Val::Arr(
                    match part {
                        EntryPart::Keys => entry_keys(x),
                        EntryPart::Values => entry_values(x),
                        EntryPart::Items => entry_pairs(x),
                    },
                ),
            ),
        ),
        _ => Err("Expected dictionary"@),
    }
}

/// `dict_keys(d)`, `dict_values(d)` or `dict_items(d)`: the keys, the values,
/// or the `[key, value]` pairs of the entries, in order.
pub fn dict_entries(part: EntryPart, args: &Vec<Value>) -> (r: Result<Option<Value>, LangError>)
    requires
        args.len() >= 1,
    ensures
        reply_view(r) == entries_reply(part, view_seq(args@)),
{
    proof {
        lemma_view_seq(args@);
    }
    if let Value::Dictionary(d) = &args[0] {
        proof {
            lemma_view_entries(d.entries@);
        }
        let ghost x = view_entries(d.entries@);
        let ghost want = match part {
            EntryPart::Keys => entry_keys(x),
            EntryPart::Values => entry_values(x),
            EntryPart::Items => entry_pairs(x),
        };
        let mut out: Vec<Value> = Vec::new();
        let n = d.entries.len();
        let mut i: usize = 0;
        while i < n
            invariant
                n == d.entries.len(),
                i <= n,
                out.len() == i,
                x == view_entries(d.entries@),
                x.len() == n,
                want.len() == n,
                want == match part {
                    EntryPart::Keys => entry_keys(x),
                    EntryPart::Values => entry_values(x),
                    EntryPart::Items => entry_pairs(x),
                },
                forall|k: int|
                    0 <= k < d.entries@.len() ==> #[trigger] x[k] == (
                        d.entries@[k].0.model(),
                        d.entries@[k].1.model(),
                    ),
                forall|k: int| 0 <= k < i ==> #[trigger] out@[k].model() == want[k],
            decreases n - i,
        {
            let item = match part {
                EntryPart::Keys => d.entries[i].0.copy(),
                EntryPart::Values => d.entries[i].1.copy(),
                EntryPart::Items => {
                    let mut pair: Vec<Value> = Vec::new();
                    pair.push(d.entries[i].0.copy());
                    pair.push(d.entries[i].1.copy());
                    proof {
                        lemma_view_seq(pair@);
                        assert(view_seq(pair@) =~= seq![x[i as int].0, x[i as int].1]);
                    }
                    Value::Array(pair)
                },
            };
            out.push(item);
            i = i + 1;
        }
        proof {
            lemma_view_seq(out@);
            assert(view_seq(out@) =~= want);
        }
        return give(Value::Array(out));
    }
    fail(text("Expected dictionary"))
}

/// Where a key is found after an entry is added at the end.
pub proof fn lemma_key_index_push(d: Seq<(Val, Val)>, e: (Val, Val), k: Val)
    ensures
        key_index(d.push(e), k) == match key_index(d, k) {
            Some(i) => Some(i),
            None => if e.0 == k {
                Some(d.len() as int)
            } else {
                None
            },
        },
{
    let d2 = d.push(e);
    lemma_key_index(d, k);
    lemma_key_index(d2, k);
    match key_index(d, k) {
        Some(i) => {
            lemma_key_index_is(d2, k, i);
        },
        None => {
            if e.0 == k {
                lemma_key_index_is(d2, k, d.len() as int);
            } else {
                lemma_key_index_none(d2, k);
            }
        },
    }
}

/// After `dict_set(d, k, v)`, `dict_get` of `k` gives `v`.
pub proof fn law_get_after_set(d: Seq<(Val, Val)>, k: Val, v: Val)
    ensures
        dict_lookup(dict_insert(d, k, v), k) == Some(v),
{
    lemma_key_index(d, k);
    match key_index(d, k) {
        Some(i) => {
            lemma_key_index_is(d.update(i, (k, v)), k, i);
        },
        None => {
            lemma_key_index_is(d.push((k, v)), k, d.len() as int);
        },
    }
}

/// `dict_set(d, k, v)` leaves what every other key gives unchanged.
pub proof fn law_set_keeps_other_keys(d: Seq<(Val, Val)>, k: Val, v: Val, other: Val)
    requires
        other != k,
    ensures
        dict_lookup(dict_insert(d, k, v), other) == dict_lookup(d, other),
{
    lemma_key_index(d, k);
    lemma_key_index(d, other);
    match key_index(d, k) {
        Some(i) => {
            let d2 = d.update(i, (k, v));
            match key_index(d, other) {
                Some(j) => {
                    lemma_key_index_is(d2, other, j);
                },
                None => {
                    lemma_key_index_none(d2, other);
                },
            }
        },
        None => {
            lemma_key_index_push(d, (k, v), other);
        },
    }
}

/// After `dict_remove(d, k)` on a dictionary with no key twice, `dict_has` of
/// `k` is false.
pub proof fn law_remove_then_absent(d: Seq<(Val, Val)>, k: Val)
    requires
        keys_unique(d),
    ensures
        key_index(dict_delete(d, k), k) is None,
{
    lemma_key_index(d, k);
    match key_index(d, k) {
        Some(i) => {
            let d2 = d.remove(i);
            assert forall|m: int| 0 <= m < d2.len() implies d2[m].0 != k by {
                if m < i {
                    assert(d2[m] == d[m]);
                } else {
                    assert(d2[m] == d[m + 1]);
                }
            }
            lemma_key_index_none(d2, k);
        },
        None => {},
    }
}

/// `dict_remove(d, k)` leaves what every other key gives unchanged.
pub proof fn law_remove_keeps_other_keys(d: Seq<(Val, Val)>, k: Val, other: Val)
    requires
        other != k,
    ensures
        dict_lookup(dict_delete(d, k), other) == dict_lookup(d, other),
{
    lemma_key_index(d, k);
    lemma_key_index(d, other);
    match key_index(d, k) {
        Some(i) => {
            let d2 = d.remove(i);
            match key_index(d, other) {
                Some(j) => {
                    if j < i {
                        assert forall|m: int| 0 <= m < j implies d2[m].0 != other by {
                            assert(d2[m] == d[m]);
                        }
                        lemma_key_index_is(d2, other, j);
                    } else {
                        assert(j != i);
                        assert forall|m: int| 0 <= m < j - 1 implies d2[m].0 != other by {
                            if m < i {
                                assert(d2[m] == d[m]);
                            } else {
                                assert(d2[m] == d[m + 1]);
                            }
                        }
                        assert(d2[j - 1] == d[j]);
                        lemma_key_index_is(d2, other, j - 1);
                    }
                },
                None => {
                    assert forall|m: int| 0 <= m < d2.len() implies d2[m].0 != other by {
                        if m < i {
                            assert(d2[m] == d[m]);
                        } else {
                            assert(d2[m] == d[m + 1]);
                        }
                    }
                    lemma_key_index_none(d2, other);
                },
            }
        },
        None => {},
    }
}

/// `dict_set` keeps every key to one entry.
pub proof fn law_set_keeps_keys_unique(d: Seq<(Val, Val)>, k: Val, v: Val)
    requires
        keys_unique(d),
    ensures
        keys_unique(dict_insert(d, k, v)),
{
    lemma_key_index(d, k);
    let d2 = dict_insert(d, k, v);
    match key_index(d, k) {
        Some(i) => {
            assert forall|a: int, b: int| 0 <= a < b < d2.len() implies d2[a].0 != d2[b].0 by {
                assert(d2[a].0 == d[a].0);
                assert(d2[b].0 == d[b].0);
            }
        },
        None => {
            assert forall|a: int, b: int| 0 <= a < b < d2.len() implies d2[a].0 != d2[b].0 by {
                if b < d.len() {
                    assert(d2[a] == d[a]);
                    assert(d2[b] == d[b]);
                } else {
                    assert(d2[a] == d[a]);
                }
            }
        },
    }
}

/// `dict_remove` keeps every key to one entry.
pub proof fn law_remove_keeps_keys_unique(d: Seq<(Val, Val)>, k: Val)
    requires
        keys_unique(d),
    ensures
        keys_unique(dict_delete(d, k)),
{
    lemma_key_index(d, k);
    match key_index(d, k) {
        Some(i) => {
            let d2 = d.remove(i);
            assert forall|a: int, b: int| 0 <= a < b < d2.len() implies d2[a].0 != d2[b].0 by {
                let a0 = if a < i {
                    a
                } else {
                    a + 1
                };
                let b0 = if b < i {
                    b
                } else {
                    b + 1
                };
                assert(d2[a] == d[a0]);
                assert(d2[b] == d[b0]);
            }
        },
        None => {},
    }
}

/// `dict_merge` keeps every key to one entry.
pub proof fn law_merge_keeps_keys_unique(d1: Seq<(Val, Val)>, d2: Seq<(Val, Val)>)
    requires
        keys_unique(d1),
    ensures
        keys_unique(dict_insert_all(d1, d2)),
    decreases d2.len(),
{
    if d2.len() > 0 {
        law_merge_keeps_keys_unique(d1, d2.drop_last());
        law_set_keeps_keys_unique(dict_insert_all(d1, d2.drop_last()), d2.last().0, d2.last().1);
    }
}

/// In `dict_merge(d1, d2)` a key gives its value in `d2` where it has one, and
/// its value in `d1` otherwise (for a `d2` with no key twice).
pub proof fn law_merge_lookup(d1: Seq<(Val, Val)>, d2: Seq<(Val, Val)>, k: Val)
    requires
        keys_unique(d2),
    ensures
        dict_lookup(dict_insert_all(d1, d2), k) == if dict_lookup(d2, k) is Some {
            dict_lookup(d2, k)
        } else {
            dict_lookup(d1, k)
        },
    decreases d2.len(),
{
    if d2.len() > 0 {
        let prefix = d2.drop_last();
        let last = d2.last();
        assert(keys_unique(prefix));
        law_merge_lookup(d1, prefix, k);
        let m = dict_insert_all(d1, prefix);
        assert(d2 == prefix.push(last));
        lemma_key_index_push(prefix, last, k);
        if k == last.0 {
            law_get_after_set(m, last.0, last.1);
            lemma_key_index(prefix, k);
            if key_index(prefix, k) is Some {
                let j = key_index(prefix, k)->0;
                assert(d2[j].0 == d2[d2.len() - 1].0);
            }
            assert(key_index(d2, k) == Some(prefix.len() as int));
            assert(dict_lookup(d2, k) == Some(last.1));
        } else {
            law_set_keeps_other_keys(m, last.0, last.1, k);
            assert(key_index(d2, k) == key_index(prefix, k));
            if key_index(prefix, k) is Some {
                let j = key_index(prefix, k)->0;
                lemma_key_index(prefix, k);
                assert(d2[j] == prefix[j]);
            }
            assert(dict_lookup(d2, k) == dict_lookup(prefix, k));
        }
    }
}

impl Dict {
    /// A dictionary with no entries.
    pub fn new() -> (r: Dict)
        ensures
            r@ == Seq::<(Val, Val)>::empty(),
    {
        Dict { entries: Vec::new() }
    }

    /// Binds a key to a value: the entry of an equal key takes the value in
    /// place, else a new entry comes last.
    pub fn set(&mut self, key: Value, value: Value)
        ensures
            final(self)@ == dict_insert(old(self)@, key@, value@),
    {
        proof {
            use_type_invariant(&*self);
            law_set_keeps_keys_unique(self@, key@, value@);
        }
        let entries = insert_entry(&self.entries, &key, &value);
        self.entries = entries;
    }

    /// The entries, in insertion order.
    pub fn entries(&self) -> (r: &Vec<(Value, Value)>)
        ensures
            view_entries(r@) == self@,
    {
        &self.entries
    }
}

} // verus!
