use xmlangee::dicts::{dict_entries, dict_get, dict_has, dict_merge, dict_remove, dict_set, EntryPart};
use xmlangee::value::{Dict, LangError, Value, ValueSet};

fn s(x: &str) -> Value {
    Value::String(x.to_string())
}

fn num(i: i64) -> Value {
    Value::Integer(i)
}

fn dict(pairs: Vec<(Value, Value)>) -> Value {
    let mut d = Dict::new();
    for (k, v) in pairs {
        d.set(k, v);
    }
    Value::Dictionary(d)
}

fn as_dict(r: Result<Option<Value>, LangError>) -> Dict {
    match r {
        Ok(Some(Value::Dictionary(d))) => d,
        other => panic!("not a dictionary: {:?}", other),
    }
}

fn message(r: Result<Option<Value>, LangError>) -> String {
    match r {
        Err(LangError::RuntimeError(m)) => m,
        other => panic!("not an error: {:?}", other),
    }
}

fn same(a: &Value, b: &Value) -> bool {
    a.equals(b)
}

fn sample() -> Value {
    dict(vec![(s("a"), num(1)), (s("b"), num(2))])
}

#[test]
fn get_after_set_gives_the_value() {
    let d = as_dict(dict_set(&vec![sample(), s("c"), num(3)]));
    let got = dict_get(&vec![Value::Dictionary(d), s("c")]);
    match got {
        Ok(Some(v)) => assert!(same(&v, &num(3))),
        other => panic!("unexpected {:?}", other),
    }
}

#[test]
fn set_of_a_present_key_replaces_in_place() {
    let d = as_dict(dict_set(&vec![sample(), s("a"), num(10)]));
    let d = d.entries();
    assert_eq!(d.len(), 2);
    assert!(same(&d[0].0, &s("a")) && same(&d[0].1, &num(10)));
    assert!(same(&d[1].0, &s("b")) && same(&d[1].1, &num(2)));
}

#[test]
fn get_of_a_missing_key_is_nothing() {
    assert!(matches!(dict_get(&vec![sample(), s("zz")]), Ok(None)));
}

#[test]
fn keys_compare_by_value() {
    let d = dict(vec![(Value::Array(vec![num(1)]), s("one"))]);
    match dict_get(&vec![d, Value::Array(vec![num(1)])]) {
        Ok(Some(v)) => assert!(same(&v, &s("one"))),
        other => panic!("unexpected {:?}", other),
    }
}

#[test]
fn remove_then_has_is_false() {
    let d = as_dict(dict_remove(&vec![sample(), s("a")]));
    assert_eq!(d.entries().len(), 1);
    let has = dict_has(&vec![Value::Dictionary(d), s("a")]);
    assert!(matches!(has, Ok(Some(Value::Boolean(false)))));
    assert!(matches!(dict_has(&vec![sample(), s("b")]), Ok(Some(Value::Boolean(true)))));
}

#[test]
fn merge_prefers_the_second_dictionary() {
    let second = dict(vec![(s("b"), num(20)), (s("c"), num(30))]);
    let d = as_dict(dict_merge(&vec![sample(), second]));
    let d = d.entries();
    assert_eq!(d.len(), 3);
    assert!(same(&d[0].1, &num(1)));
    assert!(same(&d[1].1, &num(20)));
    assert!(same(&d[2].0, &s("c")) && same(&d[2].1, &num(30)));
}

#[test]
fn keys_values_items_in_order() {
    match dict_entries(EntryPart::Keys, &vec![sample()]) {
        Ok(Some(Value::Array(ks))) => {
            assert!(same(&ks[0], &s("a")) && same(&ks[1], &s("b")));
        }
        other => panic!("unexpected {:?}", other),
    }
    match dict_entries(EntryPart::Values, &vec![sample()]) {
        Ok(Some(Value::Array(vs))) => {
            assert!(same(&vs[0], &num(1)) && same(&vs[1], &num(2)));
        }
        other => panic!("unexpected {:?}", other),
    }
    match dict_entries(EntryPart::Items, &vec![sample()]) {
        Ok(Some(Value::Array(items))) => {
            assert!(same(&items[1], &Value::Array(vec![s("b"), num(2)])));
        }
        other => panic!("unexpected {:?}", other),
    }
}

#[test]
fn dictionary_errors() {
    assert_eq!(message(dict_merge(&vec![sample(), num(1)])), "Expected two dictionaries");
    assert_eq!(message(dict_set(&vec![num(1), num(1), num(1)])), "Expected (dict, key, value)");
    assert_eq!(message(dict_get(&vec![num(1), num(1)])), "Expected (dict, key)");
    assert_eq!(message(dict_remove(&vec![num(1), num(1)])), "Expected (dict, key)");
    assert_eq!(message(dict_has(&vec![num(1), num(1)])), "Expected (dict, key)");
    assert_eq!(message(dict_entries(EntryPart::Keys, &vec![num(1)])), "Expected dictionary");
}

#[test]
fn a_dictionary_never_holds_a_key_twice() {
    let mut d = Dict::new();
    d.set(s("a"), num(1));
    d.set(s("b"), num(2));
    d.set(s("a"), num(3));
    let e = d.entries();
    assert_eq!(e.len(), 2);
    assert!(same(&e[0].0, &s("a")) && same(&e[0].1, &num(3)));
    assert!(same(&e[1].0, &s("b")) && same(&e[1].1, &num(2)));
}

#[test]
fn a_set_never_holds_an_element_twice() {
    let mut set = ValueSet::new();
    set.insert(num(1));
    set.insert(s("x"));
    set.insert(num(1));
    set.insert(Value::Array(vec![num(2)]));
    set.insert(Value::Array(vec![num(2)]));
    let items = set.items();
    assert_eq!(items.len(), 3);
    assert!(same(&items[0], &num(1)));
    assert!(same(&items[1], &s("x")));
    assert!(same(&items[2], &Value::Array(vec![num(2)])));
}

#[test]
fn extra_arguments_are_not_looked_at() {
    let got = dict_get(&vec![sample(), s("b"), num(99)]);
    match got {
        Ok(Some(v)) => assert!(same(&v, &num(2))),
        other => panic!("unexpected {:?}", other),
    }
}
