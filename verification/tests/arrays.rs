use xmlangee::arrays::{array_modify, array_remove, concat_arrays, range, split_at};
use xmlangee::value::{LangError, Value};

fn num(i: i64) -> Value {
    Value::Integer(i)
}

fn ints(r: Result<Option<Value>, LangError>) -> Vec<i64> {
    match r {
        Ok(Some(Value::Array(items))) => items
            .iter()
            .map(|v| match v {
                Value::Integer(i) => *i,
                other => panic!("not an integer: {:?}", other),
            })
            .collect(),
        other => panic!("not an array: {:?}", other),
    }
}

fn message(r: Result<Option<Value>, LangError>) -> String {
    match r {
        Err(LangError::RuntimeError(m)) => m,
        other => panic!("not an error: {:?}", other),
    }
}

#[test]
fn range_counts_up_by_step() {
    assert_eq!(ints(range(&vec![num(0), num(10), num(3)])), vec![0, 3, 6, 9]);
    assert_eq!(ints(range(&vec![num(1), num(4), num(1)])), vec![1, 2, 3]);
}

#[test]
fn range_counts_down_with_negative_step() {
    assert_eq!(ints(range(&vec![num(10), num(0), num(-3)])), vec![10, 7, 4, 1]);
    assert_eq!(ints(range(&vec![num(3), num(0), num(-1)])), vec![3, 2, 1]);
}

#[test]
fn range_is_empty_when_start_is_past_end() {
    assert_eq!(ints(range(&vec![num(5), num(5), num(1)])), Vec::<i64>::new());
    assert_eq!(ints(range(&vec![num(5), num(2), num(1)])), Vec::<i64>::new());
    assert_eq!(ints(range(&vec![num(2), num(5), num(-1)])), Vec::<i64>::new());
}

#[test]
fn range_upward_count_matches_ceiling() {
    // ceil((end - start) / step) elements
    assert_eq!(ints(range(&vec![num(-7), num(8), num(4)])).len(), 4);
    assert_eq!(ints(range(&vec![num(i64::MAX - 2), num(i64::MAX), num(5)])), vec![i64::MAX - 2]);
}

#[test]
fn range_refuses_zero_step_and_non_integers() {
    assert_eq!(message(range(&vec![num(0), num(3), num(0)])), "Can't make a range with 0 step");
    assert_eq!(
        message(range(&vec![num(0), Value::Null, num(1)])),
        "Can't create a non-integer range"
    );
}

#[test]
fn concat_joins_two_arrays() {
    let r = concat_arrays(&vec![Value::Array(vec![num(1), num(2)]), Value::Array(vec![num(3)])]);
    assert_eq!(ints(r), vec![1, 2, 3]);
    assert_eq!(message(concat_arrays(&vec![Value::Array(vec![]), num(3)])), "Expected two arrays");
}

#[test]
fn split_at_halves_rejoin() {
    let arr = Value::Array(vec![num(1), num(2), num(3), num(4)]);
    match split_at(&vec![arr, num(1)]) {
        Ok(Some(Value::Array(parts))) => {
            assert_eq!(parts.len(), 2);
            let left = ints(Ok(Some(parts[0].copy())));
            let right = ints(Ok(Some(parts[1].copy())));
            assert_eq!(left, vec![1]);
            assert_eq!(right, vec![2, 3, 4]);
            let back = concat_arrays(&vec![parts[0].copy(), parts[1].copy()]);
            assert_eq!(ints(back), vec![1, 2, 3, 4]);
        }
        other => panic!("unexpected {:?}", other),
    }
}

#[test]
fn split_at_end_and_past_end() {
    let arr = || Value::Array(vec![num(1), num(2)]);
    match split_at(&vec![arr(), num(2)]) {
        Ok(Some(Value::Array(parts))) => {
            assert_eq!(ints(Ok(Some(parts[1].copy()))), Vec::<i64>::new());
        }
        other => panic!("unexpected {:?}", other),
    }
    assert_eq!(message(split_at(&vec![arr(), num(3)])), "Split index 3 out of bounds (len 2)");
    assert_eq!(
        message(split_at(&vec![arr(), num(-1)])),
        "Split index 18446744073709551615 out of bounds (len 2)"
    );
    assert_eq!(message(split_at(&vec![num(1), num(1)])), "Expected array and integer index");
}

#[test]
fn array_modify_replaces_one_element() {
    let arr = Value::Array(vec![num(1), num(2), num(3)]);
    assert_eq!(ints(array_modify(&vec![arr, num(1), num(20)])), vec![1, 20, 3]);
    let arr = Value::Array(vec![num(1)]);
    assert_eq!(
        message(array_modify(&vec![arr, num(1), num(5)])),
        "Index 1 out of bounds for array of length 1"
    );
    assert_eq!(
        message(array_modify(&vec![num(0), num(1), num(5)])),
        "Expected (array, integer index, new value)"
    );
}

#[test]
fn array_remove_drops_one_element() {
    let arr = Value::Array(vec![num(1), num(2), num(3)]);
    assert_eq!(ints(array_remove(&vec![arr, num(0)])), vec![2, 3]);
    let arr = Value::Array(vec![]);
    assert_eq!(
        message(array_remove(&vec![arr, num(0)])),
        "Index 0 out of bounds for array of length 0"
    );
    assert_eq!(message(array_remove(&vec![Value::Null, num(0)])), "Expected (array, integer index)");
}
