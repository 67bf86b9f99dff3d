use xmlangee::randlib::{choice, guid, rand_str, shuffle};
use xmlangee::value::{LangError, Value};

fn num(i: i64) -> Value {
    Value::Integer(i)
}

#[test]
fn guid_is_a_version_4_uuid() {
    match guid() {
        Ok(Some(Value::String(t))) => {
            assert_eq!(t.len(), 36);
            let cs: Vec<char> = t.chars().collect();
            for i in [8, 13, 18, 23] {
                assert_eq!(cs[i], '-');
            }
            assert_eq!(cs[14], '4');
            assert!("89ab".contains(cs[19]));
        }
        other => panic!("unexpected {:?}", other),
    }
}

#[test]
fn rand_str_uses_digits_of_the_base() {
    match rand_str(&vec![num(50), num(2)]) {
        Ok(Some(Value::String(t))) => {
            assert_eq!(t.chars().count(), 50);
            assert!(t.chars().all(|c| c == '0' || c == '1'));
        }
        other => panic!("unexpected {:?}", other),
    }
    match rand_str(&vec![num(0), num(36)]) {
        Ok(Some(Value::String(t))) => assert_eq!(t, ""),
        other => panic!("unexpected {:?}", other),
    }
}

#[test]
fn rand_str_errors() {
    match rand_str(&vec![num(3), num(37)]) {
        Err(LangError::RuntimeError(m)) => assert_eq!(m, "Base must be between 2 and 36, got 37"),
        other => panic!("unexpected {:?}", other),
    }
    match rand_str(&vec![num(3), Value::Null]) {
        Err(LangError::RuntimeError(m)) => {
            assert_eq!(m, "Expected two integers: length and base (2-36)")
        }
        other => panic!("unexpected {:?}", other),
    }
}

#[test]
fn shuffle_keeps_the_elements() {
    let items: Vec<Value> = (0..20).map(num).collect();
    match shuffle(&vec![Value::Array(items)]) {
        Ok(Some(Value::Array(out))) => {
            let mut ns: Vec<i64> = out
                .iter()
                .map(|v| match v {
                    Value::Integer(i) => *i,
                    _ => panic!(),
                })
                .collect();
            ns.sort();
            assert_eq!(ns, (0..20).collect::<Vec<i64>>());
        }
        other => panic!("unexpected {:?}", other),
    }
    match shuffle(&vec![num(1)]) {
        Err(LangError::RuntimeError(m)) => assert_eq!(m, "Expected array to shuffle"),
        other => panic!("unexpected {:?}", other),
    }
}

#[test]
fn choice_picks_an_element() {
    match choice(&vec![Value::Array(vec![num(7), num(8)])]) {
        Ok(Some(Value::Integer(i))) => assert!(i == 7 || i == 8),
        other => panic!("unexpected {:?}", other),
    }
    assert!(matches!(choice(&vec![Value::Array(vec![])]), Ok(None)));
    match choice(&vec![num(1)]) {
        Err(LangError::RuntimeError(m)) => assert_eq!(m, "Expected array to get choice from"),
        other => panic!("unexpected {:?}", other),
    }
}
