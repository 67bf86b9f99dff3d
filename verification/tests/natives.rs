use xmlangee::display::Piece;
use xmlangee::natives::{after_flush, after_read_line, arity_of, call_native, Effect};
use xmlangee::value::{Builtin, Dict, LangError, Value};

fn s(x: &str) -> Value {
    Value::String(x.to_string())
}

fn num(i: i64) -> Value {
    Value::Integer(i)
}

fn texts(pieces: &[Piece]) -> String {
    pieces
        .iter()
        .map(|p| match p {
            Piece::Text(t) => t.clone(),
            Piece::Float(b) => format!("<float {}>", b),
        })
        .collect()
}

#[test]
fn print_shows_a_value() {
    let v = Value::Array(vec![num(1), s("two"), Value::Boolean(true), Value::Null]);
    match call_native(Builtin::Print, &vec![v]) {
        Ok(Effect::Print(p)) => assert_eq!(texts(&p), "[1, two, true, null]"),
        _ => panic!("expected a print"),
    }
}

#[test]
fn println_shows_a_dictionary() {
    let mut dict = Dict::new();
    dict.set(s("k"), num(-3));
    let d = Value::Dictionary(dict);
    match call_native(Builtin::Println, &vec![d]) {
        Ok(Effect::PrintLine(p)) => assert_eq!(texts(&p), "{k: -3}"),
        _ => panic!("expected a print"),
    }
}

#[test]
fn floats_are_left_for_the_caller() {
    match call_native(Builtin::Print, &vec![Value::Float(1.5f64.to_bits())]) {
        Ok(Effect::Print(p)) => {
            assert_eq!(p.len(), 1);
            assert!(matches!(p[0], Piece::Float(b) if b == 1.5f64.to_bits()));
        }
        _ => panic!("expected a print"),
    }
}

#[test]
fn join_concatenates_shown_elements() {
    let v = Value::Array(vec![s("a"), num(1), s("b")]);
    match call_native(Builtin::Join, &vec![v]) {
        Ok(Effect::Joined(p)) => assert_eq!(texts(&p), "a1b"),
        _ => panic!("expected a join"),
    }
    match call_native(Builtin::Join, &vec![num(1)]) {
        Err(LangError::RuntimeError(m)) => assert_eq!(m, "Expected array to join"),
        _ => panic!("expected an error"),
    }
}

#[test]
fn sleep_clamps_negative_seconds() {
    assert!(matches!(call_native(Builtin::Sleep, &vec![num(-4)]), Ok(Effect::Sleep(0))));
    assert!(matches!(call_native(Builtin::Sleep, &vec![num(2)]), Ok(Effect::Sleep(2))));
    assert!(matches!(call_native(Builtin::Sleep, &vec![Value::Float(7)]), Ok(Effect::SleepFloat(7))));
    match call_native(Builtin::Sleep, &vec![s("x")]) {
        Err(LangError::RuntimeError(m)) => assert_eq!(m, "Expected numeric value for sleep duration"),
        _ => panic!("expected an error"),
    }
}

#[test]
fn sample_asks_for_floats() {
    assert!(matches!(call_native(Builtin::Sample, &vec![num(3)]), Ok(Effect::RandomFloats(3))));
    assert!(matches!(call_native(Builtin::Sample, &vec![num(-3)]), Ok(Effect::RandomFloats(0))));
    match call_native(Builtin::Sample, &vec![s("3")]) {
        Err(LangError::RuntimeError(m)) => assert_eq!(m, "Expected integer dimension of sample"),
        _ => panic!("expected an error"),
    }
}

#[test]
fn outside_work_is_asked_for() {
    assert!(matches!(call_native(Builtin::Flush, &vec![]), Ok(Effect::Flush)));
    assert!(matches!(call_native(Builtin::Input, &vec![]), Ok(Effect::ReadLine)));
    assert!(matches!(call_native(Builtin::Time, &vec![]), Ok(Effect::Time)));
    assert!(matches!(call_native(Builtin::Rand, &vec![]), Ok(Effect::RandomFloat)));
}

#[test]
fn finished_calls_carry_their_result() {
    match call_native(Builtin::Len, &vec![s("abc")]) {
        Ok(Effect::Done(Some(Value::Integer(3)))) => {}
        _ => panic!("expected a length"),
    }
}

#[test]
fn arities() {
    assert_eq!(arity_of(Builtin::Range), 3);
    assert_eq!(arity_of(Builtin::Flush), 0);
    assert_eq!(arity_of(Builtin::CryptoHmac), 3);
    assert_eq!(arity_of(Builtin::Shuffle), 1);
}

#[test]
fn flush_outcome() {
    assert!(matches!(after_flush(true), Ok(None)));
    match after_flush(false) {
        Err(LangError::RuntimeError(m)) => assert_eq!(m, "Failed to flush stdout"),
        _ => panic!("expected an error"),
    }
}

#[test]
fn read_line_is_trimmed() {
    match after_read_line(Ok("  hello world \r\n".to_string())) {
        Ok(Some(Value::String(t))) => assert_eq!(t, "hello world"),
        _ => panic!("expected a string"),
    }
    match after_read_line(Ok("\u{3000}x\u{a0}".to_string())) {
        Ok(Some(Value::String(t))) => assert_eq!(t, "\u{3000}x\u{a0}".trim()),
        _ => panic!("expected a string"),
    }
    match after_read_line(Err("broken pipe".to_string())) {
        Err(LangError::RuntimeError(m)) => assert_eq!(m, "Error reading input: broken pipe"),
        _ => panic!("expected an error"),
    }
}

#[test]
fn a_native_ignores_arguments_past_its_arity() {
    match call_native(Builtin::Len, &vec![s("abcd"), num(1), s("x")]) {
        Ok(Effect::Done(Some(Value::Integer(4)))) => {}
        other => panic!("unexpected {:?}", other.is_ok()),
    }
    assert!(matches!(call_native(Builtin::Flush, &vec![num(1)]), Ok(Effect::Flush)));
}
