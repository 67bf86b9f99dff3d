use xmlangee::numbers::{chr, hash, len, ord, radix, type_of, value_words};
use xmlangee::strings::{split, substr};
use xmlangee::value::{LangError, Value};

fn s(x: &str) -> Value {
    Value::String(x.to_string())
}

fn num(i: i64) -> Value {
    Value::Integer(i)
}

fn text(r: Result<Option<Value>, LangError>) -> String {
    match r {
        Ok(Some(Value::String(t))) => t,
        other => panic!("not a string: {:?}", other),
    }
}

fn number(r: Result<Option<Value>, LangError>) -> i64 {
    match r {
        Ok(Some(Value::Integer(i))) => i,
        other => panic!("not an integer: {:?}", other),
    }
}

fn texts(r: Result<Option<Value>, LangError>) -> Vec<String> {
    match r {
        Ok(Some(Value::Array(items))) => items
            .into_iter()
            .map(|v| match v {
                Value::String(t) => t,
                other => panic!("not a string: {:?}", other),
            })
            .collect(),
        other => panic!("not an array: {:?}", other),
    }
}

fn message(r: Result<Option<Value>, LangError>) -> String {
    match r {
        Err(LangError::RuntimeError(m)) => m,
        other => panic!("not an error: {:?}", other),
    }
}

#[test]
fn split_on_a_delimiter() {
    assert_eq!(texts(split(&vec![s("a,b,,c"), s(",")])), vec!["a", "b", "", "c"]);
    assert_eq!(texts(split(&vec![s("abc"), s("x")])), vec!["abc"]);
    assert_eq!(texts(split(&vec![s("aaa"), s("aa")])), vec!["", "a"]);
    assert_eq!(texts(split(&vec![s(""), s(",")])), vec![""]);
}

#[test]
fn split_agrees_with_str_split() {
    for (x, d) in [("one--two--", "--"), ("héllo wörld", "ö"), ("x", "x"), ("abc", ""), ("", "")] {
        let expected: Vec<String> = x.split(d).map(|p| p.to_string()).collect();
        assert_eq!(texts(split(&vec![s(x), s(d)])), expected);
    }
}

#[test]
fn split_on_empty_delimiter_gives_characters() {
    assert_eq!(texts(split(&vec![s("ab"), s("")])), vec!["", "a", "b", ""]);
}

#[test]
fn split_then_join_with_delimiter_gives_back_the_string() {
    for (x, d) in [("a;b;c", ";"), ("no delimiter", "#"), (";;", ";"), ("xyz", "")] {
        assert_eq!(texts(split(&vec![s(x), s(d)])).join(d), x);
    }
}

#[test]
fn split_refuses_non_strings() {
    assert_eq!(
        message(split(&vec![s("a"), num(1)])),
        "Expected two strings: string to split and delimiter"
    );
}

#[test]
fn substr_takes_characters() {
    assert_eq!(text(substr(&vec![s("héllo"), num(1), num(4)])), "éll");
    assert_eq!(text(substr(&vec![s("abc"), num(3), num(3)])), "");
    assert_eq!(
        message(substr(&vec![s("abc"), num(2), num(1)])),
        "Invalid substring bounds: start=2, end=1, len=3"
    );
    assert_eq!(
        message(substr(&vec![s("abc"), num(0), num(4)])),
        "Invalid substring bounds: start=0, end=4, len=3"
    );
    assert_eq!(
        message(substr(&vec![s("abc"), num(0), Value::Null])),
        "Expected string and two integers (start, end)"
    );
}

#[test]
fn len_counts_elements_and_characters() {
    assert_eq!(number(len(&vec![s("héllo")])), 5);
    assert_eq!(number(len(&vec![Value::Array(vec![num(1), num(2)])])), 2);
    assert_eq!(message(len(&vec![num(3)])), "Tried to get the length of an unsized value");
}

#[test]
fn chr_and_ord_convert_code_points() {
    assert_eq!(text(chr(&vec![num(65)])), "A");
    assert_eq!(text(chr(&vec![num(0x1F600)])), "\u{1F600}");
    assert_eq!(number(ord(&vec![s("A")])), 65);
    assert_eq!(number(ord(&vec![s("é")])), 233);
    assert_eq!(number(ord(&vec![Value::String(text(chr(&vec![num(955)])))])), 955);
}

#[test]
fn chr_takes_the_code_modulo_two_to_the_32() {
    assert_eq!(text(chr(&vec![num((1 << 32) + 66)])), "B");
}

#[test]
fn chr_and_ord_errors() {
    assert_eq!(message(chr(&vec![num(-1)])), "Can't get a negative character");
    assert_eq!(message(chr(&vec![num(0xD800)])), "Invalid character: 55296");
    assert_eq!(message(chr(&vec![s("a")])), "Expected integer for call to chr");
    assert_eq!(
        message(ord(&vec![s("ab")])),
        "Expected string of length 1 for call to ord, got length 2"
    );
    assert_eq!(message(ord(&vec![num(1)])), "Expected string for call to ord");
}

#[test]
fn radix_writes_integers() {
    assert_eq!(text(radix(&vec![num(255), num(16)])), "ff");
    assert_eq!(text(radix(&vec![num(35), num(36)])), "z");
    assert_eq!(text(radix(&vec![num(15), num(3)])), "120");
    assert_eq!(text(radix(&vec![num(-5), num(10)])), "-5");
    assert_eq!(text(radix(&vec![num(-1), num(16)])), "ffffffffffffffff");
    assert_eq!(text(radix(&vec![num(0), num(7)])), "0");
}

#[test]
fn radix_reads_strings() {
    assert_eq!(number(radix(&vec![s("ff"), num(16)])), 255);
    assert_eq!(number(radix(&vec![s("+FF"), num(16)])), 255);
    assert_eq!(number(radix(&vec![s("4294967295"), num(10)])), 4294967295);
    assert_eq!(number(radix(&vec![s("0011"), num(2)])), 3);
}

#[test]
fn radix_round_trip() {
    for (n, b) in [(0, 2), (12345, 7), (4294967295, 36), (99, 10)] {
        let t = text(radix(&vec![num(n), num(b)]));
        assert_eq!(number(radix(&vec![Value::String(t), num(b)])), n);
    }
}

#[test]
fn radix_errors() {
    assert_eq!(
        message(radix(&vec![num(1), num(1)])),
        "Base for radix should be in range [2, 36], got 1"
    );
    assert_eq!(
        message(radix(&vec![num(1), num(37)])),
        "Base for radix should be in range [2, 36], got 37"
    );
    assert_eq!(message(radix(&vec![s("12"), num(2)])), "Failed to convert 12 to int of base 2");
    assert_eq!(
        message(radix(&vec![s("4294967296"), num(10)])),
        "Failed to convert 4294967296 to int of base 10"
    );
    assert_eq!(message(radix(&vec![s("-1"), num(10)])), "Failed to convert -1 to int of base 10");
    assert_eq!(message(radix(&vec![s("+"), num(10)])), "Failed to convert + to int of base 10");
    assert_eq!(message(radix(&vec![s(""), num(10)])), "Failed to convert  to int of base 10");
    assert_eq!(
        message(radix(&vec![Value::Null, num(10)])),
        "Expected string or integer for first value of radix"
    );
    assert_eq!(message(radix(&vec![num(1), s("2")])), "Expected an integer for base of radix");
}

#[test]
fn radix_parse_agrees_with_from_str_radix() {
    for (x, b) in [("zz", 36), ("+7", 8), ("8", 8), ("ffffffff", 16), ("100000000", 16), ("1_0", 10)] {
        let got = radix(&vec![s(x), num(b)]);
        match u32::from_str_radix(x, b as u32) {
            Ok(v) => assert_eq!(number(got), v as i64),
            Err(_) => assert!(got.is_err()),
        }
    }
}

#[test]
fn type_names_each_kind() {
    assert_eq!(text(type_of(&vec![num(1)])), "int");
    assert_eq!(text(type_of(&vec![Value::Float(0)])), "float");
    assert_eq!(text(type_of(&vec![Value::Boolean(true)])), "bool");
    assert_eq!(text(type_of(&vec![s("")])), "str");
    assert_eq!(text(type_of(&vec![Value::Array(vec![])])), "arr");
    assert_eq!(text(type_of(&vec![Value::Null])), "null");
    assert_eq!(text(type_of(&vec![Value::Break])), "break");
    assert_eq!(text(type_of(&vec![Value::Continue])), "continue");
}

#[test]
fn hash_is_an_integer_and_deterministic() {
    let a = number(hash(&vec![s("abc")]));
    let b = number(hash(&vec![s("abc")]));
    assert_eq!(a, b);
}

#[test]
fn hash_of_equal_arrays_built_apart() {
    let first = Value::Array(vec![num(1), s("a")]);
    let second = Value::Array(vec![num(1), s("a")]);
    let third = Value::Array(vec![num(1), s("a")]);
    assert_eq!(number(hash(&vec![first])), number(hash(&vec![second])));
    assert_eq!(value_words(&third), value_words(&Value::Array(vec![num(1), s("a")])));
}

#[test]
fn value_words_tell_values_apart() {
    assert_eq!(value_words(&num(7)), value_words(&num(7)));
    assert_ne!(value_words(&num(7)), value_words(&num(8)));
    assert_ne!(value_words(&s("ab")), value_words(&s("ba")));
    assert_ne!(value_words(&num(1)), value_words(&Value::Boolean(true)));
    assert_ne!(
        value_words(&Value::Array(vec![s("a"), s("b")])),
        value_words(&Value::Array(vec![s("ab")]))
    );
}
