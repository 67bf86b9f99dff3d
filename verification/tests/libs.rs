use xmlangee::interp::{Interpreter, Scope};
use xmlangee::libs::import;
use xmlangee::value::{Builtin, FunctionBody, LangError, Value};
use xmlangee::{cryptolib, randlib, stdlib};

fn native(state: &Interpreter, name: &str) -> (usize, Builtin) {
    match state.variables.get(name) {
        Some(Value::Function(params, FunctionBody::Native(b))) => {
            assert!(params.iter().all(|p| p.is_empty()));
            (params.len(), *b)
        }
        other => panic!("{} is not a native function: {:?}", name, other),
    }
}

#[test]
fn import_std_binds_its_functions() {
    let mut state = Interpreter::new();
    assert!(import("std", &mut state).is_ok());
    assert_eq!(native(&state, "print"), (1, Builtin::Print));
    assert_eq!(native(&state, "range"), (3, Builtin::Range));
    assert_eq!(native(&state, "dict_items"), (1, Builtin::DictItems));
    assert_eq!(native(&state, "flush"), (0, Builtin::Flush));
    assert!(state.variables.get("guid").is_none());
}

#[test]
fn import_rand_and_crypto() {
    let mut state = Interpreter::new();
    assert!(import("rand", &mut state).is_ok());
    assert!(import("crypto", &mut state).is_ok());
    assert_eq!(native(&state, "rand_str"), (2, Builtin::RandStr));
    assert_eq!(native(&state, "sample"), (1, Builtin::Sample));
    assert_eq!(native(&state, "crypto_hmac"), (3, Builtin::CryptoHmac));
    assert_eq!(native(&state, "bcrypt_verify"), (2, Builtin::BcryptVerify));
}

#[test]
fn import_math_and_io_are_known() {
    let mut state = Interpreter::new();
    assert!(import("math", &mut state).is_ok());
    assert!(import("io", &mut state).is_ok());
}

#[test]
fn import_unknown_library_fails() {
    let mut state = Interpreter::new();
    match import("net", &mut state) {
        Err(LangError::RuntimeError(m)) => assert_eq!(m, "No built-in lib net"),
        other => panic!("unexpected {:?}", other),
    }
}

#[test]
fn get_functions_bind_tables() {
    let mut state = Interpreter::new();
    stdlib::get(&mut state);
    randlib::get(&mut state);
    cryptolib::get(&mut state);
    assert_eq!(native(&state, "split_at"), (2, Builtin::SplitAt));
    assert_eq!(native(&state, "shuffle"), (1, Builtin::Shuffle));
    assert_eq!(native(&state, "crypto_hash"), (2, Builtin::CryptoHash));
}

#[test]
fn import_keeps_other_variables() {
    let mut state = Interpreter::new();
    state.variables.insert("x".to_string(), Value::Integer(5));
    state.variables.insert("print".to_string(), Value::Integer(1));
    assert!(import("std", &mut state).is_ok());
    assert!(matches!(state.variables.get("x"), Some(Value::Integer(5))));
    assert_eq!(native(&state, "print"), (1, Builtin::Print));
}

#[test]
fn scope_rebinding_replaces() {
    let mut scope = Scope::new();
    scope.insert("a".to_string(), Value::Integer(1));
    scope.insert("a".to_string(), Value::Integer(2));
    assert!(matches!(scope.get("a"), Some(Value::Integer(2))));
    assert!(scope.get("b").is_none());
}

#[test]
fn import_in_either_order_binds_the_same() {
    let names = ["rand", "guid", "shuffle", "crypto_hash", "bcrypt_hash", "print", "hash"];
    let mut first = Interpreter::new();
    assert!(import("rand", &mut first).is_ok());
    assert!(import("crypto", &mut first).is_ok());
    assert!(import("std", &mut first).is_ok());
    let mut second = Interpreter::new();
    assert!(import("std", &mut second).is_ok());
    assert!(import("crypto", &mut second).is_ok());
    assert!(import("rand", &mut second).is_ok());
    for name in names.iter() {
        assert_eq!(native(&first, name), native(&second, name));
    }
}

#[test]
fn import_again_changes_nothing() {
    let mut state = Interpreter::new();
    state.variables.insert("x".to_string(), Value::Integer(5));
    assert!(import("crypto", &mut state).is_ok());
    assert!(import("crypto", &mut state).is_ok());
    assert_eq!(native(&state, "crypto_hmac"), (3, Builtin::CryptoHmac));
    assert!(matches!(state.variables.get("x"), Some(Value::Integer(5))));
    assert!(state.variables.get("print").is_none());
}
