use xmlangee::cryptolib::{bcrypt_hash, bcrypt_verify, crypto_hash, crypto_hmac};
use xmlangee::text::hex_text;
use xmlangee::value::{LangError, Value};

fn s(x: &str) -> Value {
    Value::String(x.to_string())
}

fn text(r: Result<Option<Value>, LangError>) -> String {
    match r {
        Ok(Some(Value::String(t))) => t,
        other => panic!("not a string: {:?}", other),
    }
}

fn message(r: Result<Option<Value>, LangError>) -> String {
    match r {
        Err(LangError::RuntimeError(m)) => m,
        other => panic!("not an error: {:?}", other),
    }
}

#[test]
fn md5_digest_in_hex() {
    assert_eq!(text(crypto_hash(&vec![s("md5"), s("abc")])), "900150983cd24fb0d6963f7d28e17f72");
    assert_eq!(text(crypto_hash(&vec![s("md5"), s("")])), "d41d8cd98f00b204e9800998ecf8427e");
}

#[test]
fn sha256_digest_in_hex() {
    assert_eq!(
        text(crypto_hash(&vec![s("sha256"), s("abc")])),
        "ba7816bf8f01cfea414140de5dae2223b00361a396177a9cb410ff61f20015ad"
    );
}

#[test]
fn sha512_digest_in_hex() {
    assert_eq!(
        text(crypto_hash(&vec![s("sha512"), s("abc")])),
        "ddaf35a193617abacc417349ae20413112e6fa4e89a97ea20a9eeee64b55d39a2192992a274fc1a836ba3c23a3feebbd454d4423643ce80e2a9ac94fa54ca49f"
    );
}

#[test]
fn crypto_hash_errors() {
    assert_eq!(
        message(crypto_hash(&vec![s("hmac_sha256"), s("abc")])),
        "Use crypto_hmac for HMAC-SHA256"
    );
    assert_eq!(
        message(crypto_hash(&vec![s("sha1"), s("abc")])),
        "Unknown algorithm: sha1. Supported: md5, sha256, sha512"
    );
    assert_eq!(
        message(crypto_hash(&vec![s("md5"), Value::Null])),
        "Expected (algorithm string, input string)"
    );
}

#[test]
fn hmac_sha256_in_hex() {
    assert_eq!(
        text(crypto_hmac(&vec![s("sha256"), s("key"), s("The quick brown fox jumps over the lazy dog")])),
        "f7bc83f430538424b13298e6aa6fb143ef4d59a14946175997479dbc2d1a3cd8"
    );
    assert_eq!(
        message(crypto_hmac(&vec![s("md5"), s("k"), s("m")])),
        "Unknown HMAC algorithm: md5. Supported: sha256"
    );
    assert_eq!(
        message(crypto_hmac(&vec![s("sha256"), s("k"), Value::Integer(1)])),
        "Expected (algorithm string, key string, input string)"
    );
}

#[test]
fn hex_of_bytes() {
    assert_eq!(hex_text(&vec![0x00, 0x0f, 0xab, 0xff]), "000fabff");
    assert_eq!(hex_text(&vec![]), "");
}

#[test]
fn bcrypt_hash_then_verify() {
    let h = text(bcrypt_hash(&vec![s("hunter2"), Value::Integer(4)]));
    assert_eq!(h.len(), 60);
    assert!(h.starts_with("$2b$04$"));
    assert!(matches!(
        bcrypt_verify(&vec![s("hunter2"), Value::String(h.clone())]),
        Ok(Some(Value::Boolean(true)))
    ));
    assert!(matches!(
        bcrypt_verify(&vec![s("hunter3"), Value::String(h)]),
        Ok(Some(Value::Boolean(false)))
    ));
}

#[test]
fn bcrypt_verify_known_hash() {
    let hash = "$2a$04$UuTkLRZZ6QofpDOlMz32MuuxEHA43WOemOYHPz6.SjsVsyO1tDU96";
    assert!(matches!(bcrypt_verify(&vec![s("password"), s(hash)]), Ok(Some(Value::Boolean(true)))));
}

#[test]
fn bcrypt_errors() {
    assert_eq!(message(bcrypt_hash(&vec![s("pw"), Value::Integer(3)])), "Cost must be between 4 and 31");
    assert_eq!(message(bcrypt_hash(&vec![s("pw"), Value::Integer(32)])), "Cost must be between 4 and 31");
    assert_eq!(
        message(bcrypt_hash(&vec![s("pw"), s("4")])),
        "Expected (password string, cost integer)"
    );
    assert!(message(bcrypt_verify(&vec![s("pw"), s("not a hash")])).starts_with("bcrypt error: "));
    assert_eq!(
        message(bcrypt_verify(&vec![s("pw"), Value::Null])),
        "Expected (password string, hash string)"
    );
}
