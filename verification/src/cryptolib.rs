//! The cryptography library: crypto_hash, crypto_hmac, bcrypt_hash and
//! bcrypt_verify. The digests come from the md5, sha2 and hmac crates and the
//! password hashes from the bcrypt crate; this library checks the arguments,
//! picks the algorithm and writes digests in lower-case hexadecimal.
use vstd::prelude::*;
use vstd::utf8::encode_utf8;
use vstd::string::*;
use crate::interp::{Interpreter, registered, table_view, define_natives, table_names_unique};
use crate::natives::{arity, builtin_name};
use crate::value::{Builtin, Value, Val, LangError, view_seq, lemma_view_seq, reply_view, fail, give};
use crate::text::{text, push_text, hex_text, hex_of, law_hex_of, DIGITS};
use hmac::Mac;
use sha2::Digest;
use hmac::digest::InvalidLength;
use bcrypt::BcryptError;

verus! {

/// The MD5 digest of some bytes.
pub uninterp spec fn md5_of(data: Seq<u8>) -> Seq<u8>;

/// The SHA-256 digest of some bytes.
pub uninterp spec fn sha256_of(data: Seq<u8>) -> Seq<u8>;

/// The SHA-512 digest of some bytes.
pub uninterp spec fn sha512_of(data: Seq<u8>) -> Seq<u8>;

/// The HMAC-SHA256 tag of a message under a key.
pub uninterp spec fn hmac_sha256_of(key: Seq<u8>, data: Seq<u8>) -> Seq<u8>;

/// What `bcrypt::verify` decides for a password and a stored hash: whether the
/// password matches, or nothing where the hash cannot be read.
pub uninterp spec fn bcrypt_verdict(password: Seq<char>, hash: Seq<char>) -> Option<bool>;

#[verifier::external_type_specification]
#[verifier::external_body]
pub struct ExInvalidLength(hmac::digest::InvalidLength);

#[verifier::external_type_specification]
#[verifier::external_body]
pub struct ExBcryptError(bcrypt::BcryptError);

/// `md5::compute`: the 16-byte MD5 digest.
#[verifier::external_body]
fn md5_digest(data: &[u8]) -> (r: Vec<u8>)
    ensures
        r@ == md5_of(data@),
        r@.len() == 16,
{
    md5::compute(data).0.to_vec()
}

/// `sha2::Sha256::digest`: the 32-byte SHA-256 digest.
#[verifier::external_body]
fn sha256_digest(data: &[u8]) -> (r: Vec<u8>)
    ensures
        r@ == sha256_of(data@),
        r@.len() == 32,
{
    sha2::Sha256::digest(data).to_vec()
}

/// `sha2::Sha512::digest`: the 64-byte SHA-512 digest.
#[verifier::external_body]
fn sha512_digest(data: &[u8]) -> (r: Vec<u8>)
    ensures
        r@ == sha512_of(data@),
        r@.len() == 64,
{
    sha2::Sha512::digest(data).to_vec()
}

/// `Hmac::<Sha256>::new_from_slice`, `update` and `finalize`: the 32-byte
/// HMAC-SHA256 tag. HMAC takes keys of any length, so the key is never refused.
#[verifier::external_body]
fn hmac_sha256(key: &[u8], data: &[u8]) -> (r: Result<Vec<u8>, InvalidLength>)
    ensures
        r is Ok,
        r matches Ok(tag) ==> tag@ == hmac_sha256_of(key@, data@) && tag@.len() == 32,
{
    match <hmac::Hmac<sha2::Sha256> as Mac>::new_from_slice(key) {
        Ok(mut mac) => {
            mac.update(data);
            Ok(mac.finalize().into_bytes().to_vec())
        },
        Err(e) => Err(e),
    }
}

/// The two decimal digits of a number below 100.
pub open spec fn two_digits(n: u32) -> Seq<char> {
    seq![DIGITS@[(n / 10) as int], DIGITS@[(n % 10) as int]]
}

/// `bcrypt::hash`: a salted hash of the password with a fresh random salt.
/// When it succeeds the hash has 60 characters, starts with `$2b$`, the
/// two-digit cost and `$`, and `bcrypt::verify` accepts the same password
/// against it. With a cost that bcrypt allows, its one failure is that the
/// system's random source failed, and the error's `Display` text then starts
/// with `Rand error: `; the rest of that text is not stated.
#[verifier::external_body]
fn bcrypt_hash_text(password: &str, cost: u32) -> (r: Result<String, String>)
    requires
        4 <= cost <= 31,
    ensures
        r matches Ok(h) ==> h@.len() == 60 && h@.subrange(0, 7) == "$2b$"@ + two_digits(cost)
            + "$"@ && bcrypt_verdict(password@, h@) == Some(true),
        r matches Err(m) ==> starts_with(m@, "Rand error: "@),
{
    match bcrypt::hash(password, cost) {
        Ok(h) => Ok(h),
        Err(e) => Err(format!("{}", e)),
    }
}

/// `bcrypt::verify`: whether the password matches the stored hash.
#[verifier::external_body]
fn bcrypt_check(password: &str, hash: &str) -> (r: Result<bool, BcryptError>)
    ensures
        r matches Ok(b) ==> bcrypt_verdict(password@, hash@) == Some(b),
        r is Err ==> bcrypt_verdict(password@, hash@) is None,
{
    bcrypt::verify(password, hash)
}

/// The `Display` text of a bcrypt error. Nothing is stated of the text.
#[verifier::external_body]
fn bcrypt_error_text(e: &BcryptError) -> String {
    format!("{}", e)
}

/// Whether `m` starts with `p`.
pub open spec fn starts_with(m: Seq<char>, p: Seq<char>) -> bool {
    p.len() <= m.len() && m.take(p.len() as int) == p
}

/// `crypto_hash(algorithm, input)`: the digest of the input's UTF-8 bytes,
/// in lower-case hexadecimal.
pub open spec fn crypto_hash_reply(a: Seq<Val>) -> Result<Option<Val>, Seq<char>> {
    match (a[0], a[1]) {
        (Val::Str(alg), Val::Str(input)) => {
            let data = encode_utf8(input);
            if alg == "md5"@ {
                Ok(Some(Val::Str(hex_of(md5_of(data)))))
            } else if alg == "sha256"@ {
                Ok(Some(Val::Str(hex_of(sha256_of(data)))))
            } else if alg == "sha512"@ {
                Ok(Some(Val::Str(hex_of(sha512_of(data)))))
            } else if alg == "hmac_sha256"@ {
                Err("Use crypto_hmac for HMAC-SHA256"@)
            } else {
                Err("Unknown algorithm: "@ + alg + ". Supported: md5, sha256, sha512"@)
            }
        },
        _ => Err("Expected (algorithm string, input string)"@),
    }
}

/// The length of the hexadecimal digest for an algorithm's name.
pub open spec fn hex_digest_len(alg: Val) -> nat {
    if alg == Val::Str("md5"@) {
        32
    } else if alg == Val::Str("sha256"@) {
        64
    } else {
        128
    }
}

/// `crypto_hash(algorithm, input)` for md5, sha256 and sha512: 32, 64 and 128
/// hexadecimal digits.
pub fn crypto_hash(args: &Vec<Value>) -> (r: Result<Option<Value>, LangError>)
    requires
        args.len() >= 2,
    ensures
        reply_view(r) == crypto_hash_reply(view_seq(args@)),
        reply_view(r) matches Ok(Some(Val::Str(h))) ==> h.len() == hex_digest_len(
            view_seq(args@)[0],
        ),
{
    proof {
        lemma_view_seq(args@);
    }
    if let Value::String(algorithm) = &args[0] {
        if let Value::String(input) = &args[1] {
            let data = input.as_str().as_bytes();
            if *algorithm == text("md5") {
                let digest = md5_digest(data);
                proof {
                    law_hex_of(digest@);
                }
                return give(Value::String(hex_text(&digest)));
            } else if *algorithm == text("sha256") {
                let digest = sha256_digest(data);
                proof {
                    law_hex_of(digest@);
                }
                return give(Value::String(hex_text(&digest)));
            } else if *algorithm == text("sha512") {
                let digest = sha512_digest(data);
                proof {
                    law_hex_of(digest@);
                }
                return give(Value::String(hex_text(&digest)));
            } else if *algorithm == text("hmac_sha256") {
                return fail(text("Use crypto_hmac for HMAC-SHA256"));
            } else {
                let mut m = text("Unknown algorithm: ");
                push_text(&mut m, algorithm.as_str());
                push_text(&mut m, ". Supported: md5, sha256, sha512");
                return fail(m);
            }
        }
    }
    fail(text("Expected (algorithm string, input string)"))
}

/// `crypto_hmac(algorithm, key, input)`.
pub open spec fn crypto_hmac_reply(a: Seq<Val>) -> Result<Option<Val>, Seq<char>> {
    match (a[0], a[1], a[2]) {
        (Val::Str(alg), Val::Str(key), Val::Str(input)) => {
            if alg == "sha256"@ {
                Ok(Some(Val::Str(hex_of(hmac_sha256_of(encode_utf8(key), encode_utf8(input))))))
            } else {
                Err("Unknown HMAC algorithm: "@ + alg + ". Supported: sha256"@)
            }
        },
        _ => Err("Expected (algorithm string, key string, input string)"@),
    }
}

/// `crypto_hmac(algorithm, key, input)`: the HMAC-SHA256 tag of the input's
/// UTF-8 bytes under the key's, in lower-case hexadecimal.
pub fn crypto_hmac(args: &Vec<Value>) -> (r: Result<Option<Value>, LangError>)
    requires
        args.len() >= 3,
    ensures
        reply_view(r) == crypto_hmac_reply(view_seq(args@)),
{
    proof {
        lemma_view_seq(args@);
    }
    if let Value::String(algorithm) = &args[0] {
        if let Value::String(key) = &args[1] {
            if let Value::String(input) = &args[2] {
                if *algorithm == text("sha256") {
                    match hmac_sha256(key.as_str().as_bytes(), input.as_str().as_bytes()) {
                        Ok(tag) => {
                            return give(Value::String(hex_text(&tag)));
                        },
                        Err(_) => {
                            return fail(text("HMAC error: Invalid Length"));
                        },
                    }
                } else {
                    let mut m = text("Unknown HMAC algorithm: ");
                    push_text(&mut m, algorithm.as_str());
                    push_text(&mut m, ". Supported: sha256");
                    return fail(m);
                }
            }
        }
    }
    fail(text("Expected (algorithm string, key string, input string)"))
}

/// What holds of every outcome of `bcrypt_hash(password, cost)`. The cost is
/// taken modulo 2^32, as a cast of the integer gives it.
pub open spec fn bcrypt_hash_outcome(a: Seq<Val>, reply: Result<Option<Val>, Seq<char>>) -> bool {
    match (a[0], a[1]) {
        (Val::Str(password), Val::Int(cost)) => {
            let c = cost as u32;
            if c < 4 || c > 31 {
                reply == Err::<Option<Val>, Seq<char>>("Cost must be between 4 and 31"@)
            } else {
                ||| reply matches Ok(Some(Val::Str(h))) && h.len() == 60 && h.subrange(0, 7)
                    == "$2b$"@ + two_digits(c) + "$"@ && bcrypt_verdict(password, h) == Some(true)
                ||| reply matches Err(m) && starts_with(m, "bcrypt error: Rand error: "@)
            }
        },
        _ => reply == Err::<Option<Val>, Seq<char>>("Expected (password string, cost integer)"@),
    }
}

/// `bcrypt_hash(password, cost)`: a salted password hash. The cost is read as
/// its low 32 bits before the range check, so `2^32 + 10` is taken as `10`; the
/// hash also fails when the system's random source does.
pub fn bcrypt_hash(args: &Vec<Value>) -> (r: Result<Option<Value>, LangError>)
    requires
        args.len() >= 2,
    ensures
        bcrypt_hash_outcome(view_seq(args@), reply_view(r)),
{
    proof {
        lemma_view_seq(args@);
    }
    if let Value::String(password) = &args[0] {
        if let Value::Integer(cost) = &args[1] {
            let c = *cost as u32;
            if c < 4 || c > 31 {
                return fail(text("Cost must be between 4 and 31"));
            }
            match bcrypt_hash_text(password.as_str(), c) {
                Ok(hashed) => {
                    return give(Value::String(hashed));
                },
                Err(detail) => {
                    let mut m = text("bcrypt error: ");
                    push_text(&mut m, detail.as_str());
                    proof {
                        reveal_strlit("bcrypt error: ");
                        reveal_strlit("Rand error: ");
                        reveal_strlit("bcrypt error: Rand error: ");
                        assert(detail@.take(12) =~= "Rand error: "@);
                        assert(m@.take(26) =~= "bcrypt error: "@ + "Rand error: "@);
                        assert("bcrypt error: "@ + "Rand error: "@ =~= "bcrypt error: Rand error: "@);
                    }
                    return fail(m);
                },
            }
        }
    }
    fail(text("Expected (password string, cost integer)"))
}

/// What `bcrypt_verify(password, hash)` gives for each verdict of the hash
/// check: the verdict, or an error whose message starts with `bcrypt error: `.
pub open spec fn bcrypt_verify_outcome(a: Seq<Val>, reply: Result<Option<Val>, Seq<char>>) -> bool {
    match (a[0], a[1]) {
        (Val::Str(password), Val::Str(hash)) => match bcrypt_verdict(password, hash) {
            Some(b) => reply == Ok::<Option<Val>, Seq<char>>(Some(Val::Bool(b))),
            None => reply matches Err(m) && starts_with(m, "bcrypt error: "@),
        },
        _ => reply == Err::<Option<Val>, Seq<char>>("Expected (password string, hash string)"@),
    }
}

/// `bcrypt_verify(password, hash)`: whether the password matches the hash.
pub fn bcrypt_verify(args: &Vec<Value>) -> (r: Result<Option<Value>, LangError>)
    requires
        args.len() >= 2,
    ensures
        bcrypt_verify_outcome(view_seq(args@), reply_view(r)),
{
    proof {
        lemma_view_seq(args@);
    }
    if let Value::String(password) = &args[0] {
        if let Value::String(hash) = &args[1] {
            match bcrypt_check(password.as_str(), hash.as_str()) {
                Ok(matches) => {
                    return give(Value::Boolean(matches));
                },
                Err(e) => {
                    let mut m = text("bcrypt error: ");
                    let detail = bcrypt_error_text(&e);
                    push_text(&mut m, detail.as_str());
                    proof {
                        reveal_strlit("bcrypt error: ");
                    }
                    assert(m@.take(14) =~= "bcrypt error: "@);
                    return fail(m);
                },
            }
        }
    }
    fail(text("Expected (password string, hash string)"))
}

/// The names, arities and functions of the cryptography library, in the order in
/// which they are bound.
pub open spec fn crypto_table() -> Seq<(Seq<char>, nat, Builtin)> {
    seq![
        ("crypto_hash"@, 2nat, Builtin::CryptoHash),
        ("crypto_hmac"@, 3nat, Builtin::CryptoHmac),
        ("bcrypt_hash"@, 2nat, Builtin::BcryptHash),
        ("bcrypt_verify"@, 2nat, Builtin::BcryptVerify),
    ]
}

/// Binds the cryptography library's native functions.
pub fn get(state: &mut Interpreter)
    ensures
        final(state).variables.view() == registered(old(state).variables.view(), crypto_table()),
{
    let table: Vec<(&str, usize, Builtin)> = vec![
        ("crypto_hash", 2, Builtin::CryptoHash),
        ("crypto_hmac", 3, Builtin::CryptoHmac),
        ("bcrypt_hash", 2, Builtin::BcryptHash),
        ("bcrypt_verify", 2, Builtin::BcryptVerify),
    ];
    assert(table_view(table@) =~= crypto_table());
    define_natives(state, &table);
}

/// Each name of the cryptography library's table is bound once, with the arity its
/// function takes.
pub proof fn law_crypto_table_well_formed()
    ensures
        table_names_unique(crypto_table()),
        forall|i: int| 0 <= i < crypto_table().len() ==> #[trigger] crypto_table()[i].1 == arity(crypto_table()[i].2),
{
    let t = crypto_table();
    reveal_strlit("crypto_hash");
    reveal_strlit("crypto_hmac");
    reveal_strlit("bcrypt_hash");
    reveal_strlit("bcrypt_verify");
    assert forall|i: int, j: int| 0 <= i < j < t.len() implies t[i].0 != t[j].0 by {
        lemma_crypto_name(i);
        lemma_crypto_name(j);
        assert(t[i].0.len() != t[j].0.len() || t[i].0[0] != t[j].0[0] || t[i].0[8] != t[j].0[8]);
    }
}

/// A hash that `bcrypt_hash(password, cost)` gives is accepted by
/// `bcrypt_verify` for the same password.
pub proof fn law_bcrypt_hash_then_verify(
    password: Seq<char>,
    cost: i64,
    hashed: Result<Option<Val>, Seq<char>>,
    verified: Result<Option<Val>, Seq<char>>,
)
    requires
        bcrypt_hash_outcome(seq![Val::Str(password), Val::Int(cost)], hashed),
        hashed matches Ok(Some(Val::Str(h))) && bcrypt_verify_outcome(
            seq![Val::Str(password), Val::Str(h)],
            verified,
        ),
    ensures
        verified == Ok::<Option<Val>, Seq<char>>(Some(Val::Bool(true))),
{
}

/// With a cost from 4 to 31, `bcrypt_hash` gives a 60-character hash that
/// starts with `$2b$`, the cost in two digits and `$`, and that
/// `bcrypt_verify` accepts for the same password; the one failure left is the
/// system's random source failing inside `bcrypt::hash`, reported as
/// `bcrypt error: Rand error: ...`.
pub proof fn law_bcrypt_hash_allowed_cost(
    password: Seq<char>,
    cost: i64,
    hashed: Result<Option<Val>, Seq<char>>,
)
    requires
        bcrypt_hash_outcome(seq![Val::Str(password), Val::Int(cost)], hashed),
        4 <= cost <= 31,
    ensures
        hashed matches Ok(Some(Val::Str(h))) ==> h.len() == 60 && h.take(4) == "$2b$"@ && h[4]
            == DIGITS@[(cost / 10) as int] && h[5] == DIGITS@[(cost % 10) as int] && h[6] == '$' && bcrypt_verdict(
            password,
            h,
        ) == Some(true),
        hashed is Err ==> (hashed matches Err(m) && starts_with(m, "bcrypt error: Rand error: "@)),
        hashed is Ok ==> hashed matches Ok(Some(Val::Str(_))),
{
    assert((cost as u32) as int == cost);
    if let Ok(Some(Val::Str(h))) = hashed {
        reveal_strlit("$2b$");
        reveal_strlit("$");
        let c = cost as u32;
        let p = "$2b$"@ + two_digits(c) + "$"@;
        assert(h.subrange(0, 7) == p);
        assert(p.take(4) =~= "$2b$"@);
        assert(h.take(4) =~= p.take(4));
        assert(h[4] == p[4]);
        assert(h[5] == p[5]);
        assert(h[6] == p[6]);
        assert(c / 10 == cost / 10 && c % 10 == cost % 10);
    }
}

/// Each name of the table is one of its literal names.
pub(crate) proof fn lemma_crypto_name(i: int)
    requires
        0 <= i < crypto_table().len(),
    ensures
        ({
            let n = crypto_table()[i].0;
            n == "crypto_hash"@
                || n == "crypto_hmac"@
                || n == "bcrypt_hash"@
                || n == "bcrypt_verify"@
        }),
{
    let t = crypto_table();
    if i == 0 {
        assert(t[i].0 == "crypto_hash"@);
    } else if i == 1 {
        assert(t[i].0 == "crypto_hmac"@);
    } else if i == 2 {
        assert(t[i].0 == "bcrypt_hash"@);
    } else if i == 3 {
        assert(t[i].0 == "bcrypt_verify"@);
    }
}

/// Each entry of the cryptography library's table binds a native function under
/// that function's own name.
pub proof fn law_crypto_table_names()
    ensures
        forall|i: int|
            0 <= i < crypto_table().len() ==> #[trigger] crypto_table()[i].0 == builtin_name(crypto_table()[i].2),
{
    let t = crypto_table();
    assert forall|i: int| 0 <= i < t.len() implies #[trigger] t[i].0 == builtin_name(t[i].2) by {
        if i == 0 {
        } else if i == 1 {
        } else if i == 2 {
        } else if i == 3 {
        }
    }
}

} // verus!
