//! Calling a native function. A native function either computes its result
//! here, or asks its caller for the outside work it needs (writing, reading,
//! sleeping, the clock, random floats) and for what to do with the answer.
use vstd::prelude::*;
use crate::value::{Value, Val, Builtin, LangError, view_seq, lemma_view_seq, reply_view, fail};
use crate::text::{text, push_text, trim, trimmed};
use crate::display::{Piece, Frag, frags, shown, shown_joined, show, show_joined};
use crate::arrays;
use crate::strings;
use crate::numbers;
use crate::dicts;
use crate::dicts::EntryPart;
use crate::randlib;
use crate::cryptolib;

verus! {

/// What a native call comes to: a result, or outside work for the caller.
pub enum Effect {
    /// The call is over, with this result.
    Done(Option<Value>),
    /// Write the pieces to standard output; the result is nothing.
    Print(Vec<Piece>),
    /// Write the pieces and a newline to standard output; the result is nothing.
    PrintLine(Vec<Piece>),
    /// Write the pieces into one string; the result is that string.
    Joined(Vec<Piece>),
    /// Flush standard output, then hand the outcome to `after_flush`.
    Flush,
    /// Read a line of standard input, then hand it to `after_read_line`.
    ReadLine,
    /// Sleep this many seconds; the result is nothing.
    Sleep(u64),
    /// Sleep for the float with this bit pattern, in seconds.
    SleepFloat(u64),
    /// The current UNIX time in seconds, as a float.
    Time,
    /// A random float in [0, 1).
    RandomFloat,
    /// An array of this many random floats in [0, 1).
    RandomFloats(u64),
}

/// The model of an effect.
pub enum Act {
    Done(Option<Val>),
    Print(Seq<Frag>),
    PrintLine(Seq<Frag>),
    Joined(Seq<Frag>),
    Flush,
    ReadLine,
    Sleep(u64),
    SleepFloat(u64),
    Time,
    RandomFloat,
    RandomFloats(u64),
}

/// The model of what a native call gives.
pub open spec fn effect_view(r: Result<Effect, LangError>) -> Result<Act, Seq<char>> {
    match r {
        Ok(Effect::Done(Some(v))) => Ok(Act::Done(Some(v@))),
        Ok(Effect::Done(None)) => Ok(Act::Done(None)),
        Ok(Effect::Print(p)) => Ok(Act::Print(frags(p@))),
        Ok(Effect::PrintLine(p)) => Ok(Act::PrintLine(frags(p@))),
        Ok(Effect::Joined(p)) => Ok(Act::Joined(frags(p@))),
        Ok(Effect::Flush) => Ok(Act::Flush),
        Ok(Effect::ReadLine) => Ok(Act::ReadLine),
        Ok(Effect::Sleep(s)) => Ok(Act::Sleep(s)),
        Ok(Effect::SleepFloat(b)) => Ok(Act::SleepFloat(b)),
        Ok(Effect::Time) => Ok(Act::Time),
        Ok(Effect::RandomFloat) => Ok(Act::RandomFloat),
        Ok(Effect::RandomFloats(n)) => Ok(Act::RandomFloats(n)),
        Err(LangError::RuntimeError(m)) => Err(m@),
    }
}

/// A finished call with the given reply.
pub open spec fn lift(reply: Result<Option<Val>, Seq<char>>) -> Result<Act, Seq<char>> {
    match reply {
        Ok(v) => Ok(Act::Done(v)),
        Err(m) => Err(m),
    }
}

/// Whether a call finished here (with a result or an error).
pub open spec fn is_finished(r: Result<Act, Seq<char>>) -> bool {
    r matches Ok(Act::Done(_)) || r is Err
}

/// The reply of a finished call.
pub open spec fn unlift(r: Result<Act, Seq<char>>) -> Result<Option<Val>, Seq<char>> {
    match r {
        Ok(Act::Done(v)) => Ok(v),
        Err(m) => Err(m),
        _ => Ok(None),
    }
}

fn finished(r: Result<Option<Value>, LangError>) -> (e: Result<Effect, LangError>)
    ensures
        effect_view(e) == lift(reply_view(r)),
{
    match r {
        Ok(v) => Ok(Effect::Done(v)),
        Err(m) => Err(m),
    }
}

/// The number of arguments each native function takes.
pub open spec fn arity(b: Builtin) -> nat {
    match b {
        Builtin::Flush | Builtin::Input | Builtin::Time | Builtin::Rand | Builtin::Guid => 0,
        Builtin::Print | Builtin::Println | Builtin::Join | Builtin::Len | Builtin::Chr
        | Builtin::Ord | Builtin::Sleep | Builtin::Type | Builtin::Hash | Builtin::DictKeys
        | Builtin::DictValues | Builtin::DictItems | Builtin::Shuffle | Builtin::Choice
        | Builtin::Sample => 1,
        Builtin::Concat | Builtin::Split | Builtin::SplitAt | Builtin::ArrayRemove
        | Builtin::Radix | Builtin::DictMerge | Builtin::DictGet | Builtin::DictRemove
        | Builtin::DictHas | Builtin::RandStr | Builtin::CryptoHash | Builtin::BcryptHash
        | Builtin::BcryptVerify => 2,
        Builtin::Range | Builtin::ArrayModify | Builtin::Substr | Builtin::DictSet
        | Builtin::CryptoHmac => 3,
    }
}

/// The name under which a library binds each native function.
pub open spec fn builtin_name(b: Builtin) -> Seq<char> {
    match b {
        Builtin::Print => "print"@,
        Builtin::Println => "println"@,
        Builtin::Flush => "flush"@,
        Builtin::Range => "range"@,
        Builtin::Join => "join"@,
        Builtin::Concat => "concat"@,
        Builtin::Split => "split"@,
        Builtin::SplitAt => "split_at"@,
        Builtin::ArrayModify => "array_modify"@,
        Builtin::ArrayRemove => "array_remove"@,
        Builtin::Substr => "substr"@,
        Builtin::Len => "len"@,
        Builtin::Input => "input"@,
        Builtin::Chr => "chr"@,
        Builtin::Ord => "ord"@,
        Builtin::Radix => "radix"@,
        Builtin::Sleep => "sleep"@,
        Builtin::Time => "time"@,
        Builtin::Type => "type"@,
        Builtin::Hash => "hash"@,
        Builtin::DictMerge => "dict_merge"@,
        Builtin::DictSet => "dict_set"@,
        Builtin::DictGet => "dict_get"@,
        Builtin::DictRemove => "dict_remove"@,
        Builtin::DictHas => "dict_has"@,
        Builtin::DictKeys => "dict_keys"@,
        Builtin::DictValues => "dict_values"@,
        Builtin::DictItems => "dict_items"@,
        Builtin::Rand => "rand"@,
        Builtin::Guid => "guid"@,
        Builtin::RandStr => "rand_str"@,
        Builtin::Shuffle => "shuffle"@,
        Builtin::Choice => "choice"@,
        Builtin::Sample => "sample"@,
        Builtin::CryptoHash => "crypto_hash"@,
        Builtin::CryptoHmac => "crypto_hmac"@,
        Builtin::BcryptHash => "bcrypt_hash"@,
        Builtin::BcryptVerify => "bcrypt_verify"@,
    }
}

/// The number of arguments a native function takes.
pub fn arity_of(b: Builtin) -> (r: usize)
    ensures
        r == arity(b),
{
    match b {
        Builtin::Flush | Builtin::Input | Builtin::Time | Builtin::Rand | Builtin::Guid => 0,
        Builtin::Print | Builtin::Println | Builtin::Join | Builtin::Len | Builtin::Chr
        | Builtin::Ord | Builtin::Sleep | Builtin::Type | Builtin::Hash | Builtin::DictKeys
        | Builtin::DictValues | Builtin::DictItems | Builtin::Shuffle | Builtin::Choice
        | Builtin::Sample => 1,
        Builtin::Concat | Builtin::Split | Builtin::SplitAt | Builtin::ArrayRemove
        | Builtin::Radix | Builtin::DictMerge | Builtin::DictGet | Builtin::DictRemove
        | Builtin::DictHas | Builtin::RandStr | Builtin::CryptoHash | Builtin::BcryptHash
        | Builtin::BcryptVerify => 2,
        Builtin::Range | Builtin::ArrayModify | Builtin::Substr | Builtin::DictSet
        | Builtin::CryptoHmac => 3,
    }
}

/// The arguments on which a native function overflows a machine limit.
pub open spec fn overflows(b: Builtin, a: Seq<Val>) -> bool {
    match b {
        Builtin::Range => arrays::range_overflows(a),
        Builtin::RandStr => randlib::rand_str_overflows(a),
        _ => false,
    }
}

/// `join(arr)`.
pub open spec fn join_act(a: Seq<Val>) -> Result<Act, Seq<char>> {
    match a[0] {
        Val::Arr(x) => Ok(Act::Joined(shown_joined(x))),
        _ => Err("Expected array to join"@),
    }
}

/// `sleep(seconds)`: a negative integer sleeps no time.
pub open spec fn sleep_act(a: Seq<Val>) -> Result<Act, Seq<char>> {
    match a[0] {
        Val::Int(i) => Ok(Act::Sleep(if i < 0 { 0 } else { i as u64 })),
        Val::Float(b) => Ok(Act::SleepFloat(b)),
        _ => Err("Expected numeric value for sleep duration"@),
    }
}

/// `sample(count)`: a negative count gives no floats.
pub open spec fn sample_act(a: Seq<Val>) -> Result<Act, Seq<char>> {
    match a[0] {
        Val::Int(n) => Ok(Act::RandomFloats(if n < 0 { 0 } else { n as u64 })),
        _ => Err("Expected integer dimension of sample"@),
    }
}

/// What a call of each native function gives: exactly, or, for the functions
/// that draw random numbers, what holds of every outcome.
pub open spec fn native_outcome(b: Builtin, a: Seq<Val>, r: Result<Act, Seq<char>>) -> bool {
    match b {
        Builtin::Print => r == Ok::<Act, Seq<char>>(Act::Print(shown(a[0]))),
        Builtin::Println => r == Ok::<Act, Seq<char>>(Act::PrintLine(shown(a[0]))),
        Builtin::Flush => r == Ok::<Act, Seq<char>>(Act::Flush),
        Builtin::Range => r == lift(arrays::range_reply(a)),
        Builtin::Join => r == join_act(a),
        Builtin::Concat => r == lift(arrays::concat_reply(a)),
        Builtin::Split => r == lift(strings::split_reply(a)),
        Builtin::SplitAt => r == lift(arrays::split_at_reply(a)),
        Builtin::ArrayModify => r == lift(arrays::array_modify_reply(a)),
        Builtin::ArrayRemove => r == lift(arrays::array_remove_reply(a)),
        Builtin::Substr => r == lift(strings::substr_reply(a)),
        Builtin::Len => r == lift(numbers::len_reply(a)),
        Builtin::Input => r == Ok::<Act, Seq<char>>(Act::ReadLine),
        Builtin::Chr => r == lift(numbers::chr_reply(a)),
        Builtin::Ord => r == lift(numbers::ord_reply(a)),
        Builtin::Radix => r == lift(numbers::radix_reply(a)),
        Builtin::Sleep => r == sleep_act(a),
        Builtin::Time => r == Ok::<Act, Seq<char>>(Act::Time),
        Builtin::Type => r == Ok::<Act, Seq<char>>(
            Act::Done(Some(Val::Str(numbers::kind_name(a[0])))),
        ),
        Builtin::Hash => r matches Ok(Act::Done(Some(Val::Int(_)))),
        Builtin::DictMerge => r == lift(dicts::dict_merge_reply(a)),
        Builtin::DictSet => r == lift(dicts::dict_set_reply(a)),
        Builtin::DictGet => r == lift(dicts::dict_get_reply(a)),
        Builtin::DictRemove => r == lift(dicts::dict_remove_reply(a)),
        Builtin::DictHas => r == lift(dicts::dict_has_reply(a)),
        Builtin::DictKeys => r == lift(dicts::entries_reply(EntryPart::Keys, a)),
        Builtin::DictValues => r == lift(dicts::entries_reply(EntryPart::Values, a)),
        Builtin::DictItems => r == lift(dicts::entries_reply(EntryPart::Items, a)),
        Builtin::Rand => r == Ok::<Act, Seq<char>>(Act::RandomFloat),
        Builtin::Guid => r matches Ok(Act::Done(Some(Val::Str(s)))) && randlib::is_uuid_v4_text(
            s,
        ),
        Builtin::RandStr => is_finished(r) && randlib::rand_str_outcome(a, unlift(r)),
        Builtin::Shuffle => is_finished(r) && randlib::shuffle_outcome(a, unlift(r)),
        Builtin::Choice => is_finished(r) && randlib::choice_outcome(a, unlift(r)),
        Builtin::Sample => r == sample_act(a),
        Builtin::CryptoHash => r == lift(cryptolib::crypto_hash_reply(a)) && (r matches Ok(
            Act::Done(Some(Val::Str(h))),
        ) ==> h.len() == cryptolib::hex_digest_len(a[0])),
        Builtin::CryptoHmac => r == lift(cryptolib::crypto_hmac_reply(a)),
        Builtin::BcryptHash => is_finished(r) && cryptolib::bcrypt_hash_outcome(a, unlift(r)),
        Builtin::BcryptVerify => is_finished(r) && cryptolib::bcrypt_verify_outcome(a, unlift(r)),
    }
}

/// Calls a native function on its arguments: it takes at least as many as its
/// arity, and those beyond it are not looked at.
pub fn call_native(b: Builtin, args: &Vec<Value>) -> (r: Result<Effect, LangError>)
    requires
        args.len() >= arity(b),
        !overflows(b, view_seq(args@)),
    ensures
        native_outcome(b, view_seq(args@), effect_view(r)),
{
    proof {
        lemma_view_seq(args@);
    }
    match b {
        Builtin::Print => Ok(Effect::Print(show(&args[0]))),
        Builtin::Println => Ok(Effect::PrintLine(show(&args[0]))),
        Builtin::Flush => Ok(Effect::Flush),
        Builtin::Range => finished(arrays::range(args)),
        Builtin::Join => {
            if let Value::Array(items) = &args[0] {
                Ok(Effect::Joined(show_joined(items)))
            } else {
                Err(LangError::RuntimeError(text("Expected array to join")))
            }
        },
        Builtin::Concat => finished(arrays::concat_arrays(args)),
        Builtin::Split => finished(strings::split(args)),
        Builtin::SplitAt => finished(arrays::split_at(args)),
        Builtin::ArrayModify => finished(arrays::array_modify(args)),
        Builtin::ArrayRemove => finished(arrays::array_remove(args)),
        Builtin::Substr => finished(strings::substr(args)),
        Builtin::Len => finished(numbers::len(args)),
        Builtin::Input => Ok(Effect::ReadLine),
        Builtin::Chr => finished(numbers::chr(args)),
        Builtin::Ord => finished(numbers::ord(args)),
        Builtin::Radix => finished(numbers::radix(args)),
        Builtin::Sleep => match &args[0] {
            Value::Integer(i) => Ok(Effect::Sleep(if *i < 0 { 0 } else { *i as u64 })),
            Value::Float(f) => Ok(Effect::SleepFloat(*f)),
            _ => Err(LangError::RuntimeError(text("Expected numeric value for sleep duration"))),
        },
        Builtin::Time => Ok(Effect::Time),
        Builtin::Type => finished(numbers::type_of(args)),
        Builtin::Hash => finished(numbers::hash(args)),
        Builtin::DictMerge => finished(dicts::dict_merge(args)),
        Builtin::DictSet => finished(dicts::dict_set(args)),
        Builtin::DictGet => finished(dicts::dict_get(args)),
        Builtin::DictRemove => finished(dicts::dict_remove(args)),
        Builtin::DictHas => finished(dicts::dict_has(args)),
        Builtin::DictKeys => finished(dicts::dict_entries(EntryPart::Keys, args)),
        Builtin::DictValues => finished(dicts::dict_entries(EntryPart::Values, args)),
        Builtin::DictItems => finished(dicts::dict_entries(EntryPart::Items, args)),
        Builtin::Rand => Ok(Effect::RandomFloat),
        Builtin::Guid => finished(randlib::guid()),
        Builtin::RandStr => finished(randlib::rand_str(args)),
        Builtin::Shuffle => finished(randlib::shuffle(args)),
        Builtin::Choice => finished(randlib::choice(args)),
        Builtin::Sample => match &args[0] {
            Value::Integer(n) => Ok(Effect::RandomFloats(if *n < 0 { 0 } else { *n as u64 })),
            _ => Err(LangError::RuntimeError(text("Expected integer dimension of sample"))),
        },
        Builtin::CryptoHash => finished(cryptolib::crypto_hash(args)),
        Builtin::CryptoHmac => finished(cryptolib::crypto_hmac(args)),
        Builtin::BcryptHash => finished(cryptolib::bcrypt_hash(args)),
        Builtin::BcryptVerify => finished(cryptolib::bcrypt_verify(args)),
    }
}

/// The result of `flush()` once standard output was flushed, or failed to be.
pub fn after_flush(flushed: bool) -> (r: Result<Option<Value>, LangError>)
    ensures
        reply_view(r) == if flushed {
            Ok::<Option<Val>, Seq<char>>(None)
        } else {
            Err::<Option<Val>, Seq<char>>("Failed to flush stdout"@)
        },
{
    if flushed {
        Ok(None)
    } else {
        fail(text("Failed to flush stdout"))
    }
}

/// The result of `input()` once a line was read (without surrounding white
/// space), or once reading failed with the given message.
pub fn after_read_line(line: Result<String, String>) -> (r: Result<Option<Value>, LangError>)
    ensures
        reply_view(r) == match line {
            Ok(s) => Ok::<Option<Val>, Seq<char>>(Some(Val::Str(trimmed(s@)))),
            Err(e) => Err::<Option<Val>, Seq<char>>("Error reading input: "@ + e@),
        },
{
    match line {
        Ok(s) => Ok(Some(Value::String(trim(s.as_str())))),
        Err(e) => {
            let mut m = text("Error reading input: ");
            push_text(&mut m, e.as_str());
            fail(m)
        },
    }
}

} // verus!
