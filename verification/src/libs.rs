//! Importing a built-in library by name.
use vstd::prelude::*;
use crate::value::{LangError, Val};
use crate::text::{text, push_text};
use crate::value::Builtin;
use crate::interp::{Interpreter, registered, native_value, law_registered, law_registered_twice, law_registered_commute, table_names_unique};
use crate::natives::{arity, builtin_name};
use crate::stdlib;
use crate::randlib;
use crate::cryptolib;

verus! {

/// The built-in libraries.
pub enum Library {
    Std,
    Rand,
    Math,
    Io,
    Crypto,
}

/// The library a name stands for.
pub open spec fn library_named(name: Seq<char>) -> Option<Library> {
    if name == "std"@ {
        Some(Library::Std)
    } else if name == "rand"@ {
        Some(Library::Rand)
    } else if name == "math"@ {
        Some(Library::Math)
    } else if name == "io"@ {
        Some(Library::Io)
    } else if name == "crypto"@ {
        Some(Library::Crypto)
    } else {
        None
    }
}

/// The native functions a library binds: none for `math` and `io`, whose
/// functions this crate does not define.
pub open spec fn library_table(l: Library) -> Seq<(Seq<char>, nat, Builtin)> {
    match l {
        Library::Std => stdlib::std_table(),
        Library::Rand => randlib::rand_table(),
        Library::Crypto => cryptolib::crypto_table(),
        Library::Math => Seq::empty(),
        Library::Io => Seq::empty(),
    }
}

/// `import(name)`: binds the native functions of the named library. The
/// standard, random and cryptography libraries bind their tables; the names
/// `math` and `io` are known libraries whose functions this crate does not
/// define, so importing them binds nothing. Any other name is an error.
pub fn import(name: &str, state: &mut Interpreter) -> (r: Result<(), LangError>)
    ensures
        match library_named(name@) {
            Some(l) => r is Ok && final(state).variables.view() == registered(
                old(state).variables.view(),
                library_table(l),
            ),
            None => r matches Err(LangError::RuntimeError(m)) && m@ == "No built-in lib "@ + name@
                && final(state).variables.view() == old(state).variables.view(),
        },
{
    let n = text(name);
    if n == text("std") {
        stdlib::get(state);
        Ok(())
    } else if n == text("rand") {
        randlib::get(state);
        Ok(())
    } else if n == text("math") {
        assert(registered(state.variables.view(), library_table(Library::Math)) == state.variables.view());
        Ok(())
    } else if n == text("io") {
        assert(registered(state.variables.view(), library_table(Library::Io)) == state.variables.view());
        Ok(())
    } else if n == text("crypto") {
        cryptolib::get(state);
        Ok(())
    } else {
        let mut m = text("No built-in lib ");
        push_text(&mut m, name);
        Err(LangError::RuntimeError(m))
    }
}

/// After importing a library, each name of its table is bound to its native
/// function, which takes as many arguments as the table says; every other
/// variable keeps its value.
pub proof fn law_import_binds(m: Map<Seq<char>, Val>, l: Library, name: Seq<char>)
    ensures
        forall|i: int|
            0 <= i < library_table(l).len() && #[trigger] library_table(l)[i].0 == name ==> registered(
                m,
                library_table(l),
            )[name] == native_value(arity(library_table(l)[i].2), library_table(l)[i].2),
        (forall|i: int| 0 <= i < library_table(l).len() ==> #[trigger] library_table(l)[i].0 != name)
            ==> registered(m, library_table(l)).contains_key(name) == m.contains_key(name)
            && registered(m, library_table(l))[name] == m[name],
{
    lemma_library_table_unique(l);
    law_registered(m, library_table(l), name);
}

/// Importing a library a second time changes no variable.
pub proof fn law_import_twice(m: Map<Seq<char>, Val>, l: Library)
    ensures
        registered(registered(m, library_table(l)), library_table(l)) == registered(
            m,
            library_table(l),
        ),
{
    lemma_library_table_unique(l);
    law_registered_twice(m, library_table(l));
}

/// Each library's table binds each of its names once.
proof fn lemma_library_table_unique(l: Library)
    ensures
        table_names_unique(library_table(l)),
{
    match l {
        Library::Std => stdlib::law_std_table_well_formed(),
        Library::Rand => randlib::law_rand_table_well_formed(),
        Library::Crypto => cryptolib::law_crypto_table_well_formed(),
        _ => {},
    }
}

/// No name is bound by two different libraries.
pub proof fn law_libraries_disjoint(a: Library, b: Library)
    requires
        a != b,
    ensures
        forall|i: int, j: int|
            0 <= i < library_table(a).len() && 0 <= j < library_table(b).len()
                ==> library_table(a)[i].0 != library_table(b)[j].0,
{
    reveal_strlit("print");
    reveal_strlit("println");
    reveal_strlit("flush");
    reveal_strlit("range");
    reveal_strlit("join");
    reveal_strlit("concat");
    reveal_strlit("split");
    reveal_strlit("split_at");
    reveal_strlit("array_modify");
    reveal_strlit("array_remove");
    reveal_strlit("substr");
    reveal_strlit("len");
    reveal_strlit("input");
    reveal_strlit("chr");
    reveal_strlit("ord");
    reveal_strlit("radix");
    reveal_strlit("sleep");
    reveal_strlit("time");
    reveal_strlit("type");
    reveal_strlit("hash");
    reveal_strlit("dict_merge");
    reveal_strlit("dict_set");
    reveal_strlit("dict_get");
    reveal_strlit("dict_remove");
    reveal_strlit("dict_has");
    reveal_strlit("dict_keys");
    reveal_strlit("dict_values");
    reveal_strlit("dict_items");
    reveal_strlit("rand");
    reveal_strlit("guid");
    reveal_strlit("rand_str");
    reveal_strlit("shuffle");
    reveal_strlit("choice");
    reveal_strlit("sample");
    reveal_strlit("crypto_hash");
    reveal_strlit("crypto_hmac");
    reveal_strlit("bcrypt_hash");
    reveal_strlit("bcrypt_verify");
    assert forall|i: int, j: int|
        0 <= i < library_table(a).len() && 0 <= j < library_table(b).len() implies library_table(
            a,
        )[i].0 != library_table(b)[j].0 by {
        match a {
            Library::Std => stdlib::lemma_std_name(i),
            Library::Rand => randlib::lemma_rand_name(i),
            Library::Crypto => cryptolib::lemma_crypto_name(i),
            _ => {},
        }
        match b {
            Library::Std => stdlib::lemma_std_name(j),
            Library::Rand => randlib::lemma_rand_name(j),
            Library::Crypto => cryptolib::lemma_crypto_name(j),
            _ => {},
        }
        let x = library_table(a)[i].0;
        let y = library_table(b)[j].0;
        assert(x.len() != y.len() || x[0] != y[0] || x[1] != y[1]);
    }
}

/// Importing two libraries gives the same variables in either order.
pub proof fn law_import_commutes(m: Map<Seq<char>, Val>, a: Library, b: Library)
    ensures
        registered(registered(m, library_table(a)), library_table(b)) == registered(
            registered(m, library_table(b)),
            library_table(a),
        ),
{
    if a != b {
        law_libraries_disjoint(a, b);
        lemma_library_table_unique(a);
        lemma_library_table_unique(b);
        law_registered_commute(m, library_table(a), library_table(b));
    }
}

/// Each library's table binds its native functions under their own names.
proof fn lemma_library_table_names(l: Library)
    ensures
        forall|i: int|
            0 <= i < library_table(l).len() ==> #[trigger] library_table(l)[i].0 == builtin_name(
                library_table(l)[i].2,
            ),
{
    match l {
        Library::Std => stdlib::law_std_table_names(),
        Library::Rand => randlib::law_rand_table_names(),
        Library::Crypto => cryptolib::law_crypto_table_names(),
        _ => {},
    }
}

/// After a library is imported, each native function that it provides is
/// bound under its own name (`chr` to `chr`, `ord` to `ord`), taking as many
/// arguments as it takes.
pub proof fn law_import_binds_by_name(m: Map<Seq<char>, Val>, l: Library, b: Builtin)
    requires
        exists|i: int| 0 <= i < library_table(l).len() && #[trigger] library_table(l)[i].2 == b,
    ensures
        registered(m, library_table(l)).contains_key(builtin_name(b)),
        registered(m, library_table(l))[builtin_name(b)] == native_value(arity(b), b),
{
    let i = choose|i: int| 0 <= i < library_table(l).len() && #[trigger] library_table(l)[i].2 == b;
    lemma_library_table_names(l);
    assert(library_table(l)[i].0 == builtin_name(b));
    lemma_library_table_unique(l);
    law_registered(m, library_table(l), builtin_name(b));
    law_import_binds(m, l, builtin_name(b));
}

/// The library that provides each native function.
pub open spec fn library_of(b: Builtin) -> Library {
    match b {
        Builtin::Rand
        | Builtin::Guid
        | Builtin::RandStr
        | Builtin::Shuffle
        | Builtin::Choice
        | Builtin::Sample => Library::Rand,
        Builtin::CryptoHash
        | Builtin::CryptoHmac
        | Builtin::BcryptHash
        | Builtin::BcryptVerify => Library::Crypto,
        _ => Library::Std,
    }
}

/// The libraries are named `std`, `rand`, `math`, `io` and `crypto`.
pub proof fn law_library_names()
    ensures
        library_named("std"@) == Some(Library::Std),
        library_named("rand"@) == Some(Library::Rand),
        library_named("math"@) == Some(Library::Math),
        library_named("io"@) == Some(Library::Io),
        library_named("crypto"@) == Some(Library::Crypto),
{
    reveal_strlit("std");
    reveal_strlit("rand");
    reveal_strlit("math");
    reveal_strlit("io");
    reveal_strlit("crypto");
    assert("rand"@.len() != "std"@.len());
    assert("math"@[0] != "rand"@[0]);
    assert("math"@.len() != "std"@.len());
    assert("io"@.len() != "std"@.len() && "io"@.len() != "rand"@.len() && "io"@.len() != "math"@.len());
    assert("crypto"@.len() != "std"@.len() && "crypto"@.len() != "rand"@.len());
    assert("crypto"@.len() != "math"@.len() && "crypto"@.len() != "io"@.len());
}

proof fn lemma_imported_at(m: Map<Seq<char>, Val>, b: Builtin, i: int)
    requires
        0 <= i < library_table(library_of(b)).len(),
        library_table(library_of(b))[i].2 == b,
    ensures
        registered(m, library_table(library_of(b))).contains_key(builtin_name(b)),
        registered(m, library_table(library_of(b)))[builtin_name(b)] == native_value(arity(b), b),
{
    law_import_binds_by_name(m, library_of(b), b);
}

/// Every native function is provided by its library: importing that library
/// binds the function under its own name, taking as many arguments as it
/// takes.
pub proof fn law_every_native_is_imported(m: Map<Seq<char>, Val>, b: Builtin)
    ensures
        registered(m, library_table(library_of(b))).contains_key(builtin_name(b)),
        registered(m, library_table(library_of(b)))[builtin_name(b)] == native_value(arity(b), b),
{
    match b {
        Builtin::Print => lemma_imported_at(m, b, 0),
        Builtin::Println => lemma_imported_at(m, b, 1),
        Builtin::Flush => lemma_imported_at(m, b, 2),
        Builtin::Range => lemma_imported_at(m, b, 3),
        Builtin::Join => lemma_imported_at(m, b, 4),
        Builtin::Concat => lemma_imported_at(m, b, 5),
        Builtin::Split => lemma_imported_at(m, b, 6),
        Builtin::SplitAt => lemma_imported_at(m, b, 7),
        Builtin::ArrayModify => lemma_imported_at(m, b, 8),
        Builtin::ArrayRemove => lemma_imported_at(m, b, 9),
        Builtin::Substr => lemma_imported_at(m, b, 10),
        Builtin::Len => lemma_imported_at(m, b, 11),
        Builtin::Input => lemma_imported_at(m, b, 12),
        Builtin::Chr => lemma_imported_at(m, b, 13),
        Builtin::Ord => lemma_imported_at(m, b, 14),
        Builtin::Radix => lemma_imported_at(m, b, 15),
        Builtin::Sleep => lemma_imported_at(m, b, 16),
        Builtin::Time => lemma_imported_at(m, b, 17),
        Builtin::Type => lemma_imported_at(m, b, 18),
        Builtin::Hash => lemma_imported_at(m, b, 19),
        Builtin::DictMerge => lemma_imported_at(m, b, 20),
        Builtin::DictSet => lemma_imported_at(m, b, 21),
        Builtin::DictGet => lemma_imported_at(m, b, 22),
        Builtin::DictRemove => lemma_imported_at(m, b, 23),
        Builtin::DictHas => lemma_imported_at(m, b, 24),
        Builtin::DictKeys => lemma_imported_at(m, b, 25),
        Builtin::DictValues => lemma_imported_at(m, b, 26),
        Builtin::DictItems => lemma_imported_at(m, b, 27),
        Builtin::Rand => lemma_imported_at(m, b, 0),
        Builtin::Guid => lemma_imported_at(m, b, 1),
        Builtin::RandStr => lemma_imported_at(m, b, 2),
        Builtin::Shuffle => lemma_imported_at(m, b, 3),
        Builtin::Choice => lemma_imported_at(m, b, 4),
        Builtin::Sample => lemma_imported_at(m, b, 5),
        Builtin::CryptoHash => lemma_imported_at(m, b, 0),
        Builtin::CryptoHmac => lemma_imported_at(m, b, 1),
        Builtin::BcryptHash => lemma_imported_at(m, b, 2),
        Builtin::BcryptVerify => lemma_imported_at(m, b, 3),
    }
}

} // verus!
