//! The standard library's table of native functions.
use vstd::prelude::*;
use crate::value::Builtin;
use crate::interp::{Interpreter, registered, table_view, define_natives, table_names_unique};
use crate::natives::{arity, builtin_name};

verus! {

/// The names, arities and functions of the standard library, in the order in
/// which they are bound.
pub open spec fn std_table() -> Seq<(Seq<char>, nat, Builtin)> {
    seq![
        ("print"@, 1nat, Builtin::Print),
        ("println"@, 1nat, Builtin::Println),
        ("flush"@, 0nat, Builtin::Flush),
        ("range"@, 3nat, Builtin::Range),
        ("join"@, 1nat, Builtin::Join),
        ("concat"@, 2nat, Builtin::Concat),
        ("split"@, 2nat, Builtin::Split),
        ("split_at"@, 2nat, Builtin::SplitAt),
        ("array_modify"@, 3nat, Builtin::ArrayModify),
        ("array_remove"@, 2nat, Builtin::ArrayRemove),
        ("substr"@, 3nat, Builtin::Substr),
        ("len"@, 1nat, Builtin::Len),
        ("input"@, 0nat, Builtin::Input),
        ("chr"@, 1nat, Builtin::Chr),
        ("ord"@, 1nat, Builtin::Ord),
        ("radix"@, 2nat, Builtin::Radix),
        ("sleep"@, 1nat, Builtin::Sleep),
        ("time"@, 0nat, Builtin::Time),
        ("type"@, 1nat, Builtin::Type),
        ("hash"@, 1nat, Builtin::Hash),
        ("dict_merge"@, 2nat, Builtin::DictMerge),
        ("dict_set"@, 3nat, Builtin::DictSet),
        ("dict_get"@, 2nat, Builtin::DictGet),
        ("dict_remove"@, 2nat, Builtin::DictRemove),
        ("dict_has"@, 2nat, Builtin::DictHas),
        ("dict_keys"@, 1nat, Builtin::DictKeys),
        ("dict_values"@, 1nat, Builtin::DictValues),
        ("dict_items"@, 1nat, Builtin::DictItems),
    ]
}

/// Binds the standard library's native functions.
pub fn get(state: &mut Interpreter)
    ensures
        final(state).variables.view() == registered(old(state).variables.view(), std_table()),
{
    let table: Vec<(&str, usize, Builtin)> = vec![
        ("print", 1, Builtin::Print),
        ("println", 1, Builtin::Println),
        ("flush", 0, Builtin::Flush),
        ("range", 3, Builtin::Range),
        ("join", 1, Builtin::Join),
        ("concat", 2, Builtin::Concat),
        ("split", 2, Builtin::Split),
        ("split_at", 2, Builtin::SplitAt),
        ("array_modify", 3, Builtin::ArrayModify),
        ("array_remove", 2, Builtin::ArrayRemove),
        ("substr", 3, Builtin::Substr),
        ("len", 1, Builtin::Len),
        ("input", 0, Builtin::Input),
        ("chr", 1, Builtin::Chr),
        ("ord", 1, Builtin::Ord),
        ("radix", 2, Builtin::Radix),
        ("sleep", 1, Builtin::Sleep),
        ("time", 0, Builtin::Time),
        ("type", 1, Builtin::Type),
        ("hash", 1, Builtin::Hash),
        ("dict_merge", 2, Builtin::DictMerge),
        ("dict_set", 3, Builtin::DictSet),
        ("dict_get", 2, Builtin::DictGet),
        ("dict_remove", 2, Builtin::DictRemove),
        ("dict_has", 2, Builtin::DictHas),
        ("dict_keys", 1, Builtin::DictKeys),
        ("dict_values", 1, Builtin::DictValues),
        ("dict_items", 1, Builtin::DictItems),
    ];
    assert(table_view(table@) =~= std_table());
    define_natives(state, &table);
}

/// Each name of the std library's table is bound once, with the arity its
/// function takes.
pub proof fn law_std_table_well_formed()
    ensures
        table_names_unique(std_table()),
        forall|i: int| 0 <= i < std_table().len() ==> #[trigger] std_table()[i].1 == arity(std_table()[i].2),
{
    let t = std_table();
    reveal_strlit("print");
    reveal_strlit("println");
    reveal_strlit("flush");
    reveal_strlit("range");
    reveal_strlit("join");
    reveal_strlit("concat");
    reveal_strlit("split");
    reveal_strlit("split_at");
    reveal_strlit("array_modify");
    reveal_strlit("array_remove");
    reveal_strlit("substr");
    reveal_strlit("len");
    reveal_strlit("input");
    reveal_strlit("chr");
    reveal_strlit("ord");
    reveal_strlit("radix");
    reveal_strlit("sleep");
    reveal_strlit("time");
    reveal_strlit("type");
    reveal_strlit("hash");
    reveal_strlit("dict_merge");
    reveal_strlit("dict_set");
    reveal_strlit("dict_get");
    reveal_strlit("dict_remove");
    reveal_strlit("dict_has");
    reveal_strlit("dict_keys");
    reveal_strlit("dict_values");
    reveal_strlit("dict_items");
    assert forall|i: int, j: int| 0 <= i < j < t.len() implies t[i].0 != t[j].0 by {
        lemma_std_name(i);
        lemma_std_name(j);
        assert(t[i].0.len() != t[j].0.len() || t[i].0[2] != t[j].0[2] || t[i].0[5] != t[j].0[5] || t[i].0[6] != t[j].0[6]);
    }
}

/// Each name of the table is one of its literal names.
pub(crate) proof fn lemma_std_name(i: int)
    requires
        0 <= i < std_table().len(),
    ensures
        ({
            let n = std_table()[i].0;
            n == "print"@
                || n == "println"@
                || n == "flush"@
                || n == "range"@
                || n == "join"@
                || n == "concat"@
                || n == "split"@
                || n == "split_at"@
                || n == "array_modify"@
                || n == "array_remove"@
                || n == "substr"@
                || n == "len"@
                || n == "input"@
                || n == "chr"@
                || n == "ord"@
                || n == "radix"@
                || n == "sleep"@
                || n == "time"@
                || n == "type"@
                || n == "hash"@
                || n == "dict_merge"@
                || n == "dict_set"@
                || n == "dict_get"@
                || n == "dict_remove"@
                || n == "dict_has"@
                || n == "dict_keys"@
                || n == "dict_values"@
                || n == "dict_items"@
        }),
{
    let t = std_table();
    if i == 0 {
        assert(t[i].0 == "print"@);
    } else if i == 1 {
        assert(t[i].0 == "println"@);
    } else if i == 2 {
        assert(t[i].0 == "flush"@);
    } else if i == 3 {
        assert(t[i].0 == "range"@);
    } else if i == 4 {
        assert(t[i].0 == "join"@);
    } else if i == 5 {
        assert(t[i].0 == "concat"@);
    } else if i == 6 {
        assert(t[i].0 == "split"@);
    } else if i == 7 {
        assert(t[i].0 == "split_at"@);
    } else if i == 8 {
        assert(t[i].0 == "array_modify"@);
    } else if i == 9 {
        assert(t[i].0 == "array_remove"@);
    } else if i == 10 {
        assert(t[i].0 == "substr"@);
    } else if i == 11 {
        assert(t[i].0 == "len"@);
    } else if i == 12 {
        assert(t[i].0 == "input"@);
    } else if i == 13 {
        assert(t[i].0 == "chr"@);
    } else if i == 14 {
        assert(t[i].0 == "ord"@);
    } else if i == 15 {
        assert(t[i].0 == "radix"@);
    } else if i == 16 {
        assert(t[i].0 == "sleep"@);
    } else if i == 17 {
        assert(t[i].0 == "time"@);
    } else if i == 18 {
        assert(t[i].0 == "type"@);
    } else if i == 19 {
        assert(t[i].0 == "hash"@);
    } else if i == 20 {
        assert(t[i].0 == "dict_merge"@);
    } else if i == 21 {
        assert(t[i].0 == "dict_set"@);
    } else if i == 22 {
        assert(t[i].0 == "dict_get"@);
    } else if i == 23 {
        assert(t[i].0 == "dict_remove"@);
    } else if i == 24 {
        assert(t[i].0 == "dict_has"@);
    } else if i == 25 {
        assert(t[i].0 == "dict_keys"@);
    } else if i == 26 {
        assert(t[i].0 == "dict_values"@);
    } else if i == 27 {
        assert(t[i].0 == "dict_items"@);
    }
}

/// Each entry of the standard library's table binds a native function under
/// that function's own name.
pub proof fn law_std_table_names()
    ensures
        forall|i: int|
            0 <= i < std_table().len() ==> #[trigger] std_table()[i].0 == builtin_name(std_table()[i].2),
{
    let t = std_table();
    assert forall|i: int| 0 <= i < t.len() implies #[trigger] t[i].0 == builtin_name(t[i].2) by {
        if i == 0 {
        } else if i == 1 {
        } else if i == 2 {
        } else if i == 3 {
        } else if i == 4 {
        } else if i == 5 {
        } else if i == 6 {
        } else if i == 7 {
        } else if i == 8 {
        } else if i == 9 {
        } else if i == 10 {
        } else if i == 11 {
        } else if i == 12 {
        } else if i == 13 {
        } else if i == 14 {
        } else if i == 15 {
        } else if i == 16 {
        } else if i == 17 {
        } else if i == 18 {
        } else if i == 19 {
        } else if i == 20 {
        } else if i == 21 {
        } else if i == 22 {
        } else if i == 23 {
        } else if i == 24 {
        } else if i == 25 {
        } else if i == 26 {
        } else if i == 27 {
        }
    }
}

} // verus!
