//! The interpreter's variables and the registration of native functions.
use vstd::prelude::*;
use crate::value::{Value, Val, Builtin, FunctionBody, LangError, view_strings};
use crate::text::{text, push_text};

verus! {

/// The bindings of names to values: each name bound once, in the order of
/// first binding.
pub struct Scope {
    entries: Vec<(String, Value)>,
}

/// The names and values of some bindings, the later binding of a name winning.
pub open spec fn bindings_map(s: Seq<(String, Value)>) -> Map<Seq<char>, Val>
    decreases s.len(),
{
    if s.len() == 0 {
        Map::empty()
    } else {
        bindings_map(s.drop_last()).insert(s.last().0@, s.last().1@)
    }
}

/// No name is bound twice.
pub open spec fn names_unique(s: Seq<(String, Value)>) -> bool {
    forall|i: int, j: int| 0 <= i < j < s.len() ==> s[i].0@ != s[j].0@
}

proof fn lemma_bindings_map_domain(s: Seq<(String, Value)>, name: Seq<char>)
    ensures
        bindings_map(s).contains_key(name) <==> exists|i: int|
            0 <= i < s.len() && #[trigger] s[i].0@ == name,
    decreases s.len(),
{
    if s.len() > 0 {
        lemma_bindings_map_domain(s.drop_last(), name);
        if bindings_map(s).contains_key(name) && s.last().0@ != name {
            let i = choose|i: int| 0 <= i < s.drop_last().len() && #[trigger] s.drop_last()[i].0@
                == name;
            assert(s[i].0@ == name);
        }
        if exists|i: int| 0 <= i < s.len() && #[trigger] s[i].0@ == name {
            let i = choose|i: int| 0 <= i < s.len() && #[trigger] s[i].0@ == name;
            if i < s.len() - 1 {
                assert(s.drop_last()[i].0@ == name);
            }
        }
    }
}

proof fn lemma_bindings_map_update(s: Seq<(String, Value)>, i: int, e: (String, Value))
    requires
        names_unique(s),
        0 <= i < s.len(),
        s[i].0@ == e.0@,
    ensures
        bindings_map(s.update(i, e)) == bindings_map(s).insert(e.0@, e.1@),
    decreases s.len(),
{
    let t = s.update(i, e);
    if i == s.len() - 1 {
        assert(t.drop_last() =~= s.drop_last());
        assert(bindings_map(t) =~= bindings_map(s).insert(e.0@, e.1@));
    } else {
        assert(names_unique(s.drop_last()));
        lemma_bindings_map_update(s.drop_last(), i, e);
        assert(t.drop_last() =~= s.drop_last().update(i, e));
        assert(s.last().0@ != e.0@);
        assert(bindings_map(t) =~= bindings_map(s).insert(e.0@, e.1@));
    }
}

impl Scope {
    #[verifier::type_invariant]
    spec fn inv(self) -> bool {
        names_unique(self.entries@)
    }

    /// The bindings, as a map from names to value models.
    pub closed spec fn view(&self) -> Map<Seq<char>, Val> {
        bindings_map(self.entries@)
    }

    /// No bindings.
    pub fn new() -> (r: Scope)
        ensures
            r.view() == Map::<Seq<char>, Val>::empty(),
    {
        Scope { entries: Vec::new() }
    }

    /// Binds a name to a value, replacing the value it had.
    pub fn insert(&mut self, name: String, value: Value)
        ensures
            final(self).view() == old(self).view().insert(name@, value@),
    {
        proof {
            use_type_invariant(&*self);
        }
        let n = self.entries.len();
        let mut i: usize = 0;
        while i < n
            invariant
                n == self.entries.len(),
                i <= n,
                names_unique(self.entries@),
                self.entries@ == old(self).entries@,
                forall|k: int| 0 <= k < i ==> self.entries@[k].0@ != name@,
            decreases n - i,
        {
            if self.entries[i].0 == name {
                let ghost old_entries = self.entries@;
                let ghost e = (name, value);
                proof {
                    lemma_bindings_map_update(old_entries, i as int, e);
                }
                let mut entries = Vec::new();
                std::mem::swap(&mut entries, &mut self.entries);
                entries.set(i, (name, value));
                assert(entries@ == old_entries.update(i as int, e));
                assert(names_unique(entries@)) by {
                    assert forall|a: int, b: int| 0 <= a < b < entries@.len() implies entries@[a].0@
                        != entries@[b].0@ by {
                        assert(entries@[a].0@ == old_entries[a].0@);
                        assert(entries@[b].0@ == old_entries[b].0@);
                    }
                }
                self.entries = entries;
                return;
            }
            i = i + 1;
        }
        let ghost old_entries = self.entries@;
        let mut entries = Vec::new();
        std::mem::swap(&mut entries, &mut self.entries);
        entries.push((name, value));
        assert(entries@.drop_last() =~= old_entries);
        assert(names_unique(entries@));
        self.entries = entries;
    }

    /// The value bound to a name.
    pub fn get(&self, name: &str) -> (r: Option<&Value>)
        ensures
            r is None <==> !self.view().contains_key(name@),
            r matches Some(v) ==> self.view()[name@] == v@,
    {
        proof {
            use_type_invariant(self);
            lemma_bindings_map_domain(self.entries@, name@);
        }
        let key = text(name);
        let n = self.entries.len();
        let mut i: usize = 0;
        while i < n
            invariant
                n == self.entries.len(),
                i <= n,
                key@ == name@,
                names_unique(self.entries@),
                forall|k: int| 0 <= k < i ==> self.entries@[k].0@ != name@,
            decreases n - i,
        {
            if self.entries[i].0 == key {
                proof {
                    let s = self.entries@;
                    let e = s[i as int];
                    lemma_bindings_map_update(s, i as int, e);
                    assert(s.update(i as int, e) =~= s);
                }
                return Some(&self.entries[i].1);
            }
            i = i + 1;
        }
        None
    }
}

/// The state of an interpreter that the libraries fill: its variables.
pub struct Interpreter {
    pub variables: Scope,
}

impl Interpreter {
    /// An interpreter with no variables.
    pub fn new() -> (r: Interpreter)
        ensures
            r.variables.view() == Map::<Seq<char>, Val>::empty(),
    {
        Interpreter { variables: Scope::new() }
    }
}

/// A native function value of `arity` parameters, all unnamed.
pub open spec fn native_value(arity: nat, b: Builtin) -> Val {
    Val::Func(Seq::new(arity, |i: int| Seq::<char>::empty()), FunctionBody::Native(b))
}

/// The variables after binding each name of a table to its native function,
/// in order.
pub open spec fn registered(
    m: Map<Seq<char>, Val>,
    table: Seq<(Seq<char>, nat, Builtin)>,
) -> Map<Seq<char>, Val>
    decreases table.len(),
{
    if table.len() == 0 {
        m
    } else {
        registered(m, table.drop_last()).insert(
            table.last().0,
            native_value(table.last().1, table.last().2),
        )
    }
}

/// The names of a table are distinct.
pub open spec fn table_names_unique(table: Seq<(Seq<char>, nat, Builtin)>) -> bool {
    forall|i: int, j: int| 0 <= i < j < table.len() ==> table[i].0 != table[j].0
}

/// After registering a table with distinct names, each of its names is bound to
/// its native function and every other name keeps its value.
pub proof fn law_registered(
    m: Map<Seq<char>, Val>,
    table: Seq<(Seq<char>, nat, Builtin)>,
    name: Seq<char>,
)
    requires
        table_names_unique(table),
    ensures
        forall|i: int|
            0 <= i < table.len() && #[trigger] table[i].0 == name ==> registered(m, table)[name]
                == native_value(table[i].1, table[i].2) && registered(m, table).contains_key(name),
        (forall|i: int| 0 <= i < table.len() ==> #[trigger] table[i].0 != name) ==> (registered(
            m,
            table,
        ).contains_key(name) == m.contains_key(name) && registered(m, table)[name] == m[name]),
    decreases table.len(),
{
    if table.len() > 0 {
        let t = table.drop_last();
        assert(table_names_unique(t));
        law_registered(m, t, name);
        assert forall|i: int| 0 <= i < table.len() && #[trigger] table[i].0 == name implies registered(
            m,
            table,
        )[name] == native_value(table[i].1, table[i].2) && registered(m, table).contains_key(
            name,
        ) by {
            if i < table.len() - 1 {
                assert(t[i].0 == name);
            }
        }
        if forall|i: int| 0 <= i < table.len() ==> #[trigger] table[i].0 != name {
            assert forall|i: int| 0 <= i < t.len() implies #[trigger] t[i].0 != name by {
                assert(table[i].0 != name);
            }
            assert(table[table.len() - 1].0 != name);
        }
    }
}

/// Binds `name` to a native function of `arity` unnamed parameters.
pub fn define_native(state: &mut Interpreter, name: &str, arity: usize, b: Builtin)
    ensures
        final(state).variables.view() == old(state).variables.view().insert(
            name@,
            native_value(arity as nat, b),
        ),
{
    let mut params: Vec<String> = Vec::new();
    let mut i: usize = 0;
    while i < arity
        invariant
            i <= arity,
            params.len() == i,
            forall|k: int| 0 <= k < i ==> #[trigger] params@[k]@ == Seq::<char>::empty(),
        decreases arity - i,
    {
        params.push(String::new());
        i = i + 1;
    }
    let v = Value::Function(params, FunctionBody::Native(b));
    assert(view_strings(params@) =~= Seq::new(arity as nat, |i: int| Seq::<char>::empty()));
    state.variables.insert(text(name), v);
}

/// Binds each name of a table to its native function, in order.
pub fn define_natives(state: &mut Interpreter, table: &Vec<(&str, usize, Builtin)>)
    ensures
        final(state).variables.view() == registered(
            old(state).variables.view(),
            table_view(table@),
        ),
{
    let ghost start = state.variables.view();
    let n = table.len();
    let mut i: usize = 0;
    while i < n
        invariant
            n == table.len(),
            i <= n,
            state.variables.view() == registered(start, table_view(table@).take(i as int)),
        decreases n - i,
    {
        let (name, arity, b) = table[i];
        define_native(state, name, arity, b);
        proof {
            let tv = table_view(table@);
            assert(tv.take(i + 1).drop_last() =~= tv.take(i as int));
        }
        i = i + 1;
    }
    proof {
        assert(table_view(table@).take(n as int) =~= table_view(table@));
    }
}

/// The model of a table of natives: names by their text, arities as numbers.
pub open spec fn table_view(t: Seq<(&str, usize, Builtin)>) -> Seq<(Seq<char>, nat, Builtin)> {
    t.map_values(|e: (&str, usize, Builtin)| (e.0@, e.1 as nat, e.2))
}

/// Registering a table with distinct names a second time changes nothing.
pub proof fn law_registered_twice(m: Map<Seq<char>, Val>, table: Seq<(Seq<char>, nat, Builtin)>)
    requires
        table_names_unique(table),
    ensures
        registered(registered(m, table), table) == registered(m, table),
{
    let once = registered(m, table);
    let twice = registered(once, table);
    assert forall|name: Seq<char>| #[trigger] twice.contains_key(name) == once.contains_key(name)
        && (once.contains_key(name) ==> twice[name] == once[name]) by {
        law_registered(m, table, name);
        law_registered(once, table, name);
        if exists|i: int| 0 <= i < table.len() && #[trigger] table[i].0 == name {
            let i = choose|i: int| 0 <= i < table.len() && #[trigger] table[i].0 == name;
            assert(table[i].0 == name);
        }
    }
    assert(twice =~= once);
}

/// Two tables with distinct names, no name in both: registering them gives the
/// same variables in either order.
pub proof fn law_registered_commute(
    m: Map<Seq<char>, Val>,
    a: Seq<(Seq<char>, nat, Builtin)>,
    b: Seq<(Seq<char>, nat, Builtin)>,
)
    requires
        table_names_unique(a),
        table_names_unique(b),
        forall|i: int, j: int| 0 <= i < a.len() && 0 <= j < b.len() ==> a[i].0 != b[j].0,
    ensures
        registered(registered(m, a), b) == registered(registered(m, b), a),
{
    let ab = registered(registered(m, a), b);
    let ba = registered(registered(m, b), a);
    assert forall|name: Seq<char>| #[trigger] ab.contains_key(name) == ba.contains_key(name)
        && (ab.contains_key(name) ==> ab[name] == ba[name]) by {
        law_registered(m, a, name);
        law_registered(m, b, name);
        law_registered(registered(m, a), b, name);
        law_registered(registered(m, b), a, name);
        if exists|j: int| 0 <= j < b.len() && #[trigger] b[j].0 == name {
            let j = choose|j: int| 0 <= j < b.len() && #[trigger] b[j].0 == name;
            assert(b[j].0 == name);
            assert forall|i: int| 0 <= i < a.len() implies #[trigger] a[i].0 != name by {
                assert(a[i].0 != b[j].0);
            }
        } else if exists|i: int| 0 <= i < a.len() && #[trigger] a[i].0 == name {
            let i = choose|i: int| 0 <= i < a.len() && #[trigger] a[i].0 == name;
            assert(a[i].0 == name);
        }
    }
    assert(ab =~= ba);
}

} // verus!
