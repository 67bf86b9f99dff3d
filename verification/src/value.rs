//! The values that XMLangEE programs compute with, and their mathematical model.
use vstd::prelude::*;
use crate::dicts::keys_unique;

verus! {

/// The native functions that the built-in libraries provide.
#[derive(Clone, Copy, PartialEq, Eq, Structural, Debug)]
pub enum Builtin {
    Print,
    Println,
    Flush,
    Range,
    Join,
    Concat,
    Split,
    SplitAt,
    ArrayModify,
    ArrayRemove,
    Substr,
    Len,
    Input,
    Chr,
    Ord,
    Radix,
    Sleep,
    Time,
    Type,
    Hash,
    DictMerge,
    DictSet,
    DictGet,
    DictRemove,
    DictHas,
    DictKeys,
    DictValues,
    DictItems,
    Rand,
    Guid,
    RandStr,
    Shuffle,
    Choice,
    Sample,
    CryptoHash,
    CryptoHmac,
    BcryptHash,
    BcryptVerify,
}

/// What a function value runs when it is called.
#[derive(Clone, Copy, PartialEq, Eq, Structural, Debug)]
pub enum FunctionBody {
    Native(Builtin),
}

/// A run-time value. A float is held by its IEEE-754 bit pattern: the library
/// carries floats through and never computes with them.
#[derive(Debug)]
pub enum Value {
    Integer(i64),
    Float(u64),
    Boolean(bool),
    String(String),
    Array(Vec<Value>),
    Dictionary(Dict),
    SetValue(ValueSet),
    Function(Vec<String>, FunctionBody),
    Null,
    Break,
    Continue,
}

/// A dictionary: key-value entries in insertion order, no key twice.
#[derive(Debug)]
pub struct Dict {
    pub(crate) entries: Vec<(Value, Value)>,
}

/// A set: elements in insertion order, no element twice.
#[derive(Debug)]
pub struct ValueSet {
    pub(crate) items: Vec<Value>,
}

/// The error that a failing native function reports.
#[derive(Debug)]
pub enum LangError {
    RuntimeError(String),
}

/// The mathematical model of a value.
pub enum Val {
    Int(i64),
    Float(u64),
    Bool(bool),
    Str(Seq<char>),
    Arr(Seq<Val>),
    Dict(Seq<(Val, Val)>),
    SetOf(Seq<Val>),
    Func(Seq<Seq<char>>, FunctionBody),
    Null,
    Break,
    Continue,
}

impl Value {
    /// The value's model.
    pub open(crate) spec fn model(self) -> Val
        decreases self,
    {
        match self {
            Value::Integer(i) => Val::Int(i),
            Value::Float(b) => Val::Float(b),
            Value::Boolean(b) => Val::Bool(b),
            Value::String(s) => Val::Str(s@),
            Value::Array(v) => Val::Arr(view_seq(v@)),
            Value::Dictionary(d) => Val::Dict(view_entries(d.entries@)),
            Value::SetValue(s) => Val::SetOf(view_seq(s.items@)),
            Value::Function(p, body) => Val::Func(view_strings(p@), body),
            Value::Null => Val::Null,
            Value::Break => Val::Break,
            Value::Continue => Val::Continue,
        }
    }
}

/// The models of a sequence of values, element by element.
pub open spec fn view_seq(s: Seq<Value>) -> Seq<Val>
    decreases s,
{
    if s.len() == 0 {
        Seq::empty()
    } else {
        view_seq(s.drop_last()).push(s.last().model())
    }
}

/// The models of a sequence of key-value entries, entry by entry.
pub open spec fn view_entries(s: Seq<(Value, Value)>) -> Seq<(Val, Val)>
    decreases s,
{
    if s.len() == 0 {
        Seq::empty()
    } else {
        view_entries(s.drop_last()).push((s.last().0.model(), s.last().1.model()))
    }
}

/// The texts of a sequence of strings.
pub open spec fn view_strings(s: Seq<String>) -> Seq<Seq<char>> {
    s.map_values(|x: String| x@)
}

impl View for Value {
    type V = Val;

    open spec fn view(&self) -> Val {
        self.model()
    }
}

impl View for Dict {
    type V = Seq<(Val, Val)>;

    open(crate) spec fn view(&self) -> Seq<(Val, Val)> {
        view_entries(self.entries@)
    }
}

impl Dict {
    /// No key has two entries.
    #[verifier::type_invariant]
    pub(crate) open spec fn inv(self) -> bool {
        keys_unique(view_entries(self.entries@))
    }
}

impl ValueSet {
    /// No element occurs twice.
    #[verifier::type_invariant]
    pub(crate) open spec fn inv(self) -> bool {
        view_seq(self.items@).no_duplicates()
    }
}

impl View for ValueSet {
    type V = Seq<Val>;

    open(crate) spec fn view(&self) -> Seq<Val> {
        view_seq(self.items@)
    }
}

pub proof fn lemma_view_seq(s: Seq<Value>)
    ensures
        view_seq(s).len() == s.len(),
        forall|i: int| 0 <= i < s.len() ==> #[trigger] view_seq(s)[i] == s[i].model(),
    decreases s.len(),
{
    if s.len() > 0 {
        lemma_view_seq(s.drop_last());
    }
}

pub proof fn lemma_view_entries(s: Seq<(Value, Value)>)
    ensures
        view_entries(s).len() == s.len(),
        forall|i: int|
            0 <= i < s.len() ==> #[trigger] view_entries(s)[i] == (s[i].0.model(), s[i].1.model()),
    decreases s.len(),
{
    if s.len() > 0 {
        lemma_view_entries(s.drop_last());
    }
}

impl Value {
    /// Structural equality: the two values have the same model.
    pub fn equals(&self, other: &Value) -> (r: bool)
        ensures
            r == (self@ == other@),
        decreases self,
    {
        match self {
            Value::Integer(a) => match other {
                Value::Integer(b) => *a == *b,
                _ => false,
            },
            Value::Float(a) => match other {
                Value::Float(b) => *a == *b,
                _ => false,
            },
            Value::Boolean(a) => match other {
                Value::Boolean(b) => *a == *b,
                _ => false,
            },
            Value::String(a) => match other {
                Value::String(b) => *a == *b,
                _ => false,
            },
            Value::Array(a) => match other {
                Value::Array(b) => values_equal(a, b),
                _ => false,
            },
            Value::Dictionary(a) => match other {
                Value::Dictionary(b) => entries_equal(&a.entries, &b.entries),
                _ => false,
            },
            Value::SetValue(a) => match other {
                Value::SetValue(b) => values_equal(&a.items, &b.items),
                _ => false,
            },
            Value::Function(pa, ba) => match other {
                Value::Function(pb, bb) => *ba == *bb && strings_equal(pa, pb),
                _ => false,
            },
            Value::Null => match other {
                Value::Null => true,
                _ => false,
            },
            Value::Break => match other {
                Value::Break => true,
                _ => false,
            },
            Value::Continue => match other {
                Value::Continue => true,
                _ => false,
            },
        }
    }

    /// A copy of the value with the same model.
    pub fn copy(&self) -> (r: Value)
        ensures
            r@ == self@,
        decreases self,
    {
        match self {
            Value::Integer(i) => Value::Integer(*i),
            Value::Float(b) => Value::Float(*b),
            Value::Boolean(b) => Value::Boolean(*b),
            Value::String(s) => Value::String(s.clone()),
            Value::Array(v) => Value::Array(copy_values(v)),
            Value::Dictionary(d) => {
                proof {
                    use_type_invariant(d);
                }
                Value::Dictionary(Dict { entries: copy_entries(&d.entries) })
            },
            Value::SetValue(s) => {
                proof {
                    use_type_invariant(s);
                }
                Value::SetValue(ValueSet { items: copy_values(&s.items) })
            },
            Value::Function(p, body) => Value::Function(copy_strings(p), *body),
            Value::Null => Value::Null,
            Value::Break => Value::Break,
            Value::Continue => Value::Continue,
        }
    }
}

/// Element-wise equality of two sequences of values.
pub fn values_equal(a: &Vec<Value>, b: &Vec<Value>) -> (r: bool)
    ensures
        r == (view_seq(a@) == view_seq(b@)),
    decreases a,
{
    proof {
        lemma_view_seq(a@);
        lemma_view_seq(b@);
    }
    if a.len() != b.len() {
        return false;
    }
    let n = a.len();
    let mut i: usize = 0;
    while i < n
        invariant
            n == a.len(),
            n == b.len(),
            i <= n,
            view_seq(a@).len() == n,
            view_seq(b@).len() == n,
            forall|k: int| 0 <= k < a@.len() ==> #[trigger] view_seq(a@)[k] == a@[k].model(),
            forall|k: int| 0 <= k < b@.len() ==> #[trigger] view_seq(b@)[k] == b@[k].model(),
            forall|k: int| 0 <= k < i ==> view_seq(a@)[k] == view_seq(b@)[k],
        decreases n - i,
    {
        if !a[i].equals(&b[i]) {
            assert(view_seq(a@)[i as int] != view_seq(b@)[i as int]);
            return false;
        }
        i = i + 1;
    }
    assert(view_seq(a@) =~= view_seq(b@));
    true
}

/// Entry-wise equality of two sequences of key-value entries.
pub fn entries_equal(a: &Vec<(Value, Value)>, b: &Vec<(Value, Value)>) -> (r: bool)
    ensures
        r == (view_entries(a@) == view_entries(b@)),
    decreases a,
{
    proof {
        lemma_view_entries(a@);
        lemma_view_entries(b@);
    }
    if a.len() != b.len() {
        return false;
    }
    let n = a.len();
    let mut i: usize = 0;
    while i < n
        invariant
            n == a.len(),
            n == b.len(),
            i <= n,
            view_entries(a@).len() == n,
            view_entries(b@).len() == n,
            forall|k: int|
                0 <= k < a@.len() ==> #[trigger] view_entries(a@)[k] == (
                    a@[k].0.model(),
                    a@[k].1.model(),
                ),
            forall|k: int|
                0 <= k < b@.len() ==> #[trigger] view_entries(b@)[k] == (
                    b@[k].0.model(),
                    b@[k].1.model(),
                ),
            forall|k: int| 0 <= k < i ==> view_entries(a@)[k] == view_entries(b@)[k],
        decreases n - i,
    {
        let same_key = a[i].0.equals(&b[i].0);
        let same_value = a[i].1.equals(&b[i].1);
        if !same_key || !same_value {
            assert(view_entries(a@)[i as int] != view_entries(b@)[i as int]);
            return false;
        }
        i = i + 1;
    }
    assert(view_entries(a@) =~= view_entries(b@));
    true
}

/// Element-wise equality of two sequences of strings.
pub fn strings_equal(a: &Vec<String>, b: &Vec<String>) -> (r: bool)
    ensures
        r == (view_strings(a@) == view_strings(b@)),
{
    if a.len() != b.len() {
        assert(view_strings(a@).len() != view_strings(b@).len());
        return false;
    }
    let n = a.len();
    let mut i: usize = 0;
    while i < n
        invariant
            n == a.len(),
            n == b.len(),
            i <= n,
            forall|k: int| 0 <= k < i ==> a@[k]@ == b@[k]@,
        decreases n - i,
    {
        if a[i] != b[i] {
            assert(view_strings(a@)[i as int] != view_strings(b@)[i as int]);
            return false;
        }
        i = i + 1;
    }
    assert(view_strings(a@) =~= view_strings(b@));
    true
}

/// A copy of a sequence of values.
pub fn copy_values(v: &Vec<Value>) -> (r: Vec<Value>)
    ensures
        view_seq(r@) == view_seq(v@),
        r.len() == v.len(),
    decreases v,
{
    proof {
        lemma_view_seq(v@);
    }
    let mut out: Vec<Value> = Vec::new();
    let n = v.len();
    let mut i: usize = 0;
    while i < n
        invariant
            n == v.len(),
            i <= n,
            out.len() == i,
            forall|k: int| 0 <= k < v@.len() ==> #[trigger] view_seq(v@)[k] == v@[k].model(),
            forall|k: int| 0 <= k < i ==> #[trigger] out@[k].model() == v@[k].model(),
        decreases n - i,
    {
        let c = v[i].copy();
        out.push(c);
        i = i + 1;
    }
    proof {
        lemma_view_seq(out@);
        assert(view_seq(out@) =~= view_seq(v@));
    }
    out
}

/// A copy of a sequence of key-value entries.
pub fn copy_entries(v: &Vec<(Value, Value)>) -> (r: Vec<(Value, Value)>)
    ensures
        view_entries(r@) == view_entries(v@),
        r.len() == v.len(),
    decreases v,
{
    proof {
        lemma_view_entries(v@);
    }
    let mut out: Vec<(Value, Value)> = Vec::new();
    let n = v.len();
    let mut i: usize = 0;
    while i < n
        invariant
            n == v.len(),
            i <= n,
            out.len() == i,
            forall|k: int|
                0 <= k < v@.len() ==> #[trigger] view_entries(v@)[k] == (
                    v@[k].0.model(),
                    v@[k].1.model(),
                ),
            forall|k: int|
                0 <= k < i ==> #[trigger] out@[k].0.model() == v@[k].0.model() && out@[k].1.model()
                    == v@[k].1.model(),
        decreases n - i,
    {
        let key = v[i].0.copy();
        let value = v[i].1.copy();
        out.push((key, value));
        i = i + 1;
    }
    proof {
        lemma_view_entries(out@);
        assert(view_entries(out@) =~= view_entries(v@));
    }
    out
}

/// A copy of a sequence of strings.
pub fn copy_strings(v: &Vec<String>) -> (r: Vec<String>)
    ensures
        view_strings(r@) == view_strings(v@),
{
    let mut out: Vec<String> = Vec::new();
    let n = v.len();
    let mut i: usize = 0;
    while i < n
        invariant
            n == v.len(),
            i <= n,
            out.len() == i,
            forall|k: int| 0 <= k < i ==> #[trigger] out@[k]@ == v@[k]@,
        decreases n - i,
    {
        out.push(v[i].clone());
        i = i + 1;
    }
    assert(view_strings(out@) =~= view_strings(v@));
    out
}

pub proof fn lemma_view_seq_push(s: Seq<Value>, v: Value)
    ensures
        view_seq(s.push(v)) == view_seq(s).push(v.model()),
{
    assert(s.push(v).drop_last() =~= s);
}

/// What a native function gives back: a value, nothing, or an error message.
pub open spec fn reply_view(r: Result<Option<Value>, LangError>) -> Result<Option<Val>, Seq<char>> {
    match r {
        Ok(Some(v)) => Ok(Some(v@)),
        Ok(None) => Ok(None),
        Err(LangError::RuntimeError(m)) => Err(m@),
    }
}

/// A failure with the given message.
pub fn fail(msg: String) -> (r: Result<Option<Value>, LangError>)
    ensures
        reply_view(r) == Err::<Option<Val>, Seq<char>>(msg@),
{
    Err(LangError::RuntimeError(msg))
}

/// A success with the given value.
pub fn give(v: Value) -> (r: Result<Option<Value>, LangError>)
    ensures
        reply_view(r) == Ok::<Option<Val>, Seq<char>>(Some(v@)),
{
    Ok(Some(v))
}

impl ValueSet {
    /// A set with no elements.
    pub fn new() -> (r: ValueSet)
        ensures
            r@ == Seq::<Val>::empty(),
    {
        ValueSet { items: Vec::new() }
    }

    /// Adds an element that the set does not hold yet; an equal element
    /// already there keeps the set as it was.
    pub fn insert(&mut self, v: Value)
        ensures
            final(self)@ == if old(self)@.contains(v@) {
                old(self)@
            } else {
                old(self)@.push(v@)
            },
    {
        proof {
            use_type_invariant(&*self);
            lemma_view_seq(self.items@);
        }
        let n = self.items.len();
        let mut i: usize = 0;
        while i < n
            invariant
                n == self.items.len(),
                i <= n,
                self.items@ == old(self).items@,
                view_seq(self.items@).len() == n,
                forall|k: int| 0 <= k < n ==> #[trigger] view_seq(self.items@)[k] == self.items@[k]@,
                forall|k: int| 0 <= k < i ==> view_seq(self.items@)[k] != v@,
            decreases n - i,
        {
            if self.items[i].equals(&v) {
                assert(view_seq(self.items@)[i as int] == v@);
                return;
            }
            i = i + 1;
        }
        let ghost before = view_seq(self.items@);
        assert(!before.contains(v@));
        let mut items: Vec<Value> = Vec::new();
        std::mem::swap(&mut items, &mut self.items);
        items.push(v);
        proof {
            lemma_view_seq(items@);
            assert(items@.drop_last() =~= old(self).items@);
            assert(view_seq(items@) =~= before.push(v@));
        }
        self.items = items;
    }

    /// The elements, in insertion order.
    pub fn items(&self) -> (r: &Vec<Value>)
        ensures
            view_seq(r@) == self@,
    {
        &self.items
    }
}

} // verus!
