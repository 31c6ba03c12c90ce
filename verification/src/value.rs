//! Runtime values and name bindings, with their models.
use vstd::prelude::*;
use crate::ast::{Expr, SpecExpr, strings_model, copy_strings, copy_expr};

verus! {

/// A runtime value. Numbers are IEEE-754 binary64 bit patterns; a function
/// value names the environment it captured by its index in the store.
#[derive(Debug)]
pub enum Value {
    Number(u64),
    Bool(bool),
    String(String),
    Tuple(Vec<Value>),
    Function { args: Vec<String>, body: Expr, captured_env: usize },
    Module(Bindings),
    RecurSignal(Vec<Value>),
    NoneValue,
}

/// A finite map from names to values, kept as a list of entries in which
/// each name occurs at most once.
#[derive(Debug)]
pub struct Bindings {
    pub entries: Vec<(String, Value)>,
}

/// Model of [`Value`].
pub enum SpecValue {
    Number(u64),
    Bool(bool),
    Str(Seq<char>),
    Tuple(Seq<SpecValue>),
    Function { args: Seq<Seq<char>>, body: SpecExpr, env: usize },
    Module(Seq<(Seq<char>, SpecValue)>),
    Recur(Seq<SpecValue>),
    NoneValue,
}

/// Model of [`Bindings`]: the entry list.
pub type SpecBindings = Seq<(Seq<char>, SpecValue)>;

impl Value {
    pub open spec fn model(&self) -> SpecValue
        decreases self,
    {
        match self {
            Value::Number(n) => SpecValue::Number(*n),
            Value::Bool(b) => SpecValue::Bool(*b),
            Value::String(s) => SpecValue::Str(s@),
            Value::Tuple(v) => SpecValue::Tuple(
                Seq::new(
                    v@.len(),
                    |i: int|
                        if 0 <= i < v@.len() {
                            proof {
                                broadcast use vstd::std_specs::vec::axiom_vec_index_decreases;

                                assert(decreases_to!(*v => v[i]));
                            }
                            v@[i].model()
                        } else {
                            SpecValue::NoneValue
                        },
                ),
            ),
            Value::Function { args, body, captured_env } => SpecValue::Function {
                args: strings_model(args@),
                body: body.model(),
                env: *captured_env,
            },
            Value::Module(b) => SpecValue::Module(b.model()),
            Value::RecurSignal(v) => SpecValue::Recur(
                Seq::new(
                    v@.len(),
                    |i: int|
                        if 0 <= i < v@.len() {
                            proof {
                                broadcast use vstd::std_specs::vec::axiom_vec_index_decreases;

                                assert(decreases_to!(*v => v[i]));
                            }
                            v@[i].model()
                        } else {
                            SpecValue::NoneValue
                        },
                ),
            ),
            Value::NoneValue => SpecValue::NoneValue,
        }
    }
}

impl Bindings {
    pub open spec fn model(&self) -> SpecBindings
        decreases self,
    {
        Seq::new(
            self.entries@.len(),
            |i: int|
                if 0 <= i < self.entries@.len() {
                    proof {
                        broadcast use vstd::std_specs::vec::axiom_vec_index_decreases;

                        assert(decreases_to!(self.entries => self.entries[i]));
                        assert(decreases_to!(self.entries[i] => self.entries[i].1));
                    }
                    (self.entries@[i].0@, self.entries@[i].1.model())
                } else {
                    (Seq::empty(), SpecValue::NoneValue)
                },
        )
    }
}

pub open spec fn values_model(v: Seq<Value>) -> Seq<SpecValue> {
    Seq::new(v.len(), |i: int| v[i].model())
}

/// The model of a tuple is the tuple of the models of its elements.
pub proof fn lemma_tuple_model(v: Vec<Value>)
    ensures
        Value::Tuple(v).model() == SpecValue::Tuple(values_model(v@)),
        Value::RecurSignal(v).model() == SpecValue::Recur(values_model(v@)),
{
    if let SpecValue::Tuple(x) = Value::Tuple(v).model() {
        assert(x =~= values_model(v@));
    }
    if let SpecValue::Recur(x) = Value::RecurSignal(v).model() {
        assert(x =~= values_model(v@));
    }
}

// ---------------------------------------------------------------------
// Bindings as a map
/// Index of the first entry named `k` at or after `i`.
pub open spec fn find_from(b: SpecBindings, k: Seq<char>, i: int) -> Option<int>
    decreases b.len() - i,
{
    if i < 0 || i >= b.len() {
        None
    } else if b[i].0 == k {
        Some(i)
    } else {
        find_from(b, k, i + 1)
    }
}

pub open spec fn bind_find(b: SpecBindings, k: Seq<char>) -> Option<int> {
    find_from(b, k, 0)
}

/// The value bound to `k`, if any.
pub open spec fn bind_get(b: SpecBindings, k: Seq<char>) -> Option<SpecValue> {
    match bind_find(b, k) {
        Some(i) => Some(b[i].1),
        None => None,
    }
}

/// The bindings with `k` bound to `v` (replacing an earlier binding of `k`).
pub open spec fn bind_insert(b: SpecBindings, k: Seq<char>, v: SpecValue) -> SpecBindings {
    match bind_find(b, k) {
        Some(i) => b.update(i, (k, v)),
        None => b.push((k, v)),
    }
}

/// No name is bound twice.
pub open spec fn keys_distinct(b: SpecBindings) -> bool {
    forall|i: int, j: int| 0 <= i < b.len() && 0 <= j < b.len() && i != j ==> b[i].0 != b[j].0
}

/// The map that the bindings denote.
pub open spec fn bind_map(b: SpecBindings) -> Map<Seq<char>, SpecValue> {
    Map::new(|k: Seq<char>| bind_find(b, k) is Some, |k: Seq<char>| bind_get(b, k).unwrap())
}

pub proof fn lemma_find_from(b: SpecBindings, k: Seq<char>, i: int)
    requires
        0 <= i <= b.len(),
    ensures
        find_from(b, k, i) matches Some(j) ==> i <= j < b.len() && b[j].0 == k && (forall|m: int|
            i <= m < j ==> b[m].0 != k),
        find_from(b, k, i) is None ==> forall|m: int| i <= m < b.len() ==> b[m].0 != k,
    decreases b.len() - i,
{
    if i < b.len() && b[i].0 != k {
        lemma_find_from(b, k, i + 1);
    }
}

pub proof fn lemma_bind_find(b: SpecBindings, k: Seq<char>)
    ensures
        bind_find(b, k) matches Some(j) ==> 0 <= j < b.len() && b[j].0 == k && (forall|m: int|
            0 <= m < j ==> b[m].0 != k),
        bind_find(b, k) is None ==> forall|m: int| 0 <= m < b.len() ==> b[m].0 != k,
{
    lemma_find_from(b, k, 0);
}

/// Reading a name back after binding it gives the bound value; other
/// names are unaffected.
pub proof fn law_bind_insert_get(b: SpecBindings, k: Seq<char>, v: SpecValue, k2: Seq<char>)
    ensures
        bind_get(bind_insert(b, k, v), k2) == if k2 == k {
            Some(v)
        } else {
            bind_get(b, k2)
        },
{
    lemma_bind_find(b, k);
    lemma_bind_find(b, k2);
    let b2 = bind_insert(b, k, v);
    lemma_bind_find(b2, k2);
    assert(b2.len() >= b.len());
    assert(forall|m: int| 0 <= m < b.len() && b[m].0 != k ==> b2[m] == b[m]);
    match bind_find(b, k) {
        Some(i) => {
            assert(b2[i] == (k, v));
            if k2 == k {
                assert(bind_find(b2, k2) == Some(i));
            } else {
                match bind_find(b, k2) {
                    Some(j) => {
                        assert(bind_find(b2, k2) == Some(j));
                    },
                    None => {},
                }
            }
        },
        None => {
            assert(b2[b.len() as int] == (k, v));
            if k2 == k {
                assert(bind_find(b2, k2) == Some(b.len() as int));
            } else {
                match bind_find(b, k2) {
                    Some(j) => {
                        assert(bind_find(b2, k2) == Some(j));
                    },
                    None => {},
                }
            }
        },
    }
}

/// Binding never makes a name occur twice.
pub proof fn law_bind_insert_distinct(b: SpecBindings, k: Seq<char>, v: SpecValue)
    requires
        keys_distinct(b),
    ensures
        keys_distinct(bind_insert(b, k, v)),
{
    lemma_bind_find(b, k);
}

/// As a map, binding is map insertion.
pub proof fn law_bind_insert_map(b: SpecBindings, k: Seq<char>, v: SpecValue)
    ensures
        bind_map(bind_insert(b, k, v)) == bind_map(b).insert(k, v),
{
    let m1 = bind_map(bind_insert(b, k, v));
    let m2 = bind_map(b).insert(k, v);
    assert forall|k2: Seq<char>| #[trigger] m1.contains_key(k2) == m2.contains_key(k2) by {
        law_bind_insert_get(b, k, v, k2);
    }
    assert forall|k2: Seq<char>| m1.contains_key(k2) implies #[trigger] m1[k2] == m2[k2] by {
        law_bind_insert_get(b, k, v, k2);
    }
    assert(m1 =~= m2);
}

// ---------------------------------------------------------------------
// Executable operations
impl Bindings {
    /// No bindings.
    pub fn new() -> (r: Bindings)
        ensures
            r.model() == Seq::<(Seq<char>, SpecValue)>::empty(),
            keys_distinct(r.model()),
    {
        let r = Bindings { entries: Vec::new() };
        assert(r.model() =~= Seq::<(Seq<char>, SpecValue)>::empty());
        r
    }

    /// Number of names bound.
    pub fn len(&self) -> (r: usize)
        ensures
            r == self.model().len(),
    {
        self.entries.len()
    }

    /// Position of the entry for `k`.
    pub fn find(&self, k: &String) -> (r: Option<usize>)
        ensures
            r matches Some(i) ==> bind_find(self.model(), k@) == Some(i as int),
            r is None ==> bind_find(self.model(), k@) is None,
    {
        let mut i: usize = 0;
        while i < self.entries.len()
            invariant
                i <= self.entries@.len(),
                find_from(self.model(), k@, i as int) == bind_find(self.model(), k@),
            decreases self.entries@.len() - i,
        {
            assert(self.model()[i as int].0 == self.entries@[i as int].0@);
            if self.entries[i].0 == *k {
                return Some(i);
            }
            i = i + 1;
        }
        None
    }

    /// A copy of the value bound to `k`.
    pub fn get(&self, k: &String) -> (r: Option<Value>)
        ensures
            r matches Some(v) ==> bind_get(self.model(), k@) == Some(v.model()),
            r is None ==> bind_get(self.model(), k@) is None,
    {
        match self.find(k) {
            Some(i) => {
                proof {
                    lemma_bind_find(self.model(), k@);
                }
                assert(self.model()[i as int].1 == self.entries@[i as int].1.model());
                Some(copy_value(&self.entries[i].1))
            },
            None => None,
        }
    }

    /// Binds `k` to `v`.
    pub fn insert(&mut self, k: String, v: Value)
        ensures
            final(self).model() == bind_insert(old(self).model(), k@, v.model()),
            keys_distinct(old(self).model()) ==> keys_distinct(final(self).model()),
    {
        let ghost kk = k@;
        let ghost vv = v.model();
        proof {
            lemma_bind_find(self.model(), kk);
            if keys_distinct(self.model()) {
                law_bind_insert_distinct(self.model(), kk, vv);
            }
        }
        match self.find(&k) {
            Some(i) => {
                self.entries.set(i, (k, v));
                assert(self.model() =~= bind_insert(old(self).model(), kk, vv));
            },
            None => {
                self.entries.push((k, v));
                assert(self.model() =~= bind_insert(old(self).model(), kk, vv));
            },
        }
    }
}

/// A deep copy of a list of values.
pub fn copy_values(v: &Vec<Value>) -> (r: Vec<Value>)
    ensures
        values_model(r@) == values_model(v@),
    decreases v,
{
    let mut out: Vec<Value> = Vec::new();
    let mut i: usize = 0;
    while i < v.len()
        invariant
            i <= v.len(),
            out@.len() == i,
            forall|j: int| 0 <= j < i ==> #[trigger] out@[j].model() == v@[j].model(),
        decreases v.len() - i,
    {
        proof {
            broadcast use vstd::std_specs::vec::axiom_vec_index_decreases;

            assert(decreases_to!(*v => v[i as int]));
        }
        out.push(copy_value(&v[i]));
        i = i + 1;
    }
    assert(values_model(out@) =~= values_model(v@));
    out
}

/// A deep copy of a set of bindings.
pub fn copy_bindings(b: &Bindings) -> (r: Bindings)
    ensures
        r.model() == b.model(),
    decreases b,
{
    let mut out: Vec<(String, Value)> = Vec::new();
    let mut i: usize = 0;
    while i < b.entries.len()
        invariant
            i <= b.entries@.len(),
            out@.len() == i,
            forall|j: int|
                0 <= j < i ==> #[trigger] out@[j].0@ == b.entries@[j].0@ && out@[j].1.model()
                    == b.entries@[j].1.model(),
        decreases b.entries@.len() - i,
    {
        proof {
            broadcast use vstd::std_specs::vec::axiom_vec_index_decreases;

            assert(decreases_to!(b.entries => b.entries[i as int]));
            assert(decreases_to!(b.entries[i as int] => b.entries[i as int].1));
        }
        let v = copy_value(&b.entries[i].1);
        out.push((b.entries[i].0.clone(), v));
        i = i + 1;
    }
    let r = Bindings { entries: out };
    assert(r.model() =~= b.model());
    r
}

/// A deep copy of a value.
pub fn copy_value(v: &Value) -> (r: Value)
    ensures
        r.model() == v.model(),
    decreases v,
{
    let r = match v {
        Value::Number(n) => Value::Number(*n),
        Value::Bool(b) => Value::Bool(*b),
        Value::String(s) => Value::String(s.clone()),
        Value::Tuple(t) => Value::Tuple(copy_values(t)),
        Value::Function { args, body, captured_env } => Value::Function {
            args: copy_strings(args),
            body: copy_expr(body),
            captured_env: *captured_env,
        },
        Value::Module(b) => Value::Module(copy_bindings(b)),
        Value::RecurSignal(t) => Value::RecurSignal(copy_values(t)),
        Value::NoneValue => Value::NoneValue,
    };
    proof {
        match (&r, v) {
            (Value::Tuple(a), Value::Tuple(b)) => {
                assert(values_model(a@) == values_model(b@));
                if let (SpecValue::Tuple(x), SpecValue::Tuple(y)) = (r.model(), v.model()) {
                    assert forall|j: int| 0 <= j < x.len() implies x[j] == y[j] by {
                        assert(values_model(a@)[j] == values_model(b@)[j]);
                    }
                    assert(x =~= y);
                }
            },
            (Value::RecurSignal(a), Value::RecurSignal(b)) => {
                assert(values_model(a@) == values_model(b@));
                if let (SpecValue::Recur(x), SpecValue::Recur(y)) = (r.model(), v.model()) {
                    assert forall|j: int| 0 <= j < x.len() implies x[j] == y[j] by {
                        assert(values_model(a@)[j] == values_model(b@)[j]);
                    }
                    assert(x =~= y);
                }
            },
            _ => {},
        }
    }
    r
}

} // verus!
