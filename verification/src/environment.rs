//! Scopes. All environments live in one store (a vector); an environment
//! names its enclosing scope, and a function value its captured scope, by
//! index into that store, so that a scope is shared by everything that
//! refers to it and sees later bindings made in it.
use vstd::prelude::*;
use crate::value::{Bindings, SpecBindings, SpecValue, Value, bind_get, bind_insert, law_bind_insert_get};
use crate::host::{Answer, HostLog};

verus! {

/// A scope: its own bindings and the index of its enclosing scope.
#[derive(Debug)]
pub struct Environment {
    pub variables: Bindings,
    pub parent: Option<usize>,
}

/// Model of [`Environment`].
pub struct SpecEnv {
    pub vars: SpecBindings,
    pub parent: Option<usize>,
}

impl Environment {
    pub open spec fn model(&self) -> SpecEnv {
        SpecEnv { vars: self.variables.model(), parent: self.parent }
    }

    /// An empty scope with no enclosing scope.
    pub fn new() -> (r: Environment)
        ensures
            r.model() == (SpecEnv { vars: Seq::empty(), parent: None }),
    {
        Environment { variables: Bindings::new(), parent: None }
    }

    /// Looks `name` up in this scope, then in the enclosing scopes of the
    /// store `store`.
    pub fn get(&self, store: &Vec<Environment>, name: &String) -> (r: Option<Value>)
        ensures
            r matches Some(v) ==> env_get(self.model(), envs_model(store@), name@) == Some(v.model()),
            r is None ==> env_get(self.model(), envs_model(store@), name@) is None,
    {
        match self.variables.get(name) {
            Some(v) => Some(v),
            None => match self.parent {
                Some(p) => lookup_in(store, p, name, store.len()),
                None => None,
            },
        }
    }
}

pub open spec fn envs_model(v: Seq<Environment>) -> Seq<SpecEnv> {
    Seq::new(v.len(), |i: int| v[i].model())
}

/// The value of `k` seen from scope `idx` of `envs`: its own binding, or
/// else the one seen from its enclosing scope, following at most `steps`
/// scopes. Every link to a scope of the store is followed; a chain of
/// enclosing scopes that the interpreter builds never comes back to a scope,
/// so it has at most as many scopes as the store.
pub open spec fn lookup(envs: Seq<SpecEnv>, idx: int, k: Seq<char>, steps: nat) -> Option<SpecValue>
    decreases steps,
{
    if steps == 0 || !(0 <= idx < envs.len()) {
        None
    } else {
        match bind_get(envs[idx].vars, k) {
            Some(v) => Some(v),
            None => match envs[idx].parent {
                Some(p) => lookup(envs, p as int, k, (steps - 1) as nat),
                None => None,
            },
        }
    }
}

/// The value of `k` seen from scope `e`, whose enclosing scopes are in
/// `envs`.
pub open spec fn env_get(e: SpecEnv, envs: Seq<SpecEnv>, k: Seq<char>) -> Option<SpecValue> {
    match bind_get(e.vars, k) {
        Some(v) => Some(v),
        None => match e.parent {
            Some(p) => lookup(envs, p as int, k, envs.len()),
            None => None,
        },
    }
}

/// The value of `k` seen from scope `idx` of the store.
pub open spec fn scope_get(envs: Seq<SpecEnv>, idx: int, k: Seq<char>) -> Option<SpecValue> {
    if 0 <= idx < envs.len() {
        env_get(envs[idx], envs, k)
    } else {
        None
    }
}

/// Lookup along the chain of enclosing scopes starting at `idx`, through
/// at most `steps` scopes.
fn lookup_in(store: &Vec<Environment>, idx: usize, name: &String, steps: usize) -> (r: Option<Value>)
    ensures
        r matches Some(v) ==> lookup(envs_model(store@), idx as int, name@, steps as nat) == Some(v.model()),
        r is None ==> lookup(envs_model(store@), idx as int, name@, steps as nat) is None,
    decreases steps,
{
    if steps == 0 || idx >= store.len() {
        return None;
    }
    let ghost envs = envs_model(store@);
    assert(envs[idx as int] == store@[idx as int].model());
    match store[idx].variables.get(name) {
        Some(v) => Some(v),
        None => match store[idx].parent {
            Some(p) => lookup_in(store, p, name, steps - 1),
            None => None,
        },
    }
}

/// The interpreter's state: the store of scopes, the text printed so far,
/// the number of evaluation steps still allowed, and the host's answers.
pub struct State {
    pub envs: Vec<Environment>,
    pub output: String,
    pub fuel: u64,
    pub log: HostLog,
}

/// Model of [`State`]; `pos` is the number of host answers consumed.
pub struct SpecState {
    pub envs: Seq<SpecEnv>,
    pub out: Seq<char>,
    pub fuel: nat,
    pub pos: nat,
}

impl State {
    pub open spec fn model(&self) -> SpecState {
        SpecState {
            envs: envs_model(self.envs@),
            out: self.output@,
            fuel: self.fuel as nat,
            pos: self.log.answers().len(),
        }
    }

    pub open spec fn answers(&self) -> Seq<Answer> {
        self.log.answers()
    }

    /// A state with one empty global scope (index 0), nothing printed, and
    /// `fuel` evaluation steps allowed.
    pub fn new(fuel: u64) -> (r: State)
        ensures
            r.model() == (SpecState {
                envs: seq![SpecEnv { vars: Seq::empty(), parent: None }],
                out: Seq::empty(),
                fuel: fuel as nat,
                pos: 0,
            }),
            r.answers() == Seq::<Answer>::empty(),
    {
        let mut envs: Vec<Environment> = Vec::new();
        envs.push(Environment::new());
        let r = State { envs, output: String::new(), fuel, log: HostLog::new() };
        assert(r.model().envs =~= seq![SpecEnv { vars: Seq::empty(), parent: None }]);
        r
    }

    /// Value of `name` seen from scope `env`.
    pub fn get(&self, env: usize, name: &String) -> (r: Option<Value>)
        ensures
            r matches Some(v) ==> scope_get(self.model().envs, env as int, name@) == Some(v.model()),
            r is None ==> scope_get(self.model().envs, env as int, name@) is None,
    {
        if env < self.envs.len() {
            assert(self.model().envs[env as int] == self.envs@[env as int].model());
            self.envs[env].get(&self.envs, name)
        } else {
            None
        }
    }

    /// Binds `name` to `v` in scope `env` (a scope that is not in the store
    /// is left alone).
    pub fn bind(&mut self, env: usize, name: String, v: Value)
        ensures
            final(self).model() == (SpecState {
                envs: bind_in(old(self).model().envs, env as int, name@, v.model()),
                ..old(self).model()
            }),
            final(self).answers() == old(self).answers(),
            keeps(old(self).model(), final(self).model()),
            frames_kept(old(self).model(), final(self).model(), env as int),
    {
        if env < self.envs.len() {
            let ghost old_envs = envs_model(self.envs@);
            let ghost k = name@;
            let ghost vm = v.model();
            let mut e = self.envs.remove(env);
            e.variables.insert(name, v);
            self.envs.insert(env, e);
            assert(envs_model(self.envs@) =~= bind_in(old_envs, env as int, k, vm));
        }
        proof {
            lemma_keeps_same(old(self).model(), self.model());
        }
    }

    /// Adds a scope with no bindings below `parent`; returns its index.
    pub fn push_scope(&mut self, parent: Option<usize>) -> (r: usize)
        ensures
            r == old(self).model().envs.len(),
            final(self).model() == (SpecState {
                envs: old(self).model().envs.push(SpecEnv { vars: Seq::empty(), parent }),
                ..old(self).model()
            }),
            final(self).answers() == old(self).answers(),
            keeps(old(self).model(), final(self).model()),
            frames_kept(old(self).model(), final(self).model(), -1),
    {
        let r = self.envs.len();
        let e = Environment { variables: Bindings::new(), parent };
        self.envs.push(e);
        assert(envs_model(self.envs@) =~= envs_model(old(self).envs@).push(
            SpecEnv { vars: Seq::empty(), parent },
        ));
        proof {
            lemma_keeps_same(old(self).model(), self.model());
        }
        r
    }
}

/// The store with `k` bound to `v` in scope `idx`.
pub open spec fn bind_in(envs: Seq<SpecEnv>, idx: int, k: Seq<char>, v: SpecValue) -> Seq<SpecEnv> {
    if 0 <= idx < envs.len() {
        envs.update(idx, SpecEnv { vars: bind_insert(envs[idx].vars, k, v), parent: envs[idx].parent })
    } else {
        envs
    }
}

/// Lookup of a name other than `k` along any chain of scopes is the same
/// before and after binding `k` in scope `idx`.
proof fn lemma_lookup_other(
    envs: Seq<SpecEnv>,
    idx: int,
    k: Seq<char>,
    v: SpecValue,
    k2: Seq<char>,
    j: int,
    steps: nat,
)
    requires
        k2 != k,
    ensures
        lookup(bind_in(envs, idx, k, v), j, k2, steps) == lookup(envs, j, k2, steps),
    decreases steps,
{
    let envs2 = bind_in(envs, idx, k, v);
    if steps > 0 && 0 <= j < envs.len() {
        if j == idx {
            law_bind_insert_get(envs[j].vars, k, v, k2);
        }
        assert(envs2[j].parent == envs[j].parent);
        match envs[j].parent {
            Some(p) => {
                lemma_lookup_other(envs, idx, k, v, k2, p as int, (steps - 1) as nat);
            },
            None => {},
        }
    }
}

/// A name bound in a scope reads back, from that scope, as the value it
/// was bound to.
pub proof fn law_bind_then_get(envs: Seq<SpecEnv>, idx: int, k: Seq<char>, v: SpecValue)
    requires
        0 <= idx < envs.len(),
    ensures
        scope_get(bind_in(envs, idx, k, v), idx, k) == Some(v),
{
    law_bind_insert_get(envs[idx].vars, k, v, k);
}

/// Binding a name in a scope changes what no other name reads, from any
/// scope.
pub proof fn law_bind_other_names(envs: Seq<SpecEnv>, idx: int, k: Seq<char>, v: SpecValue, k2: Seq<char>, j: int)
    requires
        k2 != k,
    ensures
        scope_get(bind_in(envs, idx, k, v), j, k2) == scope_get(envs, j, k2),
{
    let envs2 = bind_in(envs, idx, k, v);
    if 0 <= j < envs.len() {
        if j == idx {
            law_bind_insert_get(envs[j].vars, k, v, k2);
        }
        match envs[j].parent {
            Some(p) => {
                lemma_lookup_other(envs, idx, k, v, k2, p as int, envs.len());
            },
            None => {},
        }
    }
}

/// What every step of the interpreter keeps: printed text is only ever
/// appended to, and scopes are only ever added.
pub open spec fn keeps(s1: SpecState, s2: SpecState) -> bool {
    &&& s1.out.len() <= s2.out.len()
    &&& s2.out.subrange(0, s1.out.len() as int) == s1.out
    &&& s1.envs.len() <= s2.envs.len()
}

pub broadcast proof fn lemma_keeps_trans(s1: SpecState, s2: SpecState, s3: SpecState)
    requires
        #[trigger] keeps(s1, s2),
        #[trigger] keeps(s2, s3),
    ensures
        keeps(s1, s3),
{
    assert(s3.out.subrange(0, s1.out.len() as int) =~= s3.out.subrange(0, s2.out.len() as int).subrange(
        0,
        s1.out.len() as int,
    ));
}

/// A step that prints nothing and removes no scope keeps.
pub broadcast proof fn lemma_keeps_same(s1: SpecState, s2: SpecState)
    requires
        s1.out == s2.out,
        s1.envs.len() <= s2.envs.len(),
    ensures
        #[trigger] keeps(s1, s2),
{
    assert(s2.out.subrange(0, s1.out.len() as int) =~= s1.out);
}

/// Appending to the printed text keeps.
pub proof fn lemma_keeps_append(s1: SpecState, s2: SpecState, text: Seq<char>)
    requires
        s2.out == s1.out + text,
        s1.envs.len() <= s2.envs.len(),
    ensures
        keeps(s1, s2),
{
    assert(s2.out.subrange(0, s1.out.len() as int) =~= s1.out);
}

/// The scopes that existed in `s1`, other than scope `except`, are as
/// they were, in `s2`; scopes are only added.
pub open spec fn frames_kept(s1: SpecState, s2: SpecState, except: int) -> bool {
    &&& s1.envs.len() <= s2.envs.len()
    &&& forall|j: int| 0 <= j < s1.envs.len() && j != except ==> #[trigger] s2.envs[j] == s1.envs[j]
}

pub broadcast proof fn lemma_frames_same(s1: SpecState, s2: SpecState, except: int)
    requires
        s1.envs == s2.envs,
    ensures
        #[trigger] frames_kept(s1, s2, except),
{
}

pub broadcast proof fn lemma_frames_trans(s1: SpecState, s2: SpecState, s3: SpecState, except: int)
    requires
        #[trigger] frames_kept(s1, s2, except),
        #[trigger] frames_kept(s2, s3, except),
    ensures
        frames_kept(s1, s3, except),
{
}

/// What keeps every scope keeps all but one.
pub broadcast proof fn lemma_frames_widen(s1: SpecState, s2: SpecState, except: int)
    requires
        frames_kept(s1, s2, -1),
    ensures
        #[trigger] frames_kept(s1, s2, except),
{
}

/// Changes to a scope created after `s0` keep every scope of `s0`.
pub proof fn lemma_frames_fresh(s0: SpecState, s1: SpecState, s2: SpecState, fresh: int)
    requires
        frames_kept(s0, s1, -1),
        frames_kept(s1, s2, fresh),
        fresh >= s0.envs.len(),
    ensures
        frames_kept(s0, s2, -1),
{
    assert forall|j: int| 0 <= j < s0.envs.len() && j != -1 implies #[trigger] s2.envs[j] == s0.envs[j] by {
        assert(s2.envs[j] == s1.envs[j]);
    }
}

// ---------------------------------------------------------------------
// Lookup along a chain of scopes
/// The enclosing scope of slot `j` (-1 when there is none).
pub open spec fn hop(envs: Seq<SpecEnv>, j: int) -> int {
    if 0 <= j < envs.len() {
        match envs[j].parent {
            Some(p) => p as int,
            None => -1,
        }
    } else {
        -1
    }
}

/// The scope `m` links up the chain from `idx`.
pub open spec fn walk_at(envs: Seq<SpecEnv>, idx: int, m: nat) -> int
    decreases m,
{
    if m == 0 {
        idx
    } else {
        walk_at(envs, hop(envs, idx), (m - 1) as nat)
    }
}

/// `k` is first bound `t` links up the chain from `idx`, every scope
/// before that being in the store, not binding `k`, and enclosed.
pub open spec fn found_at(envs: Seq<SpecEnv>, idx: int, k: Seq<char>, t: nat) -> bool {
    &&& forall|i: nat|
        i < t ==> {
            let j = #[trigger] walk_at(envs, idx, i);
            0 <= j < envs.len() && bind_get(envs[j].vars, k) is None && envs[j].parent is Some
        }
    &&& 0 <= walk_at(envs, idx, t) < envs.len()
    &&& bind_get(envs[walk_at(envs, idx, t)].vars, k) is Some
}

proof fn lemma_walk_split(envs: Seq<SpecEnv>, idx: int, a: nat, m: nat)
    ensures
        walk_at(envs, idx, a + m) == walk_at(envs, walk_at(envs, idx, a), m),
    decreases a,
{
    if a > 0 {
        lemma_walk_split(envs, hop(envs, idx), (a - 1) as nat, m);
        assert((a - 1) as nat + m == (a + m - 1) as nat);
    }
}

proof fn lemma_found_shift(envs: Seq<SpecEnv>, idx: int, k: Seq<char>, t: nat)
    requires
        t > 0,
        found_at(envs, idx, k, t),
    ensures
        found_at(envs, hop(envs, idx), k, (t - 1) as nat),
{
    assert(walk_at(envs, idx, 0) == idx);
    assert forall|i: nat| i < (t - 1) as nat implies {
        let j = #[trigger] walk_at(envs, hop(envs, idx), i);
        0 <= j < envs.len() && bind_get(envs[j].vars, k) is None && envs[j].parent is Some
    } by {
        assert(walk_at(envs, idx, i + 1) == walk_at(envs, hop(envs, idx), i));
    }
    assert(walk_at(envs, idx, t) == walk_at(envs, hop(envs, idx), (t - 1) as nat));
}

/// What `lookup` finds, it finds at the first scope of the chain that
/// binds the name.
proof fn lemma_lookup_found(envs: Seq<SpecEnv>, idx: int, k: Seq<char>, n: nat)
    requires
        lookup(envs, idx, k, n) is Some,
    ensures
        exists|t: nat|
            #![trigger found_at(envs, idx, k, t)]
            t < n && found_at(envs, idx, k, t) && lookup(envs, idx, k, n) == bind_get(
                envs[walk_at(envs, idx, t)].vars,
                k,
            ),
    decreases n,
{
    assert(walk_at(envs, idx, 0) == idx);
    if bind_get(envs[idx].vars, k) is Some {
        assert(found_at(envs, idx, k, 0));
    } else {
        let p = envs[idx].parent->Some_0 as int;
        assert(hop(envs, idx) == p);
        lemma_lookup_found(envs, p, k, (n - 1) as nat);
        let t = choose|t: nat|
            #![trigger found_at(envs, p, k, t)]
            t < (n - 1) as nat && found_at(envs, p, k, t) && lookup(envs, p, k, (n - 1) as nat) == bind_get(
                envs[walk_at(envs, p, t)].vars,
                k,
            );
        assert forall|i: nat| i < t + 1 implies {
            let j = #[trigger] walk_at(envs, idx, i);
            0 <= j < envs.len() && bind_get(envs[j].vars, k) is None && envs[j].parent is Some
        } by {
            if i > 0 {
                assert(walk_at(envs, idx, i) == walk_at(envs, p, (i - 1) as nat));
            }
        }
        assert(walk_at(envs, idx, t + 1) == walk_at(envs, p, t));
        assert(found_at(envs, idx, k, t + 1));
    }
}

/// A name first bound `t` links up the chain is found with more than `t`
/// steps.
proof fn lemma_found_lookup(envs: Seq<SpecEnv>, idx: int, k: Seq<char>, t: nat, n: nat)
    requires
        found_at(envs, idx, k, t),
        t < n,
    ensures
        lookup(envs, idx, k, n) == bind_get(envs[walk_at(envs, idx, t)].vars, k),
    decreases t,
{
    assert(walk_at(envs, idx, 0) == idx);
    if t > 0 {
        lemma_found_shift(envs, idx, k, t);
        lemma_found_lookup(envs, hop(envs, idx), k, (t - 1) as nat, (n - 1) as nat);
        assert(walk_at(envs, idx, t) == walk_at(envs, hop(envs, idx), (t - 1) as nat));
    }
}

/// The scopes before the first one that binds the name are all different.
proof fn lemma_found_distinct(envs: Seq<SpecEnv>, idx: int, k: Seq<char>, t: nat, a: nat, b: nat)
    requires
        found_at(envs, idx, k, t),
        a < b <= t,
    ensures
        walk_at(envs, idx, a) != walk_at(envs, idx, b),
{
    if walk_at(envs, idx, a) == walk_at(envs, idx, b) {
        let m = (t - b) as nat;
        lemma_walk_split(envs, idx, a, m);
        lemma_walk_split(envs, idx, b, m);
        assert(b + m == t);
        let i = (a + m) as nat;
        assert(i < t);
        assert(walk_at(envs, idx, i) == walk_at(envs, idx, t));
    }
}

/// A name that is bound somewhere up the chain is first bound fewer links
/// up than there are scopes.
proof fn lemma_found_short(envs: Seq<SpecEnv>, idx: int, k: Seq<char>, t: nat)
    requires
        found_at(envs, idx, k, t),
    ensures
        t < envs.len(),
{
    let w = Seq::new(t + 1, |i: int| walk_at(envs, idx, i as nat));
    assert forall|a: int, b: int| 0 <= a < w.len() && 0 <= b < w.len() && a != b implies w[a] != w[b] by {
        if a < b {
            lemma_found_distinct(envs, idx, k, t, a as nat, b as nat);
        } else {
            lemma_found_distinct(envs, idx, k, t, b as nat, a as nat);
        }
    }
    assert(w.no_duplicates());
    w.unique_seq_to_set();
    vstd::set_lib::lemma_int_range(0, envs.len() as int);
    assert forall|j: int| w.to_set().contains(j) implies vstd::set_lib::set_int_range(0, envs.len() as int).contains(j) by {
        let i = choose|i: int| 0 <= i < w.len() && w[i] == j;
        if i < t {
            assert(walk_at(envs, idx, i as nat) == w[i]);
        }
    }
    vstd::set_lib::lemma_len_subset(w.to_set(), vstd::set_lib::set_int_range(0, envs.len() as int));
}

/// Following as many links as there are scopes finds every binding that a
/// chain of any length finds: a chain that reaches a scope binding the name
/// does so before it comes back to a scope it has passed.
pub proof fn law_lookup_complete(envs: Seq<SpecEnv>, idx: int, k: Seq<char>, n: nat)
    requires
        lookup(envs, idx, k, n) is Some,
    ensures
        lookup(envs, idx, k, envs.len()) == lookup(envs, idx, k, n),
{
    lemma_lookup_found(envs, idx, k, n);
    let t = choose|t: nat|
        #![trigger found_at(envs, idx, k, t)]
        t < n && found_at(envs, idx, k, t) && lookup(envs, idx, k, n) == bind_get(
            envs[walk_at(envs, idx, t)].vars,
            k,
        );
    lemma_found_short(envs, idx, k, t);
    lemma_found_lookup(envs, idx, k, t, envs.len());
}

} // verus!
