//! Equality of values, and their printed forms.
use vstd::prelude::*;
use vstd::string::*;
use crate::host::{
    Answer, Comparison, Host, HostLog, Oracle, agrees, ans_compare, ans_number_text, extends,
    lemma_agrees_prefix, lemma_extends_trans,
};
use crate::value::{Bindings, SpecBindings, SpecValue, Value, values_model, lemma_tuple_model};
use crate::ast::strings_model;
use crate::text::{lemma_text_lt_irrefl, lemma_text_lt_trans, 
    debug_list, debug_strings, dec_text, join_strings, join_texts, string_lt, text_lt, usize_text,
};

verus! {

broadcast use crate::host::lemma_extends_refl;

// ---------------------------------------------------------------------
// Equality
/// `a == b` for values: numbers compare as binary64 (asked of the host),
/// booleans by value, tuples element by element (stopping at the first
/// unequal pair); all other values are unequal to everything.
/// Returns the result and the position after the answers it read.
pub open spec fn spec_eq(a: SpecValue, b: SpecValue, o: Oracle, p: nat) -> (bool, nat)
    decreases a, 0int,
{
    match (a, b) {
        (SpecValue::Number(x), SpecValue::Number(y)) => (ans_compare(o(p), Comparison::Eq, x, y), p + 1),
        (SpecValue::Bool(x), SpecValue::Bool(y)) => (x == y, p),
        (SpecValue::Tuple(xs), SpecValue::Tuple(ys)) => if xs.len() != ys.len() {
            (false, p)
        } else {
            spec_eq_list(xs, ys, 0, o, p)
        },
        _ => (false, p),
    }
}

/// Element-wise equality of `xs[i..]` and `ys[i..]`.
pub open spec fn spec_eq_list(xs: Seq<SpecValue>, ys: Seq<SpecValue>, i: int, o: Oracle, p: nat) -> (
    bool,
    nat,
)
    decreases xs, xs.len() - i,
{
    if i < 0 || i >= xs.len() || i >= ys.len() {
        (true, p)
    } else {
        let (r, p1) = spec_eq(xs[i], ys[i], o, p);
        if !r {
            (false, p1)
        } else {
            spec_eq_list(xs, ys, i + 1, o, p1)
        }
    }
}

impl Value {
    /// Whether the two values are equal (see [`spec_eq`]).
    pub fn is_equal_to<H: Host>(&self, other: &Value, host: &H, log: &mut HostLog) -> (r: bool)
        ensures
            extends(final(log).answers(), old(log).answers()),
            forall|o: Oracle|
                agrees(o, final(log).answers()) ==> spec_eq(
                    self.model(),
                    other.model(),
                    o,
                    old(log).answers().len(),
                ) == (r, final(log).answers().len()),
        decreases self,
    {
        match (self, other) {
            (Value::Number(a), Value::Number(b)) => log.compare(host, Comparison::Eq, *a, *b),
            (Value::Bool(a), Value::Bool(b)) => *a == *b,
            (Value::Tuple(a), Value::Tuple(b)) => {
                proof {
                    lemma_tuple_model(*a);
                    lemma_tuple_model(*b);
                }
                if a.len() != b.len() {
                    false
                } else {
                    values_equal(a, b, host, log)
                }
            },
            _ => false,
        }
    }
}

fn values_equal<H: Host>(a: &Vec<Value>, b: &Vec<Value>, host: &H, log: &mut HostLog) -> (r: bool)
    requires
        a@.len() == b@.len(),
    ensures
        extends(final(log).answers(), old(log).answers()),
        forall|o: Oracle|
            agrees(o, final(log).answers()) ==> spec_eq_list(
                values_model(a@),
                values_model(b@),
                0,
                o,
                old(log).answers().len(),
            ) == (r, final(log).answers().len()),
    decreases a,
{
    let ghost xs = values_model(a@);
    let ghost ys = values_model(b@);
    let ghost p0 = log.answers().len();
    let ghost l0 = log.answers();
    let mut i: usize = 0;
    while i < a.len()
        invariant
            i <= a@.len(),
            a@.len() == b@.len(),
            xs == values_model(a@),
            ys == values_model(b@),
            extends(log.answers(), l0),
            p0 == l0.len(),
            l0 == old(log).answers(),
            forall|o: Oracle|
                agrees(o, log.answers()) ==> spec_eq_list(xs, ys, 0, o, p0) == spec_eq_list(
                    xs,
                    ys,
                    i as int,
                    o,
                    log.answers().len(),
                ),
        decreases a@.len() - i,
    {
        proof {
            broadcast use vstd::std_specs::vec::axiom_vec_index_decreases;

            assert(decreases_to!(*a => a[i as int]));
        }
        let ghost l1 = log.answers();
        let e = a[i].is_equal_to(&b[i], host, log);
        proof {
            lemma_extends_trans(log.answers(), l1, l0);
        }
        assert(xs[i as int] == a@[i as int].model());
        assert(ys[i as int] == b@[i as int].model());
        assert forall|o: Oracle| agrees(o, log.answers()) implies spec_eq_list(xs, ys, 0, o, p0)
            == (if e {
            spec_eq_list(xs, ys, i + 1, o, log.answers().len())
        } else {
            (false, log.answers().len())
        }) by {
            lemma_agrees_prefix(o, l1, log.answers());
        }
        if !e {
            return false;
        }
        i = i + 1;
    }
    true
}

// ---------------------------------------------------------------------
// Printed forms
/// The short form of a value, used inside tuples: the host's text of a
/// number, `true`/`false`, a quoted string, `(a, b)`, `Lambda([..])`,
/// `Module[len(n)]`, `Recur[num_vars(n)]`, `None`.
pub open spec fn spec_inner(v: SpecValue, o: Oracle, p: nat) -> (Seq<char>, nat)
    decreases v, 0int,
{
    match v {
        SpecValue::Number(x) => (ans_number_text(o(p), x), p + 1),
        SpecValue::Bool(b) => (if b {
            "true"@
        } else {
            "false"@
        }, p),
        SpecValue::Str(s) => ("\""@ + s + "\""@, p),
        SpecValue::Tuple(es) => {
            let (t, p1) = spec_inner_list(es, 0, Seq::empty(), o, p);
            ("("@ + t + ")"@, p1)
        },
        SpecValue::Function { args, .. } => ("Lambda("@ + debug_list(args) + ")"@, p),
        SpecValue::Module(b) => ("Module[len("@ + dec_text(b.len()) + ")]"@, p),
        SpecValue::Recur(vs) => ("Recur[num_vars("@ + dec_text(vs.len()) + ")]"@, p),
        SpecValue::NoneValue => ("None"@, p),
    }
}

/// Short forms of `es[i..]`, separated by `, `, appended to `acc`.
pub open spec fn spec_inner_list(es: Seq<SpecValue>, i: int, acc: Seq<char>, o: Oracle, p: nat) -> (
    Seq<char>,
    nat,
)
    decreases es, es.len() - i,
{
    if i < 0 || i >= es.len() {
        (acc, p)
    } else {
        let (t, p1) = spec_inner(es[i], o, p);
        let sep = if i == es.len() - 1 {
            Seq::empty()
        } else {
            ", "@
        };
        spec_inner_list(es, i + 1, acc + t + sep, o, p1)
    }
}

/// The guides drawn for the ancestors of a tree line.
pub open spec fn guides(prefix: Seq<bool>) -> Seq<char>
    decreases prefix.len(),
{
    if prefix.len() == 0 {
        Seq::empty()
    } else {
        guides(prefix.drop_last()) + if prefix.last() {
            "│  "@
        } else {
            "   "@
        }
    }
}

/// Position in `idx` of the entry with the least name, among positions
/// `i..`; `best` is the least so far (the first of equal names wins).
pub open spec fn least_from(b: SpecBindings, idx: Seq<int>, i: int, best: int) -> int
    decreases idx.len() - i,
{
    if i < 0 || i >= idx.len() {
        best
    } else if text_lt(b[idx[i]].0, b[idx[best]].0) {
        least_from(b, idx, i + 1, i)
    } else {
        least_from(b, idx, i + 1, best)
    }
}

/// The entry positions `idx`, ordered by name (selection order).
pub open spec fn order_by_name(b: SpecBindings, idx: Seq<int>) -> Seq<int>
    decreases idx.len(),
{
    if idx.len() == 0 {
        idx
    } else {
        let m = least_from(b, idx, 1, 0);
        if 0 <= m < idx.len() {
            seq![idx[m]] + order_by_name(b, idx.remove(m))
        } else {
            idx
        }
    }
}

/// The positions of the entries of `b`, ordered by name.
pub open spec fn sorted_positions(b: SpecBindings) -> Seq<int> {
    order_by_name(b, Seq::new(b.len(), |i: int| i))
}

/// One line (or subtree) of `format_tree`: the ancestor guides, the branch
/// mark, then the value: `Module 'name'` followed by its members ordered
/// by name, or `[name: value]`, or a bare tuple or `None`.
pub open spec fn spec_write(
    v: SpecValue,
    name: Seq<char>,
    prefix: Seq<bool>,
    is_last: bool,
    is_root: bool,
    o: Oracle,
    p: nat,
) -> (Seq<char>, nat)
    decreases v, 1int,
{
    let head = guides(prefix) + if is_root {
        Seq::empty()
    } else if is_last {
        "└─ "@
    } else {
        "├─ "@
    };
    match v {
        SpecValue::Module(b) => {
            let child_prefix = if is_root {
                prefix
            } else {
                prefix.push(!is_last)
            };
            let order = sorted_positions(b);
            let (t, p1) = spec_write_members(b, order, 0, child_prefix, Seq::empty(), o, p);
            (head + "Module '"@ + name + "'\n"@ + t, p1)
        },
        SpecValue::Number(x) => (head + "["@ + name + ": "@ + ans_number_text(o(p), x) + "]\n"@, p + 1),
        SpecValue::Bool(x) => (head + "["@ + name + ": "@ + (if x {
            "true"@
        } else {
            "false"@
        }) + "]\n"@, p),
        SpecValue::Str(s) => (head + "["@ + name + ": "@ + s + "]\n"@, p),
        SpecValue::Function { args, .. } => (head + "["@ + name + ": Lambda("@ + join_texts(
            args,
            ", "@,
        ) + ")]\n"@, p),
        SpecValue::Recur(_) => (head + "["@ + name + ": RecurSignal]\n"@, p),
        SpecValue::Tuple(es) => {
            let (t, p1) = spec_inner_list(es, 0, Seq::empty(), o, p);
            (head + "("@ + t + ")"@, p1)
        },
        SpecValue::NoneValue => (head + "None"@, p),
    }
}

/// The members of a module at positions `order[i..]`, appended to `acc`.
pub open spec fn spec_write_members(
    b: SpecBindings,
    order: Seq<int>,
    i: int,
    prefix: Seq<bool>,
    acc: Seq<char>,
    o: Oracle,
    p: nat,
) -> (Seq<char>, nat)
    decreases b, order.len() - i,
{
    if i < 0 || i >= order.len() {
        (acc, p)
    } else {
        let k = order[i];
        if 0 <= k < b.len() {
            let (t, p1) = spec_write(b[k].1, b[k].0, prefix, i == order.len() - 1, false, o, p);
            spec_write_members(b, order, i + 1, prefix, acc + t, o, p1)
        } else {
            (acc, p)
        }
    }
}


/// The least name found by [`least_from`] is not preceded by any name
/// in `idx`, given that `best` is not preceded by any name before `i`.
proof fn lemma_least_from(b: SpecBindings, idx: Seq<int>, i: int, best: int)
    requires
        0 <= best < idx.len(),
        0 <= i,
        best < i,
        forall|k: int| 0 <= k < i && k < idx.len() ==> !text_lt(#[trigger] b[idx[k]].0, b[idx[best]].0),
    ensures
        0 <= least_from(b, idx, i, best) < idx.len(),
        forall|k: int| 0 <= k < idx.len() ==> !text_lt(#[trigger] b[idx[k]].0, b[idx[least_from(b, idx, i, best)]].0),
    decreases idx.len() - i,
{
    if i < idx.len() {
        if text_lt(b[idx[i]].0, b[idx[best]].0) {
            assert forall|k: int| 0 <= k < i + 1 && k < idx.len() implies !text_lt(
                #[trigger] b[idx[k]].0,
                b[idx[i]].0,
            ) by {
                if k == i {
                    lemma_text_lt_irrefl(b[idx[i]].0);
                } else if text_lt(b[idx[k]].0, b[idx[i]].0) {
                    lemma_text_lt_trans(b[idx[k]].0, b[idx[i]].0, b[idx[best]].0);
                }
            }
            lemma_least_from(b, idx, i + 1, i);
        } else {
            lemma_text_lt_irrefl(b[idx[best]].0);
            lemma_least_from(b, idx, i + 1, best);
        }
    }
}

/// [`order_by_name`] puts `idx` in name order, keeping its elements.
proof fn lemma_order_by_name(b: SpecBindings, idx: Seq<int>)
    ensures
        order_by_name(b, idx).len() == idx.len(),
        forall|x: int| #[trigger] order_by_name(b, idx).contains(x) <==> idx.contains(x),
        forall|i: int, j: int|
            0 <= i < j < idx.len() ==> !text_lt(
                #[trigger] b[order_by_name(b, idx)[j]].0,
                #[trigger] b[order_by_name(b, idx)[i]].0,
            ),
    decreases idx.len(),
{
    if idx.len() > 0 {
        lemma_text_lt_irrefl(b[idx[0]].0);
        lemma_least_from(b, idx, 1, 0);
        let m = least_from(b, idx, 1, 0);
        let rest = idx.remove(m);
        lemma_order_by_name(b, rest);
        let o = order_by_name(b, idx);
        let o2 = order_by_name(b, rest);
        assert(o == seq![idx[m]] + o2);
        assert forall|x: int| #[trigger] o.contains(x) <==> idx.contains(x) by {
            if o.contains(x) {
                let t = choose|t: int| 0 <= t < o.len() && o[t] == x;
                if t > 0 {
                    assert(o2[t - 1] == x);
                    assert(o2.contains(x));
                    assert(rest.contains(x));
                    let u = choose|u: int| 0 <= u < rest.len() && rest[u] == x;
                    if u < m {
                        assert(idx[u] == x);
                    } else {
                        assert(idx[u + 1] == x);
                    }
                } else {
                    assert(idx[m] == x);
                }
            }
            if idx.contains(x) {
                let u = choose|u: int| 0 <= u < idx.len() && idx[u] == x;
                if u == m {
                    assert(o[0] == x);
                } else {
                    if u < m {
                        assert(rest[u] == x);
                    } else {
                        assert(rest[u - 1] == x);
                    }
                    assert(rest.contains(x));
                    assert(o2.contains(x));
                    let t = choose|t: int| 0 <= t < o2.len() && o2[t] == x;
                    assert(o[t + 1] == x);
                }
            }
        }
        assert forall|i: int, j: int| 0 <= i < j < idx.len() implies !text_lt(
            #[trigger] b[o[j]].0,
            #[trigger] b[o[i]].0,
        ) by {
            if i > 0 {
                assert(o[i] == o2[i - 1]);
                assert(o[j] == o2[j - 1]);
            } else {
                assert(o[j] == o2[j - 1]);
                assert(o2.contains(o2[j - 1]));
                assert(rest.contains(o[j]));
                let u = choose|u: int| 0 <= u < rest.len() && rest[u] == o[j];
                if u < m {
                    assert(idx[u] == o[j]);
                } else {
                    assert(idx[u + 1] == o[j]);
                }
            }
        }
    }
}

/// A module's members are written each once, in name order.
pub proof fn law_members_in_name_order(b: SpecBindings)
    ensures
        sorted_positions(b).len() == b.len(),
        forall|k: int| 0 <= k < b.len() ==> #[trigger] sorted_positions(b).contains(k),
        forall|i: int, j: int|
            0 <= i < j < b.len() ==> !text_lt(
                #[trigger] b[sorted_positions(b)[j]].0,
                #[trigger] b[sorted_positions(b)[i]].0,
            ),
{
    let idx = Seq::new(b.len(), |i: int| i);
    lemma_order_by_name(b, idx);
    assert forall|k: int| 0 <= k < b.len() implies #[trigger] sorted_positions(b).contains(k) by {
        assert(idx[k] == k);
        assert(idx.contains(k));
    }
}

pub open spec fn positions_view(v: Seq<usize>) -> Seq<int> {
    Seq::new(v.len(), |i: int| v[i] as int)
}

/// Position in `idx` of the least name among positions `1..` (or 0).
fn least_position(b: &Bindings, idx: &Vec<usize>) -> (r: usize)
    requires
        idx@.len() > 0,
        forall|j: int| 0 <= j < idx@.len() ==> #[trigger] idx@[j] < b.entries@.len(),
    ensures
        r as int == least_from(b.model(), positions_view(idx@), 1, 0),
        r < idx@.len(),
{
    let ghost bm = b.model();
    let ghost iv = positions_view(idx@);
    let mut best: usize = 0;
    let mut i: usize = 1;
    while i < idx.len()
        invariant
            1 <= i <= idx@.len(),
            best < i,
            bm == b.model(),
            iv == positions_view(idx@),
            forall|j: int| 0 <= j < idx@.len() ==> #[trigger] idx@[j] < b.entries@.len(),
            least_from(bm, iv, 1, 0) == least_from(bm, iv, i as int, best as int),
        decreases idx@.len() - i,
    {
        let ki = idx[i];
        let kb = idx[best];
        assert(bm[ki as int].0 == b.entries@[ki as int].0@);
        assert(bm[kb as int].0 == b.entries@[kb as int].0@);
        if string_lt(&b.entries[ki].0, &b.entries[kb].0) {
            best = i;
        }
        i = i + 1;
    }
    best
}

/// The positions of the entries of `b`, ordered by name.
fn name_order(b: &Bindings) -> (r: Vec<usize>)
    ensures
        positions_view(r@) == sorted_positions(b.model()),
        forall|j: int| 0 <= j < r@.len() ==> #[trigger] r@[j] < b.entries@.len(),
{
    let n = b.entries.len();
    let mut idx: Vec<usize> = Vec::new();
    let mut k: usize = 0;
    while k < n
        invariant
            k <= n,
            n == b.entries@.len(),
            idx@.len() == k,
            forall|j: int| 0 <= j < k ==> #[trigger] idx@[j] == j,
        decreases n - k,
    {
        idx.push(k);
        k = k + 1;
    }
    let ghost bm = b.model();
    assert(positions_view(idx@) =~= Seq::new(bm.len(), |i: int| i));
    let mut out: Vec<usize> = Vec::new();
    while idx.len() > 0
        invariant
            bm == b.model(),
            n == b.entries@.len(),
            forall|j: int| 0 <= j < idx@.len() ==> #[trigger] idx@[j] < n,
            forall|j: int| 0 <= j < out@.len() ==> #[trigger] out@[j] < n,
            sorted_positions(bm) == positions_view(out@) + order_by_name(bm, positions_view(idx@)),
        decreases idx@.len(),
    {
        let m = least_position(b, &idx);
        let ghost iv = positions_view(idx@);
        let ghost ov0 = positions_view(out@);
        let x = idx.remove(m);
        out.push(x);
        proof {
            assert(positions_view(idx@) =~= iv.remove(m as int));
            assert(order_by_name(bm, iv) == seq![iv[m as int]] + order_by_name(bm, iv.remove(m as int)));
            assert(positions_view(out@) =~= ov0.push(x as int));
        }
    }
    assert(order_by_name(bm, positions_view(idx@)) =~= Seq::<int>::empty());
    assert(positions_view(out@) =~= positions_view(out@) + Seq::<int>::empty());
    out
}

impl Value {
    /// The short form of the value (see [`spec_inner`]).
    pub fn inner_str<H: Host>(&self, host: &H, log: &mut HostLog) -> (r: String)
        ensures
            extends(final(log).answers(), old(log).answers()),
            forall|o: Oracle|
                agrees(o, final(log).answers()) ==> spec_inner(
                    self.model(),
                    o,
                    old(log).answers().len(),
                ) == (r@, final(log).answers().len()),
        decreases self,
    {
        proof {
            reveal_strlit("true");
            reveal_strlit("false");
        }
        match self {
            Value::Number(n) => log.number_text(host, *n),
            Value::Bool(b) => {
                if *b {
                    String::from_str("true")
                } else {
                    String::from_str("false")
                }
            },
            Value::String(s) => {
                let mut r = String::from_str("\"");
                r.append(s.as_str());
                r.append("\"");
                r
            },
            Value::Tuple(t) => {
                proof {
                    lemma_tuple_model(*t);
                }
                let body = inner_list(t, host, log);
                let mut r = String::from_str("(");
                r.append(body.as_str());
                r.append(")");
                r
            },
            Value::Function { args, .. } => {
                let d = debug_strings(args);
                let mut r = String::from_str("Lambda(");
                r.append(d.as_str());
                r.append(")");
                proof {
                    assert(args@.map_values(|s: String| s@) =~= strings_model(args@));
                }
                r
            },
            Value::Module(b) => {
                let d = usize_text(b.len());
                let mut r = String::from_str("Module[len(");
                r.append(d.as_str());
                r.append(")]");
                r
            },
            Value::RecurSignal(vs) => {
                proof {
                    lemma_tuple_model(*vs);
                }
                let d = usize_text(vs.len());
                let mut r = String::from_str("Recur[num_vars(");
                r.append(d.as_str());
                r.append(")]");
                r
            },
            Value::NoneValue => String::from_str("None"),
        }
    }

    /// The value drawn as a tree labelled `name`: `[x: 4]` lines, and
    /// modules with their members in name order.
    pub fn format_tree<H: Host>(&self, name: &String, host: &H, log: &mut HostLog) -> (r: String)
        ensures
            extends(final(log).answers(), old(log).answers()),
            forall|o: Oracle|
                agrees(o, final(log).answers()) ==> spec_write(
                    self.model(),
                    name@,
                    Seq::empty(),
                    true,
                    true,
                    o,
                    old(log).answers().len(),
                ) == (r@, final(log).answers().len()),
    {
        let mut prefix: Vec<bool> = Vec::new();
        write_tree(self, name, &mut prefix, true, true, host, log)
    }
}

fn inner_list<H: Host>(t: &Vec<Value>, host: &H, log: &mut HostLog) -> (r: String)
    ensures
        extends(final(log).answers(), old(log).answers()),
        forall|o: Oracle|
            agrees(o, final(log).answers()) ==> spec_inner_list(
                values_model(t@),
                0,
                Seq::empty(),
                o,
                old(log).answers().len(),
            ) == (r@, final(log).answers().len()),
    decreases t,
{
    let ghost es = values_model(t@);
    let ghost l0 = log.answers();
    let mut s = String::new();
    let mut i: usize = 0;
    while i < t.len()
        invariant
            i <= t@.len(),
            es == values_model(t@),
            extends(log.answers(), l0),
            l0 == old(log).answers(),
            forall|o: Oracle|
                agrees(o, log.answers()) ==> spec_inner_list(es, 0, Seq::empty(), o, l0.len())
                    == spec_inner_list(es, i as int, s@, o, log.answers().len()),
        decreases t@.len() - i,
    {
        proof {
            broadcast use vstd::std_specs::vec::axiom_vec_index_decreases;

            assert(decreases_to!(*t => t[i as int]));
            reveal_strlit(", ");
        }
        let ghost l1 = log.answers();
        let ghost s1 = s@;
        let x = t[i].inner_str(host, log);
        assert(es[i as int] == t@[i as int].model());
        s.append(x.as_str());
        if i + 1 < t.len() {
            s.append(", ");
        }
        proof {
            lemma_extends_trans(log.answers(), l1, l0);
            assert forall|o: Oracle| agrees(o, log.answers()) implies spec_inner_list(
                es,
                0,
                Seq::empty(),
                o,
                l0.len(),
            ) == spec_inner_list(es, i + 1, s@, o, log.answers().len()) by {
                lemma_agrees_prefix(o, l1, log.answers());
                let sep = if i == es.len() - 1 {
                    Seq::<char>::empty()
                } else {
                    ", "@
                };
                assert(s@ == s1 + x@ + sep);
            }
        }
        i = i + 1;
    }
    s
}

/// One tree line (or subtree) of the value, below the ancestor guides
/// `prefix` (see [`spec_write`]); `prefix` is as it was on return.
pub fn write_tree<H: Host>(
    v: &Value,
    name: &String,
    prefix: &mut Vec<bool>,
    is_last: bool,
    is_root: bool,
    host: &H,
    log: &mut HostLog,
) -> (r: String)
    ensures
        final(prefix)@ == old(prefix)@,
        extends(final(log).answers(), old(log).answers()),
        forall|o: Oracle|
            agrees(o, final(log).answers()) ==> spec_write(
                v.model(),
                name@,
                old(prefix)@,
                is_last,
                is_root,
                o,
                old(log).answers().len(),
            ) == (r@, final(log).answers().len()),
    decreases v, 1int,
{
    let ghost pre = prefix@;
    let mut out = String::new();
    let mut k: usize = 0;
    while k < prefix.len()
        invariant
            k <= prefix@.len(),
            prefix@ == pre,
            out@ == guides(pre.take(k as int)),
        decreases prefix@.len() - k,
    {
        proof {
            reveal_strlit("│  ");
            reveal_strlit("   ");
        }
        if prefix[k] {
            out.append("│  ");
        } else {
            out.append("   ");
        }
        assert(pre.take(k + 1).drop_last() =~= pre.take(k as int));
        k = k + 1;
    }
    assert(pre.take(k as int) =~= pre);
    if !is_root {
        if is_last {
            out.append("└─ ");
        } else {
            out.append("├─ ");
        }
    }
    let ghost head = out@;
    assert(head == guides(pre) + if is_root {
        Seq::<char>::empty()
    } else if is_last {
        "└─ "@
    } else {
        "├─ "@
    });
    match v {
        Value::Module(b) => {
            out.append("Module '");
            out.append(name.as_str());
            out.append("'\n");
            if !is_root {
                prefix.push(!is_last);
            }
            let members = write_members(b, prefix, host, log);
            if !is_root {
                prefix.pop();
            }
            out.append(members.as_str());
            proof {
                assert(prefix@ =~= pre);
            }
        },
        Value::Number(n) => {
            let t = log.number_text(host, *n);
            out.append("[");
            out.append(name.as_str());
            out.append(": ");
            out.append(t.as_str());
            out.append("]\n");
        },
        Value::Bool(x) => {
            out.append("[");
            out.append(name.as_str());
            out.append(": ");
            if *x {
                out.append("true");
            } else {
                out.append("false");
            }
            out.append("]\n");
        },
        Value::String(s) => {
            out.append("[");
            out.append(name.as_str());
            out.append(": ");
            out.append(s.as_str());
            out.append("]\n");
        },
        Value::Function { args, .. } => {
            let j = join_strings(args, ", ");
            out.append("[");
            out.append(name.as_str());
            out.append(": Lambda(");
            out.append(j.as_str());
            out.append(")]\n");
            proof {
                assert(Seq::new(args@.len(), |i: int| args@[i]@) =~= strings_model(args@));
            }
        },
        Value::RecurSignal(_) => {
            out.append("[");
            out.append(name.as_str());
            out.append(": RecurSignal]\n");
        },
        Value::Tuple(t) => {
            proof {
                lemma_tuple_model(*t);
            }
            let body = inner_list(t, host, log);
            out.append("(");
            out.append(body.as_str());
            out.append(")");
        },
        Value::NoneValue => {
            out.append("None");
        },
    }
    out
}

fn write_members<H: Host>(b: &Bindings, prefix: &mut Vec<bool>, host: &H, log: &mut HostLog) -> (r:
    String)
    ensures
        final(prefix)@ == old(prefix)@,
        extends(final(log).answers(), old(log).answers()),
        forall|o: Oracle|
            agrees(o, final(log).answers()) ==> spec_write_members(
                b.model(),
                sorted_positions(b.model()),
                0,
                old(prefix)@,
                Seq::empty(),
                o,
                old(log).answers().len(),
            ) == (r@, final(log).answers().len()),
    decreases b, 0int,
{
    let ghost bm = b.model();
    let ghost pre = prefix@;
    let order = name_order(b);
    let ghost ov = positions_view(order@);
    let ghost l0 = log.answers();
    let mut s = String::new();
    let mut i: usize = 0;
    while i < order.len()
        invariant
            i <= order@.len(),
            bm == b.model(),
            ov == positions_view(order@),
            ov == sorted_positions(bm),
            prefix@ == pre,
            pre == old(prefix)@,
            forall|j: int| 0 <= j < order@.len() ==> #[trigger] order@[j] < b.entries@.len(),
            extends(log.answers(), l0),
            l0 == old(log).answers(),
            forall|o: Oracle|
                agrees(o, log.answers()) ==> spec_write_members(bm, ov, 0, pre, Seq::empty(), o, l0.len())
                    == spec_write_members(bm, ov, i as int, pre, s@, o, log.answers().len()),
        decreases order@.len() - i,
    {
        let k = order[i];
        proof {
            broadcast use vstd::std_specs::vec::axiom_vec_index_decreases;

            assert(decreases_to!(*b => b.entries));
            assert(decreases_to!(b.entries => b.entries[k as int]));
            assert(decreases_to!(b.entries[k as int] => b.entries[k as int].1));
        }
        let ghost l1 = log.answers();
        let ghost s1 = s@;
        let t = write_tree(&b.entries[k].1, &b.entries[k].0, prefix, i + 1 == order.len(), false, host, log);
        assert(bm[k as int] == (b.entries@[k as int].0@, b.entries@[k as int].1.model()));
        s.append(t.as_str());
        proof {
            lemma_extends_trans(log.answers(), l1, l0);
            assert forall|o: Oracle| agrees(o, log.answers()) implies spec_write_members(
                bm,
                ov,
                0,
                pre,
                Seq::empty(),
                o,
                l0.len(),
            ) == spec_write_members(bm, ov, i + 1, pre, s@, o, log.answers().len()) by {
                lemma_agrees_prefix(o, l1, log.answers());
            }
        }
        i = i + 1;
    }
    s
}

} // verus!
