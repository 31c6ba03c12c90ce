//! Statements ending in `;` print nothing: over a whole run, a program in
//! which every statement (at the top, in module bodies and in blocks) is
//! suppressed, and which imports nothing, prints nothing, given that the
//! functions already in its scopes are of the same kind.
use vstd::prelude::*;
use crate::ast::{SpecAccess, SpecExpr, SpecStatement};
use crate::value::{SpecBindings, SpecValue, bind_find, bind_get, bind_insert, lemma_bind_find};
use crate::environment::{SpecEnv, SpecState, bind_in, lookup, scope_get};
use crate::host::{Oracle, ans_index};
use crate::semantics::{
    SRes, bind_args, cap, env_vars, loop_names, push_scope, rebind, spec_binop, spec_eval,
    spec_eval_args, spec_eval_list, spec_loop_init, spec_loop_run, spec_member, spec_run, spec_stmt,
    spec_truth, spec_update, tick, with_envs, with_pos,
};

verus! {

// ---------------------------------------------------------------------
// Quiet programs and values
/// Every statement in `e` (in its blocks and lambda bodies) ends in `;`,
/// and none imports.
pub open spec fn quiet_expr(e: SpecExpr) -> bool
    decreases e, 2int,
{
    match e {
        SpecExpr::Tuple(cs) => quiet_exprs(cs, 0),
        SpecExpr::Recur(cs) => quiet_exprs(cs, 0),
        SpecExpr::MemberAccess(b, _) => quiet_expr(*b),
        SpecExpr::Length(b) => quiet_expr(*b),
        SpecExpr::Block { statements, ret } => quiet_stmts(statements, 0) && quiet_expr(*ret),
        SpecExpr::Binary { lhs, rhs, .. } => quiet_expr(*lhs) && quiet_expr(*rhs),
        SpecExpr::Call { callee, args } => quiet_expr(*callee) && quiet_exprs(args, 0),
        SpecExpr::Lambda { body, .. } => quiet_expr(*body),
        SpecExpr::Ternary { condition, true_branch, false_branch } => quiet_expr(*condition) && quiet_expr(
            *true_branch,
        ) && quiet_expr(*false_branch),
        SpecExpr::Loop { bindings, body } => quiet_bindings_exprs(bindings, 0) && quiet_expr(*body),
        _ => true,
    }
}

pub open spec fn quiet_exprs(es: Seq<SpecExpr>, i: int) -> bool
    decreases es, es.len() - i,
{
    if i < 0 || i >= es.len() {
        true
    } else {
        quiet_expr(es[i]) && quiet_exprs(es, i + 1)
    }
}

pub open spec fn quiet_bindings_exprs(bs: Seq<(Seq<char>, SpecExpr)>, i: int) -> bool
    decreases bs, bs.len() - i,
{
    if i < 0 || i >= bs.len() {
        true
    } else {
        quiet_expr(bs[i].1) && quiet_bindings_exprs(bs, i + 1)
    }
}

pub open spec fn quiet_stmt(st: SpecStatement) -> bool
    decreases st, 2int,
{
    match st {
        SpecStatement::Assignment(_, _, e, suppressed) => suppressed && quiet_expr(e),
        SpecStatement::Equivalence(l, r, suppressed) => suppressed && quiet_expr(l) && quiet_expr(r),
        SpecStatement::Expression(e, suppressed) => suppressed && quiet_expr(e),
        SpecStatement::Module(_, body) => quiet_stmts(body, 0),
        SpecStatement::Export(_) => true,
        SpecStatement::Import(_) => false,
    }
}

pub open spec fn quiet_stmts(ss: Seq<SpecStatement>, i: int) -> bool
    decreases ss, ss.len() - i,
{
    if i < 0 || i >= ss.len() {
        true
    } else {
        quiet_stmt(ss[i]) && quiet_stmts(ss, i + 1)
    }
}

/// Every function in the value has a quiet body.
pub open spec fn quiet_value(v: SpecValue) -> bool
    decreases v, 2int,
{
    match v {
        SpecValue::Function { body, .. } => quiet_expr(body),
        SpecValue::Tuple(xs) => quiet_values(xs, 0),
        SpecValue::Recur(xs) => quiet_values(xs, 0),
        SpecValue::Module(b) => quiet_bindings(b, 0),
        _ => true,
    }
}

pub open spec fn quiet_values(xs: Seq<SpecValue>, i: int) -> bool
    decreases xs, xs.len() - i,
{
    if i < 0 || i >= xs.len() {
        true
    } else {
        quiet_value(xs[i]) && quiet_values(xs, i + 1)
    }
}

pub open spec fn quiet_bindings(b: SpecBindings, i: int) -> bool
    decreases b, b.len() - i,
{
    if i < 0 || i >= b.len() {
        true
    } else {
        quiet_value(b[i].1) && quiet_bindings(b, i + 1)
    }
}

/// Every value bound in every scope is quiet.
pub open spec fn quiet_store(envs: Seq<SpecEnv>) -> bool {
    forall|j: int| 0 <= j < envs.len() ==> quiet_bindings(#[trigger] envs[j].vars, 0)
}

// ---------------------------------------------------------------------
// The list forms, element by element
proof fn lemma_quiet_values_all(xs: Seq<SpecValue>, i: int)
    requires
        0 <= i,
    ensures
        quiet_values(xs, i) <==> forall|k: int| i <= k < xs.len() ==> quiet_value(#[trigger] xs[k]),
    decreases xs.len() - i,
{
    if i < xs.len() {
        lemma_quiet_values_all(xs, i + 1);
    }
}

proof fn lemma_quiet_bindings_all(b: SpecBindings, i: int)
    requires
        0 <= i,
    ensures
        quiet_bindings(b, i) <==> forall|k: int| i <= k < b.len() ==> quiet_value(#[trigger] b[k].1),
    decreases b.len() - i,
{
    if i < b.len() {
        lemma_quiet_bindings_all(b, i + 1);
    }
}

proof fn lemma_quiet_exprs_all(es: Seq<SpecExpr>, i: int)
    requires
        0 <= i,
    ensures
        quiet_exprs(es, i) <==> forall|k: int| i <= k < es.len() ==> quiet_expr(#[trigger] es[k]),
    decreases es.len() - i,
{
    if i < es.len() {
        lemma_quiet_exprs_all(es, i + 1);
    }
}

proof fn lemma_quiet_bindings_exprs_all(bs: Seq<(Seq<char>, SpecExpr)>, i: int)
    requires
        0 <= i,
    ensures
        quiet_bindings_exprs(bs, i) <==> forall|k: int| i <= k < bs.len() ==> quiet_expr(#[trigger] bs[k].1),
    decreases bs.len() - i,
{
    if i < bs.len() {
        lemma_quiet_bindings_exprs_all(bs, i + 1);
    }
}

proof fn lemma_quiet_stmts_all(ss: Seq<SpecStatement>, i: int)
    requires
        0 <= i,
    ensures
        quiet_stmts(ss, i) <==> forall|k: int| i <= k < ss.len() ==> quiet_stmt(#[trigger] ss[k]),
    decreases ss.len() - i,
{
    if i < ss.len() {
        lemma_quiet_stmts_all(ss, i + 1);
    }
}

// ---------------------------------------------------------------------
// Bindings and scopes
proof fn lemma_quiet_bind_get(b: SpecBindings, k: Seq<char>)
    requires
        quiet_bindings(b, 0),
    ensures
        bind_get(b, k) matches Some(v) ==> quiet_value(v),
{
    lemma_bind_find(b, k);
    lemma_quiet_bindings_all(b, 0);
}

proof fn lemma_quiet_bind_insert(b: SpecBindings, k: Seq<char>, v: SpecValue)
    requires
        quiet_bindings(b, 0),
        quiet_value(v),
    ensures
        quiet_bindings(bind_insert(b, k, v), 0),
{
    lemma_bind_find(b, k);
    lemma_quiet_bindings_all(b, 0);
    lemma_quiet_bindings_all(bind_insert(b, k, v), 0);
}

proof fn lemma_quiet_lookup(envs: Seq<SpecEnv>, idx: int, k: Seq<char>, steps: nat)
    requires
        quiet_store(envs),
    ensures
        lookup(envs, idx, k, steps) matches Some(v) ==> quiet_value(v),
    decreases steps,
{
    if steps > 0 && 0 <= idx < envs.len() {
        lemma_quiet_bind_get(envs[idx].vars, k);
        match envs[idx].parent {
            Some(p) => {
                lemma_quiet_lookup(envs, p as int, k, (steps - 1) as nat);
            },
            None => {},
        }
    }
}

proof fn lemma_quiet_scope_get(envs: Seq<SpecEnv>, idx: int, k: Seq<char>)
    requires
        quiet_store(envs),
    ensures
        scope_get(envs, idx, k) matches Some(v) ==> quiet_value(v),
{
    if 0 <= idx < envs.len() {
        lemma_quiet_bind_get(envs[idx].vars, k);
        match envs[idx].parent {
            Some(p) => {
                lemma_quiet_lookup(envs, p as int, k, envs.len());
            },
            None => {},
        }
    }
}

proof fn lemma_quiet_bind_in(envs: Seq<SpecEnv>, idx: int, k: Seq<char>, v: SpecValue)
    requires
        quiet_store(envs),
        quiet_value(v),
    ensures
        quiet_store(bind_in(envs, idx, k, v)),
{
    if 0 <= idx < envs.len() {
        lemma_quiet_bind_insert(envs[idx].vars, k, v);
        let e2 = bind_in(envs, idx, k, v);
        assert forall|j: int| 0 <= j < e2.len() implies quiet_bindings(#[trigger] e2[j].vars, 0) by {
            if j != idx {
                assert(e2[j] == envs[j]);
            }
        }
    }
}

proof fn lemma_quiet_push_scope(s: SpecState, parent: Option<usize>)
    requires
        quiet_store(s.envs),
    ensures
        quiet_store(push_scope(s, parent).envs),
{
    let e2 = push_scope(s, parent).envs;
    assert forall|j: int| 0 <= j < e2.len() implies quiet_bindings(#[trigger] e2[j].vars, 0) by {
        if j < s.envs.len() {
            assert(e2[j] == s.envs[j]);
        }
    }
}

proof fn lemma_quiet_rebind(names: Seq<Seq<char>>, vals: Seq<SpecValue>, i: int, idx: int, envs: Seq<SpecEnv>)
    requires
        quiet_store(envs),
        quiet_values(vals, 0),
        0 <= i,
    ensures
        quiet_store(rebind(names, vals, i, idx, envs)),
    decreases names.len() - i,
{
    lemma_quiet_values_all(vals, 0);
    if i < names.len() && i < vals.len() {
        lemma_quiet_bind_in(envs, idx, names[i], vals[i]);
        lemma_quiet_rebind(names, vals, i + 1, idx, bind_in(envs, idx, names[i], vals[i]));
    }
}

/// The successful results among `results` are quiet.
pub open spec fn quiet_results(results: Seq<SRes>) -> bool {
    forall|k: int| 0 <= k < results.len() ==> (#[trigger] results[k] matches Ok(v) ==> quiet_value(v))
}

proof fn lemma_quiet_bind_args(names: Seq<Seq<char>>, results: Seq<SRes>, i: int, idx: int, envs: Seq<SpecEnv>)
    requires
        quiet_store(envs),
        quiet_results(results),
        0 <= i,
    ensures
        quiet_store(bind_args(names, results, i, idx, envs).1),
    decreases names.len() - i,
{
    if i < names.len() && i < results.len() {
        match results[i] {
            Err(_) => {},
            Ok(v) => {
                lemma_quiet_bind_in(envs, idx, names[i], v);
                lemma_quiet_bind_args(names, results, i + 1, idx, bind_in(envs, idx, names[i], v));
            },
        }
    }
}

// ---------------------------------------------------------------------
// Operators, member access, nested assignment
proof fn lemma_quiet_binop(l: SpecValue, op: Seq<char>, r: SpecValue, o: Oracle, p: nat)
    requires
        quiet_value(l),
        quiet_value(r),
    ensures
        spec_binop(l, op, r, o, p).0 matches Ok(v) ==> quiet_value(v),
{
    match (l, r) {
        (SpecValue::Tuple(a), SpecValue::Tuple(b)) => {
            lemma_quiet_values_all(a, 0);
            lemma_quiet_values_all(b, 0);
            lemma_quiet_values_all(a + b, 0);
            assert forall|k: int| 0 <= k < (a + b).len() implies quiet_value(#[trigger] (a + b)[k]) by {
                if k < a.len() {
                    assert((a + b)[k] == a[k]);
                } else {
                    assert((a + b)[k] == b[k - a.len()]);
                }
            }
        },
        (SpecValue::Tuple(t), SpecValue::Number(_)) => {
            lemma_quiet_values_all(t, 0);
            if let Ok(SpecValue::Tuple(t2)) = spec_binop(l, op, r, o, p).0 {
                lemma_quiet_values_all(t2, 0);
            }
        },
        (SpecValue::Tuple(t), _) => {
            lemma_quiet_values_all(t, 0);
            lemma_quiet_values_all(t.push(r), 0);
            assert forall|k: int| 0 <= k < t.push(r).len() implies quiet_value(#[trigger] t.push(r)[k]) by {
                if k < t.len() {
                    assert(t.push(r)[k] == t[k]);
                }
            }
        },
        _ => {},
    }
}

proof fn lemma_quiet_member(
    envs: Seq<SpecEnv>,
    env: int,
    cur: SpecValue,
    path: Seq<SpecAccess>,
    i: int,
    o: Oracle,
    p: nat,
)
    requires
        quiet_value(cur),
    ensures
        spec_member(envs, env, cur, path, i, o, p).0 matches Ok(v) ==> quiet_value(v),
    decreases path.len() - i,
{
    if 0 <= i < path.len() {
        match (cur, path[i]) {
            (SpecValue::Module(b), SpecAccess::Name(n)) => {
                lemma_quiet_bind_get(b, n);
                if let Some(v) = bind_get(b, n) {
                    lemma_quiet_member(envs, env, v, path, i + 1, o, p);
                }
            },
            (SpecValue::Tuple(es), _) => {
                lemma_quiet_values_all(es, 0);
                match path[i] {
                    SpecAccess::Index(k) => if k < es.len() {
                        lemma_quiet_member(envs, env, es[k as int], path, i + 1, o, p);
                    },
                    _ => {},
                }
            },
            _ => {},
        }
    }
}

proof fn lemma_quiet_update(
    vars: SpecBindings,
    cur: SpecValue,
    path: Seq<SpecAccess>,
    i: int,
    new_val: SpecValue,
    o: Oracle,
    p: nat,
)
    requires
        quiet_value(cur),
        quiet_value(new_val),
    ensures
        spec_update(vars, cur, path, i, new_val, o, p).0 matches Ok(v) ==> quiet_value(v),
    decreases path.len() - i,
{
    if 0 <= i < path.len() {
        match (cur, path[i]) {
            (SpecValue::Tuple(es), SpecAccess::Index(k)) => {
                lemma_quiet_values_all(es, 0);
                if k < es.len() {
                    lemma_quiet_update(vars, es[k as int], path, i + 1, new_val, o, p);
                    if let Ok(nv) = spec_update(vars, es[k as int], path, i + 1, new_val, o, p).0 {
                        lemma_quiet_values_all(es.update(k as int, nv), 0);
                    }
                }
            },
            (SpecValue::Module(b), SpecAccess::Name(n)) => {
                lemma_quiet_bindings_all(b, 0);
                lemma_bind_find(b, n);
                if let Some(j) = bind_find(b, n) {
                    lemma_quiet_update(vars, b[j].1, path, i + 1, new_val, o, p);
                    if let Ok(nv) = spec_update(vars, b[j].1, path, i + 1, new_val, o, p).0 {
                        lemma_quiet_bindings_all(b.update(j, (b[j].0, nv)), 0);
                    }
                }
            },
            (SpecValue::Tuple(es), SpecAccess::Name(n)) => {
                lemma_quiet_values_all(es, 0);
                match bind_get(vars, n) {
                    Some(SpecValue::Number(x)) => {
                        let k = ans_index(o(p), x);
                        if k < es.len() {
                            lemma_quiet_update(vars, es[k as int], path, i + 1, new_val, o, p + 1);
                            if let Ok(nv) = spec_update(vars, es[k as int], path, i + 1, new_val, o, p + 1).0 {
                                lemma_quiet_values_all(es.update(k as int, nv), 0);
                            }
                        }
                    },
                    _ => {},
                }
            },
            _ => {},
        }
    }
}

// ---------------------------------------------------------------------
// Runs
/// From `s` to `s1` nothing was printed and every scope stayed quiet.
pub open spec fn quiet_after(s: SpecState, s1: SpecState) -> bool {
    s1.out == s.out && quiet_store(s1.envs)
}

/// Evaluating a quiet expression in quiet scopes prints nothing, leaves the
/// scopes quiet, and gives a quiet value.
pub proof fn law_quiet_eval(e: SpecExpr, env: usize, o: Oracle, s: SpecState)
    requires
        quiet_expr(e),
        quiet_store(s.envs),
    ensures
        quiet_after(s, spec_eval(e, env, o, s).1),
        spec_eval(e, env, o, s).0 matches Ok(v) ==> quiet_value(v),
    decreases s.fuel, 0int,
{
    if s.fuel > 0 {
        let s0 = tick(s);
        let f = s0.fuel;
        match e {
            SpecExpr::Variable(name) => {
                lemma_quiet_scope_get(s0.envs, env as int, name);
            },
            SpecExpr::Binary { lhs, op, rhs } => {
                law_quiet_eval(*lhs, env, o, s0);
                let (l, s1) = spec_eval(*lhs, env, o, s0);
                if let Ok(lv) = l {
                    law_quiet_eval(*rhs, env, o, cap(s1, f));
                    let (r, s2) = spec_eval(*rhs, env, o, cap(s1, f));
                    if let Ok(rv) = r {
                        lemma_quiet_binop(lv, op, rv, o, s2.pos);
                    }
                }
            },
            SpecExpr::Call { callee, args } => {
                law_quiet_eval(*callee, env, o, s0);
                let (c, s1) = spec_eval(*callee, env, o, s0);
                if let Ok(SpecValue::Function { args: names, body, env: cenv }) = c {
                    lemma_quiet_args(args, 0, env, Seq::empty(), o, cap(s1, f));
                    let (results, s2) = spec_eval_args(args, 0, env, Seq::empty(), o, cap(s1, f));
                    let local = s2.envs.len();
                    let s3 = push_scope(s2, Some(cenv));
                    lemma_quiet_push_scope(s2, Some(cenv));
                    lemma_quiet_bind_args(names, results, 0, local as int, s3.envs);
                    let (b, envs4) = bind_args(names, results, 0, local as int, s3.envs);
                    let s4 = with_envs(s3, envs4);
                    if b is Ok {
                        law_quiet_eval(body, local as usize, o, cap(s4, f));
                    }
                }
            },
            SpecExpr::Ternary { condition, true_branch, false_branch } => {
                law_quiet_eval(*condition, env, o, s0);
                let (c, s1) = spec_eval(*condition, env, o, s0);
                if let Ok(v) = c {
                    let (t, p) = spec_truth(v, o, s1.pos);
                    let s2 = with_pos(s1, p);
                    if let Ok(b) = t {
                        if b {
                            law_quiet_eval(*true_branch, env, o, cap(s2, f));
                        } else {
                            law_quiet_eval(*false_branch, env, o, cap(s2, f));
                        }
                    }
                }
            },
            SpecExpr::MemberAccess(base, path) => {
                law_quiet_eval(*base, env, o, s0);
                let (b, s1) = spec_eval(*base, env, o, s0);
                if let Ok(v) = b {
                    lemma_quiet_member(s1.envs, env as int, v, path, 0, o, s1.pos);
                }
            },
            SpecExpr::Tuple(cs) => {
                lemma_quiet_list(cs, 0, env, Seq::empty(), o, s0);
                if let Ok(vals) = spec_eval_list(cs, 0, env, Seq::empty(), o, s0).0 {
                    lemma_quiet_values_all(vals, 0);
                }
            },
            SpecExpr::Recur(cs) => {
                lemma_quiet_list(cs, 0, env, Seq::empty(), o, s0);
            },
            SpecExpr::Loop { bindings, body } => {
                let loop_env = s0.envs.len();
                let s1 = push_scope(s0, Some(env));
                lemma_quiet_push_scope(s0, Some(env));
                lemma_quiet_init(bindings, 0, env, loop_env as int, o, s1);
                let (r, s2) = spec_loop_init(bindings, 0, env, loop_env as int, o, s1);
                if r is Ok {
                    lemma_quiet_loop(*body, loop_env as usize, loop_names(bindings), o, cap(s2, f));
                }
            },
            SpecExpr::Block { statements, ret } => {
                let block_env = s0.envs.len();
                let s1 = push_scope(s0, Some(env));
                lemma_quiet_push_scope(s0, Some(env));
                lemma_quiet_run(statements, 0, block_env as usize, Seq::empty(), o, s1);
                let (r, s2) = spec_run(statements, 0, block_env as usize, Seq::empty(), o, s1);
                if r is Ok {
                    law_quiet_eval(*ret, block_env as usize, o, cap(s2, f));
                }
            },
            SpecExpr::Length(inner) => {
                law_quiet_eval(*inner, env, o, s0);
            },
            _ => {},
        }
    }
}

proof fn lemma_quiet_list(es: Seq<SpecExpr>, i: int, env: usize, acc: Seq<SpecValue>, o: Oracle, s: SpecState)
    requires
        0 <= i,
        quiet_exprs(es, i),
        quiet_values(acc, 0),
        quiet_store(s.envs),
    ensures
        quiet_after(s, spec_eval_list(es, i, env, acc, o, s).1),
        spec_eval_list(es, i, env, acc, o, s).0 matches Ok(vs) ==> quiet_values(vs, 0),
    decreases s.fuel, 1 + es.len() - i,
{
    if i < es.len() {
        law_quiet_eval(es[i], env, o, s);
        let (r, s1) = spec_eval(es[i], env, o, s);
        if let Ok(v) = r {
            lemma_quiet_values_all(acc, 0);
            lemma_quiet_values_all(acc.push(v), 0);
            assert forall|k: int| 0 <= k < acc.push(v).len() implies quiet_value(#[trigger] acc.push(v)[k]) by {
                if k < acc.len() {
                    assert(acc.push(v)[k] == acc[k]);
                }
            }
            lemma_quiet_list(es, i + 1, env, acc.push(v), o, cap(s1, s.fuel));
        }
    }
}

proof fn lemma_quiet_args(es: Seq<SpecExpr>, i: int, env: usize, acc: Seq<SRes>, o: Oracle, s: SpecState)
    requires
        0 <= i,
        quiet_exprs(es, i),
        quiet_results(acc),
        quiet_store(s.envs),
    ensures
        quiet_after(s, spec_eval_args(es, i, env, acc, o, s).1),
        quiet_results(spec_eval_args(es, i, env, acc, o, s).0),
    decreases s.fuel, 1 + es.len() - i,
{
    if i < es.len() {
        law_quiet_eval(es[i], env, o, s);
        let (r, s1) = spec_eval(es[i], env, o, s);
        assert forall|k: int| 0 <= k < acc.push(r).len() implies (#[trigger] acc.push(r)[k] matches Ok(v)
            ==> quiet_value(v)) by {
            if k < acc.len() {
                assert(acc.push(r)[k] == acc[k]);
            }
        }
        lemma_quiet_args(es, i + 1, env, acc.push(r), o, cap(s1, s.fuel));
    }
}

proof fn lemma_quiet_init(
    bindings: Seq<(Seq<char>, SpecExpr)>,
    i: int,
    outer: usize,
    loop_env: int,
    o: Oracle,
    s: SpecState,
)
    requires
        0 <= i,
        quiet_bindings_exprs(bindings, i),
        quiet_store(s.envs),
    ensures
        quiet_after(s, spec_loop_init(bindings, i, outer, loop_env, o, s).1),
    decreases s.fuel, 1 + bindings.len() - i,
{
    if i < bindings.len() {
        law_quiet_eval(bindings[i].1, outer, o, s);
        let (r, s1) = spec_eval(bindings[i].1, outer, o, s);
        if let Ok(v) = r {
            lemma_quiet_bind_in(s1.envs, loop_env, bindings[i].0, v);
            lemma_quiet_init(
                bindings,
                i + 1,
                outer,
                loop_env,
                o,
                cap(with_envs(s1, bind_in(s1.envs, loop_env, bindings[i].0, v)), s.fuel),
            );
        }
    }
}

proof fn lemma_quiet_loop(body: SpecExpr, loop_env: usize, names: Seq<Seq<char>>, o: Oracle, s: SpecState)
    requires
        quiet_expr(body),
        quiet_store(s.envs),
    ensures
        quiet_after(s, spec_loop_run(body, loop_env, names, o, s).1),
        spec_loop_run(body, loop_env, names, o, s).0 matches Ok(v) ==> quiet_value(v),
    decreases s.fuel, 0int,
{
    if s.fuel > 0 {
        let s0 = tick(s);
        law_quiet_eval(body, loop_env, o, s0);
        let (r, s1) = spec_eval(body, loop_env, o, s0);
        if let Ok(SpecValue::Recur(vals)) = r {
            if vals.len() == names.len() {
                lemma_quiet_rebind(names, vals, 0, loop_env as int, s1.envs);
                lemma_quiet_loop(
                    body,
                    loop_env,
                    names,
                    o,
                    cap(with_envs(s1, rebind(names, vals, 0, loop_env as int, s1.envs)), s0.fuel),
                );
            }
        }
    }
}

proof fn lemma_quiet_run(stmts: Seq<SpecStatement>, i: int, env: usize, ex: SpecBindings, o: Oracle, s: SpecState)
    requires
        0 <= i,
        quiet_stmts(stmts, i),
        quiet_bindings(ex, 0),
        quiet_store(s.envs),
    ensures
        quiet_after(s, spec_run(stmts, i, env, ex, o, s).1),
        spec_run(stmts, i, env, ex, o, s).0 matches Ok(ex2) ==> quiet_bindings(ex2, 0),
    decreases s.fuel, 1 + stmts.len() - i,
{
    if i < stmts.len() {
        lemma_quiet_stmt(stmts[i], env, ex, o, s);
        let (r, s1) = spec_stmt(stmts[i], env, ex, o, s);
        if let Ok(ex2) = r {
            lemma_quiet_run(stmts, i + 1, env, ex2, o, cap(s1, s.fuel));
        }
    }
}

proof fn lemma_quiet_stmt(st: SpecStatement, env: usize, ex: SpecBindings, o: Oracle, s: SpecState)
    requires
        quiet_stmt(st),
        quiet_bindings(ex, 0),
        quiet_store(s.envs),
    ensures
        quiet_after(s, spec_stmt(st, env, ex, o, s).1),
        spec_stmt(st, env, ex, o, s).0 matches Ok(ex2) ==> quiet_bindings(ex2, 0),
    decreases s.fuel, 0int,
{
    if s.fuel > 0 {
        let s0 = tick(s);
        let f = s0.fuel;
        match st {
            SpecStatement::Assignment(name, path, e, suppressed) => {
                law_quiet_eval(e, env, o, s0);
                let (r, s1) = spec_eval(e, env, o, s0);
                if let Ok(v) = r {
                    if path.len() == 0 {
                        lemma_quiet_bind_in(s1.envs, env as int, name, v);
                    } else {
                        lemma_quiet_scope_get(s1.envs, env as int, name);
                        if let Some(root) = scope_get(s1.envs, env as int, name) {
                            lemma_quiet_update(env_vars(s1.envs, env as int), root, path, 0, v, o, s1.pos);
                            let (u, p) = spec_update(env_vars(s1.envs, env as int), root, path, 0, v, o, s1.pos);
                            if let Ok(val) = u {
                                lemma_quiet_bind_in(s1.envs, env as int, name, val);
                            }
                        }
                    }
                }
            },
            SpecStatement::Equivalence(lhs, rhs, suppressed) => {
                law_quiet_eval(lhs, env, o, s0);
                let (a, s1) = spec_eval(lhs, env, o, s0);
                if a is Ok {
                    law_quiet_eval(rhs, env, o, cap(s1, f));
                }
            },
            SpecStatement::Expression(e, suppressed) => {
                law_quiet_eval(e, env, o, s0);
            },
            SpecStatement::Module(name, body) => {
                let menv = s0.envs.len();
                let s1 = push_scope(s0, Some(env));
                lemma_quiet_push_scope(s0, Some(env));
                lemma_quiet_run(body, 0, menv as usize, Seq::empty(), o, s1);
                let (r, s2) = spec_run(body, 0, menv as usize, Seq::empty(), o, s1);
                if let Ok(mex) = r {
                    lemma_quiet_bind_in(s2.envs, env as int, name, SpecValue::Module(mex));
                }
            },
            SpecStatement::Export(name) => {
                lemma_quiet_scope_get(s0.envs, env as int, name);
                if let Some(v) = scope_get(s0.envs, env as int, name) {
                    lemma_quiet_bind_insert(ex, name, v);
                }
            },
            SpecStatement::Import(_) => {},
        }
    }
}

/// A run of statements that all end in `;` (in module bodies and blocks
/// too) and that import nothing prints nothing, provided that every
/// function value already in the scopes is of the same kind.
pub proof fn law_quiet_run(stmts: Seq<SpecStatement>, env: usize, o: Oracle, s: SpecState)
    requires
        quiet_stmts(stmts, 0),
        quiet_store(s.envs),
    ensures
        spec_run(stmts, 0, env, Seq::empty(), o, s).1.out == s.out,
{
    lemma_quiet_run(stmts, 0, env, Seq::empty(), o, s);
}

} // verus!
