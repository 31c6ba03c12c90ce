//! The meaning of Sunwave programs, as spec functions.
//!
//! Every function takes the host's answers as an oracle `o` (the `i`-th
//! answer is `o(i)`), reads them from position `s.pos` on, and returns the
//! position after the last one it read. Each evaluation step uses one unit
//! of `s.fuel`; a step without fuel fails with [`out_of_steps`].
use vstd::prelude::*;
use crate::ast::{SpecAccess, SpecExpr, SpecStatement};
use crate::value::{SpecBindings, SpecValue, bind_find, bind_get, bind_insert, law_bind_insert_get, lemma_bind_find};
use crate::environment::{SpecEnv, SpecState, bind_in, law_bind_then_get, scope_get};
use crate::host::{
    Comparison, NumOp, Oracle, SpecDirEntry, SpecImportTarget, SpecSourceLoad, ans_arith, ans_compare,
    ans_count, ans_expr_text, ans_index, ans_load, ans_target, ans_value_text,
};
use crate::format::{spec_eq, spec_write};
use crate::text::{debug_text, dec_text, path_parts};
use crate::parser::{malformed, p_file};

verus! {

pub type SRes = Result<SpecValue, Seq<char>>;

/// The error of a step taken without fuel.
pub open spec fn out_of_steps() -> Seq<char> {
    "evaluation step limit reached"@
}

pub open spec fn tick(s: SpecState) -> SpecState {
    SpecState { fuel: (s.fuel - 1) as nat, ..s }
}

/// `s` with at most `f` fuel.
pub open spec fn cap(s: SpecState, f: nat) -> SpecState {
    if s.fuel <= f {
        s
    } else {
        SpecState { fuel: f, ..s }
    }
}

pub open spec fn with_pos(s: SpecState, p: nat) -> SpecState {
    SpecState { pos: p, ..s }
}

pub open spec fn with_envs(s: SpecState, envs: Seq<SpecEnv>) -> SpecState {
    SpecState { envs, ..s }
}

pub open spec fn with_out(s: SpecState, out: Seq<char>) -> SpecState {
    SpecState { out, ..s }
}

/// `s` with a new empty scope below `parent` at the end of the store.
pub open spec fn push_scope(s: SpecState, parent: Option<usize>) -> SpecState {
    SpecState { envs: s.envs.push(SpecEnv { vars: Seq::empty(), parent }), ..s }
}

/// The own bindings of scope `env`.
pub open spec fn env_vars(envs: Seq<SpecEnv>, env: int) -> SpecBindings {
    if 0 <= env < envs.len() {
        envs[env].vars
    } else {
        Seq::empty()
    }
}

// ---------------------------------------------------------------------
// Operators
pub open spec fn is_arith_op(op: Seq<char>) -> bool {
    op == "+"@ || op == "-"@ || op == "*"@ || op == "/"@ || op == "^"@
}

pub open spec fn is_compare_op(op: Seq<char>) -> bool {
    op == "=="@ || op == "!="@ || op == ">"@ || op == "<"@ || op == ">="@ || op == "<="@
}

/// The arithmetic operation an operator names.
pub open spec fn num_op(op: Seq<char>) -> NumOp {
    if op == "+"@ {
        NumOp::Add
    } else if op == "-"@ {
        NumOp::Sub
    } else if op == "*"@ {
        NumOp::Mul
    } else if op == "/"@ {
        NumOp::Div
    } else {
        NumOp::Pow
    }
}

/// The comparison an operator names.
pub open spec fn comparison(op: Seq<char>) -> Comparison {
    if op == "=="@ {
        Comparison::Eq
    } else if op == "!="@ {
        Comparison::Ne
    } else if op == ">"@ {
        Comparison::Gt
    } else if op == "<"@ {
        Comparison::Lt
    } else if op == ">="@ {
        Comparison::Ge
    } else {
        Comparison::Le
    }
}

/// `l op r`.
pub open spec fn spec_binop(l: SpecValue, op: Seq<char>, r: SpecValue, o: Oracle, p: nat) -> (
    SRes,
    nat,
) {
    match (l, r) {
        (SpecValue::Number(x), SpecValue::Number(y)) => if is_arith_op(op) {
            (Ok(SpecValue::Number(ans_arith(o(p), num_op(op), x, y))), p + 1)
        } else if is_compare_op(op) {
            (Ok(SpecValue::Bool(ans_compare(o(p), comparison(op), x, y))), p + 1)
        } else {
            (Err("Unknown operator: "@ + op), p)
        },
        (SpecValue::Str(a), SpecValue::Str(b)) => if op == "=="@ {
            (Ok(SpecValue::Bool(a == b)), p)
        } else if op == "!="@ {
            (Ok(SpecValue::Bool(a != b)), p)
        } else if op == "+"@ {
            (Ok(SpecValue::Str(a + b)), p)
        } else {
            (Err("Cannot perform operation on strings"@), p)
        },
        (SpecValue::Bool(a), SpecValue::Bool(b)) => if op == "=="@ {
            (Ok(SpecValue::Bool(a == b)), p)
        } else if op == "!="@ {
            (Ok(SpecValue::Bool(a != b)), p)
        } else if op == "|"@ {
            (Ok(SpecValue::Bool(a || b)), p)
        } else {
            (Err("Cannot perform operation on booleans"@), p)
        },
        (SpecValue::Tuple(t), SpecValue::Number(x)) => if op == "-"@ {
            let k = ans_index(o(p), x);
            if k < t.len() {
                (Ok(SpecValue::Tuple(t.remove(k as int))), p + 1)
            } else {
                (Err("Index "@ + dec_text(k as nat) + " out of bounds"@), p + 1)
            }
        } else {
            (Err("Cannot perform operation "@ + op + " on a tuple and number."@), p)
        },
        (SpecValue::Tuple(a), SpecValue::Tuple(b)) => if op == "=="@ {
            let (e, p1) = spec_eq(l, r, o, p);
            (Ok(SpecValue::Bool(e)), p1)
        } else if op == "!="@ {
            let (e, p1) = spec_eq(l, r, o, p);
            (Ok(SpecValue::Bool(!e)), p1)
        } else if op == "+"@ {
            (Ok(SpecValue::Tuple(a + b)), p)
        } else {
            (Err("Cannot perform operation "@ + op + " on a tuples."@), p)
        },
        (SpecValue::Tuple(t), v) => if op == "+"@ {
            (Ok(SpecValue::Tuple(t.push(v))), p)
        } else {
            (Err("Cannot perform operation on a tuple and value."@), p)
        },
        (SpecValue::NoneValue, SpecValue::NoneValue) => if op == "=="@ || op == ">="@ || op == "<="@ {
            (Ok(SpecValue::Bool(true)), p)
        } else if op == "!="@ || op == ">"@ || op == "<"@ {
            (Ok(SpecValue::Bool(false)), p)
        } else {
            (Err("Cannot perform operation on two 'None' values."@), p)
        },
        _ => (Err("Type mismatch in binary operation"@), p),
    }
}

/// Whether a condition holds: a number when it is not zero (asked of the
/// host), a boolean by value, `none` never; other values are errors.
pub open spec fn spec_truth(v: SpecValue, o: Oracle, p: nat) -> (Result<bool, Seq<char>>, nat) {
    match v {
        SpecValue::Function { .. } => (
            Err("Cannot evaluate truthyness of an anonymous function"@),
            p,
        ),
        SpecValue::Number(x) => (Ok(!ans_compare(o(p), Comparison::Eq, x, 0)), p + 1),
        SpecValue::Bool(b) => (Ok(b), p),
        SpecValue::NoneValue => (Ok(false), p),
        SpecValue::Str(_) => (Err("Cannot evaluate truthyness of a String"@), p),
        SpecValue::Module(_) => (Err("Cannot evaluate truthyness of a Module"@), p),
        SpecValue::Recur(_) => (Err("Cannot evaluate truthyness of a Recur Signal"@), p),
        SpecValue::Tuple(_) => (Err("Cannot evaluate truthyness of a Tuple"@), p),
    }
}

/// How `{:?}` writes an access step.
pub open spec fn access_debug(a: SpecAccess) -> Seq<char> {
    match a {
        SpecAccess::Name(n) => "Name("@ + debug_text(n) + ")"@,
        SpecAccess::Index(i) => "Index("@ + dec_text(i as nat) + ")"@,
    }
}

/// How `{}` writes an access step.
pub open spec fn access_text(a: SpecAccess) -> Seq<char> {
    match a {
        SpecAccess::Name(n) => n,
        SpecAccess::Index(i) => dec_text(i as nat),
    }
}

/// Follows `path[i..]` from `cur`: `.name` selects a module member, `.k`
/// a tuple element, and `.name` on a tuple the element whose index is the
/// number bound to `name` (which ends the access).
pub open spec fn spec_member(
    envs: Seq<SpecEnv>,
    env: int,
    cur: SpecValue,
    path: Seq<SpecAccess>,
    i: int,
    o: Oracle,
    p: nat,
) -> (SRes, nat)
    decreases path.len() - i,
{
    if i < 0 || i >= path.len() {
        (Ok(cur), p)
    } else {
        match (cur, path[i]) {
            (SpecValue::Module(b), SpecAccess::Name(n)) => match bind_get(b, n) {
                Some(v) => spec_member(envs, env, v, path, i + 1, o, p),
                None => (Err("No member "@ + n), p),
            },
            (SpecValue::Tuple(es), SpecAccess::Index(k)) => if k < es.len() {
                spec_member(envs, env, es[k as int], path, i + 1, o, p)
            } else {
                (Err("Index "@ + dec_text(k as nat) + " out of bounds"@), p)
            },
            (SpecValue::Tuple(es), SpecAccess::Name(n)) => match scope_get(envs, env, n) {
                None => (Err("No identifier "@ + n), p),
                Some(SpecValue::Number(x)) => {
                    let k = ans_index(o(p), x);
                    if k < es.len() {
                        (Ok(es[k as int]), p + 1)
                    } else {
                        (Err("Index "@ + dec_text(k as nat) + " out of bounds"@), p + 1)
                    }
                },
                Some(_) => (Err("Identifier "@ + n + " is not a number"@), p),
            },
            (a, b) => (
                Err("Invalid member access sequence, "@ + ans_value_text(o(p), a) + ", "@ + access_debug(b)),
                p + 1,
            ),
        }
    }
}

/// `cur` with the part at `path[i..]` replaced by `new_val`; a `.name`
/// step on a tuple uses the number bound to `name` in `vars`.
pub open spec fn spec_update(
    vars: SpecBindings,
    cur: SpecValue,
    path: Seq<SpecAccess>,
    i: int,
    new_val: SpecValue,
    o: Oracle,
    p: nat,
) -> (SRes, nat)
    decreases path.len() - i,
{
    if i < 0 || i >= path.len() {
        (Ok(new_val), p)
    } else {
        match (cur, path[i]) {
            (SpecValue::Tuple(es), SpecAccess::Index(k)) => if k < es.len() {
                let (r, p1) = spec_update(vars, es[k as int], path, i + 1, new_val, o, p);
                match r {
                    Ok(nv) => (Ok(SpecValue::Tuple(es.update(k as int, nv))), p1),
                    Err(m) => (Err(m), p1),
                }
            } else {
                (Err("Index out of bounds"@), p)
            },
            (SpecValue::Module(b), SpecAccess::Name(n)) => match bind_find(b, n) {
                Some(j) => {
                    let (r, p1) = spec_update(vars, b[j].1, path, i + 1, new_val, o, p);
                    match r {
                        Ok(nv) => (Ok(SpecValue::Module(b.update(j, (b[j].0, nv)))), p1),
                        Err(m) => (Err(m), p1),
                    }
                },
                None => (Err("Member not found"@), p),
            },
            (SpecValue::Tuple(es), SpecAccess::Name(n)) => match bind_get(vars, n) {
                None => (Err("Access variable not in scope."@), p),
                Some(SpecValue::Number(x)) => {
                    let k = ans_index(o(p), x);
                    if k < es.len() {
                        let (r, p1) = spec_update(vars, es[k as int], path, i + 1, new_val, o, p + 1);
                        match r {
                            Ok(nv) => (Ok(SpecValue::Tuple(es.update(k as int, nv))), p1),
                            Err(m) => (Err(m), p1),
                        }
                    } else {
                        (Err("Index out of bounds"@), p + 1)
                    }
                },
                Some(_) => (Err("Invalid variable type for tuple access"@), p),
            },
            _ => (Err("Invalid path for assignment"@), p),
        }
    }
}

/// `b` with `exports` placed as a module at `parts[i..]`; missing modules
/// on the way are created, and a non-module on the way stops the placing.
pub open spec fn spec_inject(b: SpecBindings, parts: Seq<Seq<char>>, i: int, exports: SpecBindings) -> SpecBindings
    decreases parts.len() - i,
{
    if i < 0 || i >= parts.len() {
        b
    } else if i == parts.len() - 1 {
        bind_insert(b, parts[i], SpecValue::Module(exports))
    } else {
        let b1 = if bind_find(b, parts[i]) is None {
            bind_insert(b, parts[i], SpecValue::Module(Seq::empty()))
        } else {
            b
        };
        match bind_get(b1, parts[i]) {
            Some(SpecValue::Module(sub)) => bind_insert(
                b1,
                parts[i],
                SpecValue::Module(spec_inject(sub, parts, i + 1, exports)),
            ),
            _ => b1,
        }
    }
}

pub open spec fn inject_in(envs: Seq<SpecEnv>, env: int, parts: Seq<Seq<char>>, exports: SpecBindings) -> Seq<SpecEnv> {
    if 0 <= env < envs.len() {
        envs.update(env, SpecEnv { vars: spec_inject(envs[env].vars, parts, 0, exports), parent: envs[env].parent })
    } else {
        envs
    }
}

/// Binds `names[i..]` to `vals[i..]` in scope `idx`.
pub open spec fn rebind(names: Seq<Seq<char>>, vals: Seq<SpecValue>, i: int, idx: int, envs: Seq<SpecEnv>) -> Seq<SpecEnv>
    decreases names.len() - i,
{
    if i < 0 || i >= names.len() || i >= vals.len() {
        envs
    } else {
        rebind(names, vals, i + 1, idx, bind_in(envs, idx, names[i], vals[i]))
    }
}

/// Binds the call arguments `names[i..]` to the argument results
/// `results[i..]` in scope `idx`, stopping at the first failed argument.
pub open spec fn bind_args(names: Seq<Seq<char>>, results: Seq<SRes>, i: int, idx: int, envs: Seq<SpecEnv>) -> (
    Result<(), Seq<char>>,
    Seq<SpecEnv>,
)
    decreases names.len() - i,
{
    if i < 0 || i >= names.len() || i >= results.len() {
        (Ok(()), envs)
    } else {
        match results[i] {
            Err(m) => (Err(m), envs),
            Ok(v) => bind_args(names, results, i + 1, idx, bind_in(envs, idx, names[i], v)),
        }
    }
}

/// The label under which an expression's value is printed.
pub open spec fn expr_label(e: SpecExpr) -> Option<Seq<char>> {
    match e {
        SpecExpr::Variable(n) => Some(n),
        SpecExpr::MemberAccess(_, parts) => if parts.len() == 0 {
            None
        } else {
            Some(access_text(parts.last()))
        },
        _ => Some("Result"@),
    }
}

/// The error of a member access without any member.
pub open spec fn empty_access_error() -> Seq<char> {
    "Member access without a member"@
}

pub open spec fn loop_names(bindings: Seq<(Seq<char>, SpecExpr)>) -> Seq<Seq<char>> {
    Seq::new(bindings.len(), |i: int| bindings[i].0)
}

pub open spec fn count_value(n: nat, o: Oracle, s: SpecState) -> (SRes, SpecState) {
    (Ok(SpecValue::Number(ans_count(o(s.pos), n as usize))), with_pos(s, s.pos + 1))
}

// ---------------------------------------------------------------------
// Evaluation
/// The value of `e` in scope `env`.
pub open spec fn spec_eval(e: SpecExpr, env: usize, o: Oracle, s: SpecState) -> (SRes, SpecState)
    decreases s.fuel, 0int,
{
    if s.fuel == 0 {
        (Err(out_of_steps()), s)
    } else {
        let s0 = tick(s);
        let f = s0.fuel;
        match e {
            SpecExpr::Number(n) => (Ok(SpecValue::Number(n)), s0),
            SpecExpr::Str(x) => (Ok(SpecValue::Str(x)), s0),
            SpecExpr::Variable(name) => if name == "true"@ {
                (Ok(SpecValue::Bool(true)), s0)
            } else if name == "false"@ {
                (Ok(SpecValue::Bool(false)), s0)
            } else if name == "none"@ {
                (Ok(SpecValue::NoneValue), s0)
            } else {
                match scope_get(s0.envs, env as int, name) {
                    Some(v) => (Ok(v), s0),
                    None => (Err("Undefined variable: "@ + name), s0),
                }
            },
            SpecExpr::Binary { lhs, op, rhs } => {
                let (l, s1) = spec_eval(*lhs, env, o, s0);
                match l {
                    Err(m) => (Err(m), s1),
                    Ok(lv) => {
                        let (r, s2) = spec_eval(*rhs, env, o, cap(s1, f));
                        match r {
                            Err(m) => (Err(m), s2),
                            Ok(rv) => {
                                let (res, p) = spec_binop(lv, op, rv, o, s2.pos);
                                (res, with_pos(s2, p))
                            },
                        }
                    },
                }
            },
            SpecExpr::Lambda { args, body } => (
                Ok(SpecValue::Function { args, body: *body, env }),
                s0,
            ),
            SpecExpr::Call { callee, args } => {
                let (c, s1) = spec_eval(*callee, env, o, s0);
                match c {
                    Err(m) => (Err(m), s1),
                    Ok(SpecValue::Function { args: names, body, env: cenv }) => {
                        let (results, s2) = spec_eval_args(args, 0, env, Seq::empty(), o, cap(s1, f));
                        let local = s2.envs.len();
                        let s3 = push_scope(s2, Some(cenv));
                        let (b, envs4) = bind_args(names, results, 0, local as int, s3.envs);
                        let s4 = with_envs(s3, envs4);
                        match b {
                            Err(m) => (Err(m), s4),
                            Ok(_) => spec_eval(body, local as usize, o, cap(s4, f)),
                        }
                    },
                    Ok(_) => (
                        Err(ans_expr_text(o(s1.pos), *callee) + " is not a function"@),
                        with_pos(s1, s1.pos + 1),
                    ),
                }
            },
            SpecExpr::Ternary { condition, true_branch, false_branch } => {
                let (c, s1) = spec_eval(*condition, env, o, s0);
                match c {
                    Err(m) => (Err(m), s1),
                    Ok(v) => {
                        let (t, p) = spec_truth(v, o, s1.pos);
                        let s2 = with_pos(s1, p);
                        match t {
                            Err(m) => (Err(m), s2),
                            Ok(b) => if b {
                                spec_eval(*true_branch, env, o, cap(s2, f))
                            } else {
                                spec_eval(*false_branch, env, o, cap(s2, f))
                            },
                        }
                    },
                }
            },
            SpecExpr::MemberAccess(base, path) => {
                let (b, s1) = spec_eval(*base, env, o, s0);
                match b {
                    Err(m) => (Err(m), s1),
                    Ok(v) => {
                        let (r, p) = spec_member(s1.envs, env as int, v, path, 0, o, s1.pos);
                        (r, with_pos(s1, p))
                    },
                }
            },
            SpecExpr::Tuple(cs) => {
                let (r, s1) = spec_eval_list(cs, 0, env, Seq::empty(), o, s0);
                match r {
                    Err(m) => (Err(m), s1),
                    Ok(vals) => if vals.len() == 1 {
                        (Ok(vals[0]), s1)
                    } else {
                        (Ok(SpecValue::Tuple(vals)), s1)
                    },
                }
            },
            SpecExpr::Recur(cs) => {
                let (r, s1) = spec_eval_list(cs, 0, env, Seq::empty(), o, s0);
                match r {
                    Err(m) => (Err(m), s1),
                    Ok(vals) => (Ok(SpecValue::Recur(vals)), s1),
                }
            },
            SpecExpr::Loop { bindings, body } => {
                let loop_env = s0.envs.len();
                let s1 = push_scope(s0, Some(env));
                let (r, s2) = spec_loop_init(bindings, 0, env, loop_env as int, o, s1);
                match r {
                    Err(m) => (Err(m), s2),
                    Ok(_) => spec_loop_run(*body, loop_env as usize, loop_names(bindings), o, cap(s2, f)),
                }
            },
            SpecExpr::Block { statements, ret } => {
                let block_env = s0.envs.len();
                let s1 = push_scope(s0, Some(env));
                let (r, s2) = spec_run(statements, 0, block_env as usize, Seq::empty(), o, s1);
                match r {
                    Err(m) => (Err(m), s2),
                    Ok(_) => spec_eval(*ret, block_env as usize, o, cap(s2, f)),
                }
            },
            SpecExpr::Length(inner) => {
                let (r, s1) = spec_eval(*inner, env, o, s0);
                match r {
                    Err(m) => (Err(m), s1),
                    Ok(SpecValue::Tuple(es)) => count_value(es.len(), o, s1),
                    Ok(SpecValue::Module(b)) => count_value(b.len(), o, s1),
                    Ok(SpecValue::Str(x)) => count_value(vstd::utf8::encode_utf8(x).len(), o, s1),
                    Ok(SpecValue::Function { args, .. }) => count_value(args.len(), o, s1),
                    Ok(other) => (
                        Err("Length operator '#' only works on Tuples, Modules, and Lambdas, not "@
                            + ans_value_text(o(s1.pos), other)),
                        with_pos(s1, s1.pos + 1),
                    ),
                }
            },
        }
    }
}

/// Values of `es[i..]` appended to `acc`, stopping at the first error.
pub open spec fn spec_eval_list(
    es: Seq<SpecExpr>,
    i: int,
    env: usize,
    acc: Seq<SpecValue>,
    o: Oracle,
    s: SpecState,
) -> (Result<Seq<SpecValue>, Seq<char>>, SpecState)
    decreases s.fuel, 1 + es.len() - i,
{
    if i < 0 || i >= es.len() {
        (Ok(acc), s)
    } else {
        let (r, s1) = spec_eval(es[i], env, o, s);
        match r {
            Err(m) => (Err(m), s1),
            Ok(v) => spec_eval_list(es, i + 1, env, acc.push(v), o, cap(s1, s.fuel)),
        }
    }
}

/// Results of all of `es[i..]`, appended to `acc` (errors included).
pub open spec fn spec_eval_args(
    es: Seq<SpecExpr>,
    i: int,
    env: usize,
    acc: Seq<SRes>,
    o: Oracle,
    s: SpecState,
) -> (Seq<SRes>, SpecState)
    decreases s.fuel, 1 + es.len() - i,
{
    if i < 0 || i >= es.len() {
        (acc, s)
    } else {
        let (r, s1) = spec_eval(es[i], env, o, s);
        spec_eval_args(es, i + 1, env, acc.push(r), o, cap(s1, s.fuel))
    }
}

/// Evaluates the initial values of a loop's bindings `bindings[i..]` in
/// scope `outer` and binds them in scope `loop_env`.
pub open spec fn spec_loop_init(
    bindings: Seq<(Seq<char>, SpecExpr)>,
    i: int,
    outer: usize,
    loop_env: int,
    o: Oracle,
    s: SpecState,
) -> (Result<(), Seq<char>>, SpecState)
    decreases s.fuel, 1 + bindings.len() - i,
{
    if i < 0 || i >= bindings.len() {
        (Ok(()), s)
    } else {
        let (r, s1) = spec_eval(bindings[i].1, outer, o, s);
        match r {
            Err(m) => (Err(m), s1),
            Ok(v) => spec_loop_init(
                bindings,
                i + 1,
                outer,
                loop_env,
                o,
                cap(with_envs(s1, bind_in(s1.envs, loop_env, bindings[i].0, v)), s.fuel),
            ),
        }
    }
}

/// Runs a loop body until it gives something other than a `recur`
/// signal; a signal rebinds the loop's names and runs the body again.
pub open spec fn spec_loop_run(body: SpecExpr, loop_env: usize, names: Seq<Seq<char>>, o: Oracle, s: SpecState) -> (
    SRes,
    SpecState,
)
    decreases s.fuel, 0int,
{
    if s.fuel == 0 {
        (Err(out_of_steps()), s)
    } else {
        let s0 = tick(s);
        let (r, s1) = spec_eval(body, loop_env, o, s0);
        match r {
            Ok(SpecValue::Recur(vals)) => if vals.len() != names.len() {
                (
                    Err("recur expected "@ + dec_text(names.len()) + " args, got "@ + dec_text(
                        vals.len(),
                    )),
                    s1,
                )
            } else {
                let s2 = with_envs(s1, rebind(names, vals, 0, loop_env as int, s1.envs));
                spec_loop_run(body, loop_env, names, o, cap(s2, s0.fuel))
            },
            other => (other, s1),
        }
    }
}

/// Runs `stmts[i..]` in scope `env`, collecting exports into `ex`.
pub open spec fn spec_run(
    stmts: Seq<SpecStatement>,
    i: int,
    env: usize,
    ex: SpecBindings,
    o: Oracle,
    s: SpecState,
) -> (Result<SpecBindings, Seq<char>>, SpecState)
    decreases s.fuel, 1 + stmts.len() - i,
{
    if i < 0 || i >= stmts.len() {
        (Ok(ex), s)
    } else {
        let (r, s1) = spec_stmt(stmts[i], env, ex, o, s);
        match r {
            Err(m) => (Err(m), s1),
            Ok(ex2) => spec_run(stmts, i + 1, env, ex2, o, cap(s1, s.fuel)),
        }
    }
}

/// Runs one statement in scope `env`; `ex` are the exports so far.
pub open spec fn spec_stmt(st: SpecStatement, env: usize, ex: SpecBindings, o: Oracle, s: SpecState) -> (
    Result<SpecBindings, Seq<char>>,
    SpecState,
)
    decreases s.fuel, 0int,
{
    if s.fuel == 0 {
        (Err(out_of_steps()), s)
    } else {
        let s0 = tick(s);
        let f = s0.fuel;
        match st {
            SpecStatement::Assignment(name, path, e, suppressed) => {
                let (r, s1) = spec_eval(e, env, o, s0);
                match r {
                    Err(m) => (Err(m), s1),
                    Ok(v) => {
                        let (nv, s2): (SRes, SpecState) = if path.len() == 0 {
                            (Ok(v), s1)
                        } else {
                            match scope_get(s1.envs, env as int, name) {
                                None => (Err("Variable "@ + name + " not found"@), s1),
                                Some(root) => {
                                    let (u, p) = spec_update(
                                        env_vars(s1.envs, env as int),
                                        root,
                                        path,
                                        0,
                                        v,
                                        o,
                                        s1.pos,
                                    );
                                    (u, with_pos(s1, p))
                                },
                            }
                        };
                        match nv {
                            Err(m) => (Err(m), s2),
                            Ok(val) => {
                                let s3 = with_envs(s2, bind_in(s2.envs, env as int, name, val));
                                if suppressed {
                                    (Ok(ex), s3)
                                } else {
                                    let (t, p) = spec_write(val, name, Seq::empty(), true, true, o, s3.pos);
                                    (
                                        Ok(ex),
                                        with_pos(
                                            with_out(s3, s3.out + name + " assigned to "@ + t + "\n"@),
                                            p,
                                        ),
                                    )
                                }
                            },
                        }
                    },
                }
            },
            SpecStatement::Equivalence(lhs, rhs, suppressed) => {
                let (a, s1) = spec_eval(lhs, env, o, s0);
                match a {
                    Err(m) => (Err(m), s1),
                    Ok(av) => {
                        let (b, s2) = spec_eval(rhs, env, o, cap(s1, f));
                        match b {
                            Err(m) => (Err(m), s2),
                            Ok(bv) => {
                                let (eq, p) = spec_eq(av, bv, o, s2.pos);
                                let s3 = with_pos(s2, p);
                                if suppressed {
                                    (Ok(ex), s3)
                                } else {
                                    match (expr_label(lhs), expr_label(rhs)) {
                                        (Some(ll), Some(rl)) => {
                                            let (t1, p1) = spec_write(av, ll, Seq::empty(), true, true, o, p);
                                            let (t2, p2) = spec_write(bv, rl, Seq::empty(), true, true, o, p1);
                                            let text = t1 + " is "@ + (if eq {
                                                Seq::empty()
                                            } else {
                                                "not "@
                                            }) + "equal to "@ + t2 + "\n"@;
                                            (Ok(ex), with_pos(with_out(s3, s3.out + text), p2))
                                        },
                                        _ => (Err(empty_access_error()), s3),
                                    }
                                }
                            },
                        }
                    },
                }
            },
            SpecStatement::Expression(e, suppressed) => {
                let (r, s1) = spec_eval(e, env, o, s0);
                match r {
                    Err(m) => (Err(m), s1),
                    Ok(v) => if suppressed {
                        (Ok(ex), s1)
                    } else {
                        match expr_label(e) {
                            Some(l) => {
                                let (t, p) = spec_write(v, l, Seq::empty(), true, true, o, s1.pos);
                                (Ok(ex), with_pos(with_out(s1, s1.out + t + "\n"@), p))
                            },
                            None => (Err(empty_access_error()), s1),
                        }
                    },
                }
            },
            SpecStatement::Module(name, body) => {
                let menv = s0.envs.len();
                let s1 = push_scope(s0, Some(env));
                let (r, s2) = spec_run(body, 0, menv as usize, Seq::empty(), o, s1);
                match r {
                    Err(m) => (Err(m), s2),
                    Ok(mex) => (
                        Ok(ex),
                        with_envs(s2, bind_in(s2.envs, env as int, name, SpecValue::Module(mex))),
                    ),
                }
            },
            SpecStatement::Export(name) => match scope_get(s0.envs, env as int, name) {
                None => (
                    Err("Export Error: Cannot export undefined variable '"@ + name + "'"@),
                    s0,
                ),
                Some(v) => (Ok(bind_insert(ex, name, v)), s0),
            },
            SpecStatement::Import(raw) => {
                let (r, s1) = spec_import(raw, env, o, s0);
                match r {
                    Err(m) => (Err(m), s1),
                    Ok(_) => (Ok(ex), s1),
                }
            },
        }
    }
}

/// `import raw`: a directory imports each of its `.sw` files as
/// `parts.stem`; `raw.sw` and the file `raw` are imported at the path's
/// parts (the last one replaced by the file's stem for `raw`).
pub open spec fn spec_import(raw: Seq<char>, env: usize, o: Oracle, s: SpecState) -> (
    Result<(), Seq<char>>,
    SpecState,
)
    decreases s.fuel, 0int,
{
    if s.fuel == 0 {
        (Err(out_of_steps()), s)
    } else {
        let s0 = tick(s);
        let target = ans_target(o(s0.pos), raw);
        let s1 = with_pos(s0, s0.pos + 1);
        match target {
            SpecImportTarget::Directory(None) => (Err("Could not read directory: "@ + raw), s1),
            SpecImportTarget::Directory(Some(entries)) => spec_import_dir(entries, 0, raw, env, o, s1),
            SpecImportTarget::SwFile => {
                let (r, s2) = spec_process_file(raw + ".sw"@, o, s1);
                match r {
                    Err(m) => (Err(m), s2),
                    Ok(ex) => (Ok(()), with_envs(s2, inject_in(s2.envs, env as int, path_parts(raw), ex))),
                }
            },
            SpecImportTarget::File(stem) => {
                let (r, s2) = spec_process_file(raw, o, s1);
                match r {
                    Err(m) => (Err(m), s2),
                    Ok(ex) => {
                        let parts = path_parts(raw);
                        let parts2 = if parts.len() > 0 {
                            parts.update(parts.len() - 1, stem)
                        } else {
                            parts
                        };
                        (Ok(()), with_envs(s2, inject_in(s2.envs, env as int, parts2, ex)))
                    },
                }
            },
            SpecImportTarget::Missing => (Err("Could not find directory or file for: "@ + raw), s1),
        }
    }
}

/// Imports the `.sw` entries `entries[i..]` of the directory `raw`.
pub open spec fn spec_import_dir(
    entries: Seq<SpecDirEntry>,
    i: int,
    raw: Seq<char>,
    env: usize,
    o: Oracle,
    s: SpecState,
) -> (Result<(), Seq<char>>, SpecState)
    decreases s.fuel, 1 + entries.len() - i,
{
    if i < 0 || i >= entries.len() {
        (Ok(()), s)
    } else {
        match entries[i] {
            SpecDirEntry::Unreadable => (Err("Error reading entry"@), s),
            SpecDirEntry::Other => spec_import_dir(entries, i + 1, raw, env, o, s),
            SpecDirEntry::Source(stem, path) => {
                let (r, s1) = spec_process_file(path, o, s);
                match r {
                    Err(m) => (Err(m), s1),
                    Ok(ex) => {
                        let s2 = with_envs(s1, inject_in(s1.envs, env as int, path_parts(raw).push(stem), ex));
                        spec_import_dir(entries, i + 1, raw, env, o, cap(s2, s.fuel))
                    },
                }
            },
        }
    }
}

/// Loads the file `filename` and runs it in a new top-level scope; its
/// result is what it exports.
pub open spec fn spec_process_file(filename: Seq<char>, o: Oracle, s: SpecState) -> (
    Result<SpecBindings, Seq<char>>,
    SpecState,
)
    decreases s.fuel, 0int,
{
    if s.fuel == 0 {
        (Err(out_of_steps()), s)
    } else {
        let s0 = tick(s);
        let load = ans_load(o(s0.pos), filename);
        let s1 = with_pos(s0, s0.pos + 1);
        match load {
            SpecSourceLoad::Unreadable => (Err("Could not find file: "@ + filename), s1),
            SpecSourceLoad::SyntaxError(m) => (Err("Error parsing "@ + filename + ": "@ + m), s1),
            SpecSourceLoad::Tree(pairs) => match p_file(pairs) {
                None => (Err("AST Error in "@ + filename + ": "@ + malformed()), s1),
                Some(stmts) => {
                    let root = s1.envs.len();
                    spec_run(stmts, 0, root as usize, Seq::empty(), o, push_scope(s1, None))
                },
            },
        }
    }
}

/// After the statement `name := e` succeeds, reading `name` in the same
/// scope gives the value of `e` (whether or not the statement printed).
pub proof fn law_assign_then_read(
    name: Seq<char>,
    e: SpecExpr,
    suppressed: bool,
    env: usize,
    ex: SpecBindings,
    o: Oracle,
    s: SpecState,
)
    requires
        spec_stmt(SpecStatement::Assignment(name, Seq::empty(), e, suppressed), env, ex, o, s).0 is Ok,
        env < spec_stmt(SpecStatement::Assignment(name, Seq::empty(), e, suppressed), env, ex, o, s).1.envs.len(),
        spec_stmt(SpecStatement::Assignment(name, Seq::empty(), e, suppressed), env, ex, o, s).1.fuel > 0,
        name != "true"@,
        name != "false"@,
        name != "none"@,
    ensures
        spec_eval(e, env, o, tick(s)).0 is Ok,
        spec_eval(
            SpecExpr::Variable(name),
            env,
            o,
            spec_stmt(SpecStatement::Assignment(name, Seq::empty(), e, suppressed), env, ex, o, s).1,
        ).0 == spec_eval(e, env, o, tick(s)).0,
{
    let (r, s1) = spec_eval(e, env, o, tick(s));
    let v = r->Ok_0;
    law_bind_then_get(s1.envs, env as int, name, v);
}

/// The value reached from `b` by the member names `parts[i..]`.
pub open spec fn walk(b: SpecBindings, parts: Seq<Seq<char>>, i: int) -> Option<SpecValue>
    decreases parts.len() - i,
{
    if i < 0 || i >= parts.len() {
        None
    } else if i == parts.len() - 1 {
        bind_get(b, parts[i])
    } else {
        match bind_get(b, parts[i]) {
            Some(SpecValue::Module(sub)) => walk(sub, parts, i + 1),
            _ => None,
        }
    }
}

/// Along `parts[i..]`, every name before the last is unbound or bound to
/// a module.
pub open spec fn path_open(b: SpecBindings, parts: Seq<Seq<char>>, i: int) -> bool
    decreases parts.len() - i,
{
    if i < 0 || i >= parts.len() - 1 {
        true
    } else {
        match bind_get(b, parts[i]) {
            None => true,
            Some(SpecValue::Module(sub)) => path_open(sub, parts, i + 1),
            Some(_) => false,
        }
    }
}

/// After exports are placed at a path whose way is open, following the
/// path's names from the same bindings reaches a module of exactly those
/// exports.
pub proof fn law_inject_then_walk(b: SpecBindings, parts: Seq<Seq<char>>, i: int, exports: SpecBindings)
    requires
        0 <= i < parts.len(),
        path_open(b, parts, i),
    ensures
        walk(spec_inject(b, parts, i, exports), parts, i) == Some(SpecValue::Module(exports)),
    decreases parts.len() - i,
{
    let k = parts[i];
    if i == parts.len() - 1 {
        law_bind_insert_get(b, k, SpecValue::Module(exports), k);
    } else {
        let b1 = if bind_find(b, k) is None {
            bind_insert(b, k, SpecValue::Module(Seq::empty()))
        } else {
            b
        };
        if bind_find(b, k) is None {
            law_bind_insert_get(b, k, SpecValue::Module(Seq::empty()), k);
        }
        match bind_get(b1, k) {
            Some(SpecValue::Module(sub)) => {
                law_inject_then_walk(sub, parts, i + 1, exports);
                law_bind_insert_get(b1, k, SpecValue::Module(spec_inject(sub, parts, i + 1, exports)), k);
            },
            _ => {},
        }
    }
}

/// An exported name reads back, as a member of the module of the exports,
/// as the value it had where it was exported.
pub proof fn law_export_then_member(
    k: Seq<char>,
    env: usize,
    ex: SpecBindings,
    o: Oracle,
    s: SpecState,
    envs2: Seq<SpecEnv>,
    env2: int,
    p: nat,
)
    requires
        s.fuel > 0,
        scope_get(s.envs, env as int, k) is Some,
    ensures
        spec_stmt(SpecStatement::Export(k), env, ex, o, s).0 is Ok,
        spec_member(
            envs2,
            env2,
            SpecValue::Module(spec_stmt(SpecStatement::Export(k), env, ex, o, s).0->Ok_0),
            seq![SpecAccess::Name(k)],
            0,
            o,
            p,
        ) == (Ok::<SpecValue, Seq<char>>(scope_get(s.envs, env as int, k)->Some_0), p),
{
    let v = scope_get(s.envs, env as int, k)->Some_0;
    law_bind_insert_get(ex, k, v, k);
    assert(spec_member(envs2, env2, v, seq![SpecAccess::Name(k)], 1, o, p) == (Ok::<SpecValue, Seq<char>>(v), p));
}

/// A statement ending in `;` prints nothing of its own: what is printed is
/// what evaluating its expression printed.
pub proof fn law_suppressed_prints_nothing(name: Seq<char>, e: SpecExpr, env: usize, ex: SpecBindings, o: Oracle, s: SpecState)
    requires
        s.fuel > 0,
    ensures
        spec_stmt(SpecStatement::Assignment(name, Seq::empty(), e, true), env, ex, o, s).1.out == spec_eval(
            e,
            env,
            o,
            tick(s),
        ).1.out,
        spec_stmt(SpecStatement::Expression(e, true), env, ex, o, s).1.out == spec_eval(e, env, o, tick(s)).1.out,
{
}

/// Along `path[i..]` from `cur`, every step is an index into a tuple or
/// the name of a member of a module, and each is there.
pub open spec fn plain_path(cur: SpecValue, path: Seq<SpecAccess>, i: int) -> bool
    decreases path.len() - i,
{
    if i < 0 || i >= path.len() {
        true
    } else {
        match (cur, path[i]) {
            (SpecValue::Tuple(es), SpecAccess::Index(k)) => k < es.len() && plain_path(es[k as int], path, i + 1),
            (SpecValue::Module(b), SpecAccess::Name(n)) => match bind_get(b, n) {
                Some(x) => plain_path(x, path, i + 1),
                None => false,
            },
            _ => false,
        }
    }
}

/// Replacing the part of a value at a path of tuple indices and module
/// members succeeds, and reading that path back gives the new part.
pub proof fn law_update_then_member(
    vars: SpecBindings,
    cur: SpecValue,
    path: Seq<SpecAccess>,
    i: int,
    v: SpecValue,
    o: Oracle,
    p: nat,
    envs: Seq<SpecEnv>,
    env: int,
    q: nat,
)
    requires
        0 <= i <= path.len(),
        plain_path(cur, path, i),
    ensures
        spec_update(vars, cur, path, i, v, o, p).0 is Ok,
        spec_update(vars, cur, path, i, v, o, p).1 == p,
        spec_member(envs, env, spec_update(vars, cur, path, i, v, o, p).0->Ok_0, path, i, o, q) == (
            Ok::<SpecValue, Seq<char>>(v),
            q,
        ),
    decreases path.len() - i,
{
    if i < path.len() {
        match (cur, path[i]) {
            (SpecValue::Tuple(es), SpecAccess::Index(k)) => {
                law_update_then_member(vars, es[k as int], path, i + 1, v, o, p, envs, env, q);
                let nv = spec_update(vars, es[k as int], path, i + 1, v, o, p).0->Ok_0;
                assert(es.update(k as int, nv)[k as int] == nv);
            },
            (SpecValue::Module(b), SpecAccess::Name(n)) => {
                lemma_bind_find(b, n);
                let j = bind_find(b, n)->Some_0;
                law_update_then_member(vars, b[j].1, path, i + 1, v, o, p, envs, env, q);
                let nv = spec_update(vars, b[j].1, path, i + 1, v, o, p).0->Ok_0;
                let b2 = b.update(j, (b[j].0, nv));
                lemma_bind_find(b2, n);
                assert(b2[j].0 == n);
                assert(forall|m: int| 0 <= m < j ==> b2[m].0 == b[m].0);
                assert(bind_find(b2, n) == Some(j));
            },
            _ => {},
        }
    }
}

/// Placing exports at a path changes only the binding of the path's
/// first name.
pub proof fn law_inject_other_names(b: SpecBindings, parts: Seq<Seq<char>>, exports: SpecBindings, k2: Seq<char>)
    requires
        parts.len() > 0,
        k2 != parts[0],
    ensures
        bind_get(spec_inject(b, parts, 0, exports), k2) == bind_get(b, k2),
{
    let k = parts[0];
    if parts.len() == 1 {
        law_bind_insert_get(b, k, SpecValue::Module(exports), k2);
    } else {
        let b1 = if bind_find(b, k) is None {
            bind_insert(b, k, SpecValue::Module(Seq::empty()))
        } else {
            b
        };
        if bind_find(b, k) is None {
            law_bind_insert_get(b, k, SpecValue::Module(Seq::empty()), k2);
        }
        match bind_get(b1, k) {
            Some(SpecValue::Module(sub)) => {
                law_bind_insert_get(b1, k, SpecValue::Module(spec_inject(sub, parts, 1, exports)), k2);
            },
            _ => {},
        }
    }
}

} // verus!
