//! Laws of evaluation and execution, one construct at a time, stated over
//! the semantics of `semantics.rs`.
use vstd::prelude::*;
use crate::ast::{SpecAccess, SpecExpr, SpecStatement};
use crate::value::{SpecBindings, SpecValue, bind_find, bind_get, bind_insert, lemma_bind_find};
use crate::environment::{SpecEnv, SpecState, bind_in, lookup, scope_get};
use crate::host::{Comparison, NumOp, Oracle, ans_arith, ans_compare, ans_expr_text, ans_index};
use crate::semantics::{
    SRes, bind_args, cap, comparison, env_vars, is_arith_op, num_op, path_open, is_compare_op, loop_names, push_scope, rebind,
    spec_binop, spec_eval, spec_eval_args, spec_inject, spec_loop_init, spec_loop_run, spec_run,
    spec_stmt, spec_truth, spec_update, tick, with_envs, with_pos, expr_label,
};
use crate::format::{spec_eq, spec_eq_list, spec_write};
use crate::text::dec_text;
use crate::parser::{NodeKind, ParseNode, law_parse_ternary, p_expr, p_operand};

verus! {

// ---------------------------------------------------------------------
// Expressions
/// A name reads as a literal when it is `true`, `false` or `none` (whatever
/// the scopes bind), and otherwise as its binding seen from the scope, or
/// fails as undefined.
pub proof fn law_eval_variable(name: Seq<char>, env: usize, o: Oracle, s: SpecState)
    requires
        s.fuel > 0,
    ensures
        spec_eval(SpecExpr::Variable(name), env, o, s) == (
            if name == "true"@ {
                Ok(SpecValue::Bool(true))
            } else if name == "false"@ {
                Ok(SpecValue::Bool(false))
            } else if name == "none"@ {
                Ok(SpecValue::NoneValue)
            } else {
                match scope_get(s.envs, env as int, name) {
                    Some(v) => Ok(v),
                    None => Err("Undefined variable: "@ + name),
                }
            },
            tick(s),
        ),
{
}

/// `lhs op rhs`: the left operand is evaluated first; its failure is the
/// result and the right one is not evaluated; then the right one, whose
/// failure is the result; then the operator is applied.
pub proof fn law_eval_binary(lhs: SpecExpr, op: Seq<char>, rhs: SpecExpr, env: usize, o: Oracle, s: SpecState)
    requires
        s.fuel > 0,
    ensures
        ({
            let s0 = tick(s);
            let (l, s1) = spec_eval(lhs, env, o, s0);
            let (r, s2) = spec_eval(rhs, env, o, cap(s1, s0.fuel));
            let res = spec_eval(SpecExpr::Binary { lhs: Box::new(lhs), op, rhs: Box::new(rhs) }, env, o, s);
            &&& l is Err ==> res == (l, s1)
            &&& l is Ok && r is Err ==> res == (r, s2)
            &&& l is Ok && r is Ok ==> res == (
                spec_binop(l->Ok_0, op, r->Ok_0, o, s2.pos).0,
                with_pos(s2, spec_binop(l->Ok_0, op, r->Ok_0, o, s2.pos).1),
            )
        }),
{
}

/// The argument values of a call, each failed argument standing as `none`.
pub open spec fn arg_values(results: Seq<SRes>) -> Seq<SpecValue> {
    Seq::new(
        results.len(),
        |i: int|
            match results[i] {
                Ok(v) => v,
                Err(_) => SpecValue::NoneValue,
            },
    )
}

/// No argument among the first `n` failed.
pub open spec fn first_ok(results: Seq<SRes>, n: int) -> bool {
    forall|i: int| 0 <= i < n && i < results.len() ==> #[trigger] results[i] is Ok
}

/// Binding the arguments succeeds exactly when none of those that have a
/// parameter failed, and then binds each parameter to its argument, in
/// order (missing arguments leave a parameter unbound; extra ones are
/// dropped); otherwise the first failure is the result.
pub proof fn lemma_bind_args(names: Seq<Seq<char>>, results: Seq<SRes>, i: int, idx: int, envs: Seq<SpecEnv>)
    requires
        0 <= i,
    ensures
        first_ok(results.subrange(0, results.len() as int), names.len() as int) ==> bind_args(
            names,
            results,
            i,
            idx,
            envs,
        ) == (Ok::<(), Seq<char>>(()), rebind(names, arg_values(results), i, idx, envs)),
        bind_args(names, results, i, idx, envs).0 is Err ==> exists|j: int|
            i <= j < names.len() && j < results.len() && #[trigger] results[j] is Err,
    decreases names.len() - i,
{
    if i < names.len() && i < results.len() {
        assert(results.subrange(0, results.len() as int) =~= results);
        match results[i] {
            Err(m) => {},
            Ok(v) => {
                assert(arg_values(results)[i] == v);
                lemma_bind_args(names, results, i + 1, idx, bind_in(envs, idx, names[i], v));
            },
        }
    }
}

/// A call: the callee is evaluated first, then every argument; a function
/// value then runs its body in a new scope below the scope it captured,
/// with its parameters bound to the arguments (unless an argument that has
/// a parameter failed, which is then the result); any other callee fails
/// with the host's description of the callee expression.
pub proof fn law_eval_call(callee: SpecExpr, args: Seq<SpecExpr>, env: usize, o: Oracle, s: SpecState)
    requires
        s.fuel > 0,
    ensures
        ({
            let s0 = tick(s);
            let f = s0.fuel;
            let (c, s1) = spec_eval(callee, env, o, s0);
            let res = spec_eval(SpecExpr::Call { callee: Box::new(callee), args }, env, o, s);
            &&& c is Err ==> res == (c, s1)
            &&& (c matches Ok(v) && !(v is Function)) ==> res == (
                Err::<SpecValue, Seq<char>>(ans_expr_text(o(s1.pos), callee) + " is not a function"@),
                with_pos(s1, s1.pos + 1),
            )
            &&& (c matches Ok(SpecValue::Function { args: names, body, env: cenv }) ==> {
                let (results, s2) = spec_eval_args(args, 0, env, Seq::empty(), o, cap(s1, f));
                let local = s2.envs.len();
                let s3 = push_scope(s2, Some(cenv));
                first_ok(results, names.len() as int) ==> res == spec_eval(
                    body,
                    local as usize,
                    o,
                    cap(with_envs(s3, rebind(names, arg_values(results), 0, local as int, s3.envs)), f),
                )
            })
        }),
{
    let s0 = tick(s);
    let f = s0.fuel;
    let (c, s1) = spec_eval(callee, env, o, s0);
    if let Ok(SpecValue::Function { args: names, body, env: cenv }) = c {
        let (results, s2) = spec_eval_args(args, 0, env, Seq::empty(), o, cap(s1, f));
        let local = s2.envs.len();
        let s3 = push_scope(s2, Some(cenv));
        assert(results.subrange(0, results.len() as int) =~= results);
        lemma_bind_args(names, results, 0, local as int, s3.envs);
    }
}

/// Whether a condition holds: a number when the host says it is not equal
/// to 0, a boolean by value, `none` never; any other value is an error.
pub proof fn law_truth(v: SpecValue, o: Oracle, p: nat)
    ensures
        v matches SpecValue::Number(x) ==> spec_truth(v, o, p) == (
            Ok::<bool, Seq<char>>(!ans_compare(o(p), Comparison::Eq, x, 0)),
            p + 1,
        ),
        v matches SpecValue::Bool(b) ==> spec_truth(v, o, p) == (Ok::<bool, Seq<char>>(b), p),
        v is NoneValue ==> spec_truth(v, o, p) == (Ok::<bool, Seq<char>>(false), p),
        !(v is Number || v is Bool || v is NoneValue) ==> spec_truth(v, o, p).0 is Err && spec_truth(
            v,
            o,
            p,
        ).1 == p,
{
}

/// `c ? t : f`: the condition is evaluated first; then only the branch it
/// chooses is evaluated, and is the result; a condition without a truth
/// value fails without evaluating either branch.
pub proof fn law_eval_ternary(
    condition: SpecExpr,
    true_branch: SpecExpr,
    false_branch: SpecExpr,
    env: usize,
    o: Oracle,
    s: SpecState,
)
    requires
        s.fuel > 0,
    ensures
        ({
            let s0 = tick(s);
            let (c, s1) = spec_eval(condition, env, o, s0);
            let res = spec_eval(
                SpecExpr::Ternary {
                    condition: Box::new(condition),
                    true_branch: Box::new(true_branch),
                    false_branch: Box::new(false_branch),
                },
                env,
                o,
                s,
            );
            &&& c is Err ==> res == (c, s1)
            &&& c is Ok ==> {
                let (t, p) = spec_truth(c->Ok_0, o, s1.pos);
                let s2 = with_pos(s1, p);
                &&& t is Err ==> res == (Err::<SpecValue, Seq<char>>(t->Err_0), s2)
                &&& t matches Ok(b) ==> res == spec_eval(
                    if b {
                        true_branch
                    } else {
                        false_branch
                    },
                    env,
                    o,
                    cap(s2, s0.fuel),
                )
            }
        }),
{
}

/// A parsed `c ? t : f`, evaluated: when its first child evaluates to a
/// value that holds, the result is that of evaluating its second child;
/// when it evaluates to a value that does not hold, that of its third.
pub proof fn law_parsed_ternary_chooses(n: ParseNode, env: usize, o: Oracle, s: SpecState)
    requires
        n.kind == NodeKind::Ternary,
        p_operand(n) is Some,
        s.fuel > 0,
    ensures
        ({
            let s0 = tick(s);
            let (c, s1) = spec_eval(p_expr(n.children@[0])->Some_0, env, o, s0);
            let res = spec_eval(p_operand(n)->Some_0, env, o, s);
            c is Ok ==> {
                let (t, q) = spec_truth(c->Ok_0, o, s1.pos);
                let s2 = cap(with_pos(s1, q), s0.fuel);
                &&& t == Ok::<bool, Seq<char>>(true) ==> res == spec_eval(p_expr(n.children@[1])->Some_0, env, o, s2)
                &&& t == Ok::<bool, Seq<char>>(false) ==> res == spec_eval(p_expr(n.children@[2])->Some_0, env, o, s2)
            }
        }),
{
    law_parse_ternary(n);
    law_eval_ternary(
        p_expr(n.children@[0])->Some_0,
        p_expr(n.children@[1])->Some_0,
        p_expr(n.children@[2])->Some_0,
        env,
        o,
        s,
    );
}

/// `loop(x := a, ...) { body }`: the initial values are evaluated in order
/// in the enclosing scope (so they do not see one another) and bound in a
/// new scope below it; the first failure is the result. Then the body runs
/// in the new scope as `spec_loop_run` says.
pub proof fn law_eval_loop(bindings: Seq<(Seq<char>, SpecExpr)>, body: SpecExpr, env: usize, o: Oracle, s: SpecState)
    requires
        s.fuel > 0,
    ensures
        ({
            let s0 = tick(s);
            let loop_env = s0.envs.len();
            let (r, s2) = spec_loop_init(bindings, 0, env, loop_env as int, o, push_scope(s0, Some(env)));
            let res = spec_eval(SpecExpr::Loop { bindings, body: Box::new(body) }, env, o, s);
            &&& r is Err ==> res == (Err::<SpecValue, Seq<char>>(r->Err_0), s2)
            &&& r is Ok ==> res == spec_loop_run(body, loop_env as usize, loop_names(bindings), o, cap(s2, s0.fuel))
        }),
{
}

/// One initial value of a loop is evaluated in the enclosing scope `outer`
/// and bound in the loop's scope.
pub proof fn law_loop_init_step(
    bindings: Seq<(Seq<char>, SpecExpr)>,
    i: int,
    outer: usize,
    loop_env: int,
    o: Oracle,
    s: SpecState,
)
    requires
        0 <= i < bindings.len(),
    ensures
        ({
            let (r, s1) = spec_eval(bindings[i].1, outer, o, s);
            let res = spec_loop_init(bindings, i, outer, loop_env, o, s);
            &&& r is Err ==> res == (Err::<(), Seq<char>>(r->Err_0), s1)
            &&& r is Ok ==> res == spec_loop_init(
                bindings,
                i + 1,
                outer,
                loop_env,
                o,
                cap(with_envs(s1, bind_in(s1.envs, loop_env, bindings[i].0, r->Ok_0)), s.fuel),
            )
        }),
{
}

/// One round of a loop: the body runs; a `recur` with as many values as
/// the loop has names rebinds them in order and runs another round; a
/// `recur` with another count fails; any other outcome is the result.
pub proof fn law_loop_round(body: SpecExpr, loop_env: usize, names: Seq<Seq<char>>, o: Oracle, s: SpecState)
    requires
        s.fuel > 0,
    ensures
        ({
            let s0 = tick(s);
            let (r, s1) = spec_eval(body, loop_env, o, s0);
            let res = spec_loop_run(body, loop_env, names, o, s);
            &&& r matches Ok(SpecValue::Recur(vs)) ==> (if vs.len() == names.len() {
                res == spec_loop_run(
                    body,
                    loop_env,
                    names,
                    o,
                    cap(with_envs(s1, rebind(names, vs, 0, loop_env as int, s1.envs)), s0.fuel),
                )
            } else {
                res == (
                    Err::<SpecValue, Seq<char>>(
                        "recur expected "@ + dec_text(names.len()) + " args, got "@ + dec_text(vs.len()),
                    ),
                    s1,
                )
            })
            &&& !(r matches Ok(SpecValue::Recur(_))) ==> res == (r, s1)
        }),
{
}

/// The operator combinations that succeed: arithmetic and comparisons on
/// two numbers; `==`, `!=` and `+` on two strings and on two tuples; `==`,
/// `!=` and `|` on two booleans; a tuple minus a number that the host makes
/// an index inside it; a tuple plus any value that is neither a number nor
/// a tuple; and comparisons of `none` with `none`.
pub open spec fn binop_succeeds(l: SpecValue, op: Seq<char>, r: SpecValue, o: Oracle, p: nat) -> bool {
    match (l, r) {
        (SpecValue::Number(_), SpecValue::Number(_)) => is_arith_op(op) || is_compare_op(op),
        (SpecValue::Str(_), SpecValue::Str(_)) => op == "=="@ || op == "!="@ || op == "+"@,
        (SpecValue::Bool(_), SpecValue::Bool(_)) => op == "=="@ || op == "!="@ || op == "|"@,
        (SpecValue::Tuple(t), SpecValue::Number(x)) => op == "-"@ && ans_index(o(p), x) < t.len(),
        (SpecValue::Tuple(_), SpecValue::Tuple(_)) => op == "=="@ || op == "!="@ || op == "+"@,
        (SpecValue::Tuple(_), _) => op == "+"@,
        (SpecValue::NoneValue, SpecValue::NoneValue) => is_compare_op(op),
        _ => false,
    }
}

/// An operator succeeds exactly on the combinations of [`binop_succeeds`].
pub broadcast proof fn law_binop_succeeds(l: SpecValue, op: Seq<char>, r: SpecValue, o: Oracle, p: nat)
    ensures
        (#[trigger] spec_binop(l, op, r, o, p)).0 is Ok <==> binop_succeeds(l, op, r, o, p),
{
}

// ---------------------------------------------------------------------
// Equality
/// The value holds no number (so its equality asks the host nothing).
pub open spec fn number_free(v: SpecValue) -> bool
    decreases v, 1int,
{
    match v {
        SpecValue::Number(_) => false,
        SpecValue::Tuple(xs) => numbers_free(xs, 0),
        _ => true,
    }
}

pub open spec fn numbers_free(xs: Seq<SpecValue>, i: int) -> bool
    decreases xs, xs.len() - i,
{
    if i < 0 || i >= xs.len() {
        true
    } else {
        number_free(xs[i]) && numbers_free(xs, i + 1)
    }
}

/// Only numbers, booleans and tuples can be equal, and only to a value of
/// the same kind.
pub proof fn law_eq_kinds(a: SpecValue, b: SpecValue, o: Oracle, p: nat)
    ensures
        spec_eq(a, b, o, p).0 ==> (a is Number && b is Number) || (a is Bool && b is Bool) || (a is Tuple
            && b is Tuple),
{
}

/// Equality of a value that holds no number is symmetric and asks the host
/// nothing.
pub proof fn law_eq_symmetric(a: SpecValue, b: SpecValue, o: Oracle, p: nat)
    requires
        number_free(a),
    ensures
        spec_eq(a, b, o, p) == spec_eq(b, a, o, p),
        spec_eq(a, b, o, p).1 == p,
    decreases a, 0int,
{
    match (a, b) {
        (SpecValue::Tuple(xs), SpecValue::Tuple(ys)) => {
            if xs.len() == ys.len() {
                lemma_eq_list_symmetric(xs, ys, 0, o, p);
            }
        },
        _ => {},
    }
}

proof fn lemma_eq_list_symmetric(xs: Seq<SpecValue>, ys: Seq<SpecValue>, i: int, o: Oracle, p: nat)
    requires
        numbers_free(xs, i),
        0 <= i,
        xs.len() == ys.len(),
    ensures
        spec_eq_list(xs, ys, i, o, p) == spec_eq_list(ys, xs, i, o, p),
        spec_eq_list(xs, ys, i, o, p).1 == p,
    decreases xs, xs.len() - i,
{
    if i < xs.len() {
        law_eq_symmetric(xs[i], ys[i], o, p);
        lemma_eq_list_symmetric(xs, ys, i + 1, o, p);
    }
}

// ---------------------------------------------------------------------
// Statements and runs
/// A run stops at the first statement that fails, with that failure and
/// the state it left (the effects of earlier statements stay); after a
/// statement that succeeds, the run goes on with the next.
pub proof fn law_run_step(
    stmts: Seq<SpecStatement>,
    i: int,
    env: usize,
    ex: SpecBindings,
    o: Oracle,
    s: SpecState,
)
    requires
        0 <= i < stmts.len(),
    ensures
        ({
            let (r, s1) = spec_stmt(stmts[i], env, ex, o, s);
            let res = spec_run(stmts, i, env, ex, o, s);
            &&& r is Err ==> res == (r, s1)
            &&& r is Ok ==> res == spec_run(stmts, i + 1, env, r->Ok_0, o, cap(s1, s.fuel))
        }),
{
}

/// A statement without `;` that succeeds writes its report:
/// `name assigned to` and the value's tree for an assignment, the value's
/// tree for an expression, and `l is [not ]equal to r` for an equivalence,
/// each on a line of its own.
pub proof fn law_unsuppressed_reports(st: SpecStatement, env: usize, ex: SpecBindings, o: Oracle, s: SpecState)
    requires
        s.fuel > 0,
        spec_stmt(st, env, ex, o, s).0 is Ok,
    ensures
        st matches SpecStatement::Assignment(name, path, e, false) ==> path.len() == 0 ==> ({
            let (r, s1) = spec_eval(e, env, o, tick(s));
            let (t, p) = spec_write(r->Ok_0, name, Seq::empty(), true, true, o, s1.pos);
            spec_stmt(st, env, ex, o, s).1.out == s1.out + name + " assigned to "@ + t + "\n"@
        }),
        st matches SpecStatement::Expression(e, false) ==> ({
            let (r, s1) = spec_eval(e, env, o, tick(s));
            let (t, p) = spec_write(r->Ok_0, expr_label(e)->Some_0, Seq::empty(), true, true, o, s1.pos);
            spec_stmt(st, env, ex, o, s).1.out == s1.out + t + "\n"@
        }),
        st matches SpecStatement::Equivalence(l, r, false) ==> ({
            let s0 = tick(s);
            let (a, s1) = spec_eval(l, env, o, s0);
            let (b, s2) = spec_eval(r, env, o, cap(s1, s0.fuel));
            let (eq, p) = spec_eq(a->Ok_0, b->Ok_0, o, s2.pos);
            let (t1, p1) = spec_write(a->Ok_0, expr_label(l)->Some_0, Seq::empty(), true, true, o, p);
            let (t2, p2) = spec_write(b->Ok_0, expr_label(r)->Some_0, Seq::empty(), true, true, o, p1);
            spec_stmt(st, env, ex, o, s).1.out == s2.out + (t1 + " is "@ + (if eq {
                Seq::empty()
            } else {
                "not "@
            }) + "equal to "@ + t2 + "\n"@)
        }),
{
}

/// Exports are snapshots: `export n` adds (or replaces) `n` with the value
/// `n` has at that moment; no other statement changes the exports.
pub proof fn law_exports_snapshot(st: SpecStatement, env: usize, ex: SpecBindings, o: Oracle, s: SpecState)
    requires
        s.fuel > 0,
        spec_stmt(st, env, ex, o, s).0 is Ok,
    ensures
        st matches SpecStatement::Export(n) ==> scope_get(s.envs, env as int, n) is Some && spec_stmt(
            st,
            env,
            ex,
            o,
            s,
        ).0 == Ok::<SpecBindings, Seq<char>>(bind_insert(ex, n, scope_get(s.envs, env as int, n)->Some_0)),
        !(st is Export) ==> spec_stmt(st, env, ex, o, s).0 == Ok::<SpecBindings, Seq<char>>(ex),
{
}

/// `name.path := e` (a non-empty path): after `e`, the root is looked up
/// through the enclosing scopes; without it the statement fails. A copy of
/// it is updated along the path and bound to `name` in the current scope
/// only; a failed update is the result and leaves the scopes as they were.
pub proof fn law_nested_assignment(
    name: Seq<char>,
    path: Seq<SpecAccess>,
    e: SpecExpr,
    suppressed: bool,
    env: usize,
    ex: SpecBindings,
    o: Oracle,
    s: SpecState,
)
    requires
        s.fuel > 0,
        path.len() > 0,
    ensures
        ({
            let (r, s1) = spec_eval(e, env, o, tick(s));
            let res = spec_stmt(SpecStatement::Assignment(name, path, e, suppressed), env, ex, o, s);
            &&& r is Err ==> res == (Err::<SpecBindings, Seq<char>>(r->Err_0), s1)
            &&& (r is Ok && scope_get(s1.envs, env as int, name) is None) ==> res == (
                Err::<SpecBindings, Seq<char>>("Variable "@ + name + " not found"@),
                s1,
            )
            &&& (r is Ok && scope_get(s1.envs, env as int, name) is Some) ==> {
                let (u, p) = spec_update(
                    env_vars(s1.envs, env as int),
                    scope_get(s1.envs, env as int, name)->Some_0,
                    path,
                    0,
                    r->Ok_0,
                    o,
                    s1.pos,
                );
                &&& u is Err ==> res == (Err::<SpecBindings, Seq<char>>(u->Err_0), with_pos(s1, p))
                &&& u is Ok ==> res.0 == Ok::<SpecBindings, Seq<char>>(ex) && res.1.envs == bind_in(
                    s1.envs,
                    env as int,
                    name,
                    u->Ok_0,
                )
            }
        }),
{
}

/// Updating one element of a tuple leaves the tuple's length and its
/// other elements as they were.
pub proof fn law_update_tuple_outside(
    vars: SpecBindings,
    es: Seq<SpecValue>,
    path: Seq<SpecAccess>,
    i: int,
    v: SpecValue,
    o: Oracle,
    p: nat,
)
    requires
        0 <= i < path.len(),
        path[i] is Index,
        spec_update(vars, SpecValue::Tuple(es), path, i, v, o, p).0 is Ok,
    ensures
        ({
            let nv = spec_update(vars, SpecValue::Tuple(es), path, i, v, o, p).0->Ok_0;
            let k = path[i]->Index_0;
            &&& nv is Tuple
            &&& nv->Tuple_0.len() == es.len()
            &&& forall|j: int| 0 <= j < es.len() && j != k ==> nv->Tuple_0[j] == es[j]
        }),
{
}

/// Updating one member of a module leaves its names, and its other
/// members, as they were.
pub proof fn law_update_module_outside(
    vars: SpecBindings,
    b: SpecBindings,
    path: Seq<SpecAccess>,
    i: int,
    v: SpecValue,
    o: Oracle,
    p: nat,
)
    requires
        0 <= i < path.len(),
        path[i] is Name,
        spec_update(vars, SpecValue::Module(b), path, i, v, o, p).0 is Ok,
    ensures
        ({
            let nv = spec_update(vars, SpecValue::Module(b), path, i, v, o, p).0->Ok_0;
            let j0 = bind_find(b, path[i]->Name_0)->Some_0;
            &&& nv is Module
            &&& nv->Module_0.len() == b.len()
            &&& forall|j: int| 0 <= j < b.len() ==> nv->Module_0[j].0 == b[j].0
            &&& forall|j: int| 0 <= j < b.len() && j != j0 ==> nv->Module_0[j] == b[j]
        }),
{
    lemma_bind_find(b, path[i]->Name_0);
}

/// Placing exports at a path does nothing when a name on the way (at any
/// depth, before the last) is bound to something that is not a module.
pub proof fn law_inject_blocked(b: SpecBindings, parts: Seq<Seq<char>>, i: int, exports: SpecBindings)
    requires
        0 <= i < parts.len(),
        !path_open(b, parts, i),
    ensures
        spec_inject(b, parts, i, exports) == b,
    decreases parts.len() - i,
{
    let k = parts[i];
    lemma_bind_find(b, k);
    if let Some(SpecValue::Module(sub)) = bind_get(b, k) {
        law_inject_blocked(sub, parts, i + 1, exports);
        let j = bind_find(b, k)->Some_0;
        assert(b.update(j, (k, SpecValue::Module(sub))) =~= b);
    }
}

// ---------------------------------------------------------------------
// Scopes
/// A scope's own binding of a name hides those of the scopes around it;
/// without one, the name is looked up from the enclosing scope.
pub proof fn law_lookup_shadowing(envs: Seq<SpecEnv>, idx: int, k: Seq<char>)
    requires
        0 <= idx < envs.len(),
    ensures
        bind_get(envs[idx].vars, k) is Some ==> scope_get(envs, idx, k) == bind_get(envs[idx].vars, k),
        bind_get(envs[idx].vars, k) is None ==> scope_get(envs, idx, k) == match envs[idx].parent {
            Some(p) => lookup(envs, p as int, k, envs.len()),
            None => None,
        },
{
}

// ---------------------------------------------------------------------
// What each operator asks, what a lambda captures, where a module runs,
// and equality
/// On two numbers each operator asks the host its own question, with the
/// operands in order: `+ - * / ^` the matching arithmetic, and
/// `== != > < >= <=` the matching comparison.
pub proof fn law_number_operators(x: u64, y: u64, o: Oracle, p: nat)
    ensures
        spec_binop(SpecValue::Number(x), "+"@, SpecValue::Number(y), o, p) == (
            Ok::<SpecValue, Seq<char>>(SpecValue::Number(ans_arith(o(p), NumOp::Add, x, y))),
            p + 1,
        ),
        spec_binop(SpecValue::Number(x), "-"@, SpecValue::Number(y), o, p) == (
            Ok::<SpecValue, Seq<char>>(SpecValue::Number(ans_arith(o(p), NumOp::Sub, x, y))),
            p + 1,
        ),
        spec_binop(SpecValue::Number(x), "*"@, SpecValue::Number(y), o, p) == (
            Ok::<SpecValue, Seq<char>>(SpecValue::Number(ans_arith(o(p), NumOp::Mul, x, y))),
            p + 1,
        ),
        spec_binop(SpecValue::Number(x), "/"@, SpecValue::Number(y), o, p) == (
            Ok::<SpecValue, Seq<char>>(SpecValue::Number(ans_arith(o(p), NumOp::Div, x, y))),
            p + 1,
        ),
        spec_binop(SpecValue::Number(x), "^"@, SpecValue::Number(y), o, p) == (
            Ok::<SpecValue, Seq<char>>(SpecValue::Number(ans_arith(o(p), NumOp::Pow, x, y))),
            p + 1,
        ),
        spec_binop(SpecValue::Number(x), "=="@, SpecValue::Number(y), o, p) == (
            Ok::<SpecValue, Seq<char>>(SpecValue::Bool(ans_compare(o(p), Comparison::Eq, x, y))),
            p + 1,
        ),
        spec_binop(SpecValue::Number(x), "!="@, SpecValue::Number(y), o, p) == (
            Ok::<SpecValue, Seq<char>>(SpecValue::Bool(ans_compare(o(p), Comparison::Ne, x, y))),
            p + 1,
        ),
        spec_binop(SpecValue::Number(x), ">"@, SpecValue::Number(y), o, p) == (
            Ok::<SpecValue, Seq<char>>(SpecValue::Bool(ans_compare(o(p), Comparison::Gt, x, y))),
            p + 1,
        ),
        spec_binop(SpecValue::Number(x), "<"@, SpecValue::Number(y), o, p) == (
            Ok::<SpecValue, Seq<char>>(SpecValue::Bool(ans_compare(o(p), Comparison::Lt, x, y))),
            p + 1,
        ),
        spec_binop(SpecValue::Number(x), ">="@, SpecValue::Number(y), o, p) == (
            Ok::<SpecValue, Seq<char>>(SpecValue::Bool(ans_compare(o(p), Comparison::Ge, x, y))),
            p + 1,
        ),
        spec_binop(SpecValue::Number(x), "<="@, SpecValue::Number(y), o, p) == (
            Ok::<SpecValue, Seq<char>>(SpecValue::Bool(ans_compare(o(p), Comparison::Le, x, y))),
            p + 1,
        ),
{
    assert(num_op("+"@) == NumOp::Add && is_arith_op("+"@)) by {
        reveal_strlit("+");
    }
    assert(num_op("-"@) == NumOp::Sub && is_arith_op("-"@)) by {
        reveal_strlit("-");
        reveal_strlit("+");
        assert("-"@[0] != "+"@[0]);
    }
    assert(num_op("*"@) == NumOp::Mul && is_arith_op("*"@)) by {
        reveal_strlit("*");
        reveal_strlit("+");
        assert("*"@[0] != "+"@[0]);
        reveal_strlit("-");
        assert("*"@[0] != "-"@[0]);
    }
    assert(num_op("/"@) == NumOp::Div && is_arith_op("/"@)) by {
        reveal_strlit("/");
        reveal_strlit("+");
        assert("/"@[0] != "+"@[0]);
        reveal_strlit("-");
        assert("/"@[0] != "-"@[0]);
        reveal_strlit("*");
        assert("/"@[0] != "*"@[0]);
    }
    assert(num_op("^"@) == NumOp::Pow && is_arith_op("^"@)) by {
        reveal_strlit("^");
        reveal_strlit("+");
        assert("^"@[0] != "+"@[0]);
        reveal_strlit("-");
        assert("^"@[0] != "-"@[0]);
        reveal_strlit("*");
        assert("^"@[0] != "*"@[0]);
        reveal_strlit("/");
        assert("^"@[0] != "/"@[0]);
    }
    assert(comparison("=="@) == Comparison::Eq && is_compare_op("=="@) && !is_arith_op("=="@)) by {
        reveal_strlit("==");
        reveal_strlit("+");
        assert("=="@.len() != "+"@.len());
        reveal_strlit("-");
        assert("=="@.len() != "-"@.len());
        reveal_strlit("*");
        assert("=="@.len() != "*"@.len());
        reveal_strlit("/");
        assert("=="@.len() != "/"@.len());
        reveal_strlit("^");
        assert("=="@.len() != "^"@.len());
    }
    assert(comparison("!="@) == Comparison::Ne && is_compare_op("!="@) && !is_arith_op("!="@)) by {
        reveal_strlit("!=");
        reveal_strlit("+");
        assert("!="@.len() != "+"@.len());
        reveal_strlit("-");
        assert("!="@.len() != "-"@.len());
        reveal_strlit("*");
        assert("!="@.len() != "*"@.len());
        reveal_strlit("/");
        assert("!="@.len() != "/"@.len());
        reveal_strlit("^");
        assert("!="@.len() != "^"@.len());
        reveal_strlit("==");
        assert("!="@[0] != "=="@[0]);
    }
    assert(comparison(">"@) == Comparison::Gt && is_compare_op(">"@) && !is_arith_op(">"@)) by {
        reveal_strlit(">");
        reveal_strlit("+");
        assert(">"@[0] != "+"@[0]);
        reveal_strlit("-");
        assert(">"@[0] != "-"@[0]);
        reveal_strlit("*");
        assert(">"@[0] != "*"@[0]);
        reveal_strlit("/");
        assert(">"@[0] != "/"@[0]);
        reveal_strlit("^");
        assert(">"@[0] != "^"@[0]);
        reveal_strlit("==");
        assert(">"@.len() != "=="@.len());
        reveal_strlit("!=");
        assert(">"@.len() != "!="@.len());
    }
    assert(comparison("<"@) == Comparison::Lt && is_compare_op("<"@) && !is_arith_op("<"@)) by {
        reveal_strlit("<");
        reveal_strlit("+");
        assert("<"@[0] != "+"@[0]);
        reveal_strlit("-");
        assert("<"@[0] != "-"@[0]);
        reveal_strlit("*");
        assert("<"@[0] != "*"@[0]);
        reveal_strlit("/");
        assert("<"@[0] != "/"@[0]);
        reveal_strlit("^");
        assert("<"@[0] != "^"@[0]);
        reveal_strlit("==");
        assert("<"@.len() != "=="@.len());
        reveal_strlit("!=");
        assert("<"@.len() != "!="@.len());
        reveal_strlit(">");
        assert("<"@[0] != ">"@[0]);
    }
    assert(comparison(">="@) == Comparison::Ge && is_compare_op(">="@) && !is_arith_op(">="@)) by {
        reveal_strlit(">=");
        reveal_strlit("+");
        assert(">="@.len() != "+"@.len());
        reveal_strlit("-");
        assert(">="@.len() != "-"@.len());
        reveal_strlit("*");
        assert(">="@.len() != "*"@.len());
        reveal_strlit("/");
        assert(">="@.len() != "/"@.len());
        reveal_strlit("^");
        assert(">="@.len() != "^"@.len());
        reveal_strlit("==");
        assert(">="@[0] != "=="@[0]);
        reveal_strlit("!=");
        assert(">="@[0] != "!="@[0]);
        reveal_strlit(">");
        assert(">="@.len() != ">"@.len());
        reveal_strlit("<");
        assert(">="@.len() != "<"@.len());
    }
    assert(comparison("<="@) == Comparison::Le && is_compare_op("<="@) && !is_arith_op("<="@)) by {
        reveal_strlit("<=");
        reveal_strlit("+");
        assert("<="@.len() != "+"@.len());
        reveal_strlit("-");
        assert("<="@.len() != "-"@.len());
        reveal_strlit("*");
        assert("<="@.len() != "*"@.len());
        reveal_strlit("/");
        assert("<="@.len() != "/"@.len());
        reveal_strlit("^");
        assert("<="@.len() != "^"@.len());
        reveal_strlit("==");
        assert("<="@[0] != "=="@[0]);
        reveal_strlit("!=");
        assert("<="@[0] != "!="@[0]);
        reveal_strlit(">");
        assert("<="@.len() != ">"@.len());
        reveal_strlit("<");
        assert("<="@.len() != "<"@.len());
        reveal_strlit(">=");
        assert("<="@[0] != ">="@[0]);
    }
}

/// A lambda evaluated in scope `env` is a function value that keeps its
/// parameters and body and captures `env` itself, so that calling it runs
/// the body in a scope enclosed by the scope where the lambda was written.
pub proof fn law_lambda_captures_its_scope(args: Seq<Seq<char>>, body: SpecExpr, env: usize, o: Oracle, s: SpecState)
    requires
        s.fuel > 0,
    ensures
        spec_eval(SpecExpr::Lambda { args, body: Box::new(body) }, env, o, s) == (
            Ok::<SpecValue, Seq<char>>(SpecValue::Function { args, body, env }),
            tick(s),
        ),
        ({
            let f = spec_eval(SpecExpr::Lambda { args, body: Box::new(body) }, env, o, s).0->Ok_0;
            f->Function_env == env
        }),
{
}

/// A lookup that succeeds is not changed by adding a scope at the end of
/// the store.
proof fn lemma_lookup_push(envs: Seq<SpecEnv>, j: int, k: Seq<char>, n: nat, e: SpecEnv)
    requires
        lookup(envs, j, k, n) is Some,
    ensures
        lookup(envs.push(e), j, k, n) == lookup(envs, j, k, n),
    decreases n,
{
    let envs2 = envs.push(e);
    assert(envs2[j] == envs[j]);
    if bind_get(envs[j].vars, k) is None {
        lemma_lookup_push(envs, envs[j].parent->Some_0 as int, k, (n - 1) as nat, e);
    }
}

/// A new scope enclosed by scope `env` sees every name that `env` sees,
/// bound to the same value.
pub proof fn law_new_scope_sees_enclosing(s: SpecState, env: usize, k: Seq<char>)
    requires
        env < s.envs.len(),
        scope_get(s.envs, env as int, k) is Some,
    ensures
        scope_get(push_scope(s, Some(env)).envs, s.envs.len() as int, k) == scope_get(s.envs, env as int, k),
{
    let envs = s.envs;
    let e = SpecEnv { vars: Seq::empty(), parent: Some(env) };
    let envs2 = push_scope(s, Some(env)).envs;
    assert(envs2 == envs.push(e));
    assert(envs2[envs.len() as int] == e);
    assert(envs2[env as int] == envs[env as int]);
    assert(bind_get(e.vars, k) is None);
    if bind_get(envs[env as int].vars, k) is None {
        let p = envs[env as int].parent->Some_0 as int;
        lemma_lookup_push(envs, p, k, envs.len(), e);
        assert(lookup(envs2, env as int, k, envs2.len()) == lookup(envs2, p, k, envs.len()));
    }
}

/// A module statement run in scope `env` runs its body in a new scope
/// enclosed by `env` (so the body sees every name `env` sees, see
/// [`law_new_scope_sees_enclosing`]); on success it binds the module of the
/// body's exports to its name in `env`, and leaves the exports of `env` as
/// they were; a failure of the body is the result.
pub proof fn law_module_runs_in_enclosed_scope(
    name: Seq<char>,
    body: Seq<SpecStatement>,
    env: usize,
    ex: SpecBindings,
    o: Oracle,
    s: SpecState,
)
    requires
        s.fuel > 0,
        env < s.envs.len(),
    ensures
        ({
            let s0 = tick(s);
            let menv = s0.envs.len();
            let s1 = push_scope(s0, Some(env));
            let (r, s2) = spec_run(body, 0, menv as usize, Seq::empty(), o, s1);
            let res = spec_stmt(SpecStatement::Module(name, body), env, ex, o, s);
            &&& s1.envs[menv as int].parent == Some(env)
            &&& s1.envs[menv as int].vars == Seq::<(Seq<char>, SpecValue)>::empty()
            &&& forall|k: Seq<char>|
                #![trigger scope_get(s1.envs, menv as int, k)]
                scope_get(s.envs, env as int, k) is Some ==> scope_get(s1.envs, menv as int, k) == scope_get(
                    s.envs,
                    env as int,
                    k,
                )
            &&& r is Err ==> res == (Err::<SpecBindings, Seq<char>>(r->Err_0), s2)
            &&& r is Ok ==> res == (
                Ok::<SpecBindings, Seq<char>>(ex),
                with_envs(s2, bind_in(s2.envs, env as int, name, SpecValue::Module(r->Ok_0))),
            )
        }),
{
    let s0 = tick(s);
    let s1 = push_scope(s0, Some(env));
    assert forall|k: Seq<char>| scope_get(s.envs, env as int, k) is Some implies scope_get(
        s1.envs,
        s0.envs.len() as int,
        k,
    ) == scope_get(s.envs, env as int, k) by {
        law_new_scope_sees_enclosing(s0, env, k);
    }
}

/// Two booleans are equal exactly when they are the same boolean.
pub proof fn law_eq_booleans(x: bool, y: bool, o: Oracle, p: nat)
    ensures
        spec_eq(SpecValue::Bool(x), SpecValue::Bool(y), o, p) == (x == y, p),
{
}

/// The value is a boolean, or a tuple of such values at any depth.
pub open spec fn bool_tree(v: SpecValue) -> bool
    decreases v, 1int,
{
    match v {
        SpecValue::Bool(_) => true,
        SpecValue::Tuple(xs) => bool_trees(xs, 0),
        _ => false,
    }
}

pub open spec fn bool_trees(xs: Seq<SpecValue>, i: int) -> bool
    decreases xs, xs.len() - i,
{
    if i < 0 || i >= xs.len() {
        true
    } else {
        bool_tree(xs[i]) && bool_trees(xs, i + 1)
    }
}

/// Equality is reflexive on booleans and tuples of them (at any depth),
/// and asks the host nothing there.
pub proof fn law_eq_reflexive(v: SpecValue, o: Oracle, p: nat)
    requires
        bool_tree(v),
    ensures
        spec_eq(v, v, o, p) == (true, p),
    decreases v, 0int,
{
    if let SpecValue::Tuple(xs) = v {
        lemma_eq_list_reflexive(xs, 0, o, p);
    }
}

proof fn lemma_eq_list_reflexive(xs: Seq<SpecValue>, i: int, o: Oracle, p: nat)
    requires
        bool_trees(xs, i),
        0 <= i,
    ensures
        spec_eq_list(xs, xs, i, o, p) == (true, p),
    decreases xs, xs.len() - i,
{
    if i < xs.len() {
        law_eq_reflexive(xs[i], o, p);
        lemma_eq_list_reflexive(xs, i + 1, o, p);
    }
}

} // verus!
