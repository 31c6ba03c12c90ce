//! Evaluation of expressions and statements, proved to follow
//! `semantics.rs`.
use vstd::prelude::*;
use vstd::string::*;
use crate::ast::{
    lemma_tuple_expr_model, lemma_call_model, lemma_block_model, lemma_loop_model, lemma_module_model, loop_bindings_model,
    Access, Expr, SpecExpr, SpecStatement, Statement, accesses_model, exprs_model, statements_model,
    strings_model,
};
use crate::value::{Bindings, SpecBindings, SpecValue, Value, lemma_tuple_model, values_model};
use crate::environment::{
    State, SpecState, SpecEnv, envs_model, bind_in, frames_kept, keeps, lemma_frames_fresh, lemma_keeps_append,
    scope_get,
};
use crate::host::{
    Answer, DirEntry, Host, ImportTarget, Oracle, SourceLoad, SpecDirEntry, agrees, entries_model,
    extends, lemma_agrees_prefix, lemma_extends_trans,
};
use crate::semantics::{
    SRes, bind_args, cap, env_vars, expr_label, inject_in, loop_names, out_of_steps, push_scope,
    rebind, spec_eval, spec_eval_args, spec_eval_list, spec_import, spec_import_dir,
    spec_loop_init, spec_loop_run, spec_process_file, spec_run, spec_stmt, tick, with_envs,
    with_out, with_pos, empty_access_error,
};
use crate::ops::{
    access_display, apply_binary_op, inject_into, member_access, res_model, truth,
    update_nested_value,
};
use crate::text::{concat2, concat3, split_path, str_is, strings_view, usize_text};
use crate::format::{spec_eq, spec_write};
use crate::parser::parse_math_file;

verus! {

broadcast use {
    crate::host::lemma_extends_refl,
    crate::environment::lemma_keeps_trans,
    crate::environment::lemma_keeps_same,
    crate::environment::lemma_frames_same,
    crate::environment::lemma_frames_trans,
    crate::environment::lemma_frames_widen,
};

pub open spec fn results_model(v: Seq<Result<Value, String>>) -> Seq<SRes> {
    Seq::new(v.len(), |i: int| res_model(v[i]))
}

fn out_of_steps_text() -> (r: String)
    ensures
        r@ == out_of_steps(),
{
    String::from_str("evaluation step limit reached")
}

/// The label under which the value of `e` is printed.
pub fn expr_label_text(e: &Expr) -> (r: Option<String>)
    ensures
        r matches Some(t) ==> expr_label(e.model()) == Some(t@),
        r is None ==> expr_label(e.model()) is None,
{
    match e {
        Expr::Variable(n) => Some(n.clone()),
        Expr::MemberAccess(_, parts) => {
            if parts.len() == 0 {
                None
            } else {
                let ghost pm = accesses_model(parts@);
                assert(pm.last() == parts@[parts@.len() - 1].model());
                Some(access_display(&parts[parts.len() - 1]))
            }
        },
        _ => Some(String::from_str("Result")),
    }
}

/// Places `exports` as a module at the path `parts` in scope `env`.
pub fn inject_at_path(st: &mut State, env: usize, parts: &Vec<String>, exports: Bindings)
    ensures
        final(st).model() == with_envs(
            old(st).model(),
            inject_in(old(st).model().envs, env as int, strings_view(parts@), exports.model()),
        ),
        final(st).answers() == old(st).answers(),
        keeps(old(st).model(), final(st).model()),
        frames_kept(old(st).model(), final(st).model(), env as int),
{
    if env < st.envs.len() {
        let ghost old_envs = envs_model(st.envs@);
        let ghost em = exports.model();
        let mut e = st.envs.remove(env);
        inject_into(&mut e.variables, parts, 0, exports);
        st.envs.insert(env, e);
        assert(envs_model(st.envs@) =~= inject_in(old_envs, env as int, strings_view(parts@), em));
    }
}

/// The value of `e` in scope `env` (see [`spec_eval`]).
/// Each step uses one unit of `st.fuel`, whatever is left of it; a
/// step without fuel fails with the step-limit error.
pub fn eval_expr<H: Host>(host: &H, st: &mut State, e: &Expr, env: usize) -> (r: Result<Value, String>)
    ensures
        final(st).fuel <= old(st).fuel,
        keeps(old(st).model(), final(st).model()),
        frames_kept(old(st).model(), final(st).model(), -1),
        extends(final(st).answers(), old(st).answers()),
        forall|o: Oracle|
            agrees(o, final(st).answers()) ==> spec_eval(e.model(), env, o, old(st).model()) == (
                res_model(r),
                final(st).model(),
            ),
    decreases old(st).fuel, 0int,
{
    if st.fuel == 0 {
        return Err(out_of_steps_text());
    }
    let ghost s_pre = st.model();
    st.fuel = st.fuel - 1;
    assert(st.model() == tick(s_pre));
    match e {
        Expr::Number(n) => Ok(Value::Number(*n)),
        Expr::String(x) => Ok(Value::String(x.clone())),
        Expr::Variable(name) => {
            if str_is(name, "true") {
                Ok(Value::Bool(true))
            } else if str_is(name, "false") {
                Ok(Value::Bool(false))
            } else if str_is(name, "none") {
                Ok(Value::NoneValue)
            } else {
                match st.get(env, name) {
                    Some(v) => Ok(v),
                    None => Err(concat2("Undefined variable: ", name.as_str())),
                }
            }
        },
        Expr::Lambda { args, body } => {
            let a = crate::ast::copy_strings(args);
            let b = crate::ast::copy_expr(body);
            Ok(Value::Function { args: a, body: b, captured_env: env })
        },
        Expr::Binary { .. } => eval_binary(host, st, e, env, Ghost(s_pre)),
        Expr::Call { .. } => eval_call(host, st, e, env, Ghost(s_pre)),
        Expr::Ternary { .. } => eval_ternary(host, st, e, env, Ghost(s_pre)),
        Expr::MemberAccess(..) => eval_member(host, st, e, env, Ghost(s_pre)),
        Expr::Tuple(cs) => {
            proof {
                lemma_tuple_expr_model(*cs);
            }
            let r = eval_list(host, st, cs, env);
            match r {
                Err(m) => Err(m),
                Ok(vals) => {
                    proof {
                        lemma_tuple_model(vals);
                    }
                    if vals.len() == 1 {
                        let mut vals2 = vals;
                        let v = vals2.remove(0);
                        assert(values_model(vals@)[0] == v.model());
                        Ok(v)
                    } else {
                        Ok(Value::Tuple(vals))
                    }
                },
            }
        },
        Expr::Recur(cs) => {
            proof {
                lemma_tuple_expr_model(*cs);
            }
            let r = eval_list(host, st, cs, env);
            match r {
                Err(m) => Err(m),
                Ok(vals) => {
                    proof {
                        lemma_tuple_model(vals);
                    }
                    Ok(Value::RecurSignal(vals))
                },
            }
        },
        Expr::Block { .. } => eval_block(host, st, e, env, Ghost(s_pre)),
        Expr::Length(..) => eval_length(host, st, e, env, Ghost(s_pre)),
        Expr::Loop { .. } => eval_loop(host, st, e, env, Ghost(s_pre)),
    }
}

fn eval_binary<H: Host>(host: &H, st: &mut State, e: &Expr, env: usize, Ghost(s_pre): Ghost<SpecState>) -> (r:
    Result<Value, String>)
    requires
        e is Binary,
        s_pre.fuel > 0,
        old(st).model() == tick(s_pre),
    ensures
        final(st).fuel <= old(st).fuel,
        keeps(old(st).model(), final(st).model()),
        frames_kept(old(st).model(), final(st).model(), -1),
        extends(final(st).answers(), old(st).answers()),
        forall|o: Oracle|
            agrees(o, final(st).answers()) ==> spec_eval(e.model(), env, o, s_pre) == (
                res_model(r),
                final(st).model(),
            ),
    decreases old(st).fuel, 2int,
{
    let ghost s0 = st.model();
    let ghost l0 = st.answers();
    let Expr::Binary { lhs, op, rhs } = e else { return Err(out_of_steps_text()) };
    let l = eval_expr(host, st, lhs, env);
    let ghost s1 = st.model();
    let ghost l1 = st.answers();
    let lv = match l {
        Ok(v) => v,
        Err(m) => {
            return Err(m);
        },
    };
    let r = eval_expr(host, st, rhs, env);
    let ghost s2 = st.model();
    let ghost l2 = st.answers();
    proof {
        lemma_extends_trans(l2, l1, l0);
    }
    let rv = match r {
        Ok(v) => v,
        Err(m) => {
            proof {
                assert forall|o: Oracle| agrees(o, st.answers()) implies spec_eval(e.model(), env, o, s_pre)
                    == (Err::<SpecValue, Seq<char>>(m@), st.model()) by {
                    lemma_agrees_prefix(o, l1, l2);
                }
            }
            return Err(m);
        },
    };
    let ghost lm = lv.model();
    let ghost rm = rv.model();
    let res = apply_binary_op(lv, op, rv, host, &mut st.log);
    proof {
        lemma_extends_trans(st.answers(), l2, l0);
        assert forall|o: Oracle| agrees(o, st.answers()) implies spec_eval(e.model(), env, o, s_pre) == (
            res_model(res),
            st.model(),
        ) by {
            lemma_agrees_prefix(o, l2, st.answers());
            lemma_agrees_prefix(o, l1, st.answers());
            assert(spec_eval(lhs.model(), env, o, s0) == (Ok::<SpecValue, Seq<char>>(lm), s1));
            assert(spec_eval(rhs.model(), env, o, s1) == (Ok::<SpecValue, Seq<char>>(rm), s2));
        }
    }
    res
}

/// Results of all the call arguments `args`.
fn eval_args<H: Host>(host: &H, st: &mut State, args: &Vec<Expr>, env: usize) -> (r: Vec<Result<Value, String>>)
    ensures
        final(st).fuel <= old(st).fuel,
        keeps(old(st).model(), final(st).model()),
        frames_kept(old(st).model(), final(st).model(), -1),
        extends(final(st).answers(), old(st).answers()),
        forall|o: Oracle|
            agrees(o, final(st).answers()) ==> spec_eval_args(
                exprs_model(args@),
                0,
                env,
                Seq::empty(),
                o,
                old(st).model(),
            ) == (results_model(r@), final(st).model()),
    decreases old(st).fuel, 1int,
{
    let ghost am = exprs_model(args@);
    let ghost s1 = st.model();
    let ghost l1 = st.answers();
    let mut results: Vec<Result<Value, String>> = Vec::new();
    let mut i: usize = 0;
    assert(results_model(results@) =~= Seq::<SRes>::empty());
    while i < args.len()
        invariant
            i <= args@.len(),
            am == exprs_model(args@),
            st.fuel <= old(st).fuel,
            keeps(old(st).model(), st.model()),
            frames_kept(old(st).model(), st.model(), -1),
            s1 == old(st).model(),
            l1 == old(st).answers(),
            extends(st.answers(), l1),
            forall|o: Oracle|
                agrees(o, st.answers()) ==> spec_eval_args(am, 0, env, Seq::empty(), o, s1)
                    == spec_eval_args(am, i as int, env, results_model(results@), o, st.model()),
        decreases args@.len() - i,
    {
        let ghost si = st.model();
        let ghost li = st.answers();
        let ghost rs = results_model(results@);
        let r = eval_expr(host, st, &args[i], env);
        let ghost rm = res_model(r);
        results.push(r);
        proof {
            lemma_extends_trans(st.answers(), li, l1);
            assert(am[i as int] == args@[i as int].model());
            assert(results_model(results@) =~= rs.push(rm));
            assert forall|o: Oracle| agrees(o, st.answers()) implies spec_eval_args(am, 0, env, Seq::empty(), o, s1)
                == spec_eval_args(am, i + 1, env, results_model(results@), o, st.model()) by {
                lemma_agrees_prefix(o, li, st.answers());
                assert(cap(st.model(), si.fuel) == st.model());
            }
        }
        i = i + 1;
    }
    results
}

/// Binds `names` to the successful `results` in scope `local`, stopping at
/// the first failed result.
fn bind_call_args(st: &mut State, names: &Vec<String>, results: Vec<Result<Value, String>>, local: usize) -> (r:
    Result<(), String>)
    ensures
        final(st).fuel == old(st).fuel,
        keeps(old(st).model(), final(st).model()),
        frames_kept(old(st).model(), final(st).model(), local as int),
        final(st).answers() == old(st).answers(),
        final(st).model().out == old(st).model().out,
        (ures_model(r), final(st).model().envs) == bind_args(
            strings_model(names@),
            results_model(results@),
            0,
            local as int,
            old(st).model().envs,
        ),
{
    let ghost nm = strings_model(names@);
    let ghost rm_all = results_model(results@);
    let n_names = names.len();
    let n_results = results.len();
    let mut j: usize = 0;
    let mut rest = results;
    assert(results_model(rest@) =~= rm_all.skip(0));
    while j < n_names && j < n_results
        invariant
            j <= n_names,
            j <= n_results,
            n_names == names@.len(),
            n_results == rm_all.len(),
            rm_all == results_model(results@),
            rm_all.len() == j + rest@.len(),
            nm == strings_model(names@),
            results_model(rest@) == rm_all.skip(j as int),
            st.fuel == old(st).fuel,
            keeps(old(st).model(), st.model()),
            frames_kept(old(st).model(), st.model(), local as int),
            st.answers() == old(st).answers(),
            st.model().out == old(st).model().out,
            bind_args(nm, rm_all, 0, local as int, old(st).model().envs) == bind_args(
                nm,
                rm_all,
                j as int,
                local as int,
                st.model().envs,
            ),
        decreases n_names - j,
    {
        assert(results_model(rest@)[0] == res_model(rest@[0]));
        let ghost ro = results_model(rest@);
        let rj = rest.remove(0);
        assert forall|k: int| 0 <= k < rest@.len() implies #[trigger] results_model(rest@)[k] == rm_all.skip(j + 1)[k] by {
            assert(results_model(rest@)[k] == ro[k + 1]);
        }
        assert(results_model(rest@) =~= rm_all.skip(j + 1));
        assert(rm_all[j as int] == res_model(rj));
        assert(nm[j as int] == names@[j as int]@);
        match rj {
            Err(m) => {
                assert(rm_all[j as int] == Err::<SpecValue, Seq<char>>(m@));
                assert(bind_args(nm, rm_all, j as int, local as int, st.model().envs) == (
                    Err::<(), Seq<char>>(m@),
                    st.model().envs,
                ));
                assert(bind_args(nm, rm_all, 0, local as int, old(st).model().envs) == (
                    Err::<(), Seq<char>>(m@),
                    st.model().envs,
                ));
                return Err(m);
            },
            Ok(v) => {
                st.bind(local, names[j].clone(), v);
            },
        }
        j = j + 1;
    }
    Ok(())
}

fn eval_call<H: Host>(host: &H, st: &mut State, e: &Expr, env: usize, Ghost(s_pre): Ghost<SpecState>) -> (r:
    Result<Value, String>)
    requires
        e is Call,
        s_pre.fuel > 0,
        old(st).model() == tick(s_pre),
    ensures
        final(st).fuel <= old(st).fuel,
        keeps(old(st).model(), final(st).model()),
        frames_kept(old(st).model(), final(st).model(), -1),
        extends(final(st).answers(), old(st).answers()),
        forall|o: Oracle|
            agrees(o, final(st).answers()) ==> spec_eval(e.model(), env, o, s_pre) == (
                res_model(r),
                final(st).model(),
            ),
    decreases old(st).fuel, 2int,
{
    let ghost s0 = st.model();
    let ghost l0 = st.answers();
    let Expr::Call { callee, args } = e else { return Err(out_of_steps_text()) };
    proof {
        lemma_call_model(*callee, *args);
    }
    let c = eval_expr(host, st, callee, env);
    let ghost s1 = st.model();
    let ghost l1 = st.answers();
    let cv = match c {
        Ok(v) => v,
        Err(m) => {
            return Err(m);
        },
    };
    let ghost cm = cv.model();
    match cv {
        Value::Function { args: names, body, captured_env } => {
            let results = eval_args(host, st, args, env);
            let ghost s2 = st.model();
            let ghost l2 = st.answers();
            let ghost rm_all = results_model(results@);
            proof {
                lemma_extends_trans(l2, l1, l0);
            }
            let local = st.push_scope(Some(captured_env));
            let ghost s3 = st.model();
            let b = bind_call_args(st, &names, results, local);
            let ghost s4 = st.model();
            match b {
                Err(m) => {
                    proof {
                        assert forall|o: Oracle| agrees(o, st.answers()) implies spec_eval(
                            e.model(),
                            env,
                            o,
                            s_pre,
                        ) == (Err::<SpecValue, Seq<char>>(m@), st.model()) by {
                            lemma_agrees_prefix(o, l1, l2);
                            assert(cap(s1, s0.fuel) == s1);
                            assert(spec_eval_args(exprs_model(args@), 0, env, Seq::empty(), o, s1) == (rm_all, s2));
                            assert(s4 == with_envs(s3, s4.envs));
                        }
                    }
                    Err(m)
                },
                Ok(_) => {
                    let r = eval_expr(host, st, &body, local);
                    proof {
                        lemma_extends_trans(st.answers(), l2, l0);
                        assert forall|o: Oracle| agrees(o, st.answers()) implies spec_eval(
                            e.model(),
                            env,
                            o,
                            s_pre,
                        ) == (res_model(r), st.model()) by {
                            lemma_agrees_prefix(o, l1, st.answers());
                            lemma_agrees_prefix(o, l2, st.answers());
                            assert(cap(s1, s0.fuel) == s1);
                            assert(spec_eval(callee.model(), env, o, s0) == (Ok::<SpecValue, Seq<char>>(cm), s1));
                            assert(spec_eval_args(exprs_model(args@), 0, env, Seq::empty(), o, s1) == (rm_all, s2));
                            assert(s4 == with_envs(s3, s4.envs));
                            assert(cap(s4, s0.fuel) == s4);
                        }
                    }
                    r
                },
            }
        },
        other => {
            let d = st.log.describe_expr(host, callee);
            Err(concat2(d.as_str(), " is not a function"))
        },
    }
}

fn eval_ternary<H: Host>(host: &H, st: &mut State, e: &Expr, env: usize, Ghost(s_pre): Ghost<SpecState>) -> (r:
    Result<Value, String>)
    requires
        e is Ternary,
        s_pre.fuel > 0,
        old(st).model() == tick(s_pre),
    ensures
        final(st).fuel <= old(st).fuel,
        keeps(old(st).model(), final(st).model()),
        frames_kept(old(st).model(), final(st).model(), -1),
        extends(final(st).answers(), old(st).answers()),
        forall|o: Oracle|
            agrees(o, final(st).answers()) ==> spec_eval(e.model(), env, o, s_pre) == (
                res_model(r),
                final(st).model(),
            ),
    decreases old(st).fuel, 2int,
{
    let ghost s0 = st.model();
    let ghost l0 = st.answers();
    let Expr::Ternary { condition, true_branch, false_branch } = e else { return Err(out_of_steps_text()) };
    let c = eval_expr(host, st, condition, env);
    let ghost s1 = st.model();
    let ghost l1 = st.answers();
    let cv = match c {
        Ok(v) => v,
        Err(m) => {
            return Err(m);
        },
    };
    let ghost cm = cv.model();
    let t = truth(&cv, host, &mut st.log);
    let ghost s2 = st.model();
    let ghost l2 = st.answers();
    proof {
        lemma_extends_trans(l2, l1, l0);
        assert(keeps(s1, s2));
    }
    let b = match t {
        Ok(b) => b,
        Err(m) => {
            proof {
                assert forall|o: Oracle| agrees(o, st.answers()) implies spec_eval(e.model(), env, o, s_pre)
                    == (Err::<SpecValue, Seq<char>>(m@), st.model()) by {
                    lemma_agrees_prefix(o, l1, l2);
                }
            }
            return Err(m);
        },
    };
    let r = if b {
        eval_expr(host, st, true_branch, env)
    } else {
        eval_expr(host, st, false_branch, env)
    };
    proof {
        lemma_extends_trans(st.answers(), l2, l0);
        assert forall|o: Oracle| agrees(o, st.answers()) implies spec_eval(e.model(), env, o, s_pre) == (
            res_model(r),
            st.model(),
        ) by {
            lemma_agrees_prefix(o, l1, st.answers());
            lemma_agrees_prefix(o, l2, st.answers());
            assert(spec_eval(condition.model(), env, o, s0) == (Ok::<SpecValue, Seq<char>>(cm), s1));
            assert(cap(s2, s0.fuel) == s2);
        }
    }
    r
}

fn eval_member<H: Host>(host: &H, st: &mut State, e: &Expr, env: usize, Ghost(s_pre): Ghost<SpecState>) -> (r:
    Result<Value, String>)
    requires
        e is MemberAccess,
        s_pre.fuel > 0,
        old(st).model() == tick(s_pre),
    ensures
        final(st).fuel <= old(st).fuel,
        keeps(old(st).model(), final(st).model()),
        frames_kept(old(st).model(), final(st).model(), -1),
        extends(final(st).answers(), old(st).answers()),
        forall|o: Oracle|
            agrees(o, final(st).answers()) ==> spec_eval(e.model(), env, o, s_pre) == (
                res_model(r),
                final(st).model(),
            ),
    decreases old(st).fuel, 2int,
{
    let ghost s0 = st.model();
    let ghost l0 = st.answers();
    let Expr::MemberAccess(base, path) = e else { return Err(out_of_steps_text()) };
    let c = eval_expr(host, st, base, env);
    let ghost s1 = st.model();
    let ghost l1 = st.answers();
    let cv = match c {
        Ok(v) => v,
        Err(m) => {
            return Err(m);
        },
    };
    let ghost cm = cv.model();
    let r = member_access(st, env, cv, path, 0, host);
    proof {
        lemma_extends_trans(st.answers(), l1, l0);
        assert forall|o: Oracle| agrees(o, st.answers()) implies spec_eval(e.model(), env, o, s_pre) == (
            res_model(r),
            st.model(),
        ) by {
            lemma_agrees_prefix(o, l1, st.answers());
            assert(spec_eval(base.model(), env, o, s0) == (Ok::<SpecValue, Seq<char>>(cm), s1));
        }
    }
    r
}

fn eval_block<H: Host>(host: &H, st: &mut State, e: &Expr, env: usize, Ghost(s_pre): Ghost<SpecState>) -> (r:
    Result<Value, String>)
    requires
        e is Block,
        s_pre.fuel > 0,
        old(st).model() == tick(s_pre),
    ensures
        final(st).fuel <= old(st).fuel,
        keeps(old(st).model(), final(st).model()),
        frames_kept(old(st).model(), final(st).model(), -1),
        extends(final(st).answers(), old(st).answers()),
        forall|o: Oracle|
            agrees(o, final(st).answers()) ==> spec_eval(e.model(), env, o, s_pre) == (
                res_model(r),
                final(st).model(),
            ),
    decreases old(st).fuel, 2int,
{
    let ghost s0 = st.model();
    let ghost l0 = st.answers();
    let Expr::Block { statements, ret } = e else { return Err(out_of_steps_text()) };
    proof {
        lemma_block_model(*statements, *ret);
    }
    let block_env = st.push_scope(Some(env));
    let ghost s1 = st.model();
    let r = run_program(host, st, statements, block_env);
    let ghost s2 = st.model();
    let ghost l2 = st.answers();
    match r {
        Err(m) => Err(m),
        Ok(exm) => {
            let ghost em = exm.model();
            let v = eval_expr(host, st, ret, block_env);
            proof {
                lemma_extends_trans(st.answers(), l2, l0);
                assert forall|o: Oracle| agrees(o, st.answers()) implies spec_eval(e.model(), env, o, s_pre)
                    == (res_model(v), st.model()) by {
                    lemma_agrees_prefix(o, l2, st.answers());
                    assert(spec_run(statements_model(statements@), 0, block_env, Seq::empty(), o, s1) == (
                        Ok::<SpecBindings, Seq<char>>(em),
                        s2,
                    ));
                    assert(cap(s2, s0.fuel) == s2);
                }
            }
            v
        },
    }
}

fn eval_length<H: Host>(host: &H, st: &mut State, e: &Expr, env: usize, Ghost(s_pre): Ghost<SpecState>) -> (r:
    Result<Value, String>)
    requires
        e is Length,
        s_pre.fuel > 0,
        old(st).model() == tick(s_pre),
    ensures
        final(st).fuel <= old(st).fuel,
        keeps(old(st).model(), final(st).model()),
        frames_kept(old(st).model(), final(st).model(), -1),
        extends(final(st).answers(), old(st).answers()),
        forall|o: Oracle|
            agrees(o, final(st).answers()) ==> spec_eval(e.model(), env, o, s_pre) == (
                res_model(r),
                final(st).model(),
            ),
    decreases old(st).fuel, 2int,
{
    let ghost s0 = st.model();
    let ghost l0 = st.answers();
    let Expr::Length(inner) = e else { return Err(out_of_steps_text()) };
    let c = eval_expr(host, st, inner, env);
    let ghost s1 = st.model();
    let ghost l1 = st.answers();
    let cv = match c {
        Ok(v) => v,
        Err(m) => {
            return Err(m);
        },
    };
    let ghost cm = cv.model();
    let r = match &cv {
        Value::Tuple(es) => {
            proof {
                lemma_tuple_model(*es);
            }
            Ok(Value::Number(st.log.from_count(host, es.len())))
        },
        Value::Module(b) => Ok(Value::Number(st.log.from_count(host, b.len()))),
        Value::String(x) => Ok(Value::Number(st.log.from_count(host, x.as_str().len()))),
        Value::Function { args, .. } => Ok(Value::Number(st.log.from_count(host, args.len()))),
        other => {
            let d = st.log.describe_value(host, other);
            Err(
                concat2(
                    "Length operator '#' only works on Tuples, Modules, and Lambdas, not ",
                    d.as_str(),
                ),
            )
        },
    };
    proof {
        lemma_extends_trans(st.answers(), l1, l0);
        assert forall|o: Oracle| agrees(o, st.answers()) implies spec_eval(e.model(), env, o, s_pre) == (
            res_model(r),
            st.model(),
        ) by {
            lemma_agrees_prefix(o, l1, st.answers());
            assert(spec_eval(inner.model(), env, o, s0) == (Ok::<SpecValue, Seq<char>>(cm), s1));
        }
    }
    r
}

fn eval_loop<H: Host>(host: &H, st: &mut State, e: &Expr, env: usize, Ghost(s_pre): Ghost<SpecState>) -> (r:
    Result<Value, String>)
    requires
        e is Loop,
        s_pre.fuel > 0,
        old(st).model() == tick(s_pre),
    ensures
        final(st).fuel <= old(st).fuel,
        keeps(old(st).model(), final(st).model()),
        frames_kept(old(st).model(), final(st).model(), -1),
        extends(final(st).answers(), old(st).answers()),
        forall|o: Oracle|
            agrees(o, final(st).answers()) ==> spec_eval(e.model(), env, o, s_pre) == (
                res_model(r),
                final(st).model(),
            ),
    decreases old(st).fuel, 2int,
{
    let ghost s0 = st.model();
    let ghost l0 = st.answers();
    let Expr::Loop { bindings, body } = e else { return Err(out_of_steps_text()) };
    proof {
        lemma_loop_model(*bindings, *body);
    }
    let ghost bsm = loop_bindings_model(bindings@);
    let loop_env = st.push_scope(Some(env));
    let ghost s1 = st.model();
    let init = loop_init(host, st, bindings, env, loop_env);
    let ghost s2 = st.model();
    let ghost l2 = st.answers();
    proof {
        lemma_frames_fresh(s0, s1, s2, loop_env as int);
    }
    match init {
        Err(m) => {
            return Err(m);
        },
        Ok(_) => {},
    }
    let names = binding_names(bindings);
    let ghost nm = strings_model(names@);
    let ghost bm = body.model();
    assert(nm == loop_names(bsm));
    proof {
        assert forall|o: Oracle| agrees(o, st.answers()) implies spec_eval(e.model(), env, o, s_pre)
            == spec_loop_run(bm, loop_env, nm, o, st.model()) by {
            assert(spec_loop_init(bsm, 0, env, loop_env as int, o, s1) == (Ok::<(), Seq<char>>(()), s2));
            assert(cap(s2, s0.fuel) == s2);
        }
    }
    loop
        invariant
            st.fuel <= old(st).fuel,
            keeps(old(st).model(), st.model()),
            frames_kept(s1, st.model(), loop_env as int),
            frames_kept(s0, s1, -1),
            loop_env >= s0.envs.len(),
            s0 == old(st).model(),
            extends(st.answers(), l0),
            l0 == old(st).answers(),
            nm == strings_model(names@),
            bm == body.model(),
            forall|o: Oracle|
                agrees(o, st.answers()) ==> spec_eval(e.model(), env, o, s_pre) == spec_loop_run(
                    bm,
                    loop_env,
                    nm,
                    o,
                    st.model(),
                ),
        decreases st.fuel,
    {
        proof {
            lemma_frames_fresh(s0, s1, st.model(), loop_env as int);
        }
        if st.fuel == 0 {
            return Err(out_of_steps_text());
        }
        let ghost sp = st.model();
        let ghost lp = st.answers();
        st.fuel = st.fuel - 1;
        let ghost sq = st.model();
        assert(sq == tick(sp));
        assert(keeps(sp, sq));
        let r = eval_expr(host, st, body, loop_env);
        let ghost s3 = st.model();
        let ghost l3 = st.answers();
        proof {
            lemma_extends_trans(l3, lp, l0);
        }
        match r {
            Ok(Value::RecurSignal(vals)) => {
                proof {
                    lemma_tuple_model(vals);
                }
                let ghost vm = values_model(vals@);
                if vals.len() != names.len() {
                    let mut m = String::from_str("recur expected ");
                    m.append(usize_text(names.len()).as_str());
                    m.append(" args, got ");
                    m.append(usize_text(vals.len()).as_str());
                    proof {
                        assert forall|o: Oracle| agrees(o, st.answers()) implies spec_eval(
                            e.model(),
                            env,
                            o,
                            s_pre,
                        ) == (Err::<SpecValue, Seq<char>>(m@), st.model()) by {
                            lemma_agrees_prefix(o, lp, st.answers());
                        }
                    }
                    proof {
                        lemma_frames_fresh(s0, s1, st.model(), loop_env as int);
                    }
                    return Err(m);
                }
                rebind_names(st, &names, vals, loop_env);
                proof {
                    assert forall|o: Oracle| agrees(o, st.answers()) implies spec_eval(
                        e.model(),
                        env,
                        o,
                        s_pre,
                    ) == spec_loop_run(bm, loop_env, nm, o, st.model()) by {
                        lemma_agrees_prefix(o, lp, st.answers());
                        assert(st.model() == with_envs(s3, rebind(nm, vm, 0, loop_env as int, s3.envs)));
                        assert(cap(st.model(), sq.fuel) == st.model());
                    }
                }
            },
            other => {
                proof {
                    assert forall|o: Oracle| agrees(o, st.answers()) implies spec_eval(
                        e.model(),
                        env,
                        o,
                        s_pre,
                    ) == (res_model(other), st.model()) by {
                        lemma_agrees_prefix(o, lp, st.answers());
                        match other {
                            Ok(Value::RecurSignal(vals)) => {},
                            Ok(v) => {
                                assert(!(v.model() is Recur));
                            },
                            Err(_) => {},
                        }
                    }
                }
                proof {
                    lemma_frames_fresh(s0, s1, st.model(), loop_env as int);
                }
                return other;
            },
        }
    }
}

/// Evaluates the initial values of a loop's bindings in scope `outer`
/// and binds them in scope `loop_env`.
fn loop_init<H: Host>(host: &H, st: &mut State, bindings: &Vec<(String, Expr)>, outer: usize, loop_env: usize) -> (r:
    Result<(), String>)
    ensures
        final(st).fuel <= old(st).fuel,
        keeps(old(st).model(), final(st).model()),
        frames_kept(old(st).model(), final(st).model(), loop_env as int),
        extends(final(st).answers(), old(st).answers()),
        forall|o: Oracle|
            agrees(o, final(st).answers()) ==> spec_loop_init(
                loop_bindings_model(bindings@),
                0,
                outer,
                loop_env as int,
                o,
                old(st).model(),
            ) == (
                match r {
                    Ok(_) => Ok(()),
                    Err(m) => Err(m@),
                },
                final(st).model(),
            ),
    decreases old(st).fuel, 1int,
{
    let ghost bm = loop_bindings_model(bindings@);
    let ghost s0 = st.model();
    let ghost l0 = st.answers();
    let mut i: usize = 0;
    while i < bindings.len()
        invariant
            i <= bindings@.len(),
            bm == loop_bindings_model(bindings@),
            st.fuel <= old(st).fuel,
            keeps(old(st).model(), st.model()),
            frames_kept(old(st).model(), st.model(), loop_env as int),
            extends(st.answers(), l0),
            l0 == old(st).answers(),
            s0 == old(st).model(),
            forall|o: Oracle|
                agrees(o, st.answers()) ==> spec_loop_init(bm, 0, outer, loop_env as int, o, s0)
                    == spec_loop_init(bm, i as int, outer, loop_env as int, o, st.model()),
        decreases bindings@.len() - i,
    {
        let ghost si = st.model();
        let ghost li = st.answers();
        assert(bm[i as int] == (bindings@[i as int].0@, bindings@[i as int].1.model()));
        let r = eval_expr(host, st, &bindings[i].1, outer);
        proof {
            lemma_extends_trans(st.answers(), li, l0);
        }
        match r {
            Err(m) => {
                proof {
                    assert forall|o: Oracle| agrees(o, st.answers()) implies spec_loop_init(
                        bm,
                        0,
                        outer,
                        loop_env as int,
                        o,
                        s0,
                    ) == (Err::<(), Seq<char>>(m@), st.model()) by {
                        lemma_agrees_prefix(o, li, st.answers());
                    }
                }
                return Err(m);
            },
            Ok(v) => {
                let ghost s1 = st.model();
                let ghost vm = v.model();
                st.bind(loop_env, bindings[i].0.clone(), v);
                proof {
                    assert forall|o: Oracle| agrees(o, st.answers()) implies spec_loop_init(
                        bm,
                        0,
                        outer,
                        loop_env as int,
                        o,
                        s0,
                    ) == spec_loop_init(bm, i + 1, outer, loop_env as int, o, st.model()) by {
                        lemma_agrees_prefix(o, li, st.answers());
                        assert(st.model() == with_envs(s1, bind_in(s1.envs, loop_env as int, bm[i as int].0, vm)));
                        assert(cap(st.model(), si.fuel) == st.model());
                    }
                }
            },
        }
        i = i + 1;
    }
    Ok(())
}

/// The names bound by a loop.
fn binding_names(bindings: &Vec<(String, Expr)>) -> (r: Vec<String>)
    ensures
        strings_model(r@) == loop_names(loop_bindings_model(bindings@)),
{
    let mut out: Vec<String> = Vec::new();
    let mut i: usize = 0;
    while i < bindings.len()
        invariant
            i <= bindings@.len(),
            out@.len() == i,
            forall|j: int| 0 <= j < i ==> #[trigger] out@[j]@ == bindings@[j].0@,
        decreases bindings@.len() - i,
    {
        out.push(bindings[i].0.clone());
        i = i + 1;
    }
    assert(strings_model(out@) =~= loop_names(loop_bindings_model(bindings@)));
    out
}

/// Binds `names` to `vals` in scope `idx`.
fn rebind_names(st: &mut State, names: &Vec<String>, vals: Vec<Value>, idx: usize)
    requires
        names@.len() == vals@.len(),
    ensures
        final(st).model() == with_envs(
            old(st).model(),
            rebind(strings_model(names@), values_model(vals@), 0, idx as int, old(st).model().envs),
        ),
        final(st).answers() == old(st).answers(),
        final(st).fuel == old(st).fuel,
        keeps(old(st).model(), final(st).model()),
        frames_kept(old(st).model(), final(st).model(), idx as int),
{
    let ghost nm = strings_model(names@);
    let ghost vm_all = values_model(vals@);
    let mut rest = vals;
    let mut j: usize = 0;
    assert(values_model(rest@) =~= vm_all.skip(0));
    while j < names.len()
        invariant
            j <= names@.len(),
            names@.len() == vm_all.len(),
            vm_all.len() == j + rest@.len(),
            nm == strings_model(names@),
            values_model(rest@) == vm_all.skip(j as int),
            st.fuel == old(st).fuel,
            keeps(old(st).model(), st.model()),
            frames_kept(old(st).model(), st.model(), idx as int),
            st.answers() == old(st).answers(),
            st.model() == with_envs(old(st).model(), st.model().envs),
            rebind(nm, vm_all, 0, idx as int, old(st).model().envs) == rebind(
                nm,
                vm_all,
                j as int,
                idx as int,
                st.model().envs,
            ),
        decreases names@.len() - j,
    {
        let ghost ro = values_model(rest@);
        assert(ro[0] == rest@[0].model());
        let v = rest.remove(0);
        assert forall|k: int| 0 <= k < rest@.len() implies #[trigger] values_model(rest@)[k] == vm_all.skip(j + 1)[k] by {
            assert(values_model(rest@)[k] == ro[k + 1]);
        }
        assert(values_model(rest@) =~= vm_all.skip(j + 1));
        assert(nm[j as int] == names@[j as int]@);
        st.bind(idx, names[j].clone(), v);
        j = j + 1;
    }
}

/// Values of the expressions `cs`, stopping at the first error.
fn eval_list<H: Host>(host: &H, st: &mut State, cs: &Vec<Expr>, env: usize) -> (r: Result<Vec<Value>, String>)
    ensures
        final(st).fuel <= old(st).fuel,
        keeps(old(st).model(), final(st).model()),
        frames_kept(old(st).model(), final(st).model(), -1),
        extends(final(st).answers(), old(st).answers()),
        forall|o: Oracle|
            agrees(o, final(st).answers()) ==> spec_eval_list(
                exprs_model(cs@),
                0,
                env,
                Seq::empty(),
                o,
                old(st).model(),
            ) == (
                match r {
                    Ok(v) => Ok(values_model(v@)),
                    Err(m) => Err(m@),
                },
                final(st).model(),
            ),
    decreases old(st).fuel, 1int,
{
    let ghost cm = exprs_model(cs@);
    let ghost s0 = st.model();
    let ghost l0 = st.answers();
    let mut vals: Vec<Value> = Vec::new();
    let mut i: usize = 0;
    assert(values_model(vals@) =~= Seq::<SpecValue>::empty());
    while i < cs.len()
        invariant
            i <= cs@.len(),
            cm == exprs_model(cs@),
            st.fuel <= old(st).fuel,
            keeps(old(st).model(), st.model()),
            frames_kept(old(st).model(), st.model(), -1),
            extends(st.answers(), l0),
            l0 == old(st).answers(),
            s0 == old(st).model(),
            forall|o: Oracle|
                agrees(o, st.answers()) ==> spec_eval_list(cm, 0, env, Seq::empty(), o, s0)
                    == spec_eval_list(cm, i as int, env, values_model(vals@), o, st.model()),
        decreases cs@.len() - i,
    {
        let ghost si = st.model();
        let ghost li = st.answers();
        let ghost vs = values_model(vals@);
        let r = eval_expr(host, st, &cs[i], env);
        assert(cm[i as int] == cs@[i as int].model());
        proof {
            lemma_extends_trans(st.answers(), li, l0);
        }
        match r {
            Err(m) => {
                proof {
                    assert forall|o: Oracle| agrees(o, st.answers()) implies spec_eval_list(
                        cm,
                        0,
                        env,
                        Seq::empty(),
                        o,
                        s0,
                    ) == (Err::<Seq<SpecValue>, Seq<char>>(m@), st.model()) by {
                        lemma_agrees_prefix(o, li, st.answers());
                    }
                }
                return Err(m);
            },
            Ok(v) => {
                let ghost vm = v.model();
                vals.push(v);
                proof {
                    assert(values_model(vals@) =~= vs.push(vm));
                    assert forall|o: Oracle| agrees(o, st.answers()) implies spec_eval_list(
                        cm,
                        0,
                        env,
                        Seq::empty(),
                        o,
                        s0,
                    ) == spec_eval_list(cm, i + 1, env, values_model(vals@), o, st.model()) by {
                        lemma_agrees_prefix(o, li, st.answers());
                        assert(cap(st.model(), si.fuel) == st.model());
                    }
                }
            },
        }
        i = i + 1;
    }
    Ok(vals)
}

pub open spec fn bres_model(r: Result<Bindings, String>) -> Result<SpecBindings, Seq<char>> {
    match r {
        Ok(b) => Ok(b.model()),
        Err(m) => Err(m@),
    }
}

pub open spec fn ures_model(r: Result<(), String>) -> Result<(), Seq<char>> {
    match r {
        Ok(_) => Ok(()),
        Err(m) => Err(m@),
    }
}

/// Runs `stmts` in scope `env` (see [`spec_run`]); the result is what the
/// statements export.
pub fn run_program<H: Host>(host: &H, st: &mut State, stmts: &Vec<Statement>, env: usize) -> (r: Result<
    Bindings,
    String,
>)
    ensures
        final(st).fuel <= old(st).fuel,
        keeps(old(st).model(), final(st).model()),
        frames_kept(old(st).model(), final(st).model(), env as int),
        extends(final(st).answers(), old(st).answers()),
        forall|o: Oracle|
            agrees(o, final(st).answers()) ==> spec_run(
                statements_model(stmts@),
                0,
                env,
                Seq::empty(),
                o,
                old(st).model(),
            ) == (bres_model(r), final(st).model()),
    decreases old(st).fuel, 1int,
{
    let ghost sm = statements_model(stmts@);
    let ghost s0 = st.model();
    let ghost l0 = st.answers();
    let mut exc = Bindings::new();
    let mut i: usize = 0;
    while i < stmts.len()
        invariant
            i <= stmts@.len(),
            sm == statements_model(stmts@),
            st.fuel <= old(st).fuel,
            keeps(old(st).model(), st.model()),
            frames_kept(old(st).model(), st.model(), env as int),
            extends(st.answers(), l0),
            l0 == old(st).answers(),
            s0 == old(st).model(),
            forall|o: Oracle|
                agrees(o, st.answers()) ==> spec_run(sm, 0, env, Seq::empty(), o, s0) == spec_run(
                    sm,
                    i as int,
                    env,
                    exc.model(),
                    o,
                    st.model(),
                ),
        decreases stmts@.len() - i,
    {
        let ghost si = st.model();
        let ghost li = st.answers();
        let ghost exm = exc.model();
        assert(sm[i as int] == stmts@[i as int].model());
        let r = exec_statement(host, st, &stmts[i], env, exc);
        proof {
            lemma_extends_trans(st.answers(), li, l0);
        }
        match r {
            Err(m) => {
                proof {
                    assert forall|o: Oracle| agrees(o, st.answers()) implies spec_run(
                        sm,
                        0,
                        env,
                        Seq::empty(),
                        o,
                        s0,
                    ) == (Err::<SpecBindings, Seq<char>>(m@), st.model()) by {
                        lemma_agrees_prefix(o, li, st.answers());
                    }
                }
                return Err(m);
            },
            Ok(e2) => {
                exc = e2;
                proof {
                    assert forall|o: Oracle| agrees(o, st.answers()) implies spec_run(
                        sm,
                        0,
                        env,
                        Seq::empty(),
                        o,
                        s0,
                    ) == spec_run(sm, i + 1, env, exc.model(), o, st.model()) by {
                        lemma_agrees_prefix(o, li, st.answers());
                        assert(cap(st.model(), si.fuel) == st.model());
                    }
                }
            },
        }
        i = i + 1;
    }
    Ok(exc)
}

/// Runs one statement in scope `env` (see [`spec_stmt`]); `ex` are the
/// exports so far, and the result the exports after it.
pub fn exec_statement<H: Host>(host: &H, st: &mut State, stmt: &Statement, env: usize, ex: Bindings) -> (r:
    Result<Bindings, String>)
    ensures
        final(st).fuel <= old(st).fuel,
        keeps(old(st).model(), final(st).model()),
        frames_kept(old(st).model(), final(st).model(), env as int),
        extends(final(st).answers(), old(st).answers()),
        forall|o: Oracle|
            agrees(o, final(st).answers()) ==> spec_stmt(stmt.model(), env, ex.model(), o, old(st).model())
                == (bres_model(r), final(st).model()),
    decreases old(st).fuel, 0int,
{
    if st.fuel == 0 {
        return Err(out_of_steps_text());
    }
    let ghost s_pre = st.model();
    st.fuel = st.fuel - 1;
    assert(st.model() == tick(s_pre));
    match stmt {
        Statement::Assignment(..) => exec_assignment(host, st, stmt, env, ex, Ghost(s_pre)),
        Statement::Equivalence(..) => exec_equivalence(host, st, stmt, env, ex, Ghost(s_pre)),
        Statement::Expression(..) => exec_expression(host, st, stmt, env, ex, Ghost(s_pre)),
        Statement::Module(..) => exec_module(host, st, stmt, env, ex, Ghost(s_pre)),
        Statement::Export(name) => match st.get(env, name) {
            None => Err(concat3("Export Error: Cannot export undefined variable '", name.as_str(), "'")),
            Some(v) => {
                let mut ex2 = ex;
                ex2.insert(name.clone(), v);
                Ok(ex2)
            },
        },
        Statement::Import(raw) => {
            let r = exec_import(host, st, raw, env);
            match r {
                Err(m) => Err(m),
                Ok(_) => Ok(ex),
            }
        },
    }
}

fn exec_assignment<H: Host>(
    host: &H,
    st: &mut State,
    stmt: &Statement,
    env: usize,
    ex: Bindings,
    Ghost(s_pre): Ghost<SpecState>,
) -> (r: Result<Bindings, String>)
    requires
        stmt is Assignment,
        s_pre.fuel > 0,
        old(st).model() == tick(s_pre),
    ensures
        final(st).fuel <= old(st).fuel,
        keeps(old(st).model(), final(st).model()),
        frames_kept(old(st).model(), final(st).model(), env as int),
        extends(final(st).answers(), old(st).answers()),
        forall|o: Oracle|
            agrees(o, final(st).answers()) ==> spec_stmt(stmt.model(), env, ex.model(), o, s_pre) == (
                bres_model(r),
                final(st).model(),
            ),
    decreases old(st).fuel, 2int,
{
    let ghost s0 = st.model();
    let ghost l0 = st.answers();
    let Statement::Assignment(name, path, expr, suppressed) = stmt else { return Err(out_of_steps_text()) };
    let r = eval_expr(host, st, expr, env);
    let ghost s1 = st.model();
    let ghost l1 = st.answers();
    let v = match r {
        Ok(v) => v,
        Err(m) => {
            return Err(m);
        },
    };
    let ghost vm = v.model();
    let nv: Result<Value, String> = if path.len() == 0 {
        Ok(v)
    } else {
        match st.get(env, name) {
            None => Err(concat3("Variable ", name.as_str(), " not found")),
            Some(root) => {
                if env < st.envs.len() {
                    assert(env_vars(s1.envs, env as int) == st.envs@[env as int].variables.model());
                    update_nested_value(&st.envs[env].variables, root, path, 0, v, host, &mut st.log)
                } else {
                    let empty = Bindings::new();
                    update_nested_value(&empty, root, path, 0, v, host, &mut st.log)
                }
            },
        }
    };
    let ghost s2 = st.model();
    let ghost l2 = st.answers();
    proof {
        lemma_extends_trans(l2, l1, l0);
        assert(keeps(s1, s2));
    }
    let val = match nv {
        Ok(x) => x,
        Err(m) => {
            proof {
                assert forall|o: Oracle| agrees(o, st.answers()) implies spec_stmt(
                    stmt.model(),
                    env,
                    ex.model(),
                    o,
                    s_pre,
                ) == (Err::<SpecBindings, Seq<char>>(m@), st.model()) by {
                    lemma_agrees_prefix(o, l1, l2);
                }
            }
            return Err(m);
        },
    };
    let ghost valm = val.model();
    if *suppressed {
        st.bind(env, name.clone(), val);
        proof {
            assert forall|o: Oracle| agrees(o, st.answers()) implies spec_stmt(
                stmt.model(),
                env,
                ex.model(),
                o,
                s_pre,
            ) == (Ok::<SpecBindings, Seq<char>>(ex.model()), st.model()) by {
                lemma_agrees_prefix(o, l1, l2);
                assert(spec_eval(expr.model(), env, o, s0) == (Ok::<SpecValue, Seq<char>>(vm), s1));
            }
        }
        Ok(ex)
    } else {
        let t = val.format_tree(name, host, &mut st.log);
        let ghost l3 = st.answers();
        assert(keeps(s2, st.model()));
        st.bind(env, name.clone(), val);
        let ghost s3 = st.model();
        let mut text = name.clone();
        text.append(" assigned to ");
        text.append(t.as_str());
        text.append("\n");
        st.output.append(text.as_str());
        proof {
            lemma_keeps_append(s3, st.model(), text@);
            lemma_extends_trans(l3, l2, l0);
            assert forall|o: Oracle| agrees(o, st.answers()) implies spec_stmt(
                stmt.model(),
                env,
                ex.model(),
                o,
                s_pre,
            ) == (Ok::<SpecBindings, Seq<char>>(ex.model()), st.model()) by {
                lemma_agrees_prefix(o, l1, l3);
                lemma_agrees_prefix(o, l2, l3);
                assert(spec_eval(expr.model(), env, o, s0) == (Ok::<SpecValue, Seq<char>>(vm), s1));
                assert(st.model().out =~= s3.out + name@ + " assigned to "@ + t@ + "\n"@);
            }
        }
        Ok(ex)
    }
}

fn exec_equivalence<H: Host>(
    host: &H,
    st: &mut State,
    stmt: &Statement,
    env: usize,
    ex: Bindings,
    Ghost(s_pre): Ghost<SpecState>,
) -> (r: Result<Bindings, String>)
    requires
        stmt is Equivalence,
        s_pre.fuel > 0,
        old(st).model() == tick(s_pre),
    ensures
        final(st).fuel <= old(st).fuel,
        keeps(old(st).model(), final(st).model()),
        frames_kept(old(st).model(), final(st).model(), env as int),
        extends(final(st).answers(), old(st).answers()),
        forall|o: Oracle|
            agrees(o, final(st).answers()) ==> spec_stmt(stmt.model(), env, ex.model(), o, s_pre) == (
                bres_model(r),
                final(st).model(),
            ),
    decreases old(st).fuel, 2int,
{
    let ghost s0 = st.model();
    let ghost l0 = st.answers();
    let Statement::Equivalence(lhs, rhs, suppressed) = stmt else { return Err(out_of_steps_text()) };
    let a = eval_expr(host, st, lhs, env);
    let ghost s1 = st.model();
    let ghost l1 = st.answers();
    let av = match a {
        Ok(v) => v,
        Err(m) => {
            return Err(m);
        },
    };
    let ghost am = av.model();
    let b = eval_expr(host, st, rhs, env);
    let ghost s2 = st.model();
    let ghost l2 = st.answers();
    proof {
        lemma_extends_trans(l2, l1, l0);
    }
    let bv = match b {
        Ok(v) => v,
        Err(m) => {
            proof {
                assert forall|o: Oracle| agrees(o, st.answers()) implies spec_stmt(
                    stmt.model(),
                    env,
                    ex.model(),
                    o,
                    s_pre,
                ) == (Err::<SpecBindings, Seq<char>>(m@), st.model()) by {
                    lemma_agrees_prefix(o, l1, l2);
                    assert(cap(s1, s0.fuel) == s1);
                }
            }
            return Err(m);
        },
    };
    let ghost bm = bv.model();
    let eq = av.is_equal_to(&bv, host, &mut st.log);
    let ghost s3 = st.model();
    let ghost l3 = st.answers();
    proof {
        lemma_extends_trans(l3, l2, l0);
        assert forall|o: Oracle| agrees(o, l3) implies spec_eval(lhs.model(), env, o, s0) == (
            Ok::<SpecValue, Seq<char>>(am),
            s1,
        ) && spec_eval(rhs.model(), env, o, cap(s1, s0.fuel)) == (Ok::<SpecValue, Seq<char>>(bm), s2)
            && spec_eq(am, bm, o, s2.pos) == (eq, s3.pos) by {
            lemma_agrees_prefix(o, l1, l3);
            lemma_agrees_prefix(o, l2, l3);
            assert(cap(s1, s0.fuel) == s1);
        }
    }
    if *suppressed {
        return Ok(ex);
    }
    let ll = expr_label_text(lhs);
    let rl = expr_label_text(rhs);
    match (ll, rl) {
        (Some(ll), Some(rl)) => {
            let t1 = av.format_tree(&ll, host, &mut st.log);
            let ghost l4 = st.answers();
            let t2 = bv.format_tree(&rl, host, &mut st.log);
            let ghost l5 = st.answers();
            let not: &str = if eq {
                ""
            } else {
                "not "
            };
            let mut text = t1;
            text.append(" is ");
            text.append(not);
            text.append("equal to ");
            text.append(t2.as_str());
            text.append("\n");
            let ghost tm = text@;
            let ghost s_before = st.model();
            assert(keeps(s2, s_before));
            st.output.append(text.as_str());
            proof {
                lemma_keeps_append(s_before, st.model(), tm);
            }
            proof {
                reveal_strlit("");
                lemma_extends_trans(l4, l3, l0);
                lemma_extends_trans(l5, l4, l0);
                let ghost nt: Seq<char> = if eq {
                    Seq::empty()
                } else {
                    "not "@
                };
                assert(tm == t1@ + " is "@ + nt + "equal to "@ + t2@ + "\n"@);
                assert(st.model() == with_pos(with_out(s3, s3.out + tm), l5.len()));
                assert forall|o: Oracle| agrees(o, st.answers()) implies spec_stmt(
                    stmt.model(),
                    env,
                    ex.model(),
                    o,
                    s_pre,
                ) == (Ok::<SpecBindings, Seq<char>>(ex.model()), st.model()) by {
                    lemma_agrees_prefix(o, l3, l5);
                    lemma_agrees_prefix(o, l4, l5);
                    assert(spec_write(am, ll@, Seq::empty(), true, true, o, s3.pos) == (t1@, l4.len()));
                    assert(spec_write(bm, rl@, Seq::empty(), true, true, o, l4.len()) == (t2@, l5.len()));
                    assert(expr_label(lhs.model()) == Some(ll@));
                    assert(expr_label(rhs.model()) == Some(rl@));
                }
            }
            Ok(ex)
        },
        _ => Err(String::from_str("Member access without a member")),
    }
}

fn exec_expression<H: Host>(
    host: &H,
    st: &mut State,
    stmt: &Statement,
    env: usize,
    ex: Bindings,
    Ghost(s_pre): Ghost<SpecState>,
) -> (r: Result<Bindings, String>)
    requires
        stmt is Expression,
        s_pre.fuel > 0,
        old(st).model() == tick(s_pre),
    ensures
        final(st).fuel <= old(st).fuel,
        keeps(old(st).model(), final(st).model()),
        frames_kept(old(st).model(), final(st).model(), env as int),
        extends(final(st).answers(), old(st).answers()),
        forall|o: Oracle|
            agrees(o, final(st).answers()) ==> spec_stmt(stmt.model(), env, ex.model(), o, s_pre) == (
                bres_model(r),
                final(st).model(),
            ),
    decreases old(st).fuel, 2int,
{
    let ghost s0 = st.model();
    let ghost l0 = st.answers();
    let Statement::Expression(expr, suppressed) = stmt else { return Err(out_of_steps_text()) };
    let r = eval_expr(host, st, expr, env);
    let ghost s1 = st.model();
    let ghost l1 = st.answers();
    let v = match r {
        Ok(v) => v,
        Err(m) => {
            return Err(m);
        },
    };
    let ghost vm = v.model();
    if *suppressed {
        return Ok(ex);
    }
    match expr_label_text(expr) {
        Some(l) => {
            let ghost p1 = st.answers().len();
            let t = v.format_tree(&l, host, &mut st.log);
            let ghost tm = t@;
            let mut text = t;
            text.append("\n");
            let ghost s_before = st.model();
            assert(keeps(s1, s_before));
            st.output.append(text.as_str());
            proof {
                lemma_keeps_append(s_before, st.model(), text@);
                lemma_extends_trans(st.answers(), l1, l0);
                assert(st.model().out =~= s1.out + tm + "\n"@);
                assert(st.model() == with_pos(with_out(s1, s1.out + tm + "\n"@), st.answers().len()));
                assert forall|o: Oracle| agrees(o, st.answers()) implies spec_stmt(
                    stmt.model(),
                    env,
                    ex.model(),
                    o,
                    s_pre,
                ) == (Ok::<SpecBindings, Seq<char>>(ex.model()), st.model()) by {
                    lemma_agrees_prefix(o, l1, st.answers());
                    assert(spec_eval(expr.model(), env, o, s0) == (Ok::<SpecValue, Seq<char>>(vm), s1));
                    assert(expr_label(expr.model()) == Some(l@));
                    assert(spec_write(vm, l@, Seq::empty(), true, true, o, s1.pos) == (tm, st.answers().len()));
                }
            }
            Ok(ex)
        },
        None => Err(String::from_str("Member access without a member")),
    }
}

fn exec_module<H: Host>(
    host: &H,
    st: &mut State,
    stmt: &Statement,
    env: usize,
    ex: Bindings,
    Ghost(s_pre): Ghost<SpecState>,
) -> (r: Result<Bindings, String>)
    requires
        stmt is Module,
        s_pre.fuel > 0,
        old(st).model() == tick(s_pre),
    ensures
        final(st).fuel <= old(st).fuel,
        keeps(old(st).model(), final(st).model()),
        frames_kept(old(st).model(), final(st).model(), env as int),
        extends(final(st).answers(), old(st).answers()),
        forall|o: Oracle|
            agrees(o, final(st).answers()) ==> spec_stmt(stmt.model(), env, ex.model(), o, s_pre) == (
                bres_model(r),
                final(st).model(),
            ),
    decreases old(st).fuel, 2int,
{
    let ghost s0 = st.model();
    let Statement::Module(name, body) = stmt else { return Err(out_of_steps_text()) };
    proof {
        lemma_module_model(*name, *body);
    }
    let menv = st.push_scope(Some(env));
    let ghost s1 = st.model();
    let r = run_program(host, st, body, menv);
    let ghost s2 = st.model();
    match r {
        Err(m) => Err(m),
        Ok(mex) => {
            let ghost mm = mex.model();
            st.bind(env, name.clone(), Value::Module(mex));
            proof {
                assert forall|o: Oracle| agrees(o, st.answers()) implies spec_stmt(
                    stmt.model(),
                    env,
                    ex.model(),
                    o,
                    s_pre,
                ) == (Ok::<SpecBindings, Seq<char>>(ex.model()), st.model()) by {
                    assert(spec_run(statements_model(body@), 0, menv, Seq::empty(), o, s1) == (
                        Ok::<SpecBindings, Seq<char>>(mm),
                        s2,
                    ));
                }
            }
            Ok(ex)
        },
    }
}

/// `import raw` in scope `env` (see [`spec_import`]).
fn exec_import<H: Host>(host: &H, st: &mut State, raw: &String, env: usize) -> (r: Result<(), String>)
    ensures
        final(st).fuel <= old(st).fuel,
        keeps(old(st).model(), final(st).model()),
        frames_kept(old(st).model(), final(st).model(), env as int),
        extends(final(st).answers(), old(st).answers()),
        forall|o: Oracle|
            agrees(o, final(st).answers()) ==> spec_import(raw@, env, o, old(st).model()) == (
                ures_model(r),
                final(st).model(),
            ),
    decreases old(st).fuel, 0int,
{
    if st.fuel == 0 {
        return Err(out_of_steps_text());
    }
    let ghost s_pre = st.model();
    let ghost l_pre = st.answers();
    st.fuel = st.fuel - 1;
    let target = st.log.locate(host, raw.as_str());
    let ghost s1 = st.model();
    let ghost l1 = st.answers();
    let ghost tm = target.model();
    assert(s1 == with_pos(tick(s_pre), s_pre.pos + 1));
    let r = match target {
        ImportTarget::Directory(None) => Err(concat2("Could not read directory: ", raw.as_str())),
        ImportTarget::Directory(Some(entries)) => import_dir(host, st, &entries, raw, env),
        ImportTarget::SwFile => {
            let f = concat2(raw.as_str(), ".sw");
            let r = process_import_file(host, st, &f);
            match r {
                Err(m) => Err(m),
                Ok(exm) => {
                    let parts = split_path(raw.as_str());
                    inject_at_path(st, env, &parts, exm);
                    Ok(())
                },
            }
        },
        ImportTarget::File(stem) => {
            let r = process_import_file(host, st, raw);
            match r {
                Err(m) => Err(m),
                Ok(exm) => {
                    let mut parts = split_path(raw.as_str());
                    let ghost pv = strings_view(parts@);
                    let n = parts.len();
                    if n > 0 {
                        parts.set(n - 1, stem);
                        assert(strings_view(parts@) =~= pv.update(n - 1, tm->File_0));
                    }
                    inject_at_path(st, env, &parts, exm);
                    Ok(())
                },
            }
        },
        ImportTarget::Missing => Err(concat2("Could not find directory or file for: ", raw.as_str())),
    };
    proof {
        lemma_extends_trans(st.answers(), l1, l_pre);
        assert forall|o: Oracle| agrees(o, st.answers()) implies spec_import(raw@, env, o, s_pre) == (
            ures_model(r),
            st.model(),
        ) by {
            lemma_agrees_prefix(o, l1, st.answers());
        }
    }
    r
}

/// Imports the `.sw` entries of the directory `raw` (see
/// [`spec_import_dir`]).
fn import_dir<H: Host>(host: &H, st: &mut State, entries: &Vec<DirEntry>, raw: &String, env: usize) -> (r: Result<
    (),
    String,
>)
    ensures
        final(st).fuel <= old(st).fuel,
        keeps(old(st).model(), final(st).model()),
        frames_kept(old(st).model(), final(st).model(), env as int),
        extends(final(st).answers(), old(st).answers()),
        forall|o: Oracle|
            agrees(o, final(st).answers()) ==> spec_import_dir(
                entries_model(entries@),
                0,
                raw@,
                env,
                o,
                old(st).model(),
            ) == (ures_model(r), final(st).model()),
    decreases old(st).fuel, 1int,
{
    let ghost em = entries_model(entries@);
    let ghost s0 = st.model();
    let ghost l0 = st.answers();
    let mut i: usize = 0;
    while i < entries.len()
        invariant
            i <= entries@.len(),
            em == entries_model(entries@),
            st.fuel <= old(st).fuel,
            keeps(old(st).model(), st.model()),
            frames_kept(old(st).model(), st.model(), env as int),
            extends(st.answers(), l0),
            l0 == old(st).answers(),
            s0 == old(st).model(),
            forall|o: Oracle|
                agrees(o, st.answers()) ==> spec_import_dir(em, 0, raw@, env, o, s0) == spec_import_dir(
                    em,
                    i as int,
                    raw@,
                    env,
                    o,
                    st.model(),
                ),
        decreases entries@.len() - i,
    {
        let ghost si = st.model();
        let ghost li = st.answers();
        assert(em[i as int] == entries@[i as int].model());
        match &entries[i] {
            DirEntry::Unreadable => {
                return Err(String::from_str("Error reading entry"));
            },
            DirEntry::Other => {},
            DirEntry::Source { stem, path } => {
                let r = process_import_file(host, st, path);
                proof {
                    lemma_extends_trans(st.answers(), li, l0);
                }
                match r {
                    Err(m) => {
                        proof {
                            assert forall|o: Oracle| agrees(o, st.answers()) implies spec_import_dir(
                                em,
                                0,
                                raw@,
                                env,
                                o,
                                s0,
                            ) == (Err::<(), Seq<char>>(m@), st.model()) by {
                                lemma_agrees_prefix(o, li, st.answers());
                            }
                        }
                        return Err(m);
                    },
                    Ok(exm) => {
                        let ghost s1 = st.model();
                        let mut parts = split_path(raw.as_str());
                        let ghost pv = strings_view(parts@);
                        parts.push(stem.clone());
                        assert(strings_view(parts@) =~= pv.push(stem@));
                        inject_at_path(st, env, &parts, exm);
                        proof {
                            assert forall|o: Oracle| agrees(o, st.answers()) implies spec_import_dir(
                                em,
                                0,
                                raw@,
                                env,
                                o,
                                s0,
                            ) == spec_import_dir(em, i + 1, raw@, env, o, st.model()) by {
                                lemma_agrees_prefix(o, li, st.answers());
                                assert(cap(st.model(), si.fuel) == st.model());
                            }
                        }
                    },
                }
            },
        }
        i = i + 1;
    }
    Ok(())
}

/// Loads the file `filename` and runs it in a new top-level scope (see
/// [`spec_process_file`]); the result is what the file exports.
pub fn process_import_file<H: Host>(host: &H, st: &mut State, filename: &String) -> (r: Result<Bindings, String>)
    ensures
        final(st).fuel <= old(st).fuel,
        keeps(old(st).model(), final(st).model()),
        frames_kept(old(st).model(), final(st).model(), -1),
        extends(final(st).answers(), old(st).answers()),
        forall|o: Oracle|
            agrees(o, final(st).answers()) ==> spec_process_file(filename@, o, old(st).model()) == (
                bres_model(r),
                final(st).model(),
            ),
    decreases old(st).fuel, 0int,
{
    if st.fuel == 0 {
        return Err(out_of_steps_text());
    }
    let ghost s_pre = st.model();
    let ghost l_pre = st.answers();
    st.fuel = st.fuel - 1;
    let load = st.log.load(host, filename.as_str());
    let ghost s1 = st.model();
    let ghost l1 = st.answers();
    assert(s1 == with_pos(tick(s_pre), s_pre.pos + 1));
    let r = match load {
        SourceLoad::Unreadable => Err(concat2("Could not find file: ", filename.as_str())),
        SourceLoad::SyntaxError(m) => {
            let mut t = concat3("Error parsing ", filename.as_str(), ": ");
            t.append(m.as_str());
            Err(t)
        },
        SourceLoad::Tree(pairs) => match parse_math_file(&pairs) {
            Err(e) => {
                let mut t = concat3("AST Error in ", filename.as_str(), ": ");
                t.append(e.as_str());
                Err(t)
            },
            Ok(stmts) => {
                let root = st.push_scope(None);
                run_program(host, st, &stmts, root)
            },
        },
    };
    proof {
        lemma_extends_trans(st.answers(), l1, l_pre);
        assert forall|o: Oracle| agrees(o, st.answers()) implies spec_process_file(filename@, o, s_pre) == (
            bres_model(r),
            st.model(),
        ) by {
            lemma_agrees_prefix(o, l1, st.answers());
        }
    }
    r
}

} // verus!
