//! Executable operators, truth of conditions, member access, nested
//! assignment and module injection.
use vstd::prelude::*;
use vstd::string::*;
use crate::ast::{Access, Expr, SpecAccess, accesses_model};
use crate::value::{
    Bindings, SpecBindings, SpecValue, Value, bind_find, bind_get, bind_insert, lemma_bind_find,
    lemma_tuple_model, values_model,
};
use crate::environment::{State, SpecState, scope_get};
use crate::host::{
    Answer, Comparison, Host, HostLog, NumOp, Oracle, agrees, extends, lemma_agrees_prefix,
    lemma_extends_trans,
};
use crate::semantics::{
    SRes, access_debug, access_text, spec_binop, spec_inject, spec_member, spec_truth, spec_update,
};
use crate::laws::binop_succeeds;
use crate::text::{concat2, concat3, debug_string, str_is, usize_text, strings_view};

verus! {

broadcast use crate::host::lemma_extends_refl;

pub open spec fn res_model(r: Result<Value, String>) -> SRes {
    match r {
        Ok(v) => Ok(v.model()),
        Err(m) => Err(m@),
    }
}

/// `left op right` (see [`spec_binop`]).
pub fn apply_binary_op<H: Host>(left: Value, op: &String, right: Value, host: &H, log: &mut HostLog) -> (r:
    Result<Value, String>)
    ensures
        extends(final(log).answers(), old(log).answers()),
        forall|o: Oracle|
            agrees(o, final(log).answers()) ==> spec_binop(
                left.model(),
                op@,
                right.model(),
                o,
                old(log).answers().len(),
            ) == (res_model(r), final(log).answers().len()),
        forall|o: Oracle|
            agrees(o, final(log).answers()) ==> (r is Ok <==> binop_succeeds(
                left.model(),
                op@,
                right.model(),
                o,
                old(log).answers().len(),
            )),
{
    broadcast use crate::laws::law_binop_succeeds;

    let ghost lm = left.model();
    let ghost rm = right.model();
    match (left, right) {
        (Value::Number(a), Value::Number(b)) => {
            if str_is(op, "+") {
                Ok(Value::Number(log.arith(host, NumOp::Add, a, b)))
            } else if str_is(op, "-") {
                Ok(Value::Number(log.arith(host, NumOp::Sub, a, b)))
            } else if str_is(op, "*") {
                Ok(Value::Number(log.arith(host, NumOp::Mul, a, b)))
            } else if str_is(op, "/") {
                Ok(Value::Number(log.arith(host, NumOp::Div, a, b)))
            } else if str_is(op, "^") {
                Ok(Value::Number(log.arith(host, NumOp::Pow, a, b)))
            } else if str_is(op, "==") {
                Ok(Value::Bool(log.compare(host, Comparison::Eq, a, b)))
            } else if str_is(op, "!=") {
                Ok(Value::Bool(log.compare(host, Comparison::Ne, a, b)))
            } else if str_is(op, ">") {
                Ok(Value::Bool(log.compare(host, Comparison::Gt, a, b)))
            } else if str_is(op, "<") {
                Ok(Value::Bool(log.compare(host, Comparison::Lt, a, b)))
            } else if str_is(op, ">=") {
                Ok(Value::Bool(log.compare(host, Comparison::Ge, a, b)))
            } else if str_is(op, "<=") {
                Ok(Value::Bool(log.compare(host, Comparison::Le, a, b)))
            } else {
                Err(concat2("Unknown operator: ", op.as_str()))
            }
        },
        (Value::String(a), Value::String(b)) => {
            if str_is(op, "==") {
                Ok(Value::Bool(a == b))
            } else if str_is(op, "!=") {
                Ok(Value::Bool(!(a == b)))
            } else if str_is(op, "+") {
                Ok(Value::String(concat2(a.as_str(), b.as_str())))
            } else {
                Err(String::from_str("Cannot perform operation on strings"))
            }
        },
        (Value::Bool(a), Value::Bool(b)) => {
            if str_is(op, "==") {
                Ok(Value::Bool(a == b))
            } else if str_is(op, "!=") {
                Ok(Value::Bool(a != b))
            } else if str_is(op, "|") {
                Ok(Value::Bool(a || b))
            } else {
                Err(String::from_str("Cannot perform operation on booleans"))
            }
        },
        (Value::Tuple(t), Value::Number(n)) => {
            proof {
                lemma_tuple_model(t);
            }
            if str_is(op, "-") {
                let k = log.to_index(host, n);
                if k < t.len() {
                    let mut t2 = t;
                    t2.remove(k);
                    proof {
                        lemma_tuple_model(t2);
                        assert(values_model(t2@) =~= values_model(t@).remove(k as int));
                    }
                    Ok(Value::Tuple(t2))
                } else {
                    Err(concat3("Index ", usize_text(k).as_str(), " out of bounds"))
                }
            } else {
                Err(concat3("Cannot perform operation ", op.as_str(), " on a tuple and number."))
            }
        },
        (Value::Tuple(a), Value::Tuple(b)) => {
            proof {
                lemma_tuple_model(a);
                lemma_tuple_model(b);
            }
            if str_is(op, "==") {
                let x = Value::Tuple(a);
                let y = Value::Tuple(b);
                let e = x.is_equal_to(&y, host, log);
                Ok(Value::Bool(e))
            } else if str_is(op, "!=") {
                let x = Value::Tuple(a);
                let y = Value::Tuple(b);
                let e = x.is_equal_to(&y, host, log);
                Ok(Value::Bool(!e))
            } else if str_is(op, "+") {
                let mut a2 = a;
                let mut b2 = b;
                a2.append(&mut b2);
                proof {
                    lemma_tuple_model(a2);
                    assert(values_model(a2@) =~= values_model(a@) + values_model(b@));
                }
                Ok(Value::Tuple(a2))
            } else {
                Err(concat3("Cannot perform operation ", op.as_str(), " on a tuples."))
            }
        },
        (Value::Tuple(t), v) => {
            proof {
                lemma_tuple_model(t);
            }
            if str_is(op, "+") {
                let mut t2 = t;
                t2.push(v);
                proof {
                    lemma_tuple_model(t2);
                    assert(values_model(t2@) =~= values_model(t@).push(rm));
                }
                Ok(Value::Tuple(t2))
            } else {
                Err(String::from_str("Cannot perform operation on a tuple and value."))
            }
        },
        (Value::NoneValue, Value::NoneValue) => {
            if str_is(op, "==") || str_is(op, ">=") || str_is(op, "<=") {
                Ok(Value::Bool(true))
            } else if str_is(op, "!=") || str_is(op, ">") || str_is(op, "<") {
                Ok(Value::Bool(false))
            } else {
                Err(String::from_str("Cannot perform operation on two 'None' values."))
            }
        },
        _ => Err(String::from_str("Type mismatch in binary operation")),
    }
}

/// Whether the condition `v` holds (see [`spec_truth`]).
pub fn truth<H: Host>(v: &Value, host: &H, log: &mut HostLog) -> (r: Result<bool, String>)
    ensures
        extends(final(log).answers(), old(log).answers()),
        forall|o: Oracle|
            agrees(o, final(log).answers()) ==> spec_truth(v.model(), o, old(log).answers().len()) == (
                match r {
                    Ok(b) => Ok(b),
                    Err(m) => Err(m@),
                },
                final(log).answers().len(),
            ),
{
    match v {
        Value::Function { .. } => Err(
            String::from_str("Cannot evaluate truthyness of an anonymous function"),
        ),
        Value::Number(n) => Ok(!log.compare(host, Comparison::Eq, *n, 0)),
        Value::Bool(b) => Ok(*b),
        Value::NoneValue => Ok(false),
        Value::String(_) => Err(String::from_str("Cannot evaluate truthyness of a String")),
        Value::Module(_) => Err(String::from_str("Cannot evaluate truthyness of a Module")),
        Value::RecurSignal(_) => Err(String::from_str("Cannot evaluate truthyness of a Recur Signal")),
        Value::Tuple(_) => Err(String::from_str("Cannot evaluate truthyness of a Tuple")),
    }
}

/// `{:?}` of an access step.
pub fn access_debug_text(a: &Access) -> (r: String)
    ensures
        r@ == access_debug(a.model()),
{
    match a {
        Access::Name(n) => {
            let d = debug_string(n);
            concat3("Name(", d.as_str(), ")")
        },
        Access::Index(i) => {
            let d = usize_text(*i);
            concat3("Index(", d.as_str(), ")")
        },
    }
}

/// `{}` of an access step.
pub fn access_display(a: &Access) -> (r: String)
    ensures
        r@ == access_text(a.model()),
{
    match a {
        Access::Name(n) => n.clone(),
        Access::Index(i) => usize_text(*i),
    }
}

/// Follows `path[i..]` from `cur` (see [`spec_member`]).
pub fn member_access<H: Host>(st: &mut State, env: usize, cur: Value, path: &Vec<Access>, i: usize, host: &H) -> (r:
    Result<Value, String>)
    requires
        i <= path@.len(),
    ensures
        final(st).envs == old(st).envs,
        final(st).output == old(st).output,
        final(st).fuel == old(st).fuel,
        extends(final(st).log.answers(), old(st).log.answers()),
        forall|o: Oracle|
            agrees(o, final(st).log.answers()) ==> spec_member(
                old(st).model().envs,
                env as int,
                cur.model(),
                accesses_model(path@),
                i as int,
                o,
                old(st).log.answers().len(),
            ) == (res_model(r), final(st).log.answers().len()),
    decreases path@.len() - i,
{
    if i >= path.len() {
        return Ok(cur);
    }
    let ghost pm = accesses_model(path@);
    assert(pm[i as int] == path@[i as int].model());
    match (cur, &path[i]) {
        (Value::Module(b), Access::Name(n)) => {
            match b.find(n) {
                Some(j) => {
                    proof {
                        lemma_bind_find(b.model(), n@);
                        assert(b.model()[j as int].1 == b.entries@[j as int].1.model());
                    }
                    let mut b2 = b;
                    let (_, v) = b2.entries.remove(j);
                    member_access(st, env, v, path, i + 1, host)
                },
                None => Err(concat2("No member ", n.as_str())),
            }
        },
        (Value::Tuple(es), Access::Index(k)) => {
            proof {
                lemma_tuple_model(es);
            }
            if *k < es.len() {
                let mut es2 = es;
                let v = es2.remove(*k);
                assert(values_model(es@)[*k as int] == v.model());
                member_access(st, env, v, path, i + 1, host)
            } else {
                Err(concat3("Index ", usize_text(*k).as_str(), " out of bounds"))
            }
        },
        (Value::Tuple(es), Access::Name(n)) => {
            proof {
                lemma_tuple_model(es);
            }
            match st.get(env, n) {
                None => Err(concat2("No identifier ", n.as_str())),
                Some(Value::Number(x)) => {
                    let k = st.log.to_index(host, x);
                    if k < es.len() {
                        let mut es2 = es;
                        let v = es2.remove(k);
                        assert(values_model(es@)[k as int] == v.model());
                        Ok(v)
                    } else {
                        Err(concat3("Index ", usize_text(k).as_str(), " out of bounds"))
                    }
                },
                Some(_) => Err(concat3("Identifier ", n.as_str(), " is not a number")),
            }
        },
        (a, b) => {
            let d = st.log.describe_value(host, &a);
            let ds = access_debug_text(b);
            let mut m = String::from_str("Invalid member access sequence, ");
            m.append(d.as_str());
            m.append(", ");
            m.append(ds.as_str());
            Err(m)
        },
    }
}

/// `cur` with the part at `path[i..]` replaced by `new_val` (see
/// [`spec_update`]); `vars` are the bindings of the assigning scope.
/// It writes no diagnostic output.
pub fn update_nested_value<H: Host>(
    vars: &Bindings,
    cur: Value,
    path: &Vec<Access>,
    i: usize,
    new_val: Value,
    host: &H,
    log: &mut HostLog,
) -> (r: Result<Value, String>)
    requires
        i <= path@.len(),
    ensures
        extends(final(log).answers(), old(log).answers()),
        forall|o: Oracle|
            agrees(o, final(log).answers()) ==> spec_update(
                vars.model(),
                cur.model(),
                accesses_model(path@),
                i as int,
                new_val.model(),
                o,
                old(log).answers().len(),
            ) == (res_model(r), final(log).answers().len()),
    decreases path@.len() - i,
{
    if i >= path.len() {
        return Ok(new_val);
    }
    let ghost pm = accesses_model(path@);
    let ghost nvm = new_val.model();
    let ghost l0 = log.answers();
    assert(pm[i as int] == path@[i as int].model());
    match (cur, &path[i]) {
        (Value::Tuple(es), Access::Index(k)) => {
            proof {
                lemma_tuple_model(es);
            }
            if *k < es.len() {
                let mut es2 = es;
                let v = es2.remove(*k);
                assert(values_model(es@)[*k as int] == v.model());
                match update_nested_value(vars, v, path, i + 1, new_val, host, log) {
                    Ok(nv) => {
                        let ghost nvm2 = nv.model();
                        es2.insert(*k, nv);
                        proof {
                            lemma_tuple_model(es2);
                            assert(values_model(es2@) =~= values_model(es@).update(*k as int, nvm2));
                        }
                        Ok(Value::Tuple(es2))
                    },
                    Err(m) => Err(m),
                }
            } else {
                Err(String::from_str("Index out of bounds"))
            }
        },
        (Value::Module(b), Access::Name(n)) => {
            match b.find(n) {
                Some(j) => {
                    proof {
                        lemma_bind_find(b.model(), n@);
                        assert(b.model()[j as int].1 == b.entries@[j as int].1.model());
                    }
                    let mut b2 = b;
                    let (key, v) = b2.entries.remove(j);
                    let ghost keym = key@;
                    match update_nested_value(vars, v, path, i + 1, new_val, host, log) {
                        Ok(nv) => {
                            let ghost nvm2 = nv.model();
                            b2.entries.insert(j, (key, nv));
                            proof {
                                assert(b2.model() =~= b.model().update(j as int, (b.model()[j as int].0, nvm2)));
                            }
                            Ok(Value::Module(b2))
                        },
                        Err(m) => Err(m),
                    }
                },
                None => Err(String::from_str("Member not found")),
            }
        },
        (Value::Tuple(es), Access::Name(n)) => {
            proof {
                lemma_tuple_model(es);
            }
            match vars.get(n) {
                None => Err(String::from_str("Access variable not in scope.")),
                Some(Value::Number(x)) => {
                    let k = log.to_index(host, x);
                    if k < es.len() {
                        let mut es2 = es;
                        let v = es2.remove(k);
                        assert(values_model(es@)[k as int] == v.model());
                        let ghost l1 = log.answers();
                        match update_nested_value(vars, v, path, i + 1, new_val, host, log) {
                            Ok(nv) => {
                                let ghost nvm2 = nv.model();
                                es2.insert(k, nv);
                                proof {
                                    lemma_tuple_model(es2);
                                    assert(values_model(es2@) =~= values_model(es@).update(k as int, nvm2));
                                    lemma_extends_trans(log.answers(), l1, l0);
                                    assert forall|o: Oracle| agrees(o, log.answers()) implies spec_update(
                                        vars.model(),
                                        SpecValue::Tuple(values_model(es@)),
                                        pm,
                                        i as int,
                                        nvm,
                                        o,
                                        l0.len(),
                                    ) == (Ok::<SpecValue, Seq<char>>(SpecValue::Tuple(values_model(es2@))), log.answers().len()) by {
                                        lemma_agrees_prefix(o, l1, log.answers());
                                        assert(o(l0.len()) == Answer::Index(x, k));
                                    }
                                }
                                Ok(Value::Tuple(es2))
                            },
                            Err(m) => {
                                proof {
                                    lemma_extends_trans(log.answers(), l1, l0);
                                    assert forall|o: Oracle| agrees(o, log.answers()) implies spec_update(
                                        vars.model(),
                                        SpecValue::Tuple(values_model(es@)),
                                        pm,
                                        i as int,
                                        nvm,
                                        o,
                                        l0.len(),
                                    ) == (Err::<SpecValue, Seq<char>>(m@), log.answers().len()) by {
                                        lemma_agrees_prefix(o, l1, log.answers());
                                        assert(o(l0.len()) == Answer::Index(x, k));
                                    }
                                }
                                Err(m)
                            },
                        }
                    } else {
                        Err(String::from_str("Index out of bounds"))
                    }
                },
                Some(_) => Err(String::from_str("Invalid variable type for tuple access")),
            }
        },
        _ => Err(String::from_str("Invalid path for assignment")),
    }
}

/// Places `exports` as a module at `parts[i..]` in `b` (see
/// [`spec_inject`]).
pub fn inject_into(b: &mut Bindings, parts: &Vec<String>, i: usize, exports: Bindings)
    requires
        i <= parts@.len(),
    ensures
        final(b).model() == spec_inject(old(b).model(), strings_view(parts@), i as int, exports.model()),
    decreases parts@.len() - i,
{
    let ghost pv = strings_view(parts@);
    if i >= parts.len() {
        return;
    }
    assert(pv[i as int] == parts@[i as int]@);
    if i + 1 == parts.len() {
        b.insert(parts[i].clone(), Value::Module(exports));
        return;
    }
    if b.find(&parts[i]).is_none() {
        b.insert(parts[i].clone(), Value::Module(Bindings::new()));
    }
    let ghost b1 = b.model();
    proof {
        lemma_bind_find(b1, pv[i as int]);
    }
    match b.find(&parts[i]) {
        Some(j) => {
            assert(b1[j as int].1 == b.entries@[j as int].1.model());
            let (key, v) = b.entries.remove(j);
            match v {
                Value::Module(sub) => {
                    let mut sub2 = sub;
                    inject_into(&mut sub2, parts, i + 1, exports);
                    let ghost sm = sub2.model();
                    b.entries.insert(j, (key, Value::Module(sub2)));
                    proof {
                        assert(b.model() =~= b1.update(j as int, (pv[i as int], SpecValue::Module(sm))));
                    }
                },
                other => {
                    b.entries.insert(j, (key, other));
                    proof {
                        assert(b.model() =~= b1);
                    }
                },
            }
        },
        None => {},
    }
}

} // verus!
