//! Evaluation at the smaller stages of the language, beside the complete evaluator: the
//! environment stage (symbols, `def!`, `let*` and calls of core functions), and `let*` as
//! the stage that adds `if`, `fn*` and `do` checks it. Both check the number of arguments
//! of `def!` and `let*` exactly, and refuse a `let*` binding list of odd length.
use vstd::prelude::*;
use crate::env::Env;
use crate::eval::{builtin_spec, call_builtin, depth_err, depth_fault, eval, eval_spec, let_binds, let_binds_spec, opt_fault, MAX_STEPS};
use crate::namespace::{ev, eval_err, items_of, seq_items};
use crate::runtime::{env_get, env_set, next_env, push_frame, trace, RtView, Runtime};
use crate::text::{format_u64, int_text, owned, push_str, str_is};
use crate::types::{entry_views, group_views, lemma_view_shape, new_hashmap, new_vector, res_view, seq_res_view, views, Fault, MalError, MalResult, MalType, Val};

verus! {

broadcast use group_views;

/// The error of a `def!` or `let*` (named in `head`, the message's start) given `n`
/// arguments in place of two.
pub open spec fn arity_fault(head: Seq<char>, n: int) -> Fault {
    Fault::Eval(head + int_text(n))
}

/// The result and final state of evaluating `ast` in `env` from state `s` at the
/// environment stage, each nested evaluation at most `d` deep: after tracing, a symbol is
/// looked up; a list is `def!`, `let*` or a call; the items of a vector and the values of a
/// hash-map are evaluated; anything else is its own value.
pub open spec fn step3_spec(ast: Val, env: Env, s: RtView, d: nat) -> (Result<Val, Fault>, RtView)
    decreases d, 0int,
{
    if d == 0 {
        (Err(depth_fault()), s)
    } else {
        let s1 = trace(ast, env, s);
        let d1 = (d - 1) as nat;
        match ast {
            Val::Symbol(sym) => (env_get(s1, env, sym), s1),
            Val::List(l, _) => if l.len() == 0 {
                (Ok(ast), s1)
            } else if l[0] == Val::Symbol("def!"@) {
                def3_spec(l, env, s1, d1)
            } else if l[0] == Val::Symbol("let*"@) {
                let3_spec(l, env, s1, d1)
            } else {
                apply3_spec(l, env, s1, d1)
            },
            Val::Vector(items, _) => match items3_spec(items, 0, Seq::empty(), env, s1, d1) {
                (Ok(vs), s2) => (Ok(Val::Vector(vs, None)), s2),
                (Err(f), s2) => (Err(f), s2),
            },
            Val::HashMap(e, _) => match entries3_spec(e, 0, Seq::empty(), env, s1, d1) {
                (Ok(es), s2) => (Ok(Val::HashMap(es, None)), s2),
                (Err(f), s2) => (Err(f), s2),
            },
            _ => (Ok(ast), s1),
        }
    }
}

/// `(def! key form)` at the environment stage: exactly two arguments; the value of `form`
/// is bound to the symbol `key` in `env` and is the result.
pub open spec fn def3_spec(l: Seq<Val>, env: Env, s: RtView, d: nat) -> (Result<Val, Fault>, RtView)
    decreases d, 0int,
{
    if d == 0 {
        (Err(depth_fault()), s)
    } else if l.len() != 3 {
        (Err(arity_fault("'def!' expected 2 args, got "@, l.len() - 1)), s)
    } else {
        match l[1] {
            Val::Symbol(key) => {
                let (r, s1) = step3_spec(l[2], env, s, (d - 1) as nat);
                match r {
                    Err(f) => (Err(f), s1),
                    Ok(v) => {
                        let s2 = env_set(s1, env, key, v);
                        (env_get(s2, env, key), s2)
                    },
                }
            },
            _ => (ev("1st arg to 'def!' must be symbol"@), s),
        }
    }
}

/// `(let* bindings body)` at the environment stage: exactly two arguments; the bindings, a
/// list or vector of even length, are evaluated in order in a new frame, in which the body
/// is then evaluated.
pub open spec fn let3_spec(l: Seq<Val>, env: Env, s: RtView, d: nat) -> (Result<Val, Fault>, RtView)
    decreases d, 0int,
{
    if d == 0 {
        (Err(depth_fault()), s)
    } else if l.len() != 3 {
        (Err(arity_fault("'let*' expected 2 args, got "@, l.len() - 1)), s)
    } else {
        match seq_items(l[1]) {
            None => (ev("1st arg to 'let*' must be list"@), s),
            Some(b) => if b.len() % 2 == 1 {
                (ev("odd number of args in 'let*' binding"@), s)
            } else {
                let e = next_env(s);
                match binds3_spec(b, 0, e, push_frame(s, Some(env)), (d - 1) as nat) {
                    (None, s2) => step3_spec(l[2], e, s2, (d - 1) as nat),
                    (Some(f), s2) => (Err(f), s2),
                }
            },
        }
    }
}

/// The bindings of a `let*` at the environment stage from position `i` on: each key, which
/// must be a symbol, is bound in frame `e` to the value of the form after it.
pub open spec fn binds3_spec(b: Seq<Val>, i: nat, e: Env, s: RtView, d: nat) -> (Option<Fault>, RtView)
    decreases d, b.len() - i,
{
    if d == 0 {
        (Some(depth_fault()), s)
    } else if i + 1 >= b.len() {
        (None, s)
    } else {
        match b[i as int] {
            Val::Symbol(k) => {
                let (r, s1) = step3_spec(b[i + 1 as int], e, s, (d - 1) as nat);
                match r {
                    Ok(v) => binds3_spec(b, i + 2, e, env_set(s1, e, k, v), d),
                    Err(f) => (Some(f), s1),
                }
            },
            _ => (Some(Fault::Eval("key in 'let*' is not symbol"@)), s),
        }
    }
}

/// A call at the environment stage: the first item is evaluated and must be a function of
/// the core namespace, which is then called with the values of the other items.
pub open spec fn apply3_spec(l: Seq<Val>, env: Env, s: RtView, d: nat) -> (Result<Val, Fault>, RtView)
    decreases d, 0int,
{
    if d == 0 {
        (Err(depth_fault()), s)
    } else {
        let d1 = (d - 1) as nat;
        let (r, s1) = step3_spec(l[0], env, s, d1);
        match r {
            Err(f) => (Err(f), s1),
            Ok(func) => match func {
                Val::BuiltinFunc(b, _) => match items3_spec(l, 1, Seq::empty(), env, s1, d1) {
                    (Ok(args), s2) => builtin_spec(b, args, s2, d1),
                    (Err(f), s2) => (Err(f), s2),
                },
                _ => (ev("1st lsit item not callable"@), s1),
            },
        }
    }
}

/// The values at the environment stage of the forms from position `i` on, in order, after
/// `acc`.
pub open spec fn items3_spec(items: Seq<Val>, i: nat, acc: Seq<Val>, env: Env, s: RtView, d: nat) -> (Result<Seq<Val>, Fault>, RtView)
    decreases d, items.len() - i,
{
    if d == 0 {
        (Err(depth_fault()), s)
    } else if i >= items.len() {
        (Ok(acc), s)
    } else {
        let (r, s1) = step3_spec(items[i as int], env, s, (d - 1) as nat);
        match r {
            Ok(v) => items3_spec(items, i + 1, acc.push(v), env, s1, d),
            Err(f) => (Err(f), s1),
        }
    }
}

/// The hash-map entries from position `i` on with their values evaluated at the
/// environment stage, after `acc`.
pub open spec fn entries3_spec(es: Seq<(Seq<char>, Val)>, i: nat, acc: Seq<(Seq<char>, Val)>, env: Env, s: RtView, d: nat) -> (Result<Seq<(Seq<char>, Val)>, Fault>, RtView)
    decreases d, es.len() - i,
{
    if d == 0 {
        (Err(depth_fault()), s)
    } else if i >= es.len() {
        (Ok(acc), s)
    } else {
        let (r, s1) = step3_spec(es[i as int].1, env, s, (d - 1) as nat);
        match r {
            Ok(v) => entries3_spec(es, i + 1, acc.push((es[i as int].0, v)), env, s1, d),
            Err(f) => (Err(f), s1),
        }
    }
}

/// `(let* bindings body)` with the checks of the stage that adds `if`, `fn*` and `do`:
/// exactly two arguments, and bindings of even length, which are evaluated in order in a new
/// frame; the body is then evaluated in it. Values and body are evaluated by [`eval`].
pub open spec fn let_step4_spec(l: Seq<Val>, env: Env, s: RtView, d: nat) -> (Result<Val, Fault>, RtView) {
    if l.len() != 3 {
        (Err(arity_fault("'let*' expected 2 args, got "@, l.len() - 1)), s)
    } else {
        match seq_items(l[1]) {
            None => (ev("1st arg to 'let*' must be list"@), s),
            Some(b) => if b.len() % 2 == 1 {
                (ev("odd number of args in 'let*' binding"@), s)
            } else {
                let e = next_env(s);
                match let_binds_spec(b, 0, e, push_frame(s, Some(env)), d) {
                    (None, s2) => eval_spec(l[2], e, s2, d, MAX_STEPS as nat),
                    (Some(f), s2) => (Err(f), s2),
                }
            },
        }
    }
}

/// The error of a `def!` or `let*` given `l.len() - 1` arguments in place of two.
fn arity_err(head: &str, l: &Vec<MalType>) -> (e: MalError)
    requires
        l@.len() >= 1,
    ensures
        e@ == arity_fault(head@, l@.len() - 1),
{
    let n = l.len() - 1;
    let count = format_u64(n as u64);
    let mut msg = owned(head);
    push_str(&mut msg, count.as_str());
    MalError::EvalError(msg)
}

/// Whether a form is the symbol `name`.
fn is_symbol_named(v: &MalType, name: &str) -> (r: bool)
    ensures
        r == (v@ == Val::Symbol(name@)),
{
    proof { lemma_view_shape(v); }
    match v {
        MalType::Symbol(s) => str_is(s.as_str(), name),
        _ => false,
    }
}

/// Evaluates `ast` in `env` at the environment stage; see [`step3_spec`].
pub fn eval_step3(rt: &mut Runtime, ast: MalType, env: Env, d: u64) -> (r: MalResult)
    ensures
        (res_view(r), final(rt)@) == step3_spec(ast@, env, old(rt)@, d as nat),
    decreases d,
{
    if d == 0 {
        return Err(depth_err());
    }
    rt.trace(&ast, env);
    proof { lemma_view_shape(&ast); }
    let d1 = d - 1;
    match ast {
        MalType::Symbol(sym) => rt.env_get(env, sym.as_str()),
        MalType::List(l, m) => {
            if l.len() == 0 {
                return Ok(MalType::List(l, m));
            }
            if is_symbol_named(&l[0], "def!") {
                def3(rt, &l, env, d1)
            } else if is_symbol_named(&l[0], "let*") {
                let3(rt, &l, env, d1)
            } else {
                apply3(rt, &l, env, d1)
            }
        },
        MalType::Vector(items, _) => match items3(rt, &items, 0, env, d1) {
            Ok(vs) => Ok(new_vector(vs)),
            Err(e) => Err(e),
        },
        MalType::HashMap(es, _) => match entries3(rt, &es, env, d1) {
            Ok(vs) => Ok(new_hashmap(vs)),
            Err(e) => Err(e),
        },
        other => Ok(other),
    }
}

fn def3(rt: &mut Runtime, l: &Vec<MalType>, env: Env, d: u64) -> (r: MalResult)
    requires
        l@.len() >= 1,
    ensures
        (res_view(r), final(rt)@) == def3_spec(views(l@), env, old(rt)@, d as nat),
    decreases d,
{
    if d == 0 {
        return Err(depth_err());
    }
    if l.len() != 3 {
        return Err(arity_err("'def!' expected 2 args, got ", l));
    }
    proof { lemma_view_shape(&l@[1]); }
    match &l[1] {
        MalType::Symbol(key) => {
            let v = eval_step3(rt, l[2].deep_clone(), env, d - 1)?;
            rt.env_set(env, key.clone(), v);
            rt.env_get(env, key.as_str())
        },
        _ => Err(eval_err("1st arg to 'def!' must be symbol")),
    }
}

fn let3(rt: &mut Runtime, l: &Vec<MalType>, env: Env, d: u64) -> (r: MalResult)
    requires
        l@.len() >= 1,
    ensures
        (res_view(r), final(rt)@) == let3_spec(views(l@), env, old(rt)@, d as nat),
    decreases d,
{
    if d == 0 {
        return Err(depth_err());
    }
    if l.len() != 3 {
        return Err(arity_err("'let*' expected 2 args, got ", l));
    }
    match items_of(&l[1]) {
        None => Err(eval_err("1st arg to 'let*' must be list")),
        Some(binds) => {
            if binds.len() % 2 == 1 {
                return Err(eval_err("odd number of args in 'let*' binding"));
            }
            let e = rt.push_frame(Some(env));
            match binds3(rt, binds, e, d - 1) {
                None => eval_step3(rt, l[2].deep_clone(), e, d - 1),
                Some(f) => Err(f),
            }
        },
    }
}

fn binds3(rt: &mut Runtime, b: &Vec<MalType>, e: Env, d: u64) -> (r: Option<MalError>)
    ensures
        (opt_fault(r), final(rt)@) == binds3_spec(views(b@), 0, e, old(rt)@, d as nat),
    decreases d,
{
    if d == 0 {
        return Some(depth_err());
    }
    let ghost s0 = rt@;
    let ghost bs = views(b@);
    let mut i: usize = 0;
    while i < b.len() && b.len() - i >= 2
        invariant
            d > 0,
            s0 == old(rt)@,
            i <= b@.len(),
            bs == views(b@),
            binds3_spec(bs, 0, e, s0, d as nat) == binds3_spec(bs, i as nat, e, rt@, d as nat),
        decreases b.len() - i,
    {
        proof { lemma_view_shape(&b@[i as int]); }
        match &b[i] {
            MalType::Symbol(k) => {
                match eval_step3(rt, b[i + 1].deep_clone(), e, d - 1) {
                    Ok(v) => {
                        rt.env_set(e, k.clone(), v);
                    },
                    Err(f) => {
                        return Some(f);
                    },
                }
            },
            _ => {
                return Some(eval_err("key in 'let*' is not symbol"));
            },
        }
        i = i + 2;
    }
    None
}

fn apply3(rt: &mut Runtime, l: &Vec<MalType>, env: Env, d: u64) -> (r: MalResult)
    requires
        l@.len() >= 1,
    ensures
        (res_view(r), final(rt)@) == apply3_spec(views(l@), env, old(rt)@, d as nat),
    decreases d,
{
    if d == 0 {
        return Err(depth_err());
    }
    let func = eval_step3(rt, l[0].deep_clone(), env, d - 1)?;
    proof { lemma_view_shape(&func); }
    match func {
        MalType::BuiltinFunc(b, _) => {
            let args = items3(rt, l, 1, env, d - 1)?;
            call_builtin(rt, b, args, d - 1)
        },
        _ => Err(eval_err("1st lsit item not callable")),
    }
}

fn items3(rt: &mut Runtime, items: &Vec<MalType>, start: usize, env: Env, d: u64) -> (r: Result<Vec<MalType>, MalError>)
    ensures
        (seq_res_view(r), final(rt)@) == items3_spec(views(items@), start as nat, Seq::empty(), env, old(rt)@, d as nat),
    decreases d,
{
    if d == 0 {
        return Err(depth_err());
    }
    let ghost s0 = rt@;
    let ghost it = views(items@);
    let mut out: Vec<MalType> = Vec::new();
    let mut i: usize = start;
    assert(views(out@) =~= Seq::<Val>::empty());
    while i < items.len()
        invariant
            d > 0,
            s0 == old(rt)@,
            it == views(items@),
            items3_spec(it, start as nat, Seq::empty(), env, s0, d as nat)
                == items3_spec(it, i as nat, views(out@), env, rt@, d as nat),
        decreases items.len() - i,
    {
        match eval_step3(rt, items[i].deep_clone(), env, d - 1) {
            Ok(v) => {
                let ghost prev = out@;
                let ghost vv = v@;
                out.push(v);
                assert(views(out@) =~= views(prev).push(vv));
            },
            Err(e) => {
                return Err(e);
            },
        }
        i = i + 1;
    }
    Ok(out)
}

fn entries3(rt: &mut Runtime, es: &Vec<(String, MalType)>, env: Env, d: u64) -> (r: Result<Vec<(String, MalType)>, MalError>)
    ensures
        match entries3_spec(entry_views(es@), 0, Seq::empty(), env, old(rt)@, d as nat) {
            (Ok(x), s1) => r matches Ok(v) && entry_views(v@) == x && final(rt)@ == s1,
            (Err(f), s1) => r matches Err(e) && e@ == f && final(rt)@ == s1,
        },
    decreases d,
{
    if d == 0 {
        return Err(depth_err());
    }
    let ghost s0 = rt@;
    let ghost it = entry_views(es@);
    let mut out: Vec<(String, MalType)> = Vec::new();
    let mut i: usize = 0;
    assert(entry_views(out@) =~= Seq::<(Seq<char>, Val)>::empty());
    while i < es.len()
        invariant
            d > 0,
            s0 == old(rt)@,
            it == entry_views(es@),
            entries3_spec(it, 0, Seq::empty(), env, s0, d as nat)
                == entries3_spec(it, i as nat, entry_views(out@), env, rt@, d as nat),
        decreases es.len() - i,
    {
        match eval_step3(rt, es[i].1.deep_clone(), env, d - 1) {
            Ok(v) => {
                let ghost prev = out@;
                let k = es[i].0.clone();
                let ghost pair = (k@, v@);
                out.push((k, v));
                assert(entry_views(out@) =~= entry_views(prev).push(pair));
            },
            Err(e) => {
                return Err(e);
            },
        }
        i = i + 1;
    }
    Ok(out)
}

/// Evaluates `(let* bindings body)`, given as its items `l`, with the checks of the stage
/// that adds `if`, `fn*` and `do`; see [`let_step4_spec`].
pub fn eval_let_step4(rt: &mut Runtime, l: &Vec<MalType>, env: Env, d: u64) -> (r: MalResult)
    requires
        l@.len() >= 1,
    ensures
        (res_view(r), final(rt)@) == let_step4_spec(views(l@), env, old(rt)@, d as nat),
{
    if l.len() != 3 {
        return Err(arity_err("'let*' expected 2 args, got ", l));
    }
    match items_of(&l[1]) {
        None => Err(eval_err("1st arg to 'let*' must be list")),
        Some(binds) => {
            if binds.len() % 2 == 1 {
                return Err(eval_err("odd number of args in 'let*' binding"));
            }
            let e = rt.push_frame(Some(env));
            match let_binds(rt, binds, e, d) {
                None => eval(rt, l[2].deep_clone(), e, d),
                Some(f) => Err(f),
            }
        },
    }
}

} // verus!
