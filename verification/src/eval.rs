//! Evaluation: special forms, function application with tail calls, macros and exceptions,
//! and the functions of the core namespace that evaluate. Its meaning is given by
//! [`eval_spec`] and the functions it calls, over the model of the runtime's state.
use vstd::prelude::*;
use crate::env::{lookup, Env, FrameView};
use crate::namespace::{
    arithmetic_spec, assoc_spec, concat_items, concat_spec, conj_spec, cons_spec, contains_spec, count_spec, dissoc_spec,
    eq_spec, ev, eval_err, first_spec, get_spec, is_atom_spec, is_empty_spec, is_false_spec, is_fn_spec,
    is_keyword_spec, is_list_spec, is_macro_spec, is_map_spec, is_nil_spec, is_number_spec,
    is_sequential_spec, is_string_spec, is_symbol_spec, is_true_spec, is_vector_spec, items_of,
    keys_spec, keyword_spec, list_spec, meta_spec, nth_spec, numeric_compare_spec, parse_as_eval,
    read_string_spec, rest_spec, seq_items, seq_spec, symbol_spec, throw_spec, vals_spec, vec_spec,
    vector_spec, withmeta_spec, ArithOp, Comparison, arithmetic, assoc, concat, conj, cons, contains,
    count, dissoc, eq, first, get, hashmap, is_atom, is_empty, is_false, is_fn, is_keyword, is_list,
    is_macro, is_map, is_nil, is_number, is_sequential, is_string, is_symbol, is_true, is_vector, keys,
    keyword, list, meta, nth, numeric_compare, read_string, rest, symbol, throw, vals, vector,
    withmeta,
};
use crate::reader::read_map_spec;
use crate::runtime::{
    atom_set, atom_spec, deref_spec, env_get, env_set, new_frame, next_env, println_spec, prn_spec,
    prstr_spec, push_frame, readline_spec, reset_spec, slurp_spec, str_spec, timems_spec, trace, RtView,
    Runtime, grows, lemma_grows_refl, lemma_grows_trans, lemma_new_frame_grows, lemma_small_steps_grow,
    lemma_stateful_builtins_grow, lemma_trace_grows,
};
use crate::text::{owned, str_is};
use crate::assoc::assoc_insert;
use crate::types::{as_macro, fault_value, group_views, lemma_view_shape, list_with_sym, new_list, res_view, seq_res_view, truthy, views, Builtin, Fault, MalError, MalResult, MalType, Val};

verus! {

broadcast use group_views;

/// How many tail steps one evaluation may take before it gives up.
pub const MAX_STEPS: u64 = 0xffff_ffff_ffff_ffff;

/// The error of an evaluation nested too deep.
pub open spec fn depth_fault() -> Fault {
    Fault::Eval("maximum evaluation depth exceeded"@)
}

/// The error of an evaluation that took too many steps.
pub open spec fn steps_fault() -> Fault {
    Fault::Eval("evaluation step limit reached"@)
}

pub(crate) fn depth_err() -> (e: MalError)
    ensures
        e@ == depth_fault(),
{
    eval_err("maximum evaluation depth exceeded")
}

/// The top-level environment.
pub open spec fn root_env() -> Env {
    Env { id: 0 }
}

/// What one step of evaluation gives: a result, or a form to evaluate next in an environment.
pub enum Step {
    Done(MalResult),
    Next(MalType, Env),
}

/// The model of a [`Step`].
pub enum StepV {
    Done(Result<Val, Fault>),
    Next(Val, Env),
}

impl Step {
    pub open spec fn view(&self) -> StepV {
        match self {
            Step::Done(r) => StepV::Done(res_view(*r)),
            Step::Next(a, e) => StepV::Next(a@, *e),
        }
    }
}

/// A final result, with the state.
pub open spec fn done(p: (Result<Val, Fault>, RtView)) -> (StepV, RtView) {
    (StepV::Done(p.0), p.1)
}

/// The forms that a list can be, by its first item.
pub enum Form {
    Def,
    Let,
    Do,
    If,
    Fn,
    Quote,
    Quasiquote,
    Defmacro,
    Try,
    Apply,
}

/// The form of a list whose first item is `head`.
pub open spec fn form_of(head: Val) -> Form {
    match head {
        Val::Symbol(h) => if h == "def!"@ {
            Form::Def
        } else if h == "let*"@ {
            Form::Let
        } else if h == "do"@ {
            Form::Do
        } else if h == "if"@ {
            Form::If
        } else if h == "fn*"@ {
            Form::Fn
        } else if h == "quote"@ {
            Form::Quote
        } else if h == "quasiquote"@ {
            Form::Quasiquote
        } else if h == "defmacro!"@ {
            Form::Defmacro
        } else if h == "try*"@ {
            Form::Try
        } else {
            Form::Apply
        },
        _ => Form::Apply,
    }
}

fn head_form(head: &MalType) -> (f: Form)
    ensures
        f == form_of(head@),
{
    proof { lemma_view_shape(head); }
    match head {
        MalType::Symbol(h) => {
            let h = h.as_str();
            if str_is(h, "def!") {
                Form::Def
            } else if str_is(h, "let*") {
                Form::Let
            } else if str_is(h, "do") {
                Form::Do
            } else if str_is(h, "if") {
                Form::If
            } else if str_is(h, "fn*") {
                Form::Fn
            } else if str_is(h, "quote") {
                Form::Quote
            } else if str_is(h, "quasiquote") {
                Form::Quasiquote
            } else if str_is(h, "defmacro!") {
                Form::Defmacro
            } else if str_is(h, "try*") {
                Form::Try
            } else {
                Form::Apply
            }
        },
        _ => Form::Apply,
    }
}

/// The model of `(fn* params body)`: a function that captures the environment.
pub open spec fn fn_spec(l: Seq<Val>, env: Env) -> Result<Val, Fault> {
    if l.len() < 3 {
        ev("too few args to 'fn*"@)
    } else {
        match seq_items(l[1]) {
            Some(binds) => Ok(Val::Lambda { params: binds, body: Box::new(l[2]), capt_env: env, is_macro: false, meta: None }),
            None => ev("1st arg to 'fn*' must be list/vector"@),
        }
    }
}

/// `(fn* params body)`
pub fn eval_fn(l: &Vec<MalType>, env: Env) -> (r: MalResult)
    ensures
        res_view(r) == fn_spec(views(l@), env),
{
    if l.len() < 3 {
        return Err(eval_err("too few args to 'fn*"));
    }
    match items_of(&l[1]) {
        Some(binds) => {
            let params = crate::types::clone_values(binds);
            let body = Box::new(l[2].deep_clone());
            proof { crate::types::lemma_meta_none(); }
            Ok(MalType::Lambda { params, body, capt_env: env, is_macro: false, meta: None })
        },
        None => Err(eval_err("1st arg to 'fn*' must be list/vector")),
    }
}

/// The model of `(quote x)`.
pub open spec fn quote_spec(l: Seq<Val>) -> Result<Val, Fault> {
    if l.len() < 2 { ev("too few args to 'quote'"@) } else { Ok(l[1]) }
}

/// The expansion of a quasiquoted form: unquoted parts are evaluated, spliced parts are
/// concatenated, and the rest is quoted.
pub open spec fn qq_spec(ast: Val) -> Result<Val, Fault>
    decreases ast, 0int,
{
    match ast {
        Val::List(l, _) => if list_with_sym(ast, "unquote"@) {
            if l.len() < 2 { ev("too few args too 'unquote'"@) } else { Ok(l[1]) }
        } else {
            qq_fold(l, 0)
        },
        Val::Vector(l, _) => match qq_fold(l, 0) {
            Ok(r) => Ok(Val::List(seq![Val::Symbol("vec"@), r], None)),
            Err(f) => Err(f),
        },
        Val::HashMap(..) => Ok(Val::List(seq![Val::Symbol("quote"@), ast], None)),
        Val::Symbol(_) => Ok(Val::List(seq![Val::Symbol("quote"@), ast], None)),
        _ => Ok(ast),
    }
}

/// The expansion of the items of a quasiquoted list from position `i` on.
pub open spec fn qq_fold(l: Seq<Val>, i: int) -> Result<Val, Fault>
    decreases l, l.len() - i,
{
    if i < 0 || i >= l.len() {
        Ok(Val::List(Seq::empty(), None))
    } else {
        match qq_fold(l, i + 1) {
            Err(f) => Err(f),
            Ok(rest) => qq_item(l[i], rest),
        }
    }
}

/// The expansion of one item `e` before the expansion `rest` of the items after it.
pub open spec fn qq_item(e: Val, rest: Val) -> Result<Val, Fault>
    decreases e, 1int,
{
    if list_with_sym(e, "splice-unquote"@) {
        if e->List_0.len() < 2 {
            ev("too few args too 'splice-unquote'"@)
        } else {
            Ok(Val::List(seq![Val::Symbol("concat"@), e->List_0[1], rest], None))
        }
    } else {
        match qq_spec(e) {
            Ok(q) => Ok(Val::List(seq![Val::Symbol("cons"@), q, rest], None)),
            Err(f) => Err(f),
        }
    }
}

/// An error in the expansion of a later item is the error of the whole expansion.
proof fn lemma_qq_fold_err(l: Seq<Val>, k: int)
    requires
        0 <= k,
        qq_fold(l, k) is Err,
    ensures
        qq_fold(l, 0) == qq_fold(l, k),
    decreases k,
{
    if k > 0 {
        lemma_qq_fold_err(l, k - 1);
    }
}

fn symbol_of(s: &str) -> (r: MalType)
    ensures
        r@ == Val::Symbol(s@),
{
    MalType::Symbol(owned(s))
}

fn list3(a: MalType, b: MalType, c: MalType) -> (r: MalType)
    ensures
        r@ == Val::List(seq![a@, b@, c@], None),
{
    let v = vec![a, b, c];
    assert(views(v@) =~= seq![v@[0]@, v@[1]@, v@[2]@]);
    new_list(v)
}

fn list2(a: MalType, b: MalType) -> (r: MalType)
    ensures
        r@ == Val::List(seq![a@, b@], None),
{
    let v = vec![a, b];
    assert(views(v@) =~= seq![v@[0]@, v@[1]@]);
    new_list(v)
}

/// Expands a quasiquoted form; see [`qq_spec`].
pub fn quasiquote(ast: &MalType) -> (r: MalResult)
    ensures
        res_view(r) == qq_spec(ast@),
    decreases ast, 0int,
{
    proof {
        lemma_view_shape(ast);
        reveal_strlit("unquote"); reveal_strlit("vec"); reveal_strlit("quote");
    }
    match ast {
        MalType::List(l, _) => {
            if ast.is_list_with_sym("unquote") {
                if l.len() < 2 {
                    return Err(eval_err("too few args too 'unquote'"));
                }
                return Ok(l[1].deep_clone());
            }
            qq_fold_items(l)
        },
        MalType::Vector(l, _) => {
            let r = qq_fold_items(l)?;
            Ok(list2(symbol_of("vec"), r))
        },
        MalType::HashMap(..) => Ok(list2(symbol_of("quote"), ast.deep_clone())),
        MalType::Symbol(_) => Ok(list2(symbol_of("quote"), ast.deep_clone())),
        _ => Ok(ast.deep_clone()),
    }
}

fn qq_fold_items(l: &Vec<MalType>) -> (r: MalResult)
    ensures
        res_view(r) == qq_fold(views(l@), 0),
    decreases l, 1int,
{
    let ghost s = views(l@);
    let empty: Vec<MalType> = Vec::new();
    assert(views(empty@) =~= Seq::<Val>::empty());
    let mut result = new_list(empty);
    let mut i: usize = l.len();
    while i > 0
        invariant
            i <= l@.len(),
            s == views(l@),
            qq_fold(s, i as int) == Ok::<Val, Fault>(result@),
        decreases i,
    {
        proof {
            assert(decreases_to!(l => l@));
            assert(decreases_to!(l@ => l@[i - 1]));
            assert(s[i - 1] == l@[i - 1]@);
        }
        match qq_item_exec(&l[i - 1], result) {
            Ok(x) => {
                result = x;
            },
            Err(e) => {
                proof { lemma_qq_fold_err(s, i - 1); }
                return Err(e);
            },
        }
        i = i - 1;
    }
    Ok(result)
}

fn qq_item_exec(e: &MalType, rest: MalType) -> (r: MalResult)
    ensures
        res_view(r) == qq_item(e@, rest@),
    decreases e, 1int,
{
    proof {
        lemma_view_shape(e);
        reveal_strlit("splice-unquote"); reveal_strlit("concat"); reveal_strlit("cons");
    }
    if e.is_list_with_sym("splice-unquote") {
        match e {
            MalType::List(el, _) => {
                if el.len() < 2 {
                    return Err(eval_err("too few args too 'splice-unquote'"));
                }
                Ok(list3(symbol_of("concat"), el[1].deep_clone(), rest))
            },
            _ => {
                assert(false);
                Err(eval_err("too few args too 'splice-unquote'"))
            },
        }
    } else {
        let q = quasiquote(e)?;
        Ok(list3(symbol_of("cons"), q, rest))
    }
}

/// The model of a `(quasiquote x)` form: the expansion is evaluated next.
pub open spec fn qq_form_spec(l: Seq<Val>, env: Env) -> StepV {
    if l.len() < 2 {
        StepV::Done(ev("too few args to 'quasiquote'"@))
    } else {
        match qq_spec(l[1]) {
            Ok(x) => StepV::Next(x, env),
            Err(f) => StepV::Done(Err(f)),
        }
    }
}

/// The result and final state of evaluating `ast` in `env` from state `s`: at most `steps`
/// tail steps, each nested evaluation at most `d` deep.
pub open spec fn eval_spec(ast: Val, env: Env, s: RtView, d: nat, steps: nat) -> (Result<Val, Fault>, RtView)
    decreases d, steps,
{
    if steps == 0 {
        (Err(steps_fault()), s)
    } else if d == 0 {
        (Err(depth_fault()), s)
    } else {
        match step_spec(ast, env, s, (d - 1) as nat) {
            (StepV::Done(r), s1) => (r, s1),
            (StepV::Next(a, e), s1) => eval_spec(a, e, s1, d, (steps - 1) as nat),
        }
    }
}

/// One step of evaluation: after tracing, a symbol is looked up, a list is a special form
/// or an application, the items of a vector and the values of a hash-map are evaluated, and
/// anything else is its own value.
pub open spec fn step_spec(ast: Val, env: Env, s: RtView, d: nat) -> (StepV, RtView)
    decreases d, 0int,
{
    if d == 0 {
        (StepV::Done(Err(depth_fault())), s)
    } else {
        let s1 = trace(ast, env, s);
        let d1 = (d - 1) as nat;
        match ast {
            Val::Symbol(sym) => (StepV::Done(env_get(s1, env, sym)), s1),
            Val::List(l, _) => if l.len() == 0 {
                (StepV::Done(Ok(ast)), s1)
            } else {
                match form_of(l[0]) {
                    Form::Def => done(def_spec(l, env, s1, d1, false)),
                    Form::Let => let_spec(l, env, s1, d1),
                    Form::Do => do_spec(l, env, s1, d1),
                    Form::If => if_spec(l, env, s1, d1),
                    Form::Fn => (StepV::Done(fn_spec(l, env)), s1),
                    Form::Quote => (StepV::Done(quote_spec(l)), s1),
                    Form::Quasiquote => (qq_form_spec(l, env), s1),
                    Form::Defmacro => done(def_spec(l, env, s1, d1, true)),
                    Form::Try => try_spec(l, env, s1, d1),
                    Form::Apply => apply_form_spec(l, env, s1, d1),
                }
            },
            Val::Vector(items, _) => match eval_items_spec(items, 0, Seq::empty(), env, s1, d1) {
                (Ok(vs), s2) => (StepV::Done(Ok(Val::Vector(vs, None))), s2),
                (Err(f), s2) => (StepV::Done(Err(f)), s2),
            },
            Val::HashMap(e, _) => match eval_entries_spec(e, 0, Seq::empty(), env, s1, d1) {
                (Ok(es), s2) => (StepV::Done(Ok(Val::HashMap(es, None))), s2),
                (Err(f), s2) => (StepV::Done(Err(f)), s2),
            },
            _ => (StepV::Done(Ok(ast)), s1),
        }
    }
}

/// `(def! key form)` and `(defmacro! key form)`: the value of `form` (marked as a macro for
/// `defmacro!`, which wants a function) is bound to `key` in `env`, and is the result.
pub open spec fn def_spec(l: Seq<Val>, env: Env, s: RtView, d: nat, is_macro: bool) -> (Result<Val, Fault>, RtView)
    decreases d, 0int,
{
    if d == 0 {
        (Err(depth_fault()), s)
    } else if l.len() < 3 {
        (ev("too few args to 'def!'('defmacro!')"@), s)
    } else {
        match l[1] {
            Val::Symbol(key) => {
                let (r, s1) = eval_spec(l[2], env, s, (d - 1) as nat, MAX_STEPS as nat);
                match r {
                    Err(f) => (Err(f), s1),
                    Ok(v) => if is_macro && !(v is Lambda) {
                        (ev("'defmacro!' expects a function"@), s1)
                    } else {
                        let s2 = env_set(s1, env, key, if is_macro { as_macro(v) } else { v });
                        (env_get(s2, env, key), s2)
                    },
                }
            },
            _ => (ev("1st arg to 'def!'('defmacro!') must be symbol"@), s),
        }
    }
}

/// `(let* bindings body)`: the bindings are evaluated in order in a new frame, and the body
/// is evaluated next in it.
pub open spec fn let_spec(l: Seq<Val>, env: Env, s: RtView, d: nat) -> (StepV, RtView)
    decreases d, 0int,
{
    if d == 0 {
        (StepV::Done(Err(depth_fault())), s)
    } else if l.len() < 3 {
        (StepV::Done(ev("too few args to 'let*"@)), s)
    } else {
        match seq_items(l[1]) {
            None => (StepV::Done(ev("1st arg to 'let*' must be list"@)), s),
            Some(binds) => {
                let e = next_env(s);
                match let_binds_spec(binds, 0, e, push_frame(s, Some(env)), (d - 1) as nat) {
                    (None, s2) => (StepV::Next(l[2], e), s2),
                    (Some(f), s2) => (StepV::Done(Err(f)), s2),
                }
            },
        }
    }
}

/// The bindings of a `let*` from position `i` on: each key, which must be a symbol, is bound
/// to the value of the form after it; a last key without a form is ignored.
pub open spec fn let_binds_spec(b: Seq<Val>, i: nat, e: Env, s: RtView, d: nat) -> (Option<Fault>, RtView)
    decreases d, b.len() - i,
{
    if d == 0 {
        (Some(depth_fault()), s)
    } else if i + 1 >= b.len() {
        (None, s)
    } else {
        match b[i as int] {
            Val::Symbol(k) => {
                let (r, s1) = eval_spec(b[i + 1 as int], e, s, (d - 1) as nat, MAX_STEPS as nat);
                match r {
                    Ok(v) => let_binds_spec(b, i + 2, e, env_set(s1, e, k, v), d),
                    Err(f) => (Some(f), s1),
                }
            },
            _ => (Some(Fault::Eval("key in 'let*' is not symbol"@)), s),
        }
    }
}

/// `(do form ...)`: all forms but the last are evaluated in order; the last is evaluated next.
pub open spec fn do_spec(l: Seq<Val>, env: Env, s: RtView, d: nat) -> (StepV, RtView)
    decreases d, 0int,
{
    if d == 0 {
        (StepV::Done(Err(depth_fault())), s)
    } else if l.len() <= 1 {
        (StepV::Done(Ok(Val::Nil)), s)
    } else {
        match eval_seq_spec(l, 1, (l.len() - 1) as nat, env, s, (d - 1) as nat) {
            (None, s1) => (StepV::Next(l.last(), env), s1),
            (Some(f), s1) => (StepV::Done(Err(f)), s1),
        }
    }
}

/// Evaluates the forms from position `i` up to `end`, in order, for their effects.
pub open spec fn eval_seq_spec(l: Seq<Val>, i: nat, end: nat, env: Env, s: RtView, d: nat) -> (Option<Fault>, RtView)
    decreases d, end - i,
{
    if d == 0 {
        (Some(depth_fault()), s)
    } else if i >= end || i >= l.len() {
        (None, s)
    } else {
        let (r, s1) = eval_spec(l[i as int], env, s, (d - 1) as nat, MAX_STEPS as nat);
        match r {
            Ok(_) => eval_seq_spec(l, i + 1, end, env, s1, d),
            Err(f) => (Some(f), s1),
        }
    }
}

/// `(if cond then else)`: the branch chosen by the condition is evaluated next; without an
/// else branch a false condition gives `nil`.
pub open spec fn if_spec(l: Seq<Val>, env: Env, s: RtView, d: nat) -> (StepV, RtView)
    decreases d, 0int,
{
    if d == 0 {
        (StepV::Done(Err(depth_fault())), s)
    } else if l.len() < 3 {
        (StepV::Done(ev("too few args to 'if'"@)), s)
    } else {
        let (r, s1) = eval_spec(l[1], env, s, (d - 1) as nat, MAX_STEPS as nat);
        match r {
            Err(f) => (StepV::Done(Err(f)), s1),
            Ok(c) => if truthy(c) {
                (StepV::Next(l[2], env), s1)
            } else if l.len() > 3 {
                (StepV::Next(l[3], env), s1)
            } else {
                (StepV::Done(Ok(Val::Nil)), s1)
            },
        }
    }
}

/// `(try* form (catch* sym handler))`: an error of `form` (but a pending host request) is
/// bound to `sym` in a new frame, where the handler is evaluated next.
pub open spec fn try_spec(l: Seq<Val>, env: Env, s: RtView, d: nat) -> (StepV, RtView)
    decreases d, 0int,
{
    if d == 0 {
        (StepV::Done(Err(depth_fault())), s)
    } else if l.len() < 2 {
        (StepV::Done(ev("too few args to 'try*'"@)), s)
    } else {
        let (r, s1) = eval_spec(l[1], env, s, (d - 1) as nat, MAX_STEPS as nat);
        match r {
            Ok(v) => (StepV::Done(Ok(v)), s1),
            Err(f) => if f is Pending {
                (StepV::Done(Err(f)), s1)
            } else if l.len() >= 3 && list_with_sym(l[2], "catch*"@) {
                let c = l[2]->List_0;
                if c.len() < 3 {
                    (StepV::Done(ev("too few args to 'catch*'"@)), s1)
                } else {
                    match c[1] {
                        Val::Symbol(sym) => {
                            let e = next_env(s1);
                            (StepV::Next(c[2], e), env_set(push_frame(s1, Some(env)), e, sym, fault_value(f)))
                        },
                        _ => (StepV::Done(ev("'catch*' expects symbol to bind"@)), s1),
                    }
                }
            } else {
                (StepV::Done(Err(f)), s1)
            },
        }
    }
}

/// An application `(f arg ...)`: a builtin is called with the values of the arguments; a
/// function's body is evaluated next in a new frame binding its parameters to them; a
/// macro's body is evaluated on the unevaluated arguments, and its value is evaluated next.
pub open spec fn apply_form_spec(l: Seq<Val>, env: Env, s: RtView, d: nat) -> (StepV, RtView)
    decreases d, 0int,
{
    if d == 0 {
        (StepV::Done(Err(depth_fault())), s)
    } else {
        let d1 = (d - 1) as nat;
        let (r, s1) = eval_spec(l[0], env, s, d1, MAX_STEPS as nat);
        match r {
            Err(f) => (StepV::Done(Err(f)), s1),
            Ok(func) => match func {
                Val::BuiltinFunc(b, _) => match eval_items_spec(l, 1, Seq::empty(), env, s1, d1) {
                    (Ok(args), s2) => done(builtin_spec(b, args, s2, d1)),
                    (Err(f), s2) => (StepV::Done(Err(f)), s2),
                },
                Val::Lambda { params, body, capt_env, is_macro, .. } => if !is_macro {
                    match eval_items_spec(l, 1, Seq::empty(), env, s1, d1) {
                        (Ok(args), s2) => match new_frame(s2, Some(capt_env), params, args) {
                            Ok((e, s3)) => (StepV::Next(*body, e), s3),
                            Err(m) => (StepV::Done(Err(Fault::Eval(m))), s2),
                        },
                        (Err(f), s2) => (StepV::Done(Err(f)), s2),
                    }
                } else {
                    match new_frame(s1, Some(capt_env), params, l.drop_first()) {
                        Ok((me, s2)) => {
                            let (r3, s3) = eval_spec(*body, me, s2, d1, MAX_STEPS as nat);
                            match r3 {
                                Ok(x) => (StepV::Next(x, env), s3),
                                Err(f) => (StepV::Done(Err(f)), s3),
                            }
                        },
                        Err(m) => (StepV::Done(Err(Fault::Eval(m))), s1),
                    }
                },
                _ => (StepV::Done(ev("not callable"@)), s1),
            },
        }
    }
}

/// The values of the forms from position `i` on, in order, after `acc`.
pub open spec fn eval_items_spec(items: Seq<Val>, i: nat, acc: Seq<Val>, env: Env, s: RtView, d: nat) -> (Result<Seq<Val>, Fault>, RtView)
    decreases d, items.len() - i,
{
    if d == 0 {
        (Err(depth_fault()), s)
    } else if i >= items.len() {
        (Ok(acc), s)
    } else {
        let (r, s1) = eval_spec(items[i as int], env, s, (d - 1) as nat, MAX_STEPS as nat);
        match r {
            Ok(v) => eval_items_spec(items, i + 1, acc.push(v), env, s1, d),
            Err(f) => (Err(f), s1),
        }
    }
}

/// The hash-map entries from position `i` on with their values evaluated, after `acc`.
pub open spec fn eval_entries_spec(es: Seq<(Seq<char>, Val)>, i: nat, acc: Seq<(Seq<char>, Val)>, env: Env, s: RtView, d: nat) -> (Result<Seq<(Seq<char>, Val)>, Fault>, RtView)
    decreases d, es.len() - i,
{
    if d == 0 {
        (Err(depth_fault()), s)
    } else if i >= es.len() {
        (Ok(acc), s)
    } else {
        let (r, s1) = eval_spec(es[i as int].1, env, s, (d - 1) as nat, MAX_STEPS as nat);
        match r {
            Ok(v) => eval_entries_spec(es, i + 1, acc.push((es[i as int].0, v)), env, s1, d),
            Err(f) => (Err(f), s1),
        }
    }
}

/// A call of a function of the core namespace.
pub open spec fn builtin_spec(b: Builtin, args: Seq<Val>, s: RtView, d: nat) -> (Result<Val, Fault>, RtView)
    decreases d, 0int,
{
    if d == 0 {
        (Err(depth_fault()), s)
    } else {
        let d1 = (d - 1) as nat;
        match b {
            Builtin::Add => (arithmetic_spec(args, ArithOp::Add), s),
            Builtin::Sub => (arithmetic_spec(args, ArithOp::Sub), s),
            Builtin::Mult => (arithmetic_spec(args, ArithOp::Mul), s),
            Builtin::Div => (arithmetic_spec(args, ArithOp::Div), s),
            Builtin::Prn => prn_spec(args, s),
            Builtin::List => (list_spec(args), s),
            Builtin::IsList => (is_list_spec(args), s),
            Builtin::IsEmpty => (is_empty_spec(args), s),
            Builtin::Count => (count_spec(args), s),
            Builtin::Eq => (eq_spec(args), s),
            Builtin::Lt => (numeric_compare_spec(args, Comparison::Lt), s),
            Builtin::Le => (numeric_compare_spec(args, Comparison::Le), s),
            Builtin::Gt => (numeric_compare_spec(args, Comparison::Gt), s),
            Builtin::Ge => (numeric_compare_spec(args, Comparison::Ge), s),
            Builtin::PrStr => prstr_spec(args, s),
            Builtin::Str => str_spec(args, s),
            Builtin::Println => println_spec(args, s),
            Builtin::ReadString => (read_string_spec(args), s),
            Builtin::Slurp => slurp_spec(args, s),
            Builtin::Atom => atom_spec(args, s),
            Builtin::IsAtom => (is_atom_spec(args), s),
            Builtin::Deref => deref_spec(args, s),
            Builtin::Reset => reset_spec(args, s),
            Builtin::Swap => swap_spec(args, s, d1),
            Builtin::Cons => (cons_spec(args), s),
            Builtin::Concat => (concat_spec(args), s),
            Builtin::Vec => (vec_spec(args), s),
            Builtin::Nth => (nth_spec(args), s),
            Builtin::First => (first_spec(args), s),
            Builtin::Rest => (rest_spec(args), s),
            Builtin::IsMacro => (is_macro_spec(args), s),
            Builtin::Throw => (throw_spec(args), s),
            Builtin::Apply => apply_builtin_spec(args, s, d1),
            Builtin::MapFn => map_spec(args, s, d1),
            Builtin::IsNil => (is_nil_spec(args), s),
            Builtin::IsTrue => (is_true_spec(args), s),
            Builtin::IsFalse => (is_false_spec(args), s),
            Builtin::IsSymbol => (is_symbol_spec(args), s),
            Builtin::Symbol => (symbol_spec(args), s),
            Builtin::Keyword => (keyword_spec(args), s),
            Builtin::IsKeyword => (is_keyword_spec(args), s),
            Builtin::Vector => (vector_spec(args), s),
            Builtin::IsVector => (is_vector_spec(args), s),
            Builtin::IsSequential => (is_sequential_spec(args), s),
            Builtin::HashMap => (parse_as_eval(read_map_spec(args)), s),
            Builtin::IsMap => (is_map_spec(args), s),
            Builtin::Assoc => (assoc_spec(args), s),
            Builtin::Dissoc => (dissoc_spec(args), s),
            Builtin::Get => (get_spec(args), s),
            Builtin::Contains => (contains_spec(args), s),
            Builtin::Keys => (keys_spec(args), s),
            Builtin::Vals => (vals_spec(args), s),
            Builtin::Readline => readline_spec(args, s),
            Builtin::TimeMs => timems_spec(s),
            Builtin::Meta => (meta_spec(args), s),
            Builtin::WithMeta => (withmeta_spec(args), s),
            Builtin::IsFn => (is_fn_spec(args), s),
            Builtin::IsString => (is_string_spec(args), s),
            Builtin::IsNumber => (is_number_spec(args), s),
            Builtin::SeqFn => (seq_spec(args), s),
            Builtin::Conj => (conj_spec(args), s),
            Builtin::Eval => if args.len() == 0 {
                (ev("'eval' expects an arg"@), s)
            } else {
                eval_spec(args[0], root_env(), s, d1, MAX_STEPS as nat)
            },
        }
    }
}

/// Calls a function value on arguments: a builtin directly, a function (or macro) by
/// evaluating its body in a new frame that binds its parameters.
pub open spec fn apply_fn_spec(func: Val, args: Seq<Val>, s: RtView, d: nat) -> (Result<Val, Fault>, RtView)
    decreases d, 0int,
{
    if d == 0 {
        (Err(depth_fault()), s)
    } else {
        match func {
            Val::BuiltinFunc(b, _) => builtin_spec(b, args, s, (d - 1) as nat),
            Val::Lambda { params, body, capt_env, .. } => match new_frame(s, Some(capt_env), params, args) {
                Ok((e, s1)) => eval_spec(*body, e, s1, (d - 1) as nat, MAX_STEPS as nat),
                Err(m) => (Err(Fault::Eval(m)), s),
            },
            _ => (ev("not callable"@), s),
        }
    }
}

/// `(swap! atom f arg ...)`: the atom takes the value of `f` on its content and the
/// arguments, which is the result.
pub open spec fn swap_spec(args: Seq<Val>, s: RtView, d: nat) -> (Result<Val, Fault>, RtView)
    decreases d, 0int,
{
    if d == 0 {
        (Err(depth_fault()), s)
    } else if args.len() >= 2 && args[0] is Atom && args[0]->Atom_0 < s.atoms.len() {
        let a = args[0]->Atom_0 as int;
        let (r, s1) = apply_fn_spec(args[1], seq![s.atoms[a]] + args.subrange(2, args.len() as int), s, (d - 1) as nat);
        match r {
            Ok(v) => if a < s1.atoms.len() {
                (Ok(v), atom_set(s1, a, v))
            } else {
                (ev("'swap!' expects atom, func (and args)"@), s1)
            },
            Err(f) => (Err(f), s1),
        }
    } else {
        (ev("'swap!' expects atom, func (and args)"@), s)
    }
}

/// `(apply f arg ... list)`: `f` called on the arguments followed by the items of the list.
pub open spec fn apply_builtin_spec(args: Seq<Val>, s: RtView, d: nat) -> (Result<Val, Fault>, RtView)
    decreases d, 0int,
{
    if d == 0 {
        (Err(depth_fault()), s)
    } else if args.len() < 2 {
        (ev("too few args to 'apply'"@), s)
    } else {
        match seq_items(args.last()) {
            None => (ev("'apply' expects list/vector as last arg"@), s),
            Some(items) => apply_fn_spec(args[0], args.subrange(1, args.len() - 1) + items, s, (d - 1) as nat),
        }
    }
}

/// `(map f list)`: a list of the values of `f` on each item, in order.
pub open spec fn map_spec(args: Seq<Val>, s: RtView, d: nat) -> (Result<Val, Fault>, RtView)
    decreases d, 0int,
{
    if d == 0 {
        (Err(depth_fault()), s)
    } else if args.len() < 2 {
        (ev("too few args to 'map'"@), s)
    } else {
        match seq_items(args[1]) {
            None => (ev("'map' expects list/vector as 2nd arg"@), s),
            Some(items) => if args[0] is BuiltinFunc || args[0] is Lambda {
                match map_items_spec(args[0], items, 0, Seq::empty(), s, (d - 1) as nat) {
                    (Ok(vs), s1) => (Ok(Val::List(vs, None)), s1),
                    (Err(f), s1) => (Err(f), s1),
                }
            } else {
                (ev("not callable"@), s)
            },
        }
    }
}

/// The values of `func` on the items from position `i` on, in order, after `acc`.
pub open spec fn map_items_spec(func: Val, items: Seq<Val>, i: nat, acc: Seq<Val>, s: RtView, d: nat) -> (Result<Seq<Val>, Fault>, RtView)
    decreases d, items.len() - i,
{
    if d == 0 {
        (Err(depth_fault()), s)
    } else if i >= items.len() {
        (Ok(acc), s)
    } else {
        let (r, s1) = apply_fn_spec(func, seq![items[i as int]], s, (d - 1) as nat);
        match r {
            Ok(v) => map_items_spec(func, items, i + 1, acc.push(v), s1, d),
            Err(f) => (Err(f), s1),
        }
    }
}

/// The model of an optional error.
pub open spec fn opt_fault(e: Option<MalError>) -> Option<Fault> {
    match e {
        Some(x) => Some(x@),
        None => None,
    }
}

/// Copies of the values at positions `lo` up to `hi`.
fn clone_range(v: &Vec<MalType>, lo: usize, hi: usize) -> (r: Vec<MalType>)
    requires
        lo <= hi <= v@.len(),
    ensures
        views(r@) == views(v@).subrange(lo as int, hi as int),
{
    let mut out: Vec<MalType> = Vec::new();
    let mut i: usize = lo;
    while i < hi
        invariant
            lo <= i <= hi <= v@.len(),
            views(out@) == views(v@).subrange(lo as int, i as int),
        decreases hi - i,
    {
        let x = v[i].deep_clone();
        let ghost prev = out@;
        let ghost xv = x@;
        out.push(x);
        assert(views(out@) =~= views(prev).push(xv));
        assert(views(out@) =~= views(v@).subrange(lo as int, i + 1));
        i = i + 1;
    }
    out
}

fn eval_quote(l: &Vec<MalType>) -> (r: MalResult)
    ensures
        res_view(r) == quote_spec(views(l@)),
{
    if l.len() < 2 {
        return Err(eval_err("too few args to 'quote'"));
    }
    Ok(l[1].deep_clone())
}

fn eval_quasiquote(l: &Vec<MalType>, env: Env) -> (r: Step)
    ensures
        r@ == qq_form_spec(views(l@), env),
{
    if l.len() < 2 {
        return Step::Done(Err(eval_err("too few args to 'quasiquote'")));
    }
    match quasiquote(&l[1]) {
        Ok(x) => Step::Next(x, env),
        Err(e) => Step::Done(Err(e)),
    }
}

/// Evaluates `ast` in `env`; see [`eval_spec`]. Tail positions are evaluated in a loop.
pub fn eval(rt: &mut Runtime, ast: MalType, env: Env, d: u64) -> (r: MalResult)
    ensures
        (res_view(r), final(rt)@) == eval_spec(ast@, env, old(rt)@, d as nat, MAX_STEPS as nat),
    decreases d,
{
    let mut form = ast;
    let mut here = env;
    let mut steps: u64 = MAX_STEPS;
    loop
        invariant
            eval_spec(ast@, env, old(rt)@, d as nat, MAX_STEPS as nat) == eval_spec(form@, here, rt@, d as nat, steps as nat),
        decreases steps,
    {
        if steps == 0 {
            return Err(eval_err("evaluation step limit reached"));
        }
        if d == 0 {
            return Err(depth_err());
        }
        match step(rt, form, here, d - 1) {
            Step::Done(r) => {
                return r;
            },
            Step::Next(a, e) => {
                form = a;
                here = e;
            },
        }
        steps = steps - 1;
    }
}

fn step(rt: &mut Runtime, ast: MalType, env: Env, d: u64) -> (r: Step)
    ensures
        (r@, final(rt)@) == step_spec(ast@, env, old(rt)@, d as nat),
    decreases d,
{
    if d == 0 {
        return Step::Done(Err(depth_err()));
    }
    rt.trace(&ast, env);
    proof { lemma_view_shape(&ast); }
    let d1 = d - 1;
    match ast {
        MalType::Symbol(sym) => Step::Done(rt.env_get(env, sym.as_str())),
        MalType::List(l, m) => {
            if l.len() == 0 {
                return Step::Done(Ok(MalType::List(l, m)));
            }
            match head_form(&l[0]) {
                Form::Def => Step::Done(eval_def(rt, &l, env, d1, false)),
                Form::Let => eval_let(rt, &l, env, d1),
                Form::Do => eval_do(rt, &l, env, d1),
                Form::If => eval_if(rt, &l, env, d1),
                Form::Fn => Step::Done(eval_fn(&l, env)),
                Form::Quote => Step::Done(eval_quote(&l)),
                Form::Quasiquote => eval_quasiquote(&l, env),
                Form::Defmacro => Step::Done(eval_def(rt, &l, env, d1, true)),
                Form::Try => eval_try(rt, &l, env, d1),
                Form::Apply => eval_apply(rt, &l, env, d1),
            }
        },
        MalType::Vector(items, _) => match eval_items(rt, &items, 0, env, d1) {
            Ok(vs) => Step::Done(Ok(crate::types::new_vector(vs))),
            Err(e) => Step::Done(Err(e)),
        },
        MalType::HashMap(es, _) => match eval_entries(rt, &es, env, d1) {
            Ok(vs) => Step::Done(Ok(crate::types::new_hashmap(vs))),
            Err(e) => Step::Done(Err(e)),
        },
        other => Step::Done(Ok(other)),
    }
}

fn eval_def(rt: &mut Runtime, l: &Vec<MalType>, env: Env, d: u64, is_macro: bool) -> (r: MalResult)
    ensures
        (res_view(r), final(rt)@) == def_spec(views(l@), env, old(rt)@, d as nat, is_macro),
    decreases d,
{
    if d == 0 {
        return Err(depth_err());
    }
    if l.len() < 3 {
        return Err(eval_err("too few args to 'def!'('defmacro!')"));
    }
    proof { lemma_view_shape(&l@[1]); }
    match &l[1] {
        MalType::Symbol(key) => {
            let mut v = eval(rt, l[2].deep_clone(), env, d - 1)?;
            if is_macro {
                proof { lemma_view_shape(&v); }
                match &v {
                    MalType::Lambda { .. } => {},
                    _ => {
                        return Err(eval_err("'defmacro!' expects a function"));
                    },
                }
                v.set_macro();
            }
            rt.env_set(env, key.clone(), v);
            rt.env_get(env, key.as_str())
        },
        _ => Err(eval_err("1st arg to 'def!'('defmacro!') must be symbol")),
    }
}

fn eval_let(rt: &mut Runtime, l: &Vec<MalType>, env: Env, d: u64) -> (r: Step)
    ensures
        (r@, final(rt)@) == let_spec(views(l@), env, old(rt)@, d as nat),
    decreases d,
{
    if d == 0 {
        return Step::Done(Err(depth_err()));
    }
    if l.len() < 3 {
        return Step::Done(Err(eval_err("too few args to 'let*")));
    }
    match items_of(&l[1]) {
        None => Step::Done(Err(eval_err("1st arg to 'let*' must be list"))),
        Some(binds) => {
            let e = rt.push_frame(Some(env));
            match let_binds(rt, binds, e, d - 1) {
                None => Step::Next(l[2].deep_clone(), e),
                Some(f) => Step::Done(Err(f)),
            }
        },
    }
}

pub(crate) fn let_binds(rt: &mut Runtime, b: &Vec<MalType>, e: Env, d: u64) -> (r: Option<MalError>)
    ensures
        (opt_fault(r), final(rt)@) == let_binds_spec(views(b@), 0, e, old(rt)@, d as nat),
    decreases d,
{
    if d == 0 {
        return Some(depth_err());
    }
    let ghost s0 = rt@;
    let ghost bs = views(b@);
    let mut i: usize = 0;
    while i < b.len() && b.len() - i >= 2
        invariant
            d > 0,
            s0 == old(rt)@,
            i <= b@.len(),
            bs == views(b@),
            let_binds_spec(bs, 0, e, s0, d as nat) == let_binds_spec(bs, i as nat, e, rt@, d as nat),
        decreases b.len() - i,
    {
        proof { lemma_view_shape(&b@[i as int]); }
        match &b[i] {
            MalType::Symbol(k) => {
                match eval(rt, b[i + 1].deep_clone(), e, d - 1) {
                    Ok(v) => {
                        rt.env_set(e, k.clone(), v);
                    },
                    Err(f) => {
                        return Some(f);
                    },
                }
            },
            _ => {
                return Some(eval_err("key in 'let*' is not symbol"));
            },
        }
        i = i + 2;
    }
    None
}

fn eval_do(rt: &mut Runtime, l: &Vec<MalType>, env: Env, d: u64) -> (r: Step)
    ensures
        (r@, final(rt)@) == do_spec(views(l@), env, old(rt)@, d as nat),
    decreases d,
{
    if d == 0 {
        return Step::Done(Err(depth_err()));
    }
    if l.len() <= 1 {
        return Step::Done(Ok(MalType::Nil));
    }
    match eval_seq(rt, l, l.len() - 1, env, d - 1) {
        None => Step::Next(l[l.len() - 1].deep_clone(), env),
        Some(f) => Step::Done(Err(f)),
    }
}

fn eval_seq(rt: &mut Runtime, l: &Vec<MalType>, end: usize, env: Env, d: u64) -> (r: Option<MalError>)
    ensures
        (opt_fault(r), final(rt)@) == eval_seq_spec(views(l@), 1, end as nat, env, old(rt)@, d as nat),
    decreases d,
{
    if d == 0 {
        return Some(depth_err());
    }
    let ghost s0 = rt@;
    let ghost ls = views(l@);
    let mut i: usize = 1;
    while i < end && i < l.len()
        invariant
            d > 0,
            s0 == old(rt)@,
            1 <= i,
            ls == views(l@),
            eval_seq_spec(ls, 1, end as nat, env, s0, d as nat) == eval_seq_spec(ls, i as nat, end as nat, env, rt@, d as nat),
        decreases l.len() - i,
    {
        match eval(rt, l[i].deep_clone(), env, d - 1) {
            Ok(_) => {},
            Err(f) => {
                return Some(f);
            },
        }
        i = i + 1;
    }
    None
}

fn eval_if(rt: &mut Runtime, l: &Vec<MalType>, env: Env, d: u64) -> (r: Step)
    ensures
        (r@, final(rt)@) == if_spec(views(l@), env, old(rt)@, d as nat),
    decreases d,
{
    if d == 0 {
        return Step::Done(Err(depth_err()));
    }
    if l.len() < 3 {
        return Step::Done(Err(eval_err("too few args to 'if'")));
    }
    let c = match eval(rt, l[1].deep_clone(), env, d - 1) {
        Ok(c) => c,
        Err(f) => {
            return Step::Done(Err(f));
        },
    };
    if c.to_bool() {
        Step::Next(l[2].deep_clone(), env)
    } else if l.len() > 3 {
        Step::Next(l[3].deep_clone(), env)
    } else {
        Step::Done(Ok(MalType::Nil))
    }
}

fn eval_try(rt: &mut Runtime, l: &Vec<MalType>, env: Env, d: u64) -> (r: Step)
    ensures
        (r@, final(rt)@) == try_spec(views(l@), env, old(rt)@, d as nat),
    decreases d,
{
    if d == 0 {
        return Step::Done(Err(depth_err()));
    }
    if l.len() < 2 {
        return Step::Done(Err(eval_err("too few args to 'try*'")));
    }
    match eval(rt, l[1].deep_clone(), env, d - 1) {
        Ok(v) => Step::Done(Ok(v)),
        Err(f) => {
            let pending = match &f {
                MalError::Pending(_) => true,
                _ => false,
            };
            if pending {
                return Step::Done(Err(f));
            }
            proof { reveal_strlit("catch*"); }
            if l.len() >= 3 && l[2].is_list_with_sym("catch*") {
                proof { lemma_view_shape(&l@[2]); }
                match &l[2] {
                    MalType::List(c, _) => {
                        if c.len() < 3 {
                            return Step::Done(Err(eval_err("too few args to 'catch*'")));
                        }
                        proof { lemma_view_shape(&c@[1]); }
                        match &c[1] {
                            MalType::Symbol(sym) => {
                                let e = rt.push_frame(Some(env));
                                rt.env_set(e, sym.clone(), f.into_mal());
                                Step::Next(c[2].deep_clone(), e)
                            },
                            _ => Step::Done(Err(eval_err("'catch*' expects symbol to bind"))),
                        }
                    },
                    _ => {
                        assert(false);
                        Step::Done(Err(f))
                    },
                }
            } else {
                Step::Done(Err(f))
            }
        },
    }
}

fn eval_apply(rt: &mut Runtime, l: &Vec<MalType>, env: Env, d: u64) -> (r: Step)
    requires
        l@.len() > 0,
    ensures
        (r@, final(rt)@) == apply_form_spec(views(l@), env, old(rt)@, d as nat),
    decreases d,
{
    if d == 0 {
        return Step::Done(Err(depth_err()));
    }
    let d1 = d - 1;
    let func = match eval(rt, l[0].deep_clone(), env, d1) {
        Ok(f) => f,
        Err(e) => {
            return Step::Done(Err(e));
        },
    };
    proof { lemma_view_shape(&func); }
    match func {
        MalType::BuiltinFunc(b, _) => match eval_items(rt, l, 1, env, d1) {
            Ok(args) => Step::Done(call_builtin(rt, b, args, d1)),
            Err(e) => Step::Done(Err(e)),
        },
        MalType::Lambda { params, body, capt_env, is_macro, .. } => {
            if !is_macro {
                match eval_items(rt, l, 1, env, d1) {
                    Ok(args) => match rt.new_frame(Some(capt_env), params, args) {
                        Ok(e) => Step::Next(*body, e),
                        Err(err) => Step::Done(Err(err)),
                    },
                    Err(e) => Step::Done(Err(e)),
                }
            } else {
                let raw = clone_range(l, 1, l.len());
                assert(views(l@).subrange(1, l@.len() as int) =~= views(l@).drop_first());
                match rt.new_frame(Some(capt_env), params, raw) {
                    Ok(me) => match eval(rt, *body, me, d1) {
                        Ok(x) => Step::Next(x, env),
                        Err(e) => Step::Done(Err(e)),
                    },
                    Err(err) => Step::Done(Err(err)),
                }
            }
        },
        _ => Step::Done(Err(eval_err("not callable"))),
    }
}

fn eval_items(rt: &mut Runtime, items: &Vec<MalType>, start: usize, env: Env, d: u64) -> (r: Result<Vec<MalType>, MalError>)
    ensures
        (seq_res_view(r), final(rt)@) == eval_items_spec(views(items@), start as nat, Seq::empty(), env, old(rt)@, d as nat),
    decreases d,
{
    if d == 0 {
        return Err(depth_err());
    }
    let ghost s0 = rt@;
    let ghost it = views(items@);
    let mut out: Vec<MalType> = Vec::new();
    let mut i: usize = start;
    assert(views(out@) =~= Seq::<Val>::empty());
    while i < items.len()
        invariant
            d > 0,
            s0 == old(rt)@,
            it == views(items@),
            eval_items_spec(it, start as nat, Seq::empty(), env, s0, d as nat)
                == eval_items_spec(it, i as nat, views(out@), env, rt@, d as nat),
        decreases items.len() - i,
    {
        match eval(rt, items[i].deep_clone(), env, d - 1) {
            Ok(v) => {
                let ghost prev = out@;
                let ghost vv = v@;
                out.push(v);
                assert(views(out@) =~= views(prev).push(vv));
            },
            Err(e) => {
                return Err(e);
            },
        }
        i = i + 1;
    }
    Ok(out)
}

fn eval_entries(rt: &mut Runtime, es: &Vec<(String, MalType)>, env: Env, d: u64) -> (r: Result<Vec<(String, MalType)>, MalError>)
    ensures
        match eval_entries_spec(crate::types::entry_views(es@), 0, Seq::empty(), env, old(rt)@, d as nat) {
            (Ok(x), s1) => r matches Ok(v) && crate::types::entry_views(v@) == x && final(rt)@ == s1,
            (Err(f), s1) => r matches Err(e) && e@ == f && final(rt)@ == s1,
        },
    decreases d,
{
    if d == 0 {
        return Err(depth_err());
    }
    let ghost s0 = rt@;
    let ghost it = crate::types::entry_views(es@);
    let mut out: Vec<(String, MalType)> = Vec::new();
    let mut i: usize = 0;
    assert(crate::types::entry_views(out@) =~= Seq::<(Seq<char>, Val)>::empty());
    while i < es.len()
        invariant
            d > 0,
            s0 == old(rt)@,
            it == crate::types::entry_views(es@),
            eval_entries_spec(it, 0, Seq::empty(), env, s0, d as nat)
                == eval_entries_spec(it, i as nat, crate::types::entry_views(out@), env, rt@, d as nat),
        decreases es.len() - i,
    {
        match eval(rt, es[i].1.deep_clone(), env, d - 1) {
            Ok(v) => {
                let ghost prev = out@;
                let k = es[i].0.clone();
                let ghost pair = (k@, v@);
                out.push((k, v));
                assert(crate::types::entry_views(out@) =~= crate::types::entry_views(prev).push(pair));
            },
            Err(e) => {
                return Err(e);
            },
        }
        i = i + 1;
    }
    Ok(out)
}

/// Calls a function of the core namespace; see [`builtin_spec`].
pub fn call_builtin(rt: &mut Runtime, b: Builtin, args: Vec<MalType>, d: u64) -> (r: MalResult)
    ensures
        (res_view(r), final(rt)@) == builtin_spec(b, views(args@), old(rt)@, d as nat),
    decreases d,
{
    if d == 0 {
        return Err(depth_err());
    }
    let d1 = d - 1;
    match b {
        Builtin::Add => arithmetic(args, ArithOp::Add),
        Builtin::Sub => arithmetic(args, ArithOp::Sub),
        Builtin::Mult => arithmetic(args, ArithOp::Mul),
        Builtin::Div => arithmetic(args, ArithOp::Div),
        Builtin::Prn => rt.prn(args),
        Builtin::List => list(args),
        Builtin::IsList => is_list(args),
        Builtin::IsEmpty => is_empty(args),
        Builtin::Count => count(args),
        Builtin::Eq => eq(args),
        Builtin::Lt => numeric_compare(args, Comparison::Lt),
        Builtin::Le => numeric_compare(args, Comparison::Le),
        Builtin::Gt => numeric_compare(args, Comparison::Gt),
        Builtin::Ge => numeric_compare(args, Comparison::Ge),
        Builtin::PrStr => rt.prstr(args),
        Builtin::Str => rt.str(args),
        Builtin::Println => rt.println(args),
        Builtin::ReadString => read_string(args),
        Builtin::Slurp => rt.slurp(args),
        Builtin::Atom => rt.atom(args),
        Builtin::IsAtom => is_atom(args),
        Builtin::Deref => rt.deref(args),
        Builtin::Reset => rt.reset(args),
        Builtin::Swap => swap(rt, args, d1),
        Builtin::Cons => cons(args),
        Builtin::Concat => concat(args),
        Builtin::Vec => crate::namespace::vec(args),
        Builtin::Nth => nth(args),
        Builtin::First => first(args),
        Builtin::Rest => rest(args),
        Builtin::IsMacro => is_macro(args),
        Builtin::Throw => throw(args),
        Builtin::Apply => apply_builtin(rt, args, d1),
        Builtin::MapFn => map_builtin(rt, args, d1),
        Builtin::IsNil => is_nil(args),
        Builtin::IsTrue => is_true(args),
        Builtin::IsFalse => is_false(args),
        Builtin::IsSymbol => is_symbol(args),
        Builtin::Symbol => symbol(args),
        Builtin::Keyword => keyword(args),
        Builtin::IsKeyword => is_keyword(args),
        Builtin::Vector => vector(args),
        Builtin::IsVector => is_vector(args),
        Builtin::IsSequential => is_sequential(args),
        Builtin::HashMap => hashmap(args),
        Builtin::IsMap => is_map(args),
        Builtin::Assoc => assoc(args),
        Builtin::Dissoc => dissoc(args),
        Builtin::Get => get(args),
        Builtin::Contains => contains(args),
        Builtin::Keys => keys(args),
        Builtin::Vals => vals(args),
        Builtin::Readline => rt.readline(args),
        Builtin::TimeMs => rt.timems(),
        Builtin::Meta => meta(args),
        Builtin::WithMeta => withmeta(args),
        Builtin::IsFn => is_fn(args),
        Builtin::IsString => is_string(args),
        Builtin::IsNumber => is_number(args),
        Builtin::SeqFn => crate::namespace::seq(args),
        Builtin::Conj => conj(args),
        Builtin::Eval => {
            if args.len() == 0 {
                Err(eval_err("'eval' expects an arg"))
            } else {
                eval(rt, args[0].deep_clone(), Env { id: 0 }, d1)
            }
        },
    }
}

/// Calls a function value; see [`apply_fn_spec`].
pub fn apply_fn(rt: &mut Runtime, func: &MalType, args: Vec<MalType>, d: u64) -> (r: MalResult)
    ensures
        (res_view(r), final(rt)@) == apply_fn_spec(func@, views(args@), old(rt)@, d as nat),
    decreases d,
{
    if d == 0 {
        return Err(depth_err());
    }
    proof { lemma_view_shape(func); }
    match func {
        MalType::BuiltinFunc(b, _) => call_builtin(rt, *b, args, d - 1),
        MalType::Lambda { params, body, capt_env, .. } => {
            let e = rt.new_frame(Some(*capt_env), crate::types::clone_values(params), args)?;
            eval(rt, body.deep_clone(), e, d - 1)
        },
        _ => Err(eval_err("not callable")),
    }
}

fn swap(rt: &mut Runtime, args: Vec<MalType>, d: u64) -> (r: MalResult)
    ensures
        (res_view(r), final(rt)@) == swap_spec(views(args@), old(rt)@, d as nat),
    decreases d,
{
    if d == 0 {
        return Err(depth_err());
    }
    if args.len() >= 2 {
        proof { lemma_view_shape(&args@[0]); }
        match &args[0] {
            MalType::Atom(a) => {
                let a = *a;
                if a < rt.atoms.len() {
                    let mut fargs: Vec<MalType> = Vec::new();
                    fargs.push(rt.atoms[a].deep_clone());
                    let mut more = clone_range(&args, 2, args.len());
                    let ghost first = fargs@;
                    fargs.append(&mut more);
                    assert(views(fargs@) =~= views(first) + views(args@).subrange(2, args@.len() as int));
                    assert(views(first) =~= seq![views(rt.atoms@)[a as int]]);
                    let v = apply_fn(rt, &args[1], fargs, d - 1)?;
                    if a < rt.atoms.len() {
                        rt.set_atom(a, v.deep_clone());
                        return Ok(v);
                    }
                    return Err(eval_err("'swap!' expects atom, func (and args)"));
                }
            },
            _ => {},
        }
    }
    Err(eval_err("'swap!' expects atom, func (and args)"))
}

fn apply_builtin(rt: &mut Runtime, args: Vec<MalType>, d: u64) -> (r: MalResult)
    ensures
        (res_view(r), final(rt)@) == apply_builtin_spec(views(args@), old(rt)@, d as nat),
    decreases d,
{
    if d == 0 {
        return Err(depth_err());
    }
    if args.len() < 2 {
        return Err(eval_err("too few args to 'apply'"));
    }
    match items_of(&args[args.len() - 1]) {
        None => Err(eval_err("'apply' expects list/vector as last arg")),
        Some(items) => {
            let mut fargs = clone_range(&args, 1, args.len() - 1);
            let mut more = crate::types::clone_values(items);
            let ghost front = fargs@;
            fargs.append(&mut more);
            assert(views(fargs@) =~= views(front) + views(items@));
            apply_fn(rt, &args[0], fargs, d - 1)
        },
    }
}

fn map_builtin(rt: &mut Runtime, args: Vec<MalType>, d: u64) -> (r: MalResult)
    ensures
        (res_view(r), final(rt)@) == map_spec(views(args@), old(rt)@, d as nat),
    decreases d,
{
    if d == 0 {
        return Err(depth_err());
    }
    if args.len() < 2 {
        return Err(eval_err("too few args to 'map'"));
    }
    match items_of(&args[1]) {
        None => Err(eval_err("'map' expects list/vector as 2nd arg")),
        Some(items) => {
            proof { lemma_view_shape(&args@[0]); }
            let callable = match &args[0] {
                MalType::BuiltinFunc(..) => true,
                MalType::Lambda { .. } => true,
                _ => false,
            };
            if !callable {
                return Err(eval_err("not callable"));
            }
            match map_items(rt, &args[0], items, d - 1) {
                Ok(vs) => Ok(new_list(vs)),
                Err(e) => Err(e),
            }
        },
    }
}

fn map_items(rt: &mut Runtime, func: &MalType, items: &Vec<MalType>, d: u64) -> (r: Result<Vec<MalType>, MalError>)
    ensures
        (seq_res_view(r), final(rt)@) == map_items_spec(func@, views(items@), 0, Seq::empty(), old(rt)@, d as nat),
    decreases d,
{
    if d == 0 {
        return Err(depth_err());
    }
    let ghost s0 = rt@;
    let ghost it = views(items@);
    let mut out: Vec<MalType> = Vec::new();
    let mut i: usize = 0;
    assert(views(out@) =~= Seq::<Val>::empty());
    while i < items.len()
        invariant
            d > 0,
            s0 == old(rt)@,
            it == views(items@),
            map_items_spec(func@, it, 0, Seq::empty(), s0, d as nat)
                == map_items_spec(func@, it, i as nat, views(out@), rt@, d as nat),
        decreases items.len() - i,
    {
        let one = vec![items[i].deep_clone()];
        assert(views(one@) =~= seq![it[i as int]]);
        match apply_fn(rt, func, one, d - 1) {
            Ok(v) => {
                let ghost prev = out@;
                let ghost vv = v@;
                out.push(v);
                assert(views(out@) =~= views(prev).push(vv));
            },
            Err(e) => {
                return Err(e);
            },
        }
        i = i + 1;
    }
    Ok(out)
}

/// The names of the special forms are distinct.
proof fn lemma_form_names()
    ensures
        form_of(Val::Symbol("def!"@)) == Form::Def,
        form_of(Val::Symbol("quote"@)) == Form::Quote,
        form_of(Val::Symbol("fn*"@)) == Form::Fn,
        form_of(Val::Symbol("let*"@)) == Form::Let,
{
    reveal_strlit("def!");
    reveal_strlit("let*");
    reveal_strlit("do");
    reveal_strlit("if");
    reveal_strlit("fn*");
    reveal_strlit("quote");
    assert("quote"@ != "def!"@) by { assert("quote"@[0] != "def!"@[0]); }
    assert("quote"@ != "let*"@) by { assert("quote"@[0] != "let*"@[0]); }
    assert("quote"@ != "do"@) by { assert("quote"@.len() != "do"@.len()); }
    assert("quote"@ != "if"@) by { assert("quote"@.len() != "if"@.len()); }
    assert("quote"@ != "fn*"@) by { assert("quote"@.len() != "fn*"@.len()); }
    assert("fn*"@ != "def!"@) by { assert("fn*"@.len() != "def!"@.len()); }
    assert("fn*"@ != "let*"@) by { assert("fn*"@.len() != "let*"@.len()); }
    assert("fn*"@ != "do"@) by { assert("fn*"@.len() != "do"@.len()); }
    assert("fn*"@ != "if"@) by { assert("fn*"@.len() != "if"@.len()); }
    assert("let*"@ != "def!"@) by { assert("let*"@[0] != "def!"@[0]); }
}

/// Whether a value evaluates to itself: it is not a symbol, a list, a vector or a hash-map.
pub open spec fn self_evaluating(v: Val) -> bool {
    !(v is Symbol || v is List || v is Vector || v is HashMap)
}

/// A value that is not a symbol or a collection evaluates to itself.
pub proof fn law_self_evaluating(v: Val, env: Env, s: RtView, d: nat, steps: nat)
    requires
        self_evaluating(v),
        d >= 2,
        steps >= 1,
    ensures
        eval_spec(v, env, s, d, steps) == (Ok::<Val, Fault>(v), trace(v, env, s)),
{
    assert(step_spec(v, env, s, (d - 1) as nat) == (StepV::Done(Ok(v)), trace(v, env, s)));
}

/// `(quote x)` evaluates to `x`, unevaluated.
pub proof fn law_quote(x: Val, m: Option<Box<Val>>, env: Env, s: RtView, d: nat, steps: nat)
    requires
        d >= 2,
        steps >= 1,
    ensures
        eval_spec(Val::List(seq![Val::Symbol("quote"@), x], m), env, s, d, steps)
            == (Ok::<Val, Fault>(x), trace(Val::List(seq![Val::Symbol("quote"@), x], m), env, s)),
{
    lemma_form_names();
    let l = seq![Val::Symbol("quote"@), x];
    let ast = Val::List(l, m);
    assert(l[0] == Val::Symbol("quote"@) && l[1] == x && l.len() == 2);
    assert(form_of(l[0]) == Form::Quote);
    assert(step_spec(ast, env, s, (d - 1) as nat) == (StepV::Done(Ok(x)), trace(ast, env, s)));
}

/// After `(def! k form)` gives a value, the symbol `k` evaluates to that value in the same
/// environment.
pub proof fn law_def_then_lookup(k: Seq<char>, form: Val, m: Option<Box<Val>>, env: Env, s: RtView, d: nat, steps: nat, d2: nat, steps2: nat)
    requires
        d2 >= 2,
        steps2 >= 1,
        eval_spec(Val::List(seq![Val::Symbol("def!"@), Val::Symbol(k), form], m), env, s, d, steps).0 is Ok,
    ensures
        ({
            let (r, s1) = eval_spec(Val::List(seq![Val::Symbol("def!"@), Val::Symbol(k), form], m), env, s, d, steps);
            eval_spec(Val::Symbol(k), env, s1, d2, steps2) == (r, trace(Val::Symbol(k), env, s1))
        }),
{
    let l = seq![Val::Symbol("def!"@), Val::Symbol(k), form];
    let ast = Val::List(l, m);
    assert(l[0] == Val::Symbol("def!"@) && l[1] == Val::Symbol(k) && l[2] == form && l.len() == 3);
    assert(form_of(l[0]) == Form::Def);
    let s0 = trace(ast, env, s);
    lemma_form_names();
    let (r, s1) = eval_spec(ast, env, s, d, steps);
    if steps == 0 || d == 0 {
        assert(r is Err);
    }
    if d == 1 {
        assert(step_spec(ast, env, s, 0) == (StepV::Done(Err(depth_fault())), s));
        assert(r is Err);
    }
    assert(steps > 0 && d > 1);
    assert(step_spec(ast, env, s, (d - 1) as nat) == done(def_spec(l, env, s0, (d - 2) as nat, false)));
    assert(eval_spec(ast, env, s, d, steps) == def_spec(l, env, s0, (d - 2) as nat, false));
    let (rv, sv) = eval_spec(form, env, s0, (d - 3) as nat, MAX_STEPS as nat);
    let v = rv->Ok_0;
    assert(s1 == env_set(sv, env, k, v));
    assert(r == env_get(s1, env, k));
    let t1 = trace(Val::Symbol(k), env, s1);
    assert(t1.frames == s1.frames);
    assert(env_get(t1, env, k) == env_get(s1, env, k));
    assert(step_spec(Val::Symbol(k), env, s1, (d2 - 1) as nat) == (StepV::Done(env_get(t1, env, k)), t1));
}

/// `(fn* params body)` evaluates to a function of those parameters and that body, which
/// captures the environment it was made in.
pub proof fn law_fn_captures_env(params: Seq<Val>, pm: Option<Box<Val>>, body: Val, m: Option<Box<Val>>, env: Env, s: RtView, d: nat, steps: nat)
    requires
        d >= 2,
        steps >= 1,
    ensures
        eval_spec(Val::List(seq![Val::Symbol("fn*"@), Val::List(params, pm), body], m), env, s, d, steps)
            == (Ok::<Val, Fault>(Val::Lambda { params, body: Box::new(body), capt_env: env, is_macro: false, meta: None }),
                trace(Val::List(seq![Val::Symbol("fn*"@), Val::List(params, pm), body], m), env, s)),
{
    lemma_form_names();
    let l = seq![Val::Symbol("fn*"@), Val::List(params, pm), body];
    let ast = Val::List(l, m);
    assert(l[0] == Val::Symbol("fn*"@) && l[1] == Val::List(params, pm) && l[2] == body && l.len() == 3);
    assert(form_of(l[0]) == Form::Fn);
    assert(step_spec(ast, env, s, (d - 1) as nat) == (StepV::Done(fn_spec(l, env)), trace(ast, env, s)));
}

/// Evaluation lets the state grow: it adds frames and atoms but removes none, keeps each
/// frame's outer frame, uses the host's replies in order without changing them, and only
/// adds printed lines.
pub proof fn law_eval_grows(ast: Val, env: Env, s: RtView, d: nat, steps: nat)
    ensures
        grows(s, eval_spec(ast, env, s, d, steps).1),
    decreases d, steps,
{
    if steps == 0 || d == 0 {
        lemma_grows_refl(s);
    } else {
        lemma_step_grows(ast, env, s, (d - 1) as nat);
        match step_spec(ast, env, s, (d - 1) as nat) {
            (StepV::Done(_), _) => {},
            (StepV::Next(a, e), s1) => {
                law_eval_grows(a, e, s1, d, (steps - 1) as nat);
                lemma_grows_trans(s, s1, eval_spec(a, e, s1, d, (steps - 1) as nat).1);
            },
        }
    }
}

proof fn lemma_step_grows(ast: Val, env: Env, s: RtView, d: nat)
    ensures
        grows(s, step_spec(ast, env, s, d).1),
    decreases d, 0int,
{
    if d == 0 {
        lemma_grows_refl(s);
    } else {
        let s1 = trace(ast, env, s);
        lemma_trace_grows(ast, env, s);
        let d1 = (d - 1) as nat;
        let t = step_spec(ast, env, s, d).1;
        match ast {
            Val::List(l, _) => if l.len() > 0 {
                match form_of(l[0]) {
                    Form::Def => { lemma_def_grows(l, env, s1, d1, false); lemma_grows_trans(s, s1, t); },
                    Form::Let => { lemma_let_grows(l, env, s1, d1); lemma_grows_trans(s, s1, t); },
                    Form::Do => { lemma_do_grows(l, env, s1, d1); lemma_grows_trans(s, s1, t); },
                    Form::If => { lemma_if_grows(l, env, s1, d1); lemma_grows_trans(s, s1, t); },
                    Form::Defmacro => { lemma_def_grows(l, env, s1, d1, true); lemma_grows_trans(s, s1, t); },
                    Form::Try => { lemma_try_grows(l, env, s1, d1); lemma_grows_trans(s, s1, t); },
                    Form::Apply => { lemma_apply_form_grows(l, env, s1, d1); lemma_grows_trans(s, s1, t); },
                    _ => {},
                }
            },
            Val::Vector(items, _) => {
                lemma_items_grow(items, 0, Seq::empty(), env, s1, d1);
                lemma_grows_trans(s, s1, t);
            },
            Val::HashMap(e, _) => {
                lemma_entries_grow(e, 0, Seq::empty(), env, s1, d1);
                lemma_grows_trans(s, s1, t);
            },
            _ => {},
        }
    }
}

proof fn lemma_def_grows(l: Seq<Val>, env: Env, s: RtView, d: nat, is_macro: bool)
    ensures
        grows(s, def_spec(l, env, s, d, is_macro).1),
    decreases d, 0int,
{
    lemma_grows_refl(s);
    if d > 0 && l.len() >= 3 && l[1] is Symbol {
        let key = l[1]->Symbol_0;
        law_eval_grows(l[2], env, s, (d - 1) as nat, MAX_STEPS as nat);
        let (r, s1) = eval_spec(l[2], env, s, (d - 1) as nat, MAX_STEPS as nat);
        if r is Ok {
            let v = r->Ok_0;
            lemma_small_steps_grow(s1, Seq::empty(), env, key, if is_macro { as_macro(v) } else { v }, 0, None);
            lemma_grows_trans(s, s1, env_set(s1, env, key, if is_macro { as_macro(v) } else { v }));
        }
    }
}

proof fn lemma_let_grows(l: Seq<Val>, env: Env, s: RtView, d: nat)
    ensures
        grows(s, let_spec(l, env, s, d).1),
    decreases d, 0int,
{
    lemma_grows_refl(s);
    if d > 0 && l.len() >= 3 && seq_items(l[1]) is Some {
        let binds = seq_items(l[1])->0;
        let s1 = push_frame(s, Some(env));
        lemma_small_steps_grow(s, Seq::empty(), env, Seq::empty(), Val::Nil, 0, Some(env));
        lemma_let_binds_grow(binds, 0, next_env(s), s1, (d - 1) as nat);
        lemma_grows_trans(s, s1, let_binds_spec(binds, 0, next_env(s), s1, (d - 1) as nat).1);
    }
}

proof fn lemma_let_binds_grow(b: Seq<Val>, i: nat, e: Env, s: RtView, d: nat)
    ensures
        grows(s, let_binds_spec(b, i, e, s, d).1),
    decreases d, b.len() - i,
{
    lemma_grows_refl(s);
    if d > 0 && i + 1 < b.len() && b[i as int] is Symbol {
        let k = b[i as int]->Symbol_0;
        law_eval_grows(b[i + 1 as int], e, s, (d - 1) as nat, MAX_STEPS as nat);
        let (r, s1) = eval_spec(b[i + 1 as int], e, s, (d - 1) as nat, MAX_STEPS as nat);
        if r is Ok {
            let s2 = env_set(s1, e, k, r->Ok_0);
            lemma_small_steps_grow(s1, Seq::empty(), e, k, r->Ok_0, 0, None);
            lemma_let_binds_grow(b, i + 2, e, s2, d);
            lemma_grows_trans(s, s1, s2);
            lemma_grows_trans(s, s2, let_binds_spec(b, i + 2, e, s2, d).1);
        }
    }
}

proof fn lemma_do_grows(l: Seq<Val>, env: Env, s: RtView, d: nat)
    ensures
        grows(s, do_spec(l, env, s, d).1),
    decreases d, 0int,
{
    lemma_grows_refl(s);
    if d > 0 && l.len() > 1 {
        lemma_seq_grows(l, 1, (l.len() - 1) as nat, env, s, (d - 1) as nat);
    }
}

proof fn lemma_seq_grows(l: Seq<Val>, i: nat, end: nat, env: Env, s: RtView, d: nat)
    ensures
        grows(s, eval_seq_spec(l, i, end, env, s, d).1),
    decreases d, end - i,
{
    lemma_grows_refl(s);
    if d > 0 && i < end && i < l.len() {
        law_eval_grows(l[i as int], env, s, (d - 1) as nat, MAX_STEPS as nat);
        let (r, s1) = eval_spec(l[i as int], env, s, (d - 1) as nat, MAX_STEPS as nat);
        if r is Ok {
            lemma_seq_grows(l, i + 1, end, env, s1, d);
            lemma_grows_trans(s, s1, eval_seq_spec(l, i + 1, end, env, s1, d).1);
        }
    }
}

proof fn lemma_if_grows(l: Seq<Val>, env: Env, s: RtView, d: nat)
    ensures
        grows(s, if_spec(l, env, s, d).1),
    decreases d, 0int,
{
    lemma_grows_refl(s);
    if d > 0 && l.len() >= 3 {
        law_eval_grows(l[1], env, s, (d - 1) as nat, MAX_STEPS as nat);
    }
}

proof fn lemma_try_grows(l: Seq<Val>, env: Env, s: RtView, d: nat)
    ensures
        grows(s, try_spec(l, env, s, d).1),
    decreases d, 0int,
{
    lemma_grows_refl(s);
    if d > 0 && l.len() >= 2 {
        law_eval_grows(l[1], env, s, (d - 1) as nat, MAX_STEPS as nat);
        let (r, s1) = eval_spec(l[1], env, s, (d - 1) as nat, MAX_STEPS as nat);
        if r is Err && !(r->Err_0 is Pending) && l.len() >= 3 && list_with_sym(l[2], "catch*"@) {
            let c = l[2]->List_0;
            if c.len() >= 3 && c[1] is Symbol {
                let s2 = push_frame(s1, Some(env));
                lemma_small_steps_grow(s1, Seq::empty(), env, Seq::empty(), Val::Nil, 0, Some(env));
                lemma_small_steps_grow(s2, Seq::empty(), next_env(s1), c[1]->Symbol_0, fault_value(r->Err_0), 0, None);
                lemma_grows_trans(s, s1, s2);
                lemma_grows_trans(s, s2, env_set(s2, next_env(s1), c[1]->Symbol_0, fault_value(r->Err_0)));
            }
        }
    }
}

proof fn lemma_apply_form_grows(l: Seq<Val>, env: Env, s: RtView, d: nat)
    ensures
        grows(s, apply_form_spec(l, env, s, d).1),
    decreases d, 0int,
{
    lemma_grows_refl(s);
    if d > 0 {
        let d1 = (d - 1) as nat;
        law_eval_grows(l[0], env, s, d1, MAX_STEPS as nat);
        let (r, s1) = eval_spec(l[0], env, s, d1, MAX_STEPS as nat);
        let t = apply_form_spec(l, env, s, d).1;
        if r is Ok {
            match r->Ok_0 {
                Val::BuiltinFunc(b, _) => {
                    lemma_items_grow(l, 1, Seq::empty(), env, s1, d1);
                    let (ra, s2) = eval_items_spec(l, 1, Seq::empty(), env, s1, d1);
                    lemma_grows_trans(s, s1, s2);
                    if ra is Ok {
                        lemma_builtin_grows(b, ra->Ok_0, s2, d1);
                        lemma_grows_trans(s, s2, t);
                    }
                },
                Val::Lambda { params, body, capt_env, is_macro, .. } => {
                    if !is_macro {
                        lemma_items_grow(l, 1, Seq::empty(), env, s1, d1);
                        let (ra, s2) = eval_items_spec(l, 1, Seq::empty(), env, s1, d1);
                        lemma_grows_trans(s, s1, s2);
                        if ra is Ok {
                            lemma_new_frame_grows(s2, Some(capt_env), params, ra->Ok_0);
                            if new_frame(s2, Some(capt_env), params, ra->Ok_0) is Ok {
                                lemma_grows_trans(s, s2, t);
                            }
                        }
                    } else {
                        lemma_new_frame_grows(s1, Some(capt_env), params, l.drop_first());
                        match new_frame(s1, Some(capt_env), params, l.drop_first()) {
                            Ok((me, s2)) => {
                                lemma_grows_trans(s, s1, s2);
                                law_eval_grows(*body, me, s2, d1, MAX_STEPS as nat);
                                lemma_grows_trans(s, s2, t);
                            },
                            Err(_) => {},
                        }
                    }
                },
                _ => {},
            }
        }
    }
}

proof fn lemma_items_grow(items: Seq<Val>, i: nat, acc: Seq<Val>, env: Env, s: RtView, d: nat)
    ensures
        grows(s, eval_items_spec(items, i, acc, env, s, d).1),
    decreases d, items.len() - i,
{
    lemma_grows_refl(s);
    if d > 0 && i < items.len() {
        law_eval_grows(items[i as int], env, s, (d - 1) as nat, MAX_STEPS as nat);
        let (r, s1) = eval_spec(items[i as int], env, s, (d - 1) as nat, MAX_STEPS as nat);
        if r is Ok {
            lemma_items_grow(items, i + 1, acc.push(r->Ok_0), env, s1, d);
            lemma_grows_trans(s, s1, eval_items_spec(items, i + 1, acc.push(r->Ok_0), env, s1, d).1);
        }
    }
}

proof fn lemma_entries_grow(es: Seq<(Seq<char>, Val)>, i: nat, acc: Seq<(Seq<char>, Val)>, env: Env, s: RtView, d: nat)
    ensures
        grows(s, eval_entries_spec(es, i, acc, env, s, d).1),
    decreases d, es.len() - i,
{
    lemma_grows_refl(s);
    if d > 0 && i < es.len() {
        law_eval_grows(es[i as int].1, env, s, (d - 1) as nat, MAX_STEPS as nat);
        let (r, s1) = eval_spec(es[i as int].1, env, s, (d - 1) as nat, MAX_STEPS as nat);
        if r is Ok {
            let acc2 = acc.push((es[i as int].0, r->Ok_0));
            lemma_entries_grow(es, i + 1, acc2, env, s1, d);
            lemma_grows_trans(s, s1, eval_entries_spec(es, i + 1, acc2, env, s1, d).1);
        }
    }
}

proof fn lemma_builtin_grows(b: Builtin, args: Seq<Val>, s: RtView, d: nat)
    ensures
        grows(s, builtin_spec(b, args, s, d).1),
    decreases d, 0int,
{
    lemma_grows_refl(s);
    lemma_stateful_builtins_grow(args, s);
    if d > 0 {
        let d1 = (d - 1) as nat;
        match b {
            Builtin::Swap => lemma_swap_grows(args, s, d1),
            Builtin::Apply => lemma_apply_builtin_grows(args, s, d1),
            Builtin::MapFn => lemma_map_grows(args, s, d1),
            Builtin::Eval => if args.len() > 0 {
                law_eval_grows(args[0], root_env(), s, d1, MAX_STEPS as nat);
            },
            _ => {},
        }
    }
}

proof fn lemma_apply_fn_grows(func: Val, args: Seq<Val>, s: RtView, d: nat)
    ensures
        grows(s, apply_fn_spec(func, args, s, d).1),
    decreases d, 0int,
{
    lemma_grows_refl(s);
    if d > 0 {
        match func {
            Val::BuiltinFunc(b, _) => lemma_builtin_grows(b, args, s, (d - 1) as nat),
            Val::Lambda { params, body, capt_env, .. } => {
                lemma_new_frame_grows(s, Some(capt_env), params, args);
                match new_frame(s, Some(capt_env), params, args) {
                    Ok((e, s1)) => {
                        law_eval_grows(*body, e, s1, (d - 1) as nat, MAX_STEPS as nat);
                        lemma_grows_trans(s, s1, eval_spec(*body, e, s1, (d - 1) as nat, MAX_STEPS as nat).1);
                    },
                    Err(_) => {},
                }
            },
            _ => {},
        }
    }
}

proof fn lemma_swap_grows(args: Seq<Val>, s: RtView, d: nat)
    ensures
        grows(s, swap_spec(args, s, d).1),
    decreases d, 0int,
{
    lemma_grows_refl(s);
    if d > 0 && args.len() >= 2 && args[0] is Atom && args[0]->Atom_0 < s.atoms.len() {
        let a = args[0]->Atom_0 as int;
        let fargs = seq![s.atoms[a]] + args.subrange(2, args.len() as int);
        lemma_apply_fn_grows(args[1], fargs, s, (d - 1) as nat);
        let (r, s1) = apply_fn_spec(args[1], fargs, s, (d - 1) as nat);
        if r is Ok && a < s1.atoms.len() {
            lemma_small_steps_grow(s1, Seq::empty(), root_env(), Seq::empty(), r->Ok_0, a, None);
            lemma_grows_trans(s, s1, atom_set(s1, a, r->Ok_0));
        }
    }
}

proof fn lemma_apply_builtin_grows(args: Seq<Val>, s: RtView, d: nat)
    ensures
        grows(s, apply_builtin_spec(args, s, d).1),
    decreases d, 0int,
{
    lemma_grows_refl(s);
    if d > 0 && args.len() >= 2 && seq_items(args.last()) is Some {
        let items = seq_items(args.last())->0;
        lemma_apply_fn_grows(args[0], args.subrange(1, args.len() - 1) + items, s, (d - 1) as nat);
    }
}

proof fn lemma_map_grows(args: Seq<Val>, s: RtView, d: nat)
    ensures
        grows(s, map_spec(args, s, d).1),
    decreases d, 0int,
{
    lemma_grows_refl(s);
    if d > 0 && args.len() >= 2 && seq_items(args[1]) is Some {
        lemma_map_items_grow(args[0], seq_items(args[1])->0, 0, Seq::empty(), s, (d - 1) as nat);
    }
}

proof fn lemma_map_items_grow(func: Val, items: Seq<Val>, i: nat, acc: Seq<Val>, s: RtView, d: nat)
    ensures
        grows(s, map_items_spec(func, items, i, acc, s, d).1),
    decreases d, items.len() - i,
{
    lemma_grows_refl(s);
    if d > 0 && i < items.len() {
        lemma_apply_fn_grows(func, seq![items[i as int]], s, (d - 1) as nat);
        let (r, s1) = apply_fn_spec(func, seq![items[i as int]], s, (d - 1) as nat);
        if r is Ok {
            lemma_map_items_grow(func, items, i + 1, acc.push(r->Ok_0), s1, d);
            lemma_grows_trans(s, s1, map_items_spec(func, items, i + 1, acc.push(r->Ok_0), s1, d).1);
        }
    }
}

/// `(let* [k form] k)` gives the value of `form`, evaluated in the new frame that the
/// `let*` makes on top of its environment.
pub proof fn law_let_binds(k: Seq<char>, form: Val, bm: Option<Box<Val>>, m: Option<Box<Val>>, env: Env, s: RtView, d: nat, steps: nat)
    requires
        d >= 5,
        steps >= 2,
        s.frames.len() + 1 < usize::MAX,
        ({
            let ast = Val::List(seq![Val::Symbol("let*"@), Val::Vector(seq![Val::Symbol(k), form], bm), Val::Symbol(k)], m);
            eval_spec(form, next_env(s), push_frame(trace(ast, env, s), Some(env)), (d - 4) as nat, MAX_STEPS as nat).0 is Ok
        }),
    ensures
        ({
            let ast = Val::List(seq![Val::Symbol("let*"@), Val::Vector(seq![Val::Symbol(k), form], bm), Val::Symbol(k)], m);
            eval_spec(ast, env, s, d, steps).0
                == eval_spec(form, next_env(s), push_frame(trace(ast, env, s), Some(env)), (d - 4) as nat, MAX_STEPS as nat).0
        }),
{
    lemma_form_names();
    let binds = seq![Val::Symbol(k), form];
    let l = seq![Val::Symbol("let*"@), Val::Vector(binds, bm), Val::Symbol(k)];
    let ast = Val::List(l, m);
    assert(l[0] == Val::Symbol("let*"@) && l[1] == Val::Vector(binds, bm) && l[2] == Val::Symbol(k) && l.len() == 3);
    assert(binds[0] == Val::Symbol(k) && binds[1] == form && binds.len() == 2);
    let s1 = trace(ast, env, s);
    let e = next_env(s1);
    assert(e == next_env(s));
    let s2 = push_frame(s1, Some(env));
    let (r3, s3) = eval_spec(form, e, s2, (d - 4) as nat, MAX_STEPS as nat);
    let x = r3->Ok_0;
    law_eval_grows(form, e, s2, (d - 4) as nat, MAX_STEPS as nat);
    let s4 = env_set(s3, e, k, x);
    assert(let_binds_spec(binds, 2, e, s4, (d - 3) as nat) == (None::<Fault>, s4));
    assert(let_binds_spec(binds, 0, e, s2, (d - 3) as nat) == (None::<Fault>, s4));
    assert(let_spec(l, env, s1, (d - 2) as nat) == (StepV::Next(Val::Symbol(k), e), s4));
    assert(step_spec(ast, env, s, (d - 1) as nat) == (StepV::Next(Val::Symbol(k), e), s4));
    assert(e.id < s3.frames.len());
    crate::runtime::law_env_get_after_set(s3, e, k, x);
    let t4 = trace(Val::Symbol(k), e, s4);
    assert(env_get(t4, e, k) == env_get(s4, e, k));
    assert(step_spec(Val::Symbol(k), e, s4, (d - 1) as nat) == (StepV::Done(env_get(t4, e, k)), t4));
    assert(eval_spec(Val::Symbol(k), e, s4, d, (steps - 1) as nat) == (env_get(t4, e, k), t4));
}

proof fn lemma_throw_try_names()
    ensures
        form_of(Val::Symbol("try*"@)) == Form::Try,
        form_of(Val::Symbol("throw"@)) == Form::Apply,
{
    reveal_strlit("def!");
    reveal_strlit("let*");
    reveal_strlit("do");
    reveal_strlit("if");
    reveal_strlit("fn*");
    reveal_strlit("quote");
    reveal_strlit("quasiquote");
    reveal_strlit("defmacro!");
    reveal_strlit("try*");
    reveal_strlit("throw");
    assert("try*"@ != "def!"@) by { assert("try*"@[0] != "def!"@[0]); }
    assert("try*"@ != "let*"@) by { assert("try*"@[0] != "let*"@[0]); }
    assert("try*"@ != "do"@) by { assert("try*"@.len() != "do"@.len()); }
    assert("try*"@ != "if"@) by { assert("try*"@.len() != "if"@.len()); }
    assert("try*"@ != "fn*"@) by { assert("try*"@.len() != "fn*"@.len()); }
    assert("try*"@ != "quote"@) by { assert("try*"@.len() != "quote"@.len()); }
    assert("try*"@ != "quasiquote"@) by { assert("try*"@.len() != "quasiquote"@.len()); }
    assert("try*"@ != "defmacro!"@) by { assert("try*"@.len() != "defmacro!"@.len()); }
    assert("throw"@ != "def!"@) by { assert("throw"@.len() != "def!"@.len()); }
    assert("throw"@ != "let*"@) by { assert("throw"@.len() != "let*"@.len()); }
    assert("throw"@ != "do"@) by { assert("throw"@.len() != "do"@.len()); }
    assert("throw"@ != "if"@) by { assert("throw"@.len() != "if"@.len()); }
    assert("throw"@ != "fn*"@) by { assert("throw"@.len() != "fn*"@.len()); }
    assert("throw"@ != "quote"@) by { assert("throw"@[0] != "quote"@[0]); }
    assert("throw"@ != "quasiquote"@) by { assert("throw"@.len() != "quasiquote"@.len()); }
    assert("throw"@ != "defmacro!"@) by { assert("throw"@.len() != "defmacro!"@.len()); }
    assert("throw"@ != "try*"@) by { assert("throw"@.len() != "try*"@.len()); }
}

/// What `(throw x)` throws inside `(try* ... (catch* e e))` is caught and is the result,
/// when `throw` names the core function and `x` evaluates to itself.
pub proof fn law_try_catches_throw(x: Val, e: Seq<char>, tm: Option<Box<Val>>, cm: Option<Box<Val>>, m: Option<Box<Val>>, fm: Option<Box<Val>>, env: Env, s: RtView, d: nat, steps: nat)
    requires
        self_evaluating(x),
        d >= 9,
        steps >= 2,
        s.frames.len() + 1 < usize::MAX,
        env_get(s, env, "throw"@) == Ok::<Val, Fault>(Val::BuiltinFunc(Builtin::Throw, fm)),
    ensures
        eval_spec(
            Val::List(seq![
                Val::Symbol("try*"@),
                Val::List(seq![Val::Symbol("throw"@), x], tm),
                Val::List(seq![Val::Symbol("catch*"@), Val::Symbol(e), Val::Symbol(e)], cm),
            ], m),
            env, s, d, steps,
        ).0 == Ok::<Val, Fault>(x),
{
    lemma_throw_try_names();
    let tl = seq![Val::Symbol("throw"@), x];
    let cl = seq![Val::Symbol("catch*"@), Val::Symbol(e), Val::Symbol(e)];
    let l = seq![Val::Symbol("try*"@), Val::List(tl, tm), Val::List(cl, cm)];
    let ast = Val::List(l, m);
    assert(l[0] == Val::Symbol("try*"@) && l[1] == Val::List(tl, tm) && l[2] == Val::List(cl, cm) && l.len() == 3);
    assert(tl[0] == Val::Symbol("throw"@) && tl[1] == x && tl.len() == 2);
    assert(cl[0] == Val::Symbol("catch*"@) && cl[1] == Val::Symbol(e) && cl[2] == Val::Symbol(e) && cl.len() == 3);
    let tf = Val::List(tl, tm);
    let mx = MAX_STEPS as nat;
    // evaluating `(throw x)`
    let s1 = trace(ast, env, s);
    let s1a = trace(tf, env, s1);
    let sym = Val::Symbol("throw"@);
    let s1b = trace(sym, env, s1a);
    assert(env_get(s1b, env, "throw"@) == env_get(s, env, "throw"@));
    assert(step_spec(sym, env, s1a, (d - 7) as nat) == (StepV::Done(env_get(s1b, env, "throw"@)), s1b));
    assert(eval_spec(sym, env, s1a, (d - 6) as nat, mx) == (Ok::<Val, Fault>(Val::BuiltinFunc(Builtin::Throw, fm)), s1b));
    law_self_evaluating(x, env, s1b, (d - 7) as nat, mx);
    let s1c = trace(x, env, s1b);
    assert(eval_items_spec(tl, 2, seq![x], env, s1c, (d - 6) as nat) == (Ok::<Seq<Val>, Fault>(seq![x]), s1c));
    assert(eval_items_spec(tl, 1, Seq::empty(), env, s1b, (d - 6) as nat) == (Ok::<Seq<Val>, Fault>(seq![x]), s1c)) by {
        assert(Seq::<Val>::empty().push(x) == seq![x]);
    }
    assert(builtin_spec(Builtin::Throw, seq![x], s1c, (d - 6) as nat) == (Err::<Val, Fault>(Fault::Thrown(x)), s1c));
    assert(apply_form_spec(tl, env, s1a, (d - 5) as nat) == (StepV::Done(Err(Fault::Thrown(x))), s1c));
    assert(step_spec(tf, env, s1, (d - 4) as nat) == (StepV::Done(Err(Fault::Thrown(x))), s1c));
    assert(eval_spec(tf, env, s1, (d - 3) as nat, mx) == (Err::<Val, Fault>(Fault::Thrown(x)), s1c));
    // catching it
    let ee = next_env(s1c);
    let s2 = push_frame(s1c, Some(env));
    let s3 = env_set(s2, ee, e, x);
    assert(fault_value(Fault::Thrown(x)) == x);
    assert(list_with_sym(l[2], "catch*"@));
    assert(try_spec(l, env, s1, (d - 2) as nat) == (StepV::Next(Val::Symbol(e), ee), s3));
    assert(step_spec(ast, env, s, (d - 1) as nat) == (StepV::Next(Val::Symbol(e), ee), s3));
    // the catch symbol gives the value
    assert(s1c.frames == s.frames);
    assert(ee.id < s2.frames.len());
    crate::runtime::law_env_get_after_set(s2, ee, e, x);
    let t3 = trace(Val::Symbol(e), ee, s3);
    assert(env_get(t3, ee, e) == env_get(s3, ee, e));
    assert(step_spec(Val::Symbol(e), ee, s3, (d - 1) as nat) == (StepV::Done(env_get(t3, ee, e)), t3));
    assert(eval_spec(Val::Symbol(e), ee, s3, d, (steps - 1) as nat) == (env_get(t3, ee, e), t3));
}

/// After `swap!` gives a value, the atom holds that value.
pub proof fn law_deref_after_swap(args: Seq<Val>, s: RtView, d: nat)
    requires
        swap_spec(args, s, d).0 is Ok,
    ensures
        deref_spec(seq![args[0]], swap_spec(args, s, d).1).0 == swap_spec(args, s, d).0,
{
}

proof fn lemma_if_do_defmacro_names()
    ensures
        form_of(Val::Symbol("if"@)) == Form::If,
        form_of(Val::Symbol("do"@)) == Form::Do,
        form_of(Val::Symbol("defmacro!"@)) == Form::Defmacro,
{
    reveal_strlit("def!");
    reveal_strlit("let*");
    reveal_strlit("do");
    reveal_strlit("if");
    reveal_strlit("fn*");
    reveal_strlit("quote");
    reveal_strlit("quasiquote");
    reveal_strlit("defmacro!");
    assert("do"@ != "def!"@) by { assert("do"@.len() != "def!"@.len()); }
    assert("do"@ != "let*"@) by { assert("do"@.len() != "let*"@.len()); }
    assert("if"@ != "def!"@) by { assert("if"@.len() != "def!"@.len()); }
    assert("if"@ != "let*"@) by { assert("if"@.len() != "let*"@.len()); }
    assert("if"@ != "do"@) by { assert("if"@[0] != "do"@[0]); }
    assert("defmacro!"@ != "def!"@) by { assert("defmacro!"@.len() != "def!"@.len()); }
    assert("defmacro!"@ != "let*"@) by { assert("defmacro!"@.len() != "let*"@.len()); }
    assert("defmacro!"@ != "do"@) by { assert("defmacro!"@.len() != "do"@.len()); }
    assert("defmacro!"@ != "if"@) by { assert("defmacro!"@.len() != "if"@.len()); }
    assert("defmacro!"@ != "fn*"@) by { assert("defmacro!"@.len() != "fn*"@.len()); }
    assert("defmacro!"@ != "quote"@) by { assert("defmacro!"@.len() != "quote"@.len()); }
    assert("defmacro!"@ != "quasiquote"@) by { assert("defmacro!"@.len() != "quasiquote"@.len()); }
}

/// A symbol evaluates to its binding seen from the environment (through the outer frames),
/// or to the error of a missing binding; no binding changes.
pub proof fn law_eval_symbol(k: Seq<char>, env: Env, s: RtView, d: nat, steps: nat)
    requires
        d >= 2,
        steps >= 1,
    ensures
        eval_spec(Val::Symbol(k), env, s, d, steps) == (env_get(s, env, k), trace(Val::Symbol(k), env, s)),
        trace(Val::Symbol(k), env, s).frames == s.frames,
{
    let t = trace(Val::Symbol(k), env, s);
    assert(env_get(t, env, k) == env_get(s, env, k));
    assert(step_spec(Val::Symbol(k), env, s, (d - 1) as nat) == (StepV::Done(env_get(t, env, k)), t));
}

/// `(if c then else)`: the condition is evaluated first and its error is the result; only
/// `nil` and `false` choose the else branch; the chosen branch is evaluated in the same
/// environment and the other is not evaluated; without an else branch a false condition gives
/// `nil`; items after the else branch are ignored.
pub proof fn law_if(l: Seq<Val>, m: Option<Box<Val>>, env: Env, s: RtView, d: nat, steps: nat)
    requires
        d >= 3,
        steps >= 1,
        l.len() >= 3,
        l[0] == Val::Symbol("if"@),
    ensures
        ({
            let ast = Val::List(l, m);
            let (r, s1) = eval_spec(l[1], env, trace(ast, env, s), (d - 3) as nat, MAX_STEPS as nat);
            eval_spec(ast, env, s, d, steps) == match r {
                Err(f) => (Err(f), s1),
                Ok(c) => if truthy(c) {
                    eval_spec(l[2], env, s1, d, (steps - 1) as nat)
                } else if l.len() > 3 {
                    eval_spec(l[3], env, s1, d, (steps - 1) as nat)
                } else {
                    (Ok(Val::Nil), s1)
                },
            }
        }),
{
    lemma_if_do_defmacro_names();
    let ast = Val::List(l, m);
    assert(step_spec(ast, env, s, (d - 1) as nat) == if_spec(l, env, trace(ast, env, s), (d - 2) as nat));
}

/// `(do form ...)`: an empty `do` gives `nil`; otherwise the forms but the last are
/// evaluated in order, the first error stopping the rest and being the result, and the last
/// form is then evaluated in the same environment.
pub proof fn law_do(l: Seq<Val>, m: Option<Box<Val>>, env: Env, s: RtView, d: nat, steps: nat)
    requires
        d >= 3,
        steps >= 1,
        l.len() >= 1,
        l[0] == Val::Symbol("do"@),
    ensures
        ({
            let ast = Val::List(l, m);
            let t = trace(ast, env, s);
            eval_spec(ast, env, s, d, steps) == if l.len() == 1 {
                (Ok(Val::Nil), t)
            } else {
                match eval_seq_spec(l, 1, (l.len() - 1) as nat, env, t, (d - 3) as nat) {
                    (None, s1) => eval_spec(l.last(), env, s1, d, (steps - 1) as nat),
                    (Some(f), s1) => (Err(f), s1),
                }
            }
        }),
{
    lemma_if_do_defmacro_names();
    let ast = Val::List(l, m);
    assert(step_spec(ast, env, s, (d - 1) as nat) == do_spec(l, env, trace(ast, env, s), (d - 2) as nat));
}

/// The forms of a `do` run in order: each is evaluated in the state the one before left, and
/// the first error stops the rest.
pub proof fn law_do_forms_in_order(l: Seq<Val>, i: nat, end: nat, env: Env, s: RtView, d: nat)
    requires
        d >= 1,
        i < end,
        i < l.len(),
    ensures
        ({
            let (r, s1) = eval_spec(l[i as int], env, s, (d - 1) as nat, MAX_STEPS as nat);
            eval_seq_spec(l, i, end, env, s, d) == match r {
                Ok(_) => eval_seq_spec(l, i + 1, end, env, s1, d),
                Err(f) => (Some(f), s1),
            }
        }),
{
}

/// `(def! k form)`: the value of `form` is bound to `k` in the environment's own frame, and
/// is the result; the other bindings of that frame and all other frames stay as they were.
pub proof fn law_def(l: Seq<Val>, k: Seq<char>, m: Option<Box<Val>>, env: Env, s: RtView, d: nat, steps: nat)
    requires
        d >= 3,
        steps >= 1,
        l.len() >= 3,
        l[0] == Val::Symbol("def!"@),
        l[1] == Val::Symbol(k),
        env.id < s.frames.len(),
    ensures
        ({
            let ast = Val::List(l, m);
            let (r, sx) = eval_spec(l[2], env, trace(ast, env, s), (d - 3) as nat, MAX_STEPS as nat);
            &&& eval_spec(ast, env, s, d, steps) == match r {
                Err(f) => (Err(f), sx),
                Ok(v) => (Ok(v), env_set(sx, env, k, v)),
            }
            &&& r matches Ok(v) ==> {
                let s2 = env_set(sx, env, k, v);
                &&& s2.frames.len() == sx.frames.len()
                &&& s2.frames[env.id as int].data == assoc_insert(sx.frames[env.id as int].data, k, v)
                &&& s2.frames[env.id as int].outer == sx.frames[env.id as int].outer
                &&& forall|i: int| 0 <= i < sx.frames.len() && i != env.id ==> #[trigger] s2.frames[i] == sx.frames[i]
            }
        }),
{
    lemma_form_names();
    let ast = Val::List(l, m);
    let t = trace(ast, env, s);
    lemma_trace_grows(ast, env, s);
    law_eval_grows(l[2], env, t, (d - 3) as nat, MAX_STEPS as nat);
    let (r, sx) = eval_spec(l[2], env, t, (d - 3) as nat, MAX_STEPS as nat);
    assert(step_spec(ast, env, s, (d - 1) as nat) == done(def_spec(l, env, t, (d - 2) as nat, false)));
    if r is Ok {
        crate::runtime::law_env_get_after_set(sx, env, k, r->Ok_0);
    }
}

/// `(defmacro! k form)`: a function value of `form` is bound to `k` in the environment's own
/// frame, marked as a macro, and is the result; any other value is refused.
pub proof fn law_defmacro(l: Seq<Val>, k: Seq<char>, m: Option<Box<Val>>, env: Env, s: RtView, d: nat, steps: nat)
    requires
        d >= 3,
        steps >= 1,
        l.len() >= 3,
        l[0] == Val::Symbol("defmacro!"@),
        l[1] == Val::Symbol(k),
        env.id < s.frames.len(),
    ensures
        ({
            let ast = Val::List(l, m);
            let (r, sx) = eval_spec(l[2], env, trace(ast, env, s), (d - 3) as nat, MAX_STEPS as nat);
            eval_spec(ast, env, s, d, steps) == match r {
                Err(f) => (Err(f), sx),
                Ok(v) => if v is Lambda {
                    (Ok(as_macro(v)), env_set(sx, env, k, as_macro(v)))
                } else {
                    (Err(Fault::Eval("'defmacro!' expects a function"@)), sx)
                },
            }
        }),
        forall|v: Val| #[trigger] as_macro(v) matches Val::Lambda { is_macro, .. } ==> is_macro,
{
    lemma_if_do_defmacro_names();
    let ast = Val::List(l, m);
    let t = trace(ast, env, s);
    lemma_trace_grows(ast, env, s);
    law_eval_grows(l[2], env, t, (d - 3) as nat, MAX_STEPS as nat);
    let (r, sx) = eval_spec(l[2], env, t, (d - 3) as nat, MAX_STEPS as nat);
    assert(step_spec(ast, env, s, (d - 1) as nat) == done(def_spec(l, env, t, (d - 2) as nat, true)));
    if r is Ok {
        crate::runtime::law_env_get_after_set(sx, env, k, as_macro(r->Ok_0));
    }
}

/// `(try* form (catch* sym handler))`: a value of `form` is the result; an error (but a
/// pending host request, which is never caught) is bound to `sym` in a new frame on top of
/// the environment, holding only that binding, and the handler is evaluated there; without a
/// `catch*` list the error is the result.
pub proof fn law_try(l: Seq<Val>, m: Option<Box<Val>>, env: Env, s: RtView, d: nat, steps: nat)
    requires
        d >= 3,
        steps >= 1,
        l.len() >= 2,
        l[0] == Val::Symbol("try*"@),
    ensures
        ({
            let ast = Val::List(l, m);
            let (r, s1) = eval_spec(l[1], env, trace(ast, env, s), (d - 3) as nat, MAX_STEPS as nat);
            eval_spec(ast, env, s, d, steps) == match r {
                Ok(v) => (Ok(v), s1),
                Err(f) => if f is Pending {
                    (Err(f), s1)
                } else if l.len() >= 3 && list_with_sym(l[2], "catch*"@) {
                    let c = l[2]->List_0;
                    if c.len() < 3 {
                        (Err(Fault::Eval("too few args to 'catch*'"@)), s1)
                    } else if c[1] is Symbol {
                        let e = next_env(s1);
                        eval_spec(c[2], e, env_set(push_frame(s1, Some(env)), e, c[1]->Symbol_0, fault_value(f)), d, (steps - 1) as nat)
                    } else {
                        (Err(Fault::Eval("'catch*' expects symbol to bind"@)), s1)
                    }
                } else {
                    (Err(f), s1)
                },
            }
        }),
        forall|s1: RtView, sym: Seq<char>, v: Val| s1.frames.len() < usize::MAX ==>
            #[trigger] env_set(push_frame(s1, Some(env)), next_env(s1), sym, v).frames
                == s1.frames.push(crate::env::FrameView { data: Seq::empty().push((sym, v)), outer: Some(env) }),
{
    lemma_throw_try_names();
    let ast = Val::List(l, m);
    assert(step_spec(ast, env, s, (d - 1) as nat) == try_spec(l, env, trace(ast, env, s), (d - 2) as nat));
    assert forall|s1: RtView, sym: Seq<char>, v: Val| s1.frames.len() < usize::MAX implies
        #[trigger] env_set(push_frame(s1, Some(env)), next_env(s1), sym, v).frames
            == s1.frames.push(crate::env::FrameView { data: Seq::empty().push((sym, v)), outer: Some(env) }) by {
        crate::assoc::lemma_find_key(Seq::<(Seq<char>, Val)>::empty(), sym);
        let p = push_frame(s1, Some(env));
        assert(next_env(s1).id as int == s1.frames.len());
        assert(p.frames.update(s1.frames.len() as int, crate::env::FrameView {
            data: assoc_insert(p.frames[s1.frames.len() as int].data, sym, v),
            outer: p.frames[s1.frames.len() as int].outer,
        }) =~= s1.frames.push(crate::env::FrameView { data: Seq::empty().push((sym, v)), outer: Some(env) }));
    }
}

/// A call of a macro `(m arg ...)`: the macro's body is evaluated on the unevaluated arguments
/// in a new frame on top of the macro's captured environment, and the form it gives is then
/// evaluated in the caller's environment; an error of binding or of the body is the result.
pub proof fn law_macro_call(l: Seq<Val>, mname: Seq<char>, m: Option<Box<Val>>, params: Seq<Val>, body: Box<Val>, capt_env: Env, meta: Option<Box<Val>>, env: Env, s: RtView, d: nat, steps: nat)
    requires
        d >= 5,
        steps >= 1,
        l.len() >= 1,
        l[0] == Val::Symbol(mname),
        form_of(Val::Symbol(mname)) == Form::Apply,
        env_get(s, env, mname) == Ok::<Val, Fault>(Val::Lambda { params, body, capt_env, is_macro: true, meta }),
    ensures
        ({
            let ast = Val::List(l, m);
            let t2 = trace(Val::Symbol(mname), env, trace(ast, env, s));
            eval_spec(ast, env, s, d, steps) == match new_frame(t2, Some(capt_env), params, l.drop_first()) {
                Ok((me, s3)) => {
                    let (r, s4) = eval_spec(*body, me, s3, (d - 3) as nat, MAX_STEPS as nat);
                    match r {
                        Ok(x) => eval_spec(x, env, s4, d, (steps - 1) as nat),
                        Err(f) => (Err(f), s4),
                    }
                },
                Err(msg) => (Err(Fault::Eval(msg)), t2),
            }
        }),
{
    let ast = Val::List(l, m);
    let t = trace(ast, env, s);
    law_eval_symbol(mname, env, t, (d - 3) as nat, MAX_STEPS as nat);
    assert(env_get(t, env, mname) == env_get(s, env, mname));
    assert(step_spec(ast, env, s, (d - 1) as nat) == apply_form_spec(l, env, t, (d - 2) as nat));
}

/// `(swap! atom f arg ...)`: `f` is called once, on the atom's content followed by the
/// arguments; its value becomes the atom's content and the result; on an error the atom is not
/// written and the error is the result.
pub proof fn law_swap(args: Seq<Val>, s: RtView, d: nat)
    requires
        d >= 1,
        args.len() >= 2,
        args[0] is Atom,
        args[0]->Atom_0 < s.atoms.len(),
    ensures
        ({
            let a = args[0]->Atom_0 as int;
            let (r, s1) = apply_fn_spec(args[1], seq![s.atoms[a]] + args.subrange(2, args.len() as int), s, (d - 1) as nat);
            swap_spec(args, s, d) == match r {
                Ok(v) => (Ok(v), atom_set(s1, a, v)),
                Err(f) => (Err(f), s1),
            }
        }),
{
    let a = args[0]->Atom_0 as int;
    lemma_apply_fn_grows(args[1], seq![s.atoms[a]] + args.subrange(2, args.len() as int), s, (d - 1) as nat);
}

/// `(apply f arg ... coll)`: `f` is called once, on the arguments between it and the last,
/// followed by the items of the last, which must be a list or vector.
pub proof fn law_apply(args: Seq<Val>, s: RtView, d: nat)
    requires
        d >= 1,
        args.len() >= 2,
        seq_items(args.last()) is Some,
    ensures
        apply_builtin_spec(args, s, d) == apply_fn_spec(args[0], args.subrange(1, args.len() - 1) + seq_items(args.last())->0, s, (d - 1) as nat),
{
}

/// Whether a core function neither reads nor changes the interpreter's state.
pub open spec fn state_free(b: Builtin) -> bool {
    !(b is Prn || b is PrStr || b is Str || b is Println || b is Slurp || b is Atom || b is Deref
        || b is Reset || b is Swap || b is Apply || b is MapFn || b is Readline || b is TimeMs
        || b is Eval)
}

/// A core function that neither reads nor changes the state gives the same result in every
/// state and with every depth budget, and leaves the state as it was.
pub proof fn law_state_free_builtin(b: Builtin, args: Seq<Val>, s: RtView, s2: RtView, d: nat, d2: nat)
    requires
        state_free(b),
        d >= 1,
        d2 >= 1,
    ensures
        builtin_spec(b, args, s, d).1 == s,
        builtin_spec(b, args, s, d).0 == builtin_spec(b, args, s2, d2).0,
{
}

/// The values of a core function that uses no state on the items from position `i` on, in
/// order; the first error stops the rest.
pub open spec fn state_free_results(b: Builtin, items: Seq<Val>, i: nat, s: RtView) -> Result<Seq<Val>, Fault>
    decreases items.len() - i,
{
    if i >= items.len() {
        Ok(Seq::empty())
    } else {
        match builtin_spec(b, seq![items[i as int]], s, 1).0 {
            Ok(y) => match state_free_results(b, items, i + 1, s) {
                Ok(ys) => Ok(seq![y] + ys),
                Err(f) => Err(f),
            },
            Err(f) => Err(f),
        }
    }
}

proof fn lemma_map_state_free(b: Builtin, fm: Option<Box<Val>>, items: Seq<Val>, i: nat, acc: Seq<Val>, s: RtView, d: nat)
    requires
        state_free(b),
        d >= 3,
    ensures
        map_items_spec(Val::BuiltinFunc(b, fm), items, i, acc, s, d) == (match state_free_results(b, items, i, s) {
            Ok(ys) => Ok(acc + ys),
            Err(f) => Err(f),
        }, s),
    decreases items.len() - i,
{
    if i < items.len() {
        law_state_free_builtin(b, seq![items[i as int]], s, s, (d - 2) as nat, 1);
        assert(apply_fn_spec(Val::BuiltinFunc(b, fm), seq![items[i as int]], s, (d - 1) as nat)
            == builtin_spec(b, seq![items[i as int]], s, (d - 2) as nat));
        lemma_map_state_free(b, fm, items, i + 1, acc.push(builtin_spec(b, seq![items[i as int]], s, 1).0->Ok_0), s, d);
        match state_free_results(b, items, i + 1, s) {
            Ok(ys) => {
                let y = builtin_spec(b, seq![items[i as int]], s, 1).0->Ok_0;
                assert(acc.push(y) + ys =~= acc + (seq![y] + ys));
            },
            Err(_) => {},
        }
    } else {
        assert(acc + Seq::<Val>::empty() =~= acc);
    }
}

/// `(map f coll arg ...)` with a core function `f` that uses no state: `f` is applied to each
/// item in order, and the list of its values is the result; the first error stops the rest
/// and is the result; arguments after the collection are ignored.
pub proof fn law_map_state_free(b: Builtin, fm: Option<Box<Val>>, args: Seq<Val>, s: RtView, d: nat)
    requires
        state_free(b),
        d >= 4,
        args.len() >= 2,
        args[0] == Val::BuiltinFunc(b, fm),
        seq_items(args[1]) is Some,
    ensures
        map_spec(args, s, d) == (match state_free_results(b, seq_items(args[1])->0, 0, s) {
            Ok(ys) => Ok(Val::List(ys, None)),
            Err(f) => Err(f),
        }, s),
{
    lemma_map_state_free(b, fm, seq_items(args[1])->0, 0, Seq::empty(), s, (d - 1) as nat);
    match state_free_results(b, seq_items(args[1])->0, 0, s) {
        Ok(ys) => {
            assert(Seq::<Val>::empty() + ys =~= ys);
        },
        Err(_) => {},
    }
}

/// `map` with any function: the function is applied to the items one at a time, in order,
/// each in the state the one before left; the first error stops the rest; when all succeed
/// there is one value per item.
pub proof fn law_map_items(func: Val, items: Seq<Val>, i: nat, acc: Seq<Val>, s: RtView, d: nat)
    requires
        d >= 1,
        i <= items.len(),
    ensures
        i < items.len() ==> ({
            let (r, s1) = apply_fn_spec(func, seq![items[i as int]], s, (d - 1) as nat);
            map_items_spec(func, items, i, acc, s, d) == match r {
                Ok(v) => map_items_spec(func, items, i + 1, acc.push(v), s1, d),
                Err(f) => (Err(f), s1),
            }
        }),
        map_items_spec(func, items, i, acc, s, d).0 matches Ok(vs) ==> vs.len() == acc.len() + items.len() - i,
    decreases items.len() - i,
{
    if i < items.len() {
        let (r, s1) = apply_fn_spec(func, seq![items[i as int]], s, (d - 1) as nat);
        if r is Ok {
            law_map_items(func, items, i + 1, acc.push(r->Ok_0), s1, d);
        }
    }
}

proof fn lemma_cons_vec_names()
    ensures
        form_of(Val::Symbol("cons"@)) == Form::Apply,
        form_of(Val::Symbol("vec"@)) == Form::Apply,
{
    reveal_strlit("def!");
    reveal_strlit("let*");
    reveal_strlit("do");
    reveal_strlit("if");
    reveal_strlit("fn*");
    reveal_strlit("quote");
    reveal_strlit("quasiquote");
    reveal_strlit("defmacro!");
    reveal_strlit("try*");
    reveal_strlit("cons");
    reveal_strlit("vec");
    assert("cons"@ != "def!"@) by { assert("cons"@[0] != "def!"@[0]); }
    assert("cons"@ != "let*"@) by { assert("cons"@[0] != "let*"@[0]); }
    assert("cons"@ != "do"@) by { assert("cons"@.len() != "do"@.len()); }
    assert("cons"@ != "if"@) by { assert("cons"@.len() != "if"@.len()); }
    assert("cons"@ != "fn*"@) by { assert("cons"@.len() != "fn*"@.len()); }
    assert("cons"@ != "quote"@) by { assert("cons"@.len() != "quote"@.len()); }
    assert("cons"@ != "quasiquote"@) by { assert("cons"@.len() != "quasiquote"@.len()); }
    assert("cons"@ != "defmacro!"@) by { assert("cons"@.len() != "defmacro!"@.len()); }
    assert("cons"@ != "try*"@) by { assert("cons"@[0] != "try*"@[0]); }
    assert("vec"@ != "def!"@) by { assert("vec"@.len() != "def!"@.len()); }
    assert("vec"@ != "let*"@) by { assert("vec"@.len() != "let*"@.len()); }
    assert("vec"@ != "do"@) by { assert("vec"@.len() != "do"@.len()); }
    assert("vec"@ != "if"@) by { assert("vec"@.len() != "if"@.len()); }
    assert("vec"@ != "fn*"@) by { assert("vec"@[0] != "fn*"@[0]); }
    assert("vec"@ != "quote"@) by { assert("vec"@.len() != "quote"@.len()); }
    assert("vec"@ != "quasiquote"@) by { assert("vec"@.len() != "quasiquote"@.len()); }
    assert("vec"@ != "defmacro!"@) by { assert("vec"@.len() != "defmacro!"@.len()); }
    assert("vec"@ != "try*"@) by { assert("vec"@.len() != "try*"@.len()); }
}

/// Whether a value holds no `unquote` or `splice-unquote` form and no list or vector with
/// metadata, at any depth.
pub open spec fn qq_plain(x: Val) -> bool
    decreases x, 0int,
{
    match x {
        Val::List(l, m) => m is None && !list_with_sym(x, "unquote"@) && qq_plain_items(l, 0),
        Val::Vector(l, m) => m is None && qq_plain_items(l, 0),
        _ => true,
    }
}

/// Whether the items from position `i` on satisfy [`qq_plain`] and none is a
/// `splice-unquote` form.
pub open spec fn qq_plain_items(l: Seq<Val>, i: int) -> bool
    decreases l, l.len() - i,
{
    if i < 0 || i >= l.len() {
        true
    } else {
        !list_with_sym(l[i], "splice-unquote"@) && qq_plain(l[i]) && qq_plain_items(l, i + 1)
    }
}

/// The depth budget that evaluating the quasiquote expansion of a value needs.
pub open spec fn qq_need(x: Val) -> nat
    decreases x, 0int,
{
    match x {
        Val::List(l, _) => qq_need_items(l, 0),
        Val::Vector(l, _) => 4 + qq_need_items(l, 0),
        _ => 2,
    }
}

/// The depth budget that evaluating the expansion of the items from position `i` on needs.
pub open spec fn qq_need_items(l: Seq<Val>, i: int) -> nat
    decreases l, l.len() - i,
{
    if i < 0 || i >= l.len() {
        2
    } else {
        let a = 4 + qq_need(l[i]);
        let b = 4 + qq_need_items(l, i + 1);
        if a > b { a } else { b }
    }
}

/// Whether `cons` and `vec` name the core functions, seen from `env`.
pub open spec fn binds_cons_vec(s: RtView, env: Env) -> bool {
    &&& env_get(s, env, "cons"@) matches Ok(Val::BuiltinFunc(Builtin::Cons, _))
    &&& env_get(s, env, "vec"@) matches Ok(Val::BuiltinFunc(Builtin::Vec, _))
}

proof fn lemma_qq_fold_eval(l: Seq<Val>, i: int, env: Env, s: RtView, d: nat, steps: nat)
    requires
        0 <= i <= l.len(),
        qq_plain_items(l, i),
        binds_cons_vec(s, env),
        d >= qq_need_items(l, i),
        steps >= 1,
    ensures
        qq_fold(l, i) is Ok,
        eval_spec(qq_fold(l, i)->Ok_0, env, s, d, steps).0 == Ok::<Val, Fault>(Val::List(l.subrange(i, l.len() as int), None)),
        eval_spec(qq_fold(l, i)->Ok_0, env, s, d, steps).1.frames == s.frames,
    decreases l, l.len() - i,
{
    if i >= l.len() {
        let e = Val::List(Seq::<Val>::empty(), None);
        assert(l.subrange(i, l.len() as int) =~= Seq::<Val>::empty());
        assert(step_spec(e, env, s, (d - 1) as nat) == (StepV::Done(Ok(e)), trace(e, env, s)));
    } else {
        lemma_cons_vec_names();
        let x = l[i];
        lemma_qq_fold_eval(l, i + 1, env, s, (d - 4) as nat, MAX_STEPS as nat);
        let rest = qq_fold(l, i + 1)->Ok_0;
        lemma_qq_eval(x, env, s, (d - 4) as nat, MAX_STEPS as nat);
        let q = qq_spec(x)->Ok_0;
        assert(qq_item(x, rest) == Ok::<Val, Fault>(Val::List(seq![Val::Symbol("cons"@), q, rest], None)));
        let cl = seq![Val::Symbol("cons"@), q, rest];
        let e = Val::List(cl, None);
        assert(cl[0] == Val::Symbol("cons"@) && cl[1] == q && cl[2] == rest && cl.len() == 3);
        let s1 = trace(e, env, s);
        law_eval_symbol("cons"@, env, s1, (d - 3) as nat, MAX_STEPS as nat);
        let s2 = trace(Val::Symbol("cons"@), env, s1);
        assert(env_get(s1, env, "cons"@) == env_get(s, env, "cons"@));
        let f = env_get(s, env, "cons"@)->Ok_0;
        lemma_qq_eval(x, env, s2, (d - 4) as nat, MAX_STEPS as nat);
        let (rq, s3) = eval_spec(q, env, s2, (d - 4) as nat, MAX_STEPS as nat);
        assert(rq == Ok::<Val, Fault>(x));
        assert(env_get(s3, env, "cons"@) == env_get(s, env, "cons"@));
        assert(env_get(s3, env, "vec"@) == env_get(s, env, "vec"@));
        lemma_qq_fold_eval(l, i + 1, env, s3, (d - 4) as nat, MAX_STEPS as nat);
        let (rr, s4) = eval_spec(rest, env, s3, (d - 4) as nat, MAX_STEPS as nat);
        let tail = l.subrange(i + 1, l.len() as int);
        assert(rr == Ok::<Val, Fault>(Val::List(tail, None)));
        assert(eval_items_spec(cl, 3, seq![x, Val::List(tail, None)], env, s4, (d - 3) as nat)
            == (Ok::<Seq<Val>, Fault>(seq![x, Val::List(tail, None)]), s4));
        assert(eval_items_spec(cl, 2, seq![x], env, s3, (d - 3) as nat)
            == (Ok::<Seq<Val>, Fault>(seq![x, Val::List(tail, None)]), s4)) by {
            assert(seq![x].push(Val::List(tail, None)) =~= seq![x, Val::List(tail, None)]);
        }
        assert(eval_items_spec(cl, 1, Seq::empty(), env, s2, (d - 3) as nat)
            == (Ok::<Seq<Val>, Fault>(seq![x, Val::List(tail, None)]), s4)) by {
            assert(Seq::<Val>::empty().push(x) =~= seq![x]);
        }
        let args = seq![x, Val::List(tail, None)];
        assert(args[0] == x && args[1] == Val::List(tail, None) && args.len() == 2);
        assert(seq![x] + tail =~= l.subrange(i, l.len() as int));
        assert(cons_spec(args) == Ok::<Val, Fault>(Val::List(l.subrange(i, l.len() as int), None)));
        assert(builtin_spec(Builtin::Cons, args, s4, (d - 3) as nat) == (cons_spec(args), s4));
        assert(apply_form_spec(cl, env, s1, (d - 2) as nat) == (StepV::Done(cons_spec(args)), s4));
        assert(step_spec(e, env, s, (d - 1) as nat) == (StepV::Done(cons_spec(args)), s4));
    }
}

proof fn lemma_qq_eval(x: Val, env: Env, s: RtView, d: nat, steps: nat)
    requires
        qq_plain(x),
        binds_cons_vec(s, env),
        d >= qq_need(x),
        steps >= 1,
    ensures
        qq_spec(x) is Ok,
        eval_spec(qq_spec(x)->Ok_0, env, s, d, steps).0 == Ok::<Val, Fault>(x),
        eval_spec(qq_spec(x)->Ok_0, env, s, d, steps).1.frames == s.frames,
    decreases x, 0int,
{
    lemma_form_names();
    lemma_cons_vec_names();
    match x {
        Val::List(l, _) => {
            lemma_qq_fold_eval(l, 0, env, s, d, steps);
            assert(l.subrange(0, l.len() as int) =~= l);
        },
        Val::Vector(l, _) => {
            let r = qq_fold(l, 0)->Ok_0;
            let vl = seq![Val::Symbol("vec"@), r];
            let e = Val::List(vl, None);
            assert(vl[0] == Val::Symbol("vec"@) && vl[1] == r && vl.len() == 2);
            let s1 = trace(e, env, s);
            law_eval_symbol("vec"@, env, s1, (d - 3) as nat, MAX_STEPS as nat);
            let s2 = trace(Val::Symbol("vec"@), env, s1);
            assert(env_get(s1, env, "vec"@) == env_get(s, env, "vec"@));
            assert(env_get(s2, env, "cons"@) == env_get(s, env, "cons"@));
            assert(env_get(s2, env, "vec"@) == env_get(s, env, "vec"@));
            lemma_qq_fold_eval(l, 0, env, s2, (d - 4) as nat, MAX_STEPS as nat);
            let (rr, s3) = eval_spec(r, env, s2, (d - 4) as nat, MAX_STEPS as nat);
            assert(l.subrange(0, l.len() as int) =~= l);
            assert(rr == Ok::<Val, Fault>(Val::List(l, None)));
            assert(eval_items_spec(vl, 2, seq![Val::List(l, None)], env, s3, (d - 3) as nat)
                == (Ok::<Seq<Val>, Fault>(seq![Val::List(l, None)]), s3));
            assert(eval_items_spec(vl, 1, Seq::empty(), env, s2, (d - 3) as nat)
                == (Ok::<Seq<Val>, Fault>(seq![Val::List(l, None)]), s3)) by {
                assert(Seq::<Val>::empty().push(Val::List(l, None)) =~= seq![Val::List(l, None)]);
            }
            let args = seq![Val::List(l, None)];
            assert(builtin_spec(Builtin::Vec, args, s3, (d - 3) as nat) == (vec_spec(args), s3));
            assert(vec_spec(args) == Ok::<Val, Fault>(x));
            assert(apply_form_spec(vl, env, s1, (d - 2) as nat) == (StepV::Done(vec_spec(args)), s3));
            assert(step_spec(e, env, s, (d - 1) as nat) == (StepV::Done(vec_spec(args)), s3));
        },
        Val::Symbol(_) => {
            law_quote(x, None, env, s, d, steps);
        },
        Val::HashMap(..) => {
            law_quote(x, None, env, s, d, steps);
        },
        _ => {
            law_self_evaluating(x, env, s, d, steps);
        },
    }
}

/// Evaluating the quasiquote expansion of a form that holds no `unquote` or
/// `splice-unquote` (and no list or vector with metadata) gives the form back, item by item
/// and with lists and vectors kept apart, when `cons` and `vec` name the core functions;
/// no binding changes.
pub proof fn law_quasiquote_round_trip(x: Val, env: Env, s: RtView, d: nat, steps: nat)
    requires
        qq_plain(x),
        binds_cons_vec(s, env),
        d >= qq_need(x),
        steps >= 1,
    ensures
        qq_spec(x) is Ok,
        eval_spec(qq_spec(x)->Ok_0, env, s, d, steps).0 == Ok::<Val, Fault>(x),
        eval_spec(qq_spec(x)->Ok_0, env, s, d, steps).1.frames == s.frames,
{
    lemma_qq_eval(x, env, s, d, steps);
}

proof fn lemma_concat_name()
    ensures
        form_of(Val::Symbol("concat"@)) == Form::Apply,
{
    reveal_strlit("def!");
    reveal_strlit("let*");
    reveal_strlit("do");
    reveal_strlit("if");
    reveal_strlit("fn*");
    reveal_strlit("quote");
    reveal_strlit("quasiquote");
    reveal_strlit("defmacro!");
    reveal_strlit("try*");
    reveal_strlit("concat");
    assert("concat"@ != "def!"@) by { assert("concat"@.len() != "def!"@.len()); }
    assert("concat"@ != "let*"@) by { assert("concat"@.len() != "let*"@.len()); }
    assert("concat"@ != "do"@) by { assert("concat"@.len() != "do"@.len()); }
    assert("concat"@ != "if"@) by { assert("concat"@.len() != "if"@.len()); }
    assert("concat"@ != "fn*"@) by { assert("concat"@.len() != "fn*"@.len()); }
    assert("concat"@ != "quote"@) by { assert("concat"@.len() != "quote"@.len()); }
    assert("concat"@ != "quasiquote"@) by { assert("concat"@.len() != "quasiquote"@.len()); }
    assert("concat"@ != "defmacro!"@) by { assert("concat"@.len() != "defmacro!"@.len()); }
    assert("concat"@ != "try*"@) by { assert("concat"@.len() != "try*"@.len()); }
}

/// Whether `concat` names the core function, seen from `env`.
pub open spec fn binds_concat(s: RtView, env: Env) -> bool {
    env_get(s, env, "concat"@) matches Ok(Val::BuiltinFunc(Builtin::Concat, _))
}

/// The list or vector that the symbol spliced by `(splice-unquote sym)` names in `env`.
pub open spec fn splice_target(x: Val, frames: Seq<FrameView>, env: Env) -> Option<Val> {
    if list_with_sym(x, "splice-unquote"@) && x->List_0.len() >= 2 && x->List_0[1] is Symbol {
        lookup(frames, env.id as int, x->List_0[1]->Symbol_0)
    } else {
        None
    }
}

/// Whether each item of a list from position `i` on is either a `(splice-unquote sym)`
/// whose symbol names a list or vector in `env`, or a form that satisfies [`qq_plain`] and
/// is no `splice-unquote` form.
pub open spec fn qq_splice_items(l: Seq<Val>, i: int, frames: Seq<FrameView>, env: Env) -> bool
    decreases l.len() - i,
{
    if i < 0 || i >= l.len() {
        true
    } else {
        (if list_with_sym(l[i], "splice-unquote"@) {
            splice_target(l[i], frames, env) matches Some(v) && seq_items(v) is Some
        } else {
            qq_plain(l[i])
        }) && qq_splice_items(l, i + 1, frames, env)
    }
}

/// The items of a quasiquoted list from position `i` on with each `(splice-unquote sym)`
/// replaced by the items of the list or vector that `sym` names, in place and in order.
pub open spec fn spliced(l: Seq<Val>, i: int, frames: Seq<FrameView>, env: Env) -> Seq<Val>
    decreases l.len() - i,
{
    if i < 0 || i >= l.len() {
        Seq::empty()
    } else if list_with_sym(l[i], "splice-unquote"@) {
        seq_items(splice_target(l[i], frames, env)->Some_0)->Some_0 + spliced(l, i + 1, frames, env)
    } else {
        seq![l[i]] + spliced(l, i + 1, frames, env)
    }
}

proof fn lemma_qq_splice_fold_eval(l: Seq<Val>, i: int, env: Env, s: RtView, d: nat, steps: nat)
    requires
        0 <= i <= l.len(),
        qq_splice_items(l, i, s.frames, env),
        binds_cons_vec(s, env),
        binds_concat(s, env),
        d >= qq_need_items(l, i),
        steps >= 1,
    ensures
        qq_fold(l, i) is Ok,
        eval_spec(qq_fold(l, i)->Ok_0, env, s, d, steps).0 == Ok::<Val, Fault>(Val::List(spliced(l, i, s.frames, env), None)),
        eval_spec(qq_fold(l, i)->Ok_0, env, s, d, steps).1.frames == s.frames,
    decreases l.len() - i,
{
    if i >= l.len() {
        let e = Val::List(Seq::<Val>::empty(), None);
        assert(spliced(l, i, s.frames, env) =~= Seq::<Val>::empty());
        assert(step_spec(e, env, s, (d - 1) as nat) == (StepV::Done(Ok(e)), trace(e, env, s)));
    } else if !list_with_sym(l[i], "splice-unquote"@) {
        lemma_cons_vec_names();
        let x = l[i];
        lemma_qq_splice_fold_eval(l, i + 1, env, s, (d - 4) as nat, MAX_STEPS as nat);
        let rest = qq_fold(l, i + 1)->Ok_0;
        lemma_qq_eval(x, env, s, (d - 4) as nat, MAX_STEPS as nat);
        let q = qq_spec(x)->Ok_0;
        assert(qq_item(x, rest) == Ok::<Val, Fault>(Val::List(seq![Val::Symbol("cons"@), q, rest], None)));
        let cl = seq![Val::Symbol("cons"@), q, rest];
        let e = Val::List(cl, None);
        assert(cl[0] == Val::Symbol("cons"@) && cl[1] == q && cl[2] == rest && cl.len() == 3);
        let s1 = trace(e, env, s);
        law_eval_symbol("cons"@, env, s1, (d - 3) as nat, MAX_STEPS as nat);
        let s2 = trace(Val::Symbol("cons"@), env, s1);
        assert(env_get(s1, env, "cons"@) == env_get(s, env, "cons"@));
        lemma_qq_eval(x, env, s2, (d - 4) as nat, MAX_STEPS as nat);
        let (rq, s3) = eval_spec(q, env, s2, (d - 4) as nat, MAX_STEPS as nat);
        assert(rq == Ok::<Val, Fault>(x));
        assert(env_get(s3, env, "cons"@) == env_get(s, env, "cons"@));
        assert(env_get(s3, env, "vec"@) == env_get(s, env, "vec"@));
        assert(env_get(s3, env, "concat"@) == env_get(s, env, "concat"@));
        lemma_qq_splice_fold_eval(l, i + 1, env, s3, (d - 4) as nat, MAX_STEPS as nat);
        let (rr, s4) = eval_spec(rest, env, s3, (d - 4) as nat, MAX_STEPS as nat);
        let tail = spliced(l, i + 1, s.frames, env);
        assert(rr == Ok::<Val, Fault>(Val::List(tail, None)));
        assert(eval_items_spec(cl, 3, seq![x, Val::List(tail, None)], env, s4, (d - 3) as nat)
            == (Ok::<Seq<Val>, Fault>(seq![x, Val::List(tail, None)]), s4));
        assert(eval_items_spec(cl, 2, seq![x], env, s3, (d - 3) as nat)
            == (Ok::<Seq<Val>, Fault>(seq![x, Val::List(tail, None)]), s4)) by {
            assert(seq![x].push(Val::List(tail, None)) =~= seq![x, Val::List(tail, None)]);
        }
        assert(eval_items_spec(cl, 1, Seq::empty(), env, s2, (d - 3) as nat)
            == (Ok::<Seq<Val>, Fault>(seq![x, Val::List(tail, None)]), s4)) by {
            assert(Seq::<Val>::empty().push(x) =~= seq![x]);
        }
        let args = seq![x, Val::List(tail, None)];
        assert(args[0] == x && args[1] == Val::List(tail, None) && args.len() == 2);
        assert(spliced(l, i, s.frames, env) == seq![x] + tail);
        assert(cons_spec(args) == Ok::<Val, Fault>(Val::List(spliced(l, i, s.frames, env), None)));
        assert(builtin_spec(Builtin::Cons, args, s4, (d - 3) as nat) == (cons_spec(args), s4));
        assert(apply_form_spec(cl, env, s1, (d - 2) as nat) == (StepV::Done(cons_spec(args)), s4));
        assert(step_spec(e, env, s, (d - 1) as nat) == (StepV::Done(cons_spec(args)), s4));
    } else {
        lemma_concat_name();
        let x = l[i];
        let xl = x->List_0;
        let y = xl[1]->Symbol_0;
        let yv = splice_target(x, s.frames, env)->Some_0;
        let ys = seq_items(yv)->Some_0;
        assert(qq_need_items(xl, 0) >= 2);
        lemma_qq_splice_fold_eval(l, i + 1, env, s, (d - 4) as nat, MAX_STEPS as nat);
        let rest = qq_fold(l, i + 1)->Ok_0;
        assert(qq_item(x, rest) == Ok::<Val, Fault>(Val::List(seq![Val::Symbol("concat"@), xl[1], rest], None)));
        let cl = seq![Val::Symbol("concat"@), xl[1], rest];
        let e = Val::List(cl, None);
        assert(cl[0] == Val::Symbol("concat"@) && cl[1] == Val::Symbol(y) && cl[2] == rest && cl.len() == 3);
        let s1 = trace(e, env, s);
        law_eval_symbol("concat"@, env, s1, (d - 3) as nat, MAX_STEPS as nat);
        let s2 = trace(Val::Symbol("concat"@), env, s1);
        assert(env_get(s1, env, "concat"@) == env_get(s, env, "concat"@));
        law_eval_symbol(y, env, s2, (d - 4) as nat, MAX_STEPS as nat);
        let s3 = trace(Val::Symbol(y), env, s2);
        assert(env_get(s2, env, y) == Ok::<Val, Fault>(yv));
        assert(env_get(s3, env, "cons"@) == env_get(s, env, "cons"@));
        assert(env_get(s3, env, "vec"@) == env_get(s, env, "vec"@));
        assert(env_get(s3, env, "concat"@) == env_get(s, env, "concat"@));
        lemma_qq_splice_fold_eval(l, i + 1, env, s3, (d - 4) as nat, MAX_STEPS as nat);
        let (rr, s4) = eval_spec(rest, env, s3, (d - 4) as nat, MAX_STEPS as nat);
        let tail = spliced(l, i + 1, s.frames, env);
        assert(rr == Ok::<Val, Fault>(Val::List(tail, None)));
        assert(eval_items_spec(cl, 3, seq![yv, Val::List(tail, None)], env, s4, (d - 3) as nat)
            == (Ok::<Seq<Val>, Fault>(seq![yv, Val::List(tail, None)]), s4));
        assert(eval_items_spec(cl, 2, seq![yv], env, s3, (d - 3) as nat)
            == (Ok::<Seq<Val>, Fault>(seq![yv, Val::List(tail, None)]), s4)) by {
            assert(seq![yv].push(Val::List(tail, None)) =~= seq![yv, Val::List(tail, None)]);
        }
        assert(eval_items_spec(cl, 1, Seq::empty(), env, s2, (d - 3) as nat)
            == (Ok::<Seq<Val>, Fault>(seq![yv, Val::List(tail, None)]), s4)) by {
            assert(Seq::<Val>::empty().push(yv) =~= seq![yv]);
        }
        let args = seq![yv, Val::List(tail, None)];
        assert(args.drop_last() =~= seq![yv]);
        assert(seq![yv].drop_last() =~= Seq::<Val>::empty());
        assert(Seq::<Val>::empty() + ys =~= ys);
        assert(concat_items(Seq::<Val>::empty()) == Some(Seq::<Val>::empty()));
        assert(seq![yv].last() == yv);
        assert(seq_items(yv) == Some(ys));
        assert(concat_items(seq![yv]) == Some(ys));
        assert(args.last() == Val::List(tail, None));
        assert(concat_items(args) == Some(ys + tail));
        assert(spliced(l, i, s.frames, env) == ys + tail);
        assert(concat_spec(args) == Ok::<Val, Fault>(Val::List(spliced(l, i, s.frames, env), None)));
        assert(builtin_spec(Builtin::Concat, args, s4, (d - 3) as nat) == (concat_spec(args), s4));
        assert(apply_form_spec(cl, env, s1, (d - 2) as nat) == (StepV::Done(concat_spec(args)), s4));
        assert(step_spec(e, env, s, (d - 1) as nat) == (StepV::Done(concat_spec(args)), s4));
    }
}

/// Evaluating the quasiquote expansion of a list puts, at the place of each
/// `(splice-unquote sym)` whose symbol names a list or vector, the items of that list or
/// vector, in order, before the items that follow it; every other item (holding no
/// `unquote` or `splice-unquote`) is given back as it is. This holds when `cons`, `vec` and
/// `concat` name the core functions, and no binding changes.
pub proof fn law_quasiquote_splice(l: Seq<Val>, m: Option<Box<Val>>, env: Env, s: RtView, d: nat, steps: nat)
    requires
        !list_with_sym(Val::List(l, m), "unquote"@),
        qq_splice_items(l, 0, s.frames, env),
        binds_cons_vec(s, env),
        binds_concat(s, env),
        d >= qq_need_items(l, 0),
        steps >= 1,
    ensures
        qq_spec(Val::List(l, m)) is Ok,
        eval_spec(qq_spec(Val::List(l, m))->Ok_0, env, s, d, steps).0 == Ok::<Val, Fault>(Val::List(spliced(l, 0, s.frames, env), None)),
        eval_spec(qq_spec(Val::List(l, m))->Ok_0, env, s, d, steps).1.frames == s.frames,
{
    lemma_qq_splice_fold_eval(l, 0, env, s, d, steps);
}

} // verus!
