//! The functions of the core namespace that compute on their arguments alone.
use vstd::prelude::*;
use crate::assoc::{assoc_get, assoc_insert, assoc_remove, assoc_contains, assoc_delete, assoc_lookup, assoc_set, keys_unique, law_remove_keeps_other_keys, law_remove_unbinds};
use crate::equality::{mal_eq, val_eq};
use crate::reader::{map_pairs, read_map, read_map_spec, read_str, read_str_spec};
use crate::text::{chars_of, owned, push_char, push_str};
use crate::types::{first_of, clone_entries, clone_meta, clone_values, entry_views, group_views, key_of, lemma_meta_none, lemma_view_shape, meta_view, new_hashmap, new_list, new_vector, res_view, views, Fault, MalError, MalResult, MalType, Val, KW_SUFFIX};

verus! {

broadcast use group_views;

/// An evaluation error with the given message.
pub fn eval_err(msg: &str) -> (e: MalError)
    ensures
        e@ == Fault::Eval(msg@),
{
    MalError::EvalError(owned(msg))
}

/// The model of an evaluation error.
pub open spec fn ev(msg: Seq<char>) -> Result<Val, Fault> {
    Err(Fault::Eval(msg))
}

/// The arithmetic operations of the core namespace.
pub enum ArithOp {
    Add,
    Sub,
    Mul,
    Div,
}

/// The character that names an arithmetic operation.
pub open spec fn arith_symbol(op: ArithOp) -> char {
    match op {
        ArithOp::Add => '+',
        ArithOp::Sub => '-',
        ArithOp::Mul => '*',
        ArithOp::Div => '/',
    }
}

/// The exact result of an arithmetic operation; division truncates toward zero.
/// `None` for a division by zero.
pub open spec fn arith_value(op: ArithOp, a: i64, b: i64) -> Option<int> {
    match op {
        ArithOp::Add => Some(a + b),
        ArithOp::Sub => Some(a - b),
        ArithOp::Mul => Some(a * b),
        ArithOp::Div => if b == 0 {
            None
        } else if (a >= 0) == (b > 0) || a == 0 {
            Some((if a >= 0 { a as int } else { -a }) / (if b > 0 { b as int } else { -b }))
        } else {
            Some(-((if a >= 0 { a as int } else { -a }) / (if b > 0 { b as int } else { -b })))
        },
    }
}

/// The model of the arithmetic builtins: the first two arguments must be numbers; a result
/// that does not fit in 64 bits, and a division by zero, are errors.
pub open spec fn arithmetic_spec(args: Seq<Val>, op: ArithOp) -> Result<Val, Fault> {
    let o = seq![arith_symbol(op)];
    if args.len() < 2 {
        ev("too few args to '"@ + o + "'"@)
    } else {
        match (args[0], args[1]) {
            (Val::Number(a), Val::Number(b)) => match arith_value(op, a, b) {
                None => ev("division by zero"@),
                Some(x) => if i64::MIN <= x <= i64::MAX {
                    Ok(Val::Number(x as i64))
                } else {
                    ev("integer overflow in '"@ + o + "'"@)
                },
            },
            _ => ev("'"@ + o + "' expects numbers"@),
        }
    }
}

fn message_with_op(before: &str, op: char, after: &str) -> (e: MalError)
    ensures
        e@ == Fault::Eval(before@ + seq![op] + after@),
{
    let mut m = owned(before);
    push_char(&mut m, op);
    push_str(&mut m, after);
    assert(m@ =~= before@ + seq![op] + after@);
    MalError::EvalError(m)
}

/// Applies an arithmetic operation to the first two arguments.
pub fn arithmetic(args: Vec<MalType>, op: ArithOp) -> (r: MalResult)
    ensures
        res_view(r) == arithmetic_spec(views(args@), op),
{
    let c = match op {
        ArithOp::Add => '+',
        ArithOp::Sub => '-',
        ArithOp::Mul => '*',
        ArithOp::Div => '/',
    };
    if args.len() < 2 {
        return Err(message_with_op("too few args to '", c, "'"));
    }
    proof { lemma_view_shape(&args@[0]); lemma_view_shape(&args@[1]); }
    match (&args[0], &args[1]) {
        (MalType::Number(a), MalType::Number(b)) => {
            let a = *a;
            let b = *b;
            let res: Option<i64> = match op {
                ArithOp::Add => a.checked_add(b),
                ArithOp::Sub => a.checked_sub(b),
                ArithOp::Mul => a.checked_mul(b),
                ArithOp::Div => {
                    if b == 0 {
                        return Err(eval_err("division by zero"));
                    }
                    a.checked_div(b)
                },
            };
            match res {
                Some(x) => Ok(MalType::Number(x)),
                None => Err(message_with_op("integer overflow in '", c, "'")),
            }
        },
        _ => Err(message_with_op("'", c, "' expects numbers")),
    }
}

/// The comparisons of the core namespace.
pub enum Comparison {
    Lt,
    Le,
    Gt,
    Ge,
}

/// The text that names a comparison.
pub open spec fn comparison_symbol(op: Comparison) -> Seq<char> {
    match op {
        Comparison::Lt => "<"@,
        Comparison::Le => "<="@,
        Comparison::Gt => ">"@,
        Comparison::Ge => ">="@,
    }
}

/// Whether a comparison holds.
pub open spec fn comparison_holds(op: Comparison, a: i64, b: i64) -> bool {
    match op {
        Comparison::Lt => a < b,
        Comparison::Le => a <= b,
        Comparison::Gt => a > b,
        Comparison::Ge => a >= b,
    }
}

/// The model of the comparison builtins on the first two arguments.
pub open spec fn numeric_compare_spec(args: Seq<Val>, op: Comparison) -> Result<Val, Fault> {
    if args.len() < 2 {
        ev("too few args to '"@ + comparison_symbol(op) + "'"@)
    } else {
        match (args[0], args[1]) {
            (Val::Number(a), Val::Number(b)) => Ok(Val::Bool(comparison_holds(op, a, b))),
            _ => ev("'"@ + comparison_symbol(op) + "' expects 2 numbers"@),
        }
    }
}

/// Compares the first two arguments, which must be numbers.
pub fn numeric_compare(args: Vec<MalType>, op: Comparison) -> (r: MalResult)
    ensures
        res_view(r) == numeric_compare_spec(views(args@), op),
{
    proof { reveal_strlit("<"); reveal_strlit("<="); reveal_strlit(">"); reveal_strlit(">="); }
    let name = match op {
        Comparison::Lt => "<",
        Comparison::Le => "<=",
        Comparison::Gt => ">",
        Comparison::Ge => ">=",
    };
    assert(name@ == comparison_symbol(op));
    if args.len() < 2 {
        let mut m = owned("too few args to '");
        push_str(&mut m, name);
        push_str(&mut m, "'");
        return Err(MalError::EvalError(m));
    }
    proof { lemma_view_shape(&args@[0]); lemma_view_shape(&args@[1]); }
    match (&args[0], &args[1]) {
        (MalType::Number(a), MalType::Number(b)) => {
            let holds = match op {
                Comparison::Lt => *a < *b,
                Comparison::Le => *a <= *b,
                Comparison::Gt => *a > *b,
                Comparison::Ge => *a >= *b,
            };
            Ok(MalType::Bool(holds))
        },
        _ => {
            let mut m = owned("'");
            push_str(&mut m, name);
            push_str(&mut m, "' expects 2 numbers");
            Err(MalError::EvalError(m))
        },
    }
}

/// The first argument, if any.
pub open spec fn first_arg(args: Seq<Val>) -> Option<Val> {
    if args.len() > 0 { Some(args[0]) } else { None }
}

/// The items of a list or vector.
pub open spec fn seq_items(v: Val) -> Option<Seq<Val>> {
    match v {
        Val::List(l, _) => Some(l),
        Val::Vector(l, _) => Some(l),
        _ => None,
    }
}

/// The items of a list or vector argument.
pub(crate) fn items_of(v: &MalType) -> (r: Option<&Vec<MalType>>)
    ensures
        match seq_items(v@) {
            Some(s) => r matches Some(l) && views(l@) == s,
            None => r is None,
        },
{
    proof { lemma_view_shape(v); }
    match v {
        MalType::List(l, _) => Some(l),
        MalType::Vector(l, _) => Some(l),
        _ => None,
    }
}

/// The model of `list`.
pub open spec fn list_spec(args: Seq<Val>) -> Result<Val, Fault> {
    Ok(Val::List(args, None))
}

/// `list`: a list of the arguments.
pub fn list(args: Vec<MalType>) -> (r: MalResult)
    ensures
        res_view(r) == list_spec(views(args@)),
{
    Ok(new_list(args))
}

/// The model of `vector`.
pub open spec fn vector_spec(args: Seq<Val>) -> Result<Val, Fault> {
    Ok(Val::Vector(args, None))
}

/// `vector`: a vector of the arguments.
pub fn vector(args: Vec<MalType>) -> (r: MalResult)
    ensures
        res_view(r) == vector_spec(views(args@)),
{
    Ok(new_vector(args))
}

/// The model of `nil?`.
pub open spec fn is_nil_spec(args: Seq<Val>) -> Result<Val, Fault> {
    Ok(Val::Bool(args.len() > 0 && { let v = args[0]; v is Nil }))
}

/// `nil?`
pub fn is_nil(args: Vec<MalType>) -> (r: MalResult)
    ensures
        res_view(r) == is_nil_spec(views(args@)),
{
    if args.len() == 0 {
        return Ok(MalType::Bool(false));
    }
    proof { lemma_view_shape(&args@[0]); }
    Ok(MalType::Bool(match &args[0] { MalType::Nil => true, _ => false }))
}

/// The model of `true?`.
pub open spec fn is_true_spec(args: Seq<Val>) -> Result<Val, Fault> {
    Ok(Val::Bool(args.len() > 0 && { let v = args[0]; v == Val::Bool(true) }))
}

/// `true?`
pub fn is_true(args: Vec<MalType>) -> (r: MalResult)
    ensures
        res_view(r) == is_true_spec(views(args@)),
{
    if args.len() == 0 {
        return Ok(MalType::Bool(false));
    }
    proof { lemma_view_shape(&args@[0]); }
    Ok(MalType::Bool(match &args[0] { MalType::Bool(b) => *b, _ => false }))
}

/// The model of `false?`.
pub open spec fn is_false_spec(args: Seq<Val>) -> Result<Val, Fault> {
    Ok(Val::Bool(args.len() > 0 && { let v = args[0]; v == Val::Bool(false) }))
}

/// `false?`
pub fn is_false(args: Vec<MalType>) -> (r: MalResult)
    ensures
        res_view(r) == is_false_spec(views(args@)),
{
    if args.len() == 0 {
        return Ok(MalType::Bool(false));
    }
    proof { lemma_view_shape(&args@[0]); }
    Ok(MalType::Bool(match &args[0] { MalType::Bool(b) => !*b, _ => false }))
}

/// The model of `symbol?`.
pub open spec fn is_symbol_spec(args: Seq<Val>) -> Result<Val, Fault> {
    Ok(Val::Bool(args.len() > 0 && { let v = args[0]; v is Symbol }))
}

/// `symbol?`
pub fn is_symbol(args: Vec<MalType>) -> (r: MalResult)
    ensures
        res_view(r) == is_symbol_spec(views(args@)),
{
    if args.len() == 0 {
        return Ok(MalType::Bool(false));
    }
    proof { lemma_view_shape(&args@[0]); }
    Ok(MalType::Bool(match &args[0] { MalType::Symbol(_) => true, _ => false }))
}

/// The model of `keyword?`.
pub open spec fn is_keyword_spec(args: Seq<Val>) -> Result<Val, Fault> {
    Ok(Val::Bool(args.len() > 0 && { let v = args[0]; v is Keyword }))
}

/// `keyword?`
pub fn is_keyword(args: Vec<MalType>) -> (r: MalResult)
    ensures
        res_view(r) == is_keyword_spec(views(args@)),
{
    if args.len() == 0 {
        return Ok(MalType::Bool(false));
    }
    proof { lemma_view_shape(&args@[0]); }
    Ok(MalType::Bool(match &args[0] { MalType::Keyword(_) => true, _ => false }))
}

/// The model of `vector?`.
pub open spec fn is_vector_spec(args: Seq<Val>) -> Result<Val, Fault> {
    Ok(Val::Bool(args.len() > 0 && { let v = args[0]; v is Vector }))
}

/// `vector?`
pub fn is_vector(args: Vec<MalType>) -> (r: MalResult)
    ensures
        res_view(r) == is_vector_spec(views(args@)),
{
    if args.len() == 0 {
        return Ok(MalType::Bool(false));
    }
    proof { lemma_view_shape(&args@[0]); }
    Ok(MalType::Bool(match &args[0] { MalType::Vector(..) => true, _ => false }))
}

/// The model of `sequential?`.
pub open spec fn is_sequential_spec(args: Seq<Val>) -> Result<Val, Fault> {
    Ok(Val::Bool(args.len() > 0 && { let v = args[0]; v is Vector || v is List }))
}

/// `sequential?`
pub fn is_sequential(args: Vec<MalType>) -> (r: MalResult)
    ensures
        res_view(r) == is_sequential_spec(views(args@)),
{
    if args.len() == 0 {
        return Ok(MalType::Bool(false));
    }
    proof { lemma_view_shape(&args@[0]); }
    Ok(MalType::Bool(match &args[0] { MalType::Vector(..) => true, MalType::List(..) => true, _ => false }))
}

/// The model of `map?`.
pub open spec fn is_map_spec(args: Seq<Val>) -> Result<Val, Fault> {
    Ok(Val::Bool(args.len() > 0 && { let v = args[0]; v is HashMap }))
}

/// `map?`
pub fn is_map(args: Vec<MalType>) -> (r: MalResult)
    ensures
        res_view(r) == is_map_spec(views(args@)),
{
    if args.len() == 0 {
        return Ok(MalType::Bool(false));
    }
    proof { lemma_view_shape(&args@[0]); }
    Ok(MalType::Bool(match &args[0] { MalType::HashMap(..) => true, _ => false }))
}

/// The model of `atom?`.
pub open spec fn is_atom_spec(args: Seq<Val>) -> Result<Val, Fault> {
    Ok(Val::Bool(args.len() > 0 && { let v = args[0]; v is Atom }))
}

/// `atom?`
pub fn is_atom(args: Vec<MalType>) -> (r: MalResult)
    ensures
        res_view(r) == is_atom_spec(views(args@)),
{
    if args.len() == 0 {
        return Ok(MalType::Bool(false));
    }
    proof { lemma_view_shape(&args@[0]); }
    Ok(MalType::Bool(match &args[0] { MalType::Atom(_) => true, _ => false }))
}

/// The model of `macro?`.
pub open spec fn is_macro_spec(args: Seq<Val>) -> Result<Val, Fault> {
    Ok(Val::Bool(args.len() > 0 && { let v = args[0]; v matches Val::Lambda { is_macro, .. } && is_macro }))
}

/// `macro?`
pub fn is_macro(args: Vec<MalType>) -> (r: MalResult)
    ensures
        res_view(r) == is_macro_spec(views(args@)),
{
    if args.len() == 0 {
        return Ok(MalType::Bool(false));
    }
    proof { lemma_view_shape(&args@[0]); }
    Ok(MalType::Bool(match &args[0] { MalType::Lambda { is_macro, .. } => *is_macro, _ => false }))
}

/// The model of `fn?`.
pub open spec fn is_fn_spec(args: Seq<Val>) -> Result<Val, Fault> {
    Ok(Val::Bool(args.len() > 0 && { let v = args[0]; v is BuiltinFunc || (v matches Val::Lambda { is_macro, .. } && !is_macro) }))
}

/// `fn?`: a builtin, or a function that is not a macro.
pub fn is_fn(args: Vec<MalType>) -> (r: MalResult)
    ensures
        res_view(r) == is_fn_spec(views(args@)),
{
    if args.len() == 0 {
        return Ok(MalType::Bool(false));
    }
    proof { lemma_view_shape(&args@[0]); }
    Ok(MalType::Bool(match &args[0] { MalType::BuiltinFunc(..) => true, MalType::Lambda { is_macro, .. } => !*is_macro, _ => false }))
}

/// The model of `string?`.
pub open spec fn is_string_spec(args: Seq<Val>) -> Result<Val, Fault> {
    Ok(Val::Bool(args.len() > 0 && { let v = args[0]; v is Str }))
}

/// `string?`
pub fn is_string(args: Vec<MalType>) -> (r: MalResult)
    ensures
        res_view(r) == is_string_spec(views(args@)),
{
    if args.len() == 0 {
        return Ok(MalType::Bool(false));
    }
    proof { lemma_view_shape(&args@[0]); }
    Ok(MalType::Bool(match &args[0] { MalType::String(_) => true, _ => false }))
}

/// The model of `number?`.
pub open spec fn is_number_spec(args: Seq<Val>) -> Result<Val, Fault> {
    Ok(Val::Bool(args.len() > 0 && { let v = args[0]; v is Number }))
}

/// `number?`
pub fn is_number(args: Vec<MalType>) -> (r: MalResult)
    ensures
        res_view(r) == is_number_spec(views(args@)),
{
    if args.len() == 0 {
        return Ok(MalType::Bool(false));
    }
    proof { lemma_view_shape(&args@[0]); }
    Ok(MalType::Bool(match &args[0] { MalType::Number(_) => true, _ => false }))
}

/// The model of `list?`.
pub open spec fn is_list_spec(args: Seq<Val>) -> Result<Val, Fault> {
    if args.len() == 0 { ev("too few args to 'list?'"@) } else { Ok(Val::Bool(args[0] is List)) }
}

/// `list?`
pub fn is_list(args: Vec<MalType>) -> (r: MalResult)
    ensures
        res_view(r) == is_list_spec(views(args@)),
{
    if args.len() == 0 {
        return Err(eval_err("too few args to 'list?'"));
    }
    proof { lemma_view_shape(&args@[0]); }
    Ok(MalType::Bool(match &args[0] { MalType::List(..) => true, _ => false }))
}

/// The model of `empty?`.
pub open spec fn is_empty_spec(args: Seq<Val>) -> Result<Val, Fault> {
    if args.len() == 0 {
        ev("too few args to 'empty?'"@)
    } else {
        match seq_items(args[0]) {
            Some(l) => Ok(Val::Bool(l.len() == 0)),
            None => ev("'empty?' expects list/vector"@),
        }
    }
}

/// `empty?`
pub fn is_empty(args: Vec<MalType>) -> (r: MalResult)
    ensures
        res_view(r) == is_empty_spec(views(args@)),
{
    if args.len() == 0 {
        return Err(eval_err("too few args to 'empty?'"));
    }
    match items_of(&args[0]) {
        Some(l) => Ok(MalType::Bool(l.len() == 0)),
        None => Err(eval_err("'empty?' expects list/vector")),
    }
}

/// The model of `count`.
pub open spec fn count_spec(args: Seq<Val>) -> Result<Val, Fault> {
    if args.len() == 0 {
        ev("too few args to 'count'"@)
    } else {
        match seq_items(args[0]) {
            Some(l) => if l.len() <= i64::MAX { Ok(Val::Number(l.len() as i64)) } else { ev("count too large"@) },
            None => if args[0] is Nil { Ok(Val::Number(0)) } else { ev("'count' expects list/vector/nil"@) },
        }
    }
}

/// `count`
pub fn count(args: Vec<MalType>) -> (r: MalResult)
    ensures
        res_view(r) == count_spec(views(args@)),
{
    if args.len() == 0 {
        return Err(eval_err("too few args to 'count'"));
    }
    proof { lemma_view_shape(&args@[0]); }
    match items_of(&args[0]) {
        Some(l) => {
            let n: u64 = l.len() as u64;
            if n <= 0x7fff_ffff_ffff_ffffu64 {
                Ok(MalType::Number(n as i64))
            } else {
                Err(eval_err("count too large"))
            }
        },
        None => match &args[0] {
            MalType::Nil => Ok(MalType::Number(0)),
            _ => Err(eval_err("'count' expects list/vector/nil")),
        },
    }
}

/// The model of `=`.
pub open spec fn eq_spec(args: Seq<Val>) -> Result<Val, Fault> {
    if args.len() < 2 { ev("too few args to '='"@) } else { Ok(Val::Bool(val_eq(args[0], args[1]))) }
}

/// `=`
pub fn eq(args: Vec<MalType>) -> (r: MalResult)
    ensures
        res_view(r) == eq_spec(views(args@)),
{
    if args.len() < 2 {
        return Err(eval_err("too few args to '='"));
    }
    Ok(MalType::Bool(mal_eq(&args[0], &args[1])))
}

/// The model of `read-string`.
pub open spec fn read_string_spec(args: Seq<Val>) -> Result<Val, Fault> {
    match first_arg(args) {
        Some(Val::Str(s)) => read_str_spec(s),
        _ => ev("'read_string' expects string"@),
    }
}

/// `read-string`
pub fn read_string(args: Vec<MalType>) -> (r: MalResult)
    ensures
        res_view(r) == read_string_spec(views(args@)),
{
    if args.len() > 0 {
        proof { lemma_view_shape(&args@[0]); }
        match &args[0] {
            MalType::String(s) => {
                return read_str(s.as_str());
            },
            _ => {},
        }
    }
    Err(eval_err("'read_string' expects string"))
}

/// The model of `throw`.
pub open spec fn throw_spec(args: Seq<Val>) -> Result<Val, Fault> {
    if args.len() == 0 { ev("'throw' expects arg"@) } else { Err(Fault::Thrown(args[0])) }
}

/// `throw`: the first argument, raised as an exception.
pub fn throw(args: Vec<MalType>) -> (r: MalResult)
    ensures
        res_view(r) == throw_spec(views(args@)),
{
    if args.len() == 0 {
        return Err(eval_err("'throw' expects arg"));
    }
    Err(MalError::Exception(args[0].deep_clone()))
}

/// The model of `symbol`.
pub open spec fn symbol_spec(args: Seq<Val>) -> Result<Val, Fault> {
    if args.len() == 0 {
        ev("too few args to 'symbol'"@)
    } else {
        match args[0] {
            Val::Str(s) => Ok(Val::Symbol(s)),
            _ => ev("'symbol' expects string"@),
        }
    }
}

/// `symbol`: the symbol named by a string.
pub fn symbol(args: Vec<MalType>) -> (r: MalResult)
    ensures
        res_view(r) == symbol_spec(views(args@)),
{
    if args.len() == 0 {
        return Err(eval_err("too few args to 'symbol'"));
    }
    proof { lemma_view_shape(&args@[0]); }
    match &args[0] {
        MalType::String(s) => Ok(MalType::Symbol(s.clone())),
        _ => Err(eval_err("'symbol' expects string")),
    }
}

/// The model of `keyword`.
pub open spec fn keyword_spec(args: Seq<Val>) -> Result<Val, Fault> {
    if args.len() == 0 {
        ev("too few args to 'keyword'"@)
    } else {
        match args[0] {
            Val::Keyword(k) => Ok(Val::Keyword(k)),
            Val::Str(s) => Ok(Val::Keyword(seq![':'] + s)),
            _ => ev("'keyword' expects string"@),
        }
    }
}

/// `keyword`: a keyword stays; a string `s` gives the keyword `:s`.
pub fn keyword(args: Vec<MalType>) -> (r: MalResult)
    ensures
        res_view(r) == keyword_spec(views(args@)),
{
    if args.len() == 0 {
        return Err(eval_err("too few args to 'keyword'"));
    }
    proof { lemma_view_shape(&args@[0]); }
    match &args[0] {
        MalType::Keyword(k) => Ok(MalType::Keyword(k.clone())),
        MalType::String(s) => {
            let mut k = String::new();
            push_char(&mut k, ':');
            push_str(&mut k, s.as_str());
            assert(k@ =~= seq![':'] + s@);
            Ok(MalType::Keyword(k))
        },
        _ => Err(eval_err("'keyword' expects string")),
    }
}

/// The model of `cons`.
pub open spec fn cons_spec(args: Seq<Val>) -> Result<Val, Fault> {
    if args.len() >= 2 && seq_items(args[1]) is Some {
        Ok(Val::List(seq![args[0]] + seq_items(args[1])->0, None))
    } else {
        ev("'cons' expects value and list/vector"@)
    }
}

/// `cons`: a list of a value followed by the items of a list or vector.
pub fn cons(args: Vec<MalType>) -> (r: MalResult)
    ensures
        res_view(r) == cons_spec(views(args@)),
{
    if args.len() >= 2 {
        match items_of(&args[1]) {
            Some(l) => {
                let mut out: Vec<MalType> = Vec::new();
                out.push(args[0].deep_clone());
                let mut rest = clone_values(l);
                out.append(&mut rest);
                assert(views(out@) =~= seq![views(args@)[0]] + views(l@));
                return Ok(new_list(out));
            },
            None => {},
        }
    }
    Err(eval_err("'cons' expects value and list/vector"))
}

/// The items of all arguments, in order, when each is a list or vector.
pub open spec fn concat_items(args: Seq<Val>) -> Option<Seq<Val>>
    decreases args.len(),
{
    if args.len() == 0 {
        Some(Seq::empty())
    } else {
        match (concat_items(args.drop_last()), seq_items(args.last())) {
            (Some(a), Some(b)) => Some(a + b),
            _ => None,
        }
    }
}

/// The model of `concat`.
pub open spec fn concat_spec(args: Seq<Val>) -> Result<Val, Fault> {
    match concat_items(args) {
        Some(s) => Ok(Val::List(s, None)),
        None => ev("'concat' expects lists/vectors"@),
    }
}

/// `concat`: a list of the items of all arguments.
pub fn concat(args: Vec<MalType>) -> (r: MalResult)
    ensures
        res_view(r) == concat_spec(views(args@)),
{
    let mut out: Vec<MalType> = Vec::new();
    let mut i: usize = 0;
    while i < args.len()
        invariant
            i <= args.len(),
            concat_items(views(args@).take(i as int)) == Some(views(out@)),
        decreases args.len() - i,
    {
        assert(views(args@).take(i + 1).drop_last() == views(args@).take(i as int));
        assert(views(args@).take(i + 1).last() == args@[i as int]@);
        match items_of(&args[i]) {
            Some(l) => {
                let mut more = clone_values(l);
                let ghost prev = out@;
                out.append(&mut more);
                assert(views(out@) =~= views(prev) + views(l@));
            },
            None => {
                proof { lemma_concat_none(views(args@), i as int + 1); }
                return Err(eval_err("'concat' expects lists/vectors"));
            },
        }
        i = i + 1;
    }
    assert(views(args@).take(args.len() as int) == views(args@));
    Ok(new_list(out))
}

proof fn lemma_concat_none(s: Seq<Val>, k: int)
    requires
        0 < k <= s.len(),
        concat_items(s.take(k)) is None,
    ensures
        concat_items(s) is None,
    decreases s.len() - k,
{
    if k < s.len() {
        assert(s.take(k + 1).drop_last() == s.take(k));
        lemma_concat_none(s, k + 1);
    } else {
        assert(s.take(k) == s);
    }
}

/// The model of `vec`.
pub open spec fn vec_spec(args: Seq<Val>) -> Result<Val, Fault> {
    if args.len() == 0 {
        ev("'vec' expects list/vector"@)
    } else {
        match args[0] {
            Val::List(l, _) => Ok(Val::Vector(l, None)),
            Val::Vector(l, m) => Ok(Val::Vector(l, m)),
            _ => ev("'vec' expects list/vector"@),
        }
    }
}

/// `vec`: a list's items as a vector; a vector as it is.
pub fn vec(args: Vec<MalType>) -> (r: MalResult)
    ensures
        res_view(r) == vec_spec(views(args@)),
{
    if args.len() == 0 {
        return Err(eval_err("'vec' expects list/vector"));
    }
    proof { lemma_view_shape(&args@[0]); }
    match &args[0] {
        MalType::List(l, _) => Ok(new_vector(clone_values(l))),
        MalType::Vector(..) => Ok(args[0].deep_clone()),
        _ => Err(eval_err("'vec' expects list/vector")),
    }
}

/// The model of `nth`.
pub open spec fn nth_spec(args: Seq<Val>) -> Result<Val, Fault> {
    if args.len() >= 2 && seq_items(args[0]) is Some && args[1] is Number {
        let l = seq_items(args[0])->0;
        let n = args[1]->Number_0;
        if 0 <= n < l.len() { Ok(l[n as int]) } else { ev("out of bounds"@) }
    } else {
        ev("'nth' expects list/vector and number"@)
    }
}

/// `nth`: the item at an index of a list or vector.
pub fn nth(args: Vec<MalType>) -> (r: MalResult)
    ensures
        res_view(r) == nth_spec(views(args@)),
{
    if args.len() >= 2 {
        proof { lemma_view_shape(&args@[1]); }
        match (items_of(&args[0]), &args[1]) {
            (Some(l), MalType::Number(n)) => {
                if *n >= 0 && (*n as u64) < (l.len() as u64) {
                    return Ok(l[*n as usize].deep_clone());
                } else {
                    return Err(eval_err("out of bounds"));
                }
            },
            _ => {},
        }
    }
    Err(eval_err("'nth' expects list/vector and number"))
}

/// The model of `first`.
pub open spec fn first_spec(args: Seq<Val>) -> Result<Val, Fault> {
    if args.len() == 0 {
        ev("'first' expects list/vector/nil"@)
    } else {
        match first_of(args[0]) {
            Some(v) => Ok(v),
            None => ev("'first' expects list/vector/nil"@),
        }
    }
}

/// `first`: the first item of a list or vector; `nil` for `nil` and when empty.
pub fn first(args: Vec<MalType>) -> (r: MalResult)
    ensures
        res_view(r) == first_spec(views(args@)),
{
    if args.len() == 0 {
        return Err(eval_err("'first' expects list/vector/nil"));
    }
    match args[0].deep_clone().get_first() {
        Some(v) => Ok(v),
        None => Err(eval_err("'first' expects list/vector/nil")),
    }
}

/// The model of `rest`.
pub open spec fn rest_spec(args: Seq<Val>) -> Result<Val, Fault> {
    if args.len() == 0 {
        ev("'rest' expects list/vector/nil"@)
    } else if args[0] is Nil {
        Ok(Val::List(Seq::empty(), None))
    } else {
        match seq_items(args[0]) {
            Some(l) => Ok(Val::List(if l.len() == 0 { l } else { l.drop_first() }, None)),
            None => ev("'rest' expects list/vector/nil"@),
        }
    }
}

/// `rest`: a list of all items but the first.
pub fn rest(args: Vec<MalType>) -> (r: MalResult)
    ensures
        res_view(r) == rest_spec(views(args@)),
{
    if args.len() == 0 {
        return Err(eval_err("'rest' expects list/vector/nil"));
    }
    proof { lemma_view_shape(&args@[0]); }
    match &args[0] {
        MalType::Nil => {
            let empty: Vec<MalType> = Vec::new();
            assert(views(empty@) =~= Seq::<Val>::empty());
            return Ok(new_list(empty));
        },
        _ => {},
    }
    match items_of(&args[0]) {
        Some(l) => {
            let mut out = clone_values(l);
            if out.len() > 0 {
                let ghost before = out@;
                let _dropped = out.remove(0);
                assert(views(out@) =~= views(before).drop_first());
            }
            Ok(new_list(out))
        },
        None => Err(eval_err("'rest' expects list/vector/nil")),
    }
}

/// A parse error turned into an evaluation error with the same message; other results unchanged.
pub open spec fn parse_as_eval(r: Result<Val, Fault>) -> Result<Val, Fault> {
    match r {
        Err(Fault::Parse(m)) => Err(Fault::Eval(m)),
        _ => r,
    }
}

fn reparse_as_eval(r: MalResult) -> (out: MalResult)
    ensures
        res_view(out) == parse_as_eval(res_view(r)),
{
    match r {
        Err(MalError::ParseError(m)) => Err(MalError::EvalError(m)),
        _ => r,
    }
}

/// `hash-map`: a hash-map of alternating keys and values.
pub fn hashmap(args: Vec<MalType>) -> (r: MalResult)
    ensures
        res_view(r) == parse_as_eval(read_map_spec(views(args@))),
{
    reparse_as_eval(read_map(args))
}

/// The model of `assoc`: the pairs after the first argument are added to its entries.
pub open spec fn assoc_spec(args: Seq<Val>) -> Result<Val, Fault> {
    if args.len() == 0 {
        ev("too few args to 'assoc'"@)
    } else {
        match args[0] {
            Val::HashMap(e, _) => if (args.len() - 1) % 2 == 1 {
                ev("odd number of items in {} literal"@)
            } else {
                match map_pairs(args, 1, e) {
                    Ok(e2) => Ok(Val::HashMap(e2, None)),
                    Err(f) => parse_as_eval(Err(f)),
                }
            },
            _ => ev("'assoc' expects map (and args)"@),
        }
    }
}

/// `assoc`: a hash-map with more keys bound.
pub fn assoc(args: Vec<MalType>) -> (r: MalResult)
    ensures
        res_view(r) == assoc_spec(views(args@)),
{
    if args.len() == 0 {
        return Err(eval_err("too few args to 'assoc'"));
    }
    proof { lemma_view_shape(&args@[0]); }
    match &args[0] {
        MalType::HashMap(orig, _) => {
            if (args.len() - 1) % 2 == 1 {
                return Err(eval_err("odd number of items in {} literal"));
            }
            let ghost items = views(args@);
            let mut map = clone_entries(orig);
            let mut i: usize = 1;
            while i < args.len() - 1
                invariant
                    items == views(args@),
                    args@.len() >= 1,
                    i % 2 == 1,
                    1 <= i <= args@.len(),
                    (args@.len() - 1) % 2 == 0,
                    items[0] is HashMap && items[0]->HashMap_0 == entry_views(orig@),
                    map_pairs(items, 1, entry_views(orig@)) == map_pairs(items, i as int, entry_views(map@)),
                decreases args.len() - i,
            {
                assert(items[i as int] == args@[i as int]@);
                assert(items[i + 1] == args@[i + 1]@);
                match args[i].to_key() {
                    Ok(key) => {
                        assoc_set(&mut map, key, args[i + 1].deep_clone());
                    },
                    Err(_) => {
                        assert(key_of(items[i as int]) is None);
                        assert(map_pairs(items, i as int, entry_views(map@)) == Err::<Seq<(Seq<char>, Val)>, Fault>(Fault::Parse("hash-map key not hashable"@)));
                        return Err(eval_err("hash-map key not hashable"));
                    },
                }
                i = i + 2;
            }
            Ok(new_hashmap(map))
        },
        _ => Err(eval_err("'assoc' expects map (and args)")),
    }
}

/// The entries `acc` without the keys given from position `i` on.
pub open spec fn dissoc_from(keys: Seq<Val>, i: int, acc: Seq<(Seq<char>, Val)>) -> Result<Seq<(Seq<char>, Val)>, Fault>
    decreases keys.len() - i,
{
    if i < 0 || i >= keys.len() {
        Ok(acc)
    } else {
        match key_of(keys[i]) {
            Some(k) => dissoc_from(keys, i + 1, assoc_remove(acc, k)),
            None => Err(Fault::Parse("hash-map key not hashable"@)),
        }
    }
}

/// The model of `dissoc`.
pub open spec fn dissoc_spec(args: Seq<Val>) -> Result<Val, Fault> {
    if args.len() == 0 {
        ev("too few args to 'dissoc'"@)
    } else {
        match args[0] {
            Val::HashMap(e, _) => match dissoc_from(args, 1, e) {
                Ok(e2) => Ok(Val::HashMap(e2, None)),
                Err(f) => Err(f),
            },
            _ => ev("'dissoc' expects map (and args)"@),
        }
    }
}

/// `dissoc`: a hash-map without the given keys.
pub fn dissoc(args: Vec<MalType>) -> (r: MalResult)
    ensures
        res_view(r) == dissoc_spec(views(args@)),
{
    if args.len() == 0 {
        return Err(eval_err("too few args to 'dissoc'"));
    }
    proof { lemma_view_shape(&args@[0]); }
    match &args[0] {
        MalType::HashMap(orig, _) => {
            let ghost items = views(args@);
            let mut map = clone_entries(orig);
            let mut i: usize = 1;
            while i < args.len()
                invariant
                    items == views(args@),
                    1 <= i <= args@.len(),
                    items[0] is HashMap && items[0]->HashMap_0 == entry_views(orig@),
                    dissoc_from(items, 1, entry_views(orig@)) == dissoc_from(items, i as int, entry_views(map@)),
                decreases args.len() - i,
            {
                assert(items[i as int] == args@[i as int]@);
                match args[i].to_key() {
                    Ok(key) => {
                        assoc_delete(&mut map, key.as_str());
                    },
                    Err(e) => {
                        assert(key_of(items[i as int]) is None);
                        assert(dissoc_from(items, i as int, entry_views(map@)) == Err::<Seq<(Seq<char>, Val)>, Fault>(Fault::Parse("hash-map key not hashable"@)));
                        return Err(e);
                    },
                }
                i = i + 1;
            }
            Ok(new_hashmap(map))
        },
        _ => Err(eval_err("'dissoc' expects map (and args)")),
    }
}

/// The model of `get`: the value bound to the key, `nil` when there is none or when the
/// map is `nil`.
pub open spec fn get_spec(args: Seq<Val>) -> Result<Val, Fault> {
    if args.len() >= 2 && args[0] is HashMap {
        match key_of(args[1]) {
            Some(k) => match assoc_get(args[0]->HashMap_0, k) {
                Some(v) => Ok(v),
                None => Ok(Val::Nil),
            },
            None => Err(Fault::Parse("hash-map key not hashable"@)),
        }
    } else if args.len() >= 2 && args[0] is Nil {
        Ok(Val::Nil)
    } else {
        ev("'get' expects map and key"@)
    }
}

/// `get`
pub fn get(args: Vec<MalType>) -> (r: MalResult)
    ensures
        res_view(r) == get_spec(views(args@)),
{
    if args.len() < 2 {
        return Err(eval_err("'get' expects map and key"));
    }
    proof { lemma_view_shape(&args@[0]); }
    match &args[0] {
        MalType::HashMap(map, _) => {
            let key = args[1].to_key()?;
            match assoc_lookup(map, key.as_str()) {
                Some(v) => Ok(v),
                None => Ok(MalType::Nil),
            }
        },
        MalType::Nil => Ok(MalType::Nil),
        _ => Err(eval_err("'get' expects map and key")),
    }
}

/// The model of `contains?`.
pub open spec fn contains_spec(args: Seq<Val>) -> Result<Val, Fault> {
    if args.len() >= 2 && args[0] is HashMap {
        match key_of(args[1]) {
            Some(k) => Ok(Val::Bool(assoc_get(args[0]->HashMap_0, k) is Some)),
            None => Err(Fault::Parse("hash-map key not hashable"@)),
        }
    } else {
        ev("'contains?' expects map and key"@)
    }
}

/// `contains?`
pub fn contains(args: Vec<MalType>) -> (r: MalResult)
    ensures
        res_view(r) == contains_spec(views(args@)),
{
    if args.len() < 2 {
        return Err(eval_err("'contains?' expects map and key"));
    }
    proof { lemma_view_shape(&args@[0]); }
    match &args[0] {
        MalType::HashMap(map, _) => {
            let key = args[1].to_key()?;
            Ok(MalType::Bool(assoc_contains(map, key.as_str())))
        },
        _ => Err(eval_err("'contains?' expects map and key")),
    }
}

/// The value that a hash-map key stands for: a keyword when it ends in [`KW_SUFFIX`],
/// else a string.
pub open spec fn key_value(k: Seq<char>) -> Val {
    if k.len() > 0 && k.last() == KW_SUFFIX { Val::Keyword(k.drop_last()) } else { Val::Str(k) }
}

/// The model of `keys`.
pub open spec fn keys_spec(args: Seq<Val>) -> Result<Val, Fault> {
    if args.len() > 0 && args[0] is HashMap {
        let e = args[0]->HashMap_0;
        Ok(Val::List(Seq::new(e.len(), |i: int| key_value(e[i].0)), None))
    } else {
        ev("'keys' expects map"@)
    }
}

fn key_to_value(k: &String) -> (r: MalType)
    ensures
        r@ == key_value(k@),
{
    if crate::text::ends_with_char(k.as_str(), KW_SUFFIX) {
        let cs = chars_of(k.as_str());
        let mut out = String::new();
        let mut j: usize = 0;
        while j < cs.len() - 1
            invariant
                cs@ == k@,
                cs@.len() > 0,
                j < cs@.len(),
                out@ == cs@.take(j as int),
            decreases cs.len() - j,
        {
            push_char(&mut out, cs[j]);
            assert(cs@.take(j + 1) == cs@.take(j as int).push(cs@[j as int]));
            j = j + 1;
        }
        assert(cs@.take(j as int) =~= k@.drop_last());
        MalType::Keyword(out)
    } else {
        MalType::String(k.clone())
    }
}

/// `keys`: a list of a hash-map's keys, in the order of its entries.
pub fn keys(args: Vec<MalType>) -> (r: MalResult)
    ensures
        res_view(r) == keys_spec(views(args@)),
{
    if args.len() > 0 {
        proof { lemma_view_shape(&args@[0]); }
        match &args[0] {
            MalType::HashMap(map, _) => {
                let ghost e = entry_views(map@);
                let mut out: Vec<MalType> = Vec::new();
                let mut i: usize = 0;
                while i < map.len()
                    invariant
                        e == entry_views(map@),
                        i <= map@.len(),
                        out@.len() == i,
                        views(out@) == Seq::new(i as nat, |m: int| key_value(e[m].0)),
                    decreases map.len() - i,
                {
                    let ghost prev = out@;
                    out.push(key_to_value(&map[i].0));
                    assert(e[i as int].0 == map@[i as int].0@);
                    assert forall|m: int| 0 <= m < i + 1 implies #[trigger] views(out@)[m] == key_value(e[m].0) by {
                        if m < i {
                            assert(out@[m] == prev[m]);
                            assert(views(prev)[m] == prev[m]@);
                        }
                    }
                    assert(views(out@) =~= Seq::new((i + 1) as nat, |m: int| key_value(e[m].0)));
                    i = i + 1;
                }
                return Ok(new_list(out));
            },
            _ => {},
        }
    }
    Err(eval_err("'keys' expects map"))
}

/// The model of `vals`.
pub open spec fn vals_spec(args: Seq<Val>) -> Result<Val, Fault> {
    if args.len() > 0 && args[0] is HashMap {
        let e = args[0]->HashMap_0;
        Ok(Val::List(Seq::new(e.len(), |i: int| e[i].1), None))
    } else {
        ev("'vals' expects map"@)
    }
}

/// `vals`: a list of a hash-map's values, in the order of its entries.
pub fn vals(args: Vec<MalType>) -> (r: MalResult)
    ensures
        res_view(r) == vals_spec(views(args@)),
{
    if args.len() > 0 {
        proof { lemma_view_shape(&args@[0]); }
        match &args[0] {
            MalType::HashMap(map, _) => {
                let ghost e = entry_views(map@);
                let mut out: Vec<MalType> = Vec::new();
                let mut i: usize = 0;
                while i < map.len()
                    invariant
                        e == entry_views(map@),
                        i <= map@.len(),
                        out@.len() == i,
                        views(out@) == Seq::new(i as nat, |m: int| e[m].1),
                    decreases map.len() - i,
                {
                    let ghost prev = out@;
                    out.push(map[i].1.deep_clone());
                    assert(e[i as int].1 == map@[i as int].1@);
                    assert forall|m: int| 0 <= m < i + 1 implies #[trigger] views(out@)[m] == e[m].1 by {
                        if m < i {
                            assert(out@[m] == prev[m]);
                            assert(views(prev)[m] == prev[m]@);
                        }
                    }
                    assert(views(out@) =~= Seq::new((i + 1) as nat, |m: int| e[m].1));
                    i = i + 1;
                }
                return Ok(new_list(out));
            },
            _ => {},
        }
    }
    Err(eval_err("'vals' expects map"))
}

/// The metadata slot of a value that can carry metadata; `None` for other values.
pub open spec fn meta_slot(v: Val) -> Option<Option<Box<Val>>> {
    match v {
        Val::List(_, m) => Some(m),
        Val::Vector(_, m) => Some(m),
        Val::HashMap(_, m) => Some(m),
        Val::BuiltinFunc(_, m) => Some(m),
        Val::Lambda { meta, .. } => Some(meta),
        _ => None,
    }
}

/// The value that metadata stands for: `nil` when there is none.
pub open spec fn meta_value(m: Option<Box<Val>>) -> Val {
    match m {
        Some(b) => *b,
        None => Val::Nil,
    }
}

/// The model of `meta`.
pub open spec fn meta_spec(args: Seq<Val>) -> Result<Val, Fault> {
    if args.len() == 0 {
        ev("too few args to 'meta'"@)
    } else {
        match meta_slot(args[0]) {
            Some(m) => Ok(meta_value(m)),
            None => ev("'meta' not supported for given type"@),
        }
    }
}

fn meta_of(m: &Option<Box<MalType>>) -> (r: MalType)
    ensures
        r@ == meta_value(meta_view(*m)),
{
    match m {
        Some(b) => b.deep_clone(),
        None => MalType::Nil,
    }
}

/// `meta`: the metadata of a collection or function, `nil` when it has none.
pub fn meta(args: Vec<MalType>) -> (r: MalResult)
    ensures
        res_view(r) == meta_spec(views(args@)),
{
    if args.len() == 0 {
        return Err(eval_err("too few args to 'meta'"));
    }
    proof { lemma_view_shape(&args@[0]); }
    match &args[0] {
        MalType::List(_, m) => Ok(meta_of(m)),
        MalType::Vector(_, m) => Ok(meta_of(m)),
        MalType::HashMap(_, m) => Ok(meta_of(m)),
        MalType::BuiltinFunc(_, m) => Ok(meta_of(m)),
        MalType::Lambda { meta, .. } => Ok(meta_of(meta)),
        _ => Err(eval_err("'meta' not supported for given type")),
    }
}

/// A value with its metadata replaced by `m`; `None` for values that carry no metadata.
pub open spec fn with_meta(v: Val, m: Val) -> Option<Val> {
    let nm = Some(Box::new(m));
    match v {
        Val::List(l, _) => Some(Val::List(l, nm)),
        Val::Vector(l, _) => Some(Val::Vector(l, nm)),
        Val::HashMap(e, _) => Some(Val::HashMap(e, nm)),
        Val::BuiltinFunc(f, _) => Some(Val::BuiltinFunc(f, nm)),
        Val::Lambda { params, body, capt_env, is_macro, .. } =>
            Some(Val::Lambda { params, body, capt_env, is_macro, meta: nm }),
        _ => None,
    }
}

/// The model of `with-meta`.
pub open spec fn withmeta_spec(args: Seq<Val>) -> Result<Val, Fault> {
    if args.len() < 2 {
        ev("too few args to 'with-meta'"@)
    } else {
        match with_meta(args[0], args[1]) {
            Some(v) => Ok(v),
            None => ev("'with-meta' not supported for given type"@),
        }
    }
}

/// `with-meta`: a copy of a collection or function with other metadata.
pub fn withmeta(args: Vec<MalType>) -> (r: MalResult)
    ensures
        res_view(r) == withmeta_spec(views(args@)),
{
    if args.len() < 2 {
        return Err(eval_err("too few args to 'with-meta'"));
    }
    let target = args[0].deep_clone();
    let m = Some(Box::new(args[1].deep_clone()));
    assert(meta_view(m) == Some(Box::new(views(args@)[1])));
    proof { lemma_view_shape(&target); }
    match target {
        MalType::List(l, _) => Ok(MalType::List(l, m)),
        MalType::Vector(l, _) => Ok(MalType::Vector(l, m)),
        MalType::HashMap(e, _) => Ok(MalType::HashMap(e, m)),
        MalType::BuiltinFunc(f, _) => Ok(MalType::BuiltinFunc(f, m)),
        MalType::Lambda { params, body, capt_env, is_macro, .. } =>
            Ok(MalType::Lambda { params, body, capt_env, is_macro, meta: m }),
        _ => Err(eval_err("'with-meta' not supported for given type")),
    }
}

/// The one-character strings of a string's characters.
pub open spec fn char_strings(s: Seq<char>) -> Seq<Val> {
    Seq::new(s.len(), |i: int| Val::Str(seq![s[i]]))
}

/// The model of `seq`.
pub open spec fn seq_spec(args: Seq<Val>) -> Result<Val, Fault> {
    if args.len() == 0 {
        ev("too few args to 'seq'"@)
    } else {
        match args[0] {
            Val::Nil => Ok(Val::Nil),
            Val::List(l, m) => if l.len() == 0 { Ok(Val::Nil) } else { Ok(Val::List(l, m)) },
            Val::Vector(l, _) => if l.len() == 0 { Ok(Val::Nil) } else { Ok(Val::List(l, None)) },
            Val::Str(s) => if s.len() == 0 { Ok(Val::Nil) } else { Ok(Val::List(char_strings(s), None)) },
            _ => ev("'seq' expects list/vector/string/nil"@),
        }
    }
}

/// `seq`: a non-empty list, vector or string as a list; `nil` when empty.
pub fn seq(args: Vec<MalType>) -> (r: MalResult)
    ensures
        res_view(r) == seq_spec(views(args@)),
{
    if args.len() == 0 {
        return Err(eval_err("too few args to 'seq'"));
    }
    proof { lemma_view_shape(&args@[0]); }
    match &args[0] {
        MalType::Nil => Ok(MalType::Nil),
        MalType::List(l, _) => if l.len() == 0 { Ok(MalType::Nil) } else { Ok(args[0].deep_clone()) },
        MalType::Vector(l, _) => if l.len() == 0 { Ok(MalType::Nil) } else { Ok(new_list(clone_values(l))) },
        MalType::String(s) => {
            let cs = chars_of(s.as_str());
            if cs.len() == 0 {
                return Ok(MalType::Nil);
            }
            let mut out: Vec<MalType> = Vec::new();
            let mut i: usize = 0;
            while i < cs.len()
                invariant
                    i <= cs@.len(),
                    out@.len() == i,
                    views(out@) == char_strings(cs@).take(i as int),
                decreases cs.len() - i,
            {
                let ghost prev = out@;
                let mut one = String::new();
                push_char(&mut one, cs[i]);
                assert(one@ =~= seq![cs@[i as int]]);
                out.push(MalType::String(one));
                assert forall|m: int| 0 <= m < i + 1 implies #[trigger] views(out@)[m] == char_strings(cs@)[m] by {
                    if m < i {
                        assert(out@[m] == prev[m]);
                        assert(views(prev)[m] == prev[m]@);
                    }
                }
                assert(views(out@) =~= char_strings(cs@).take(i + 1));
                i = i + 1;
            }
            assert(char_strings(cs@).take(cs.len() as int) =~= char_strings(cs@));
            Ok(new_list(out))
        },
        _ => Err(eval_err("'seq' expects list/vector/string/nil")),
    }
}

/// The model of `conj`: values are added at the end of a vector, and one by one at the
/// front of a list.
pub open spec fn conj_spec(args: Seq<Val>) -> Result<Val, Fault> {
    if args.len() == 0 {
        ev("too few args to 'seq'"@)
    } else {
        match args[0] {
            Val::Vector(l, _) => Ok(Val::Vector(l + args.drop_first(), None)),
            Val::List(l, _) => Ok(Val::List(args.drop_first().reverse() + l, None)),
            _ => ev("'conj' expects list/vector and values"@),
        }
    }
}

/// `conj`
pub fn conj(args: Vec<MalType>) -> (r: MalResult)
    ensures
        res_view(r) == conj_spec(views(args@)),
{
    if args.len() == 0 {
        return Err(eval_err("too few args to 'seq'"));
    }
    let ghost a = views(args@);
    proof { lemma_view_shape(&args@[0]); }
    match &args[0] {
        MalType::Vector(l, _) => {
            let mut out = clone_values(l);
            let mut i: usize = 1;
            while i < args.len()
                invariant
                    a == views(args@),
                    1 <= i <= args@.len(),
                    views(out@) == views(l@) + a.subrange(1, i as int),
                decreases args.len() - i,
            {
                let ghost prev = out@;
                out.push(args[i].deep_clone());
                assert(views(out@) =~= views(prev).push(args@[i as int]@));
                assert(views(out@) =~= views(l@) + a.subrange(1, i + 1));
                i = i + 1;
            }
            assert(a.subrange(1, a.len() as int) =~= a.drop_first());
            Ok(new_vector(out))
        },
        MalType::List(l, _) => {
            let mut out: Vec<MalType> = Vec::new();
            let mut i: usize = args.len();
            while i > 1
                invariant
                    a == views(args@),
                    1 <= i <= args@.len(),
                    views(out@) == a.drop_first().reverse().take(args@.len() - i),
                decreases i,
            {
                let ghost prev = out@;
                out.push(args[i - 1].deep_clone());
                assert(views(out@) =~= views(prev).push(args@[i - 1]@));
                assert(views(out@) =~= a.drop_first().reverse().take(args@.len() - i + 1));
                i = i - 1;
            }
            let mut rest = clone_values(l);
            let ghost front = out@;
            out.append(&mut rest);
            assert(a.drop_first().reverse().take(args@.len() - 1) =~= a.drop_first().reverse());
            assert(views(out@) =~= views(front) + views(l@));
            Ok(new_list(out))
        },
        _ => Err(eval_err("'conj' expects list/vector and values")),
    }
}

/// A key bound with `assoc` is found by `get` with the value it was bound to.
pub proof fn law_get_after_assoc(e: Seq<(Seq<char>, Val)>, m: Option<Box<Val>>, key: Val, v: Val)
    requires
        key_of(key) is Some,
    ensures
        assoc_spec(seq![Val::HashMap(e, m), key, v]) == Ok::<Val, Fault>(Val::HashMap(assoc_insert(e, key_of(key)->0, v), None)),
        get_spec(seq![Val::HashMap(assoc_insert(e, key_of(key)->0, v), None), key]) == Ok::<Val, Fault>(v),
        contains_spec(seq![Val::HashMap(assoc_insert(e, key_of(key)->0, v), None), key]) == Ok::<Val, Fault>(Val::Bool(true)),
{
    let args = seq![Val::HashMap(e, m), key, v];
    let k = key_of(key)->0;
    assert(map_pairs(args, 3, assoc_insert(e, k, v)) == Ok::<Seq<(Seq<char>, Val)>, Fault>(assoc_insert(e, k, v)));
    assert(map_pairs(args, 1, e) == map_pairs(args, 3, assoc_insert(e, k, v)));
    crate::assoc::law_get_after_insert(e, k, v);
}

/// A key removed with `dissoc` from a map with unique keys is no longer contained in it.
pub proof fn law_contains_after_dissoc(e: Seq<(Seq<char>, Val)>, m: Option<Box<Val>>, key: Val)
    requires
        key_of(key) is Some,
        keys_unique(e),
    ensures
        dissoc_spec(seq![Val::HashMap(e, m), key]) == Ok::<Val, Fault>(Val::HashMap(assoc_remove(e, key_of(key)->0), None)),
        contains_spec(seq![Val::HashMap(assoc_remove(e, key_of(key)->0), None), key]) == Ok::<Val, Fault>(Val::Bool(false)),
        get_spec(seq![Val::HashMap(assoc_remove(e, key_of(key)->0), None), key]) == Ok::<Val, Fault>(Val::Nil),
{
    let args = seq![Val::HashMap(e, m), key];
    let k = key_of(key)->0;
    assert(dissoc_from(args, 2, assoc_remove(e, k)) == Ok::<Seq<(Seq<char>, Val)>, Fault>(assoc_remove(e, k)));
    crate::assoc::law_remove_unbinds(e, k);
}

proof fn lemma_map_pairs_unique(items: Seq<Val>, i: int, acc: Seq<(Seq<char>, Val)>)
    requires
        keys_unique(acc),
    ensures
        map_pairs(items, i, acc) matches Ok(r) ==> keys_unique(r),
    decreases items.len() - i,
{
    if !(i < 0 || i + 1 >= items.len()) {
        match key_of(items[i]) {
            Some(k) => {
                crate::assoc::law_insert_keeps_keys_unique(acc, k, items[i + 1]);
                lemma_map_pairs_unique(items, i + 2, assoc_insert(acc, k, items[i + 1]));
            },
            None => {},
        }
    }
}

/// The hash-maps that `hash-map` and `assoc` make bind each key once.
pub proof fn law_maps_have_unique_keys(args: Seq<Val>)
    ensures
        parse_as_eval(read_map_spec(args)) matches Ok(Val::HashMap(e, _)) ==> keys_unique(e),
        (args.len() > 0 && args[0] is HashMap && keys_unique(args[0]->HashMap_0)) ==>
            (assoc_spec(args) matches Ok(Val::HashMap(e, _)) ==> keys_unique(e)),
{
    lemma_map_pairs_unique(args, 0, Seq::empty());
    if args.len() > 0 {
        match args[0] {
            Val::HashMap(e0, _) => {
                if keys_unique(e0) {
                    lemma_map_pairs_unique(args, 1, e0);
                }
            },
            _ => {},
        }
    }
}

/// `first` of a `cons` is the value put in front, and `rest` of it the items of the list.
pub proof fn law_first_rest_of_cons(x: Val, l: Seq<Val>, m: Option<Box<Val>>)
    ensures
        cons_spec(seq![x, Val::List(l, m)]) == Ok::<Val, Fault>(Val::List(seq![x] + l, None)),
        first_spec(seq![Val::List(seq![x] + l, None)]) == Ok::<Val, Fault>(x),
        rest_spec(seq![Val::List(seq![x] + l, None)]) == Ok::<Val, Fault>(Val::List(l, None)),
{
    assert((seq![x] + l).drop_first() =~= l);
}

/// `meta` reads the metadata that `with-meta` gave; and `with-meta` changes nothing but the
/// metadata, so giving other metadata afterwards is as giving it at once.
pub proof fn law_meta_after_with_meta(v: Val, x: Val, y: Val)
    requires
        meta_slot(v) is Some,
    ensures
        withmeta_spec(seq![v, x]) matches Ok(w) && meta_spec(seq![w]) == Ok::<Val, Fault>(x)
            && with_meta(w, y) == with_meta(v, y),
{
}

/// Whether one of the keys from position `i` on stands for the key text `k`.
pub open spec fn key_named(keys: Seq<Val>, i: int, k: Seq<char>) -> bool {
    exists|j: int| i <= j < keys.len() && #[trigger] key_of(keys[j]) == Some(k)
}

proof fn lemma_dissoc_from(keys: Seq<Val>, i: int, acc: Seq<(Seq<char>, Val)>)
    requires
        0 <= i,
        keys_unique(acc),
        forall|j: int| i <= j < keys.len() ==> (#[trigger] key_of(keys[j])) is Some,
    ensures
        dissoc_from(keys, i, acc) matches Ok(r) && keys_unique(r)
            && (forall|j: int| i <= j < keys.len() ==> assoc_get(r, (#[trigger] key_of(keys[j]))->0) is None)
            && (forall|k: Seq<char>| !key_named(keys, i, k) ==> #[trigger] assoc_get(r, k) == assoc_get(acc, k)),
    decreases keys.len() - i,
{
    if i < keys.len() {
        let k = key_of(keys[i])->0;
        let acc1 = assoc_remove(acc, k);
        law_remove_unbinds(acc, k);
        lemma_dissoc_from(keys, i + 1, acc1);
        let r = dissoc_from(keys, i + 1, acc1)->Ok_0;
        assert forall|j: int| i <= j < keys.len() implies assoc_get(r, (#[trigger] key_of(keys[j]))->0) is None by {
            if j == i && !key_named(keys, i + 1, k) {
                assert(assoc_get(r, k) == assoc_get(acc1, k));
            } else if j == i {
                let w = choose|w: int| i + 1 <= w < keys.len() && #[trigger] key_of(keys[w]) == Some(k);
                assert(assoc_get(r, key_of(keys[w])->0) is None);
            }
        }
        assert forall|k2: Seq<char>| !key_named(keys, i, k2) implies #[trigger] assoc_get(r, k2) == assoc_get(acc, k2) by {
            assert(key_of(keys[i]) != Some(k2));
            assert(!key_named(keys, i + 1, k2)) by {
                if key_named(keys, i + 1, k2) {
                    let w = choose|w: int| i + 1 <= w < keys.len() && #[trigger] key_of(keys[w]) == Some(k2);
                    assert(i <= w < keys.len() && key_of(keys[w]) == Some(k2));
                }
            }
            law_remove_keeps_other_keys(acc, k, k2);
        }
    } else {
        assert forall|k2: Seq<char>| !key_named(keys, i, k2) implies #[trigger] assoc_get(acc, k2) == assoc_get(acc, k2) by {}
    }
}

/// `dissoc` of a map with unique keys and hashable keys: none of the given keys is
/// contained in the result, every key not given keeps its value, and keys stay unique.
pub proof fn law_dissoc_removes_keys(e: Seq<(Seq<char>, Val)>, m: Option<Box<Val>>, keys: Seq<Val>)
    requires
        keys_unique(e),
        forall|j: int| 0 <= j < keys.len() ==> (#[trigger] key_of(keys[j])) is Some,
    ensures
        dissoc_spec(seq![Val::HashMap(e, m)] + keys) matches Ok(Val::HashMap(e2, _)) && keys_unique(e2)
            && (forall|j: int| 0 <= j < keys.len()
                ==> contains_spec(seq![Val::HashMap(e2, None), #[trigger] keys[j]]) == Ok::<Val, Fault>(Val::Bool(false)))
            && (forall|k: Seq<char>| !key_named(keys, 0, k) ==> #[trigger] assoc_get(e2, k) == assoc_get(e, k)),
{
    let args = seq![Val::HashMap(e, m)] + keys;
    assert(forall|j: int| 0 <= j < keys.len() ==> #[trigger] args[j + 1] == keys[j]);
    assert forall|j: int| 1 <= j < args.len() implies (#[trigger] key_of(args[j])) is Some by {
        assert(args[j] == keys[j - 1]);
    }
    lemma_dissoc_from(args, 1, e);
    let e2 = dissoc_from(args, 1, e)->Ok_0;
    assert forall|j: int| 0 <= j < keys.len()
        implies contains_spec(seq![Val::HashMap(e2, None), #[trigger] keys[j]]) == Ok::<Val, Fault>(Val::Bool(false)) by {
        assert(args[j + 1] == keys[j]);
        assert(assoc_get(e2, key_of(args[j + 1])->0) is None);
    }
    assert forall|k: Seq<char>| !key_named(keys, 0, k) implies #[trigger] assoc_get(e2, k) == assoc_get(e, k) by {
        if key_named(args, 1, k) {
            let w = choose|w: int| 1 <= w < args.len() && #[trigger] key_of(args[w]) == Some(k);
            assert(args[w] == keys[w - 1]);
            assert(key_of(keys[w - 1]) == Some(k));
        }
    }
}

/// `nth` of a list or vector at an index within it is the item at that index, so index 0
/// gives what `first` gives; every other index is out of bounds.
pub proof fn law_nth_item(l: Seq<Val>, m: Option<Box<Val>>, n: i64)
    ensures
        0 <= n < l.len() ==> nth_spec(seq![Val::List(l, m), Val::Number(n)]) == Ok::<Val, Fault>(l[n as int])
            && nth_spec(seq![Val::Vector(l, m), Val::Number(n)]) == Ok::<Val, Fault>(l[n as int]),
        !(0 <= n < l.len()) ==> nth_spec(seq![Val::List(l, m), Val::Number(n)]) is Err
            && nth_spec(seq![Val::Vector(l, m), Val::Number(n)]) is Err,
        l.len() > 0 ==> nth_spec(seq![Val::List(l, m), Val::Number(0)]) == first_spec(seq![Val::List(l, m)])
            && nth_spec(seq![Val::Vector(l, m), Val::Number(0)]) == first_spec(seq![Val::Vector(l, m)]),
{
}

/// The comparisons compare two numbers as integers: `<` holds exactly when the first is
/// smaller, `<=` when it is not greater, `>` when it is greater and `>=` when it is not
/// smaller; so `<=` and `>=` hold of equal numbers, and `<=` is never `>`.
pub proof fn law_numeric_compare(a: i64, b: i64)
    ensures
        numeric_compare_spec(seq![Val::Number(a), Val::Number(b)], Comparison::Lt) == Ok::<Val, Fault>(Val::Bool(a < b)),
        numeric_compare_spec(seq![Val::Number(a), Val::Number(b)], Comparison::Le) == Ok::<Val, Fault>(Val::Bool(a <= b)),
        numeric_compare_spec(seq![Val::Number(a), Val::Number(b)], Comparison::Gt) == Ok::<Val, Fault>(Val::Bool(a > b)),
        numeric_compare_spec(seq![Val::Number(a), Val::Number(b)], Comparison::Ge) == Ok::<Val, Fault>(Val::Bool(a >= b)),
        numeric_compare_spec(seq![Val::Number(a), Val::Number(a)], Comparison::Le) == Ok::<Val, Fault>(Val::Bool(true)),
        numeric_compare_spec(seq![Val::Number(a), Val::Number(a)], Comparison::Ge) == Ok::<Val, Fault>(Val::Bool(true)),
        numeric_compare_spec(seq![Val::Number(a), Val::Number(b)], Comparison::Le)
            != numeric_compare_spec(seq![Val::Number(a), Val::Number(b)], Comparison::Gt),
{
}

/// `sequential?` is true of every list and every vector, and false of every other value;
/// every value that `list?` accepts is sequential.
pub proof fn law_sequential(v: Val)
    ensures
        (v is List || v is Vector) ==> is_sequential_spec(seq![v]) == Ok::<Val, Fault>(Val::Bool(true)),
        !(v is List || v is Vector) ==> is_sequential_spec(seq![v]) == Ok::<Val, Fault>(Val::Bool(false)),
        is_list_spec(seq![v]) == Ok::<Val, Fault>(Val::Bool(true)) ==> is_sequential_spec(seq![v]) == Ok::<Val, Fault>(Val::Bool(true)),
{
}

} // verus!
