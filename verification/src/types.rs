//! The values of the language, their mathematical model, and the errors of evaluation.
use vstd::prelude::*;
use crate::env::Env;
use crate::text::{owned, push_char, str_is};

verus! {

/// The character that marks a keyword when it serves as a hash-map key.
pub const KW_SUFFIX: char = '\u{29E}';

/// The functions that the core namespace provides.
#[derive(Clone, Copy, Debug, PartialEq, Eq, Structural)]
pub enum Builtin {
    Add, Sub, Mult, Div, Prn, List, IsList, IsEmpty, Count, Eq, Lt, Le, Gt, Ge, PrStr, Str,
    Println, ReadString, Slurp, Atom, IsAtom, Deref, Reset, Swap, Cons, Concat, Vec, Nth, First,
    Rest, IsMacro, Throw, Apply, MapFn, IsNil, IsTrue, IsFalse, IsSymbol, Symbol, Keyword, IsKeyword,
    Vector, IsVector, IsSequential, HashMap, IsMap, Assoc, Dissoc, Get, Contains, Keys, Vals,
    Readline, TimeMs, Meta, WithMeta, IsFn, IsString, IsNumber, SeqFn, Conj, Eval,
}

/// A value of the language.
///
/// Hash-maps hold their entries in a vector of key/value pairs; a keyword key is the
/// keyword's text followed by [`KW_SUFFIX`]. An atom is an index into the runtime's atom store.
pub enum MalType {
    Nil,
    Bool(bool),
    Number(i64),
    Symbol(String),
    String(String),
    Keyword(String),
    List(Vec<MalType>, Option<Box<MalType>>),
    Vector(Vec<MalType>, Option<Box<MalType>>),
    HashMap(Vec<(String, MalType)>, Option<Box<MalType>>),
    BuiltinFunc(Builtin, Option<Box<MalType>>),
    Lambda {
        params: Vec<MalType>,
        body: Box<MalType>,
        capt_env: Env,
        is_macro: bool,
        meta: Option<Box<MalType>>,
    },
    Atom(usize),
}

/// The mathematical model of a [`MalType`]: strings become character sequences.
pub enum Val {
    Nil,
    Bool(bool),
    Number(i64),
    Symbol(Seq<char>),
    Str(Seq<char>),
    Keyword(Seq<char>),
    List(Seq<Val>, Option<Box<Val>>),
    Vector(Seq<Val>, Option<Box<Val>>),
    HashMap(Seq<(Seq<char>, Val)>, Option<Box<Val>>),
    BuiltinFunc(Builtin, Option<Box<Val>>),
    Lambda { params: Seq<Val>, body: Box<Val>, capt_env: Env, is_macro: bool, meta: Option<Box<Val>> },
    Atom(usize),
}

impl MalType {
    /// The model of this value.
    pub open spec fn view(&self) -> Val
        decreases self, 0int,
    {
        match self {
            MalType::Nil => Val::Nil,
            MalType::Bool(b) => Val::Bool(*b),
            MalType::Number(n) => Val::Number(*n),
            MalType::Symbol(s) => Val::Symbol(s@),
            MalType::String(s) => Val::Str(s@),
            MalType::Keyword(s) => Val::Keyword(s@),
            MalType::List(l, m) => Val::List(views(l@), meta_view(*m)),
            MalType::Vector(l, m) => Val::Vector(views(l@), meta_view(*m)),
            MalType::HashMap(e, m) => Val::HashMap(entry_views(e@), meta_view(*m)),
            MalType::BuiltinFunc(f, m) => Val::BuiltinFunc(*f, meta_view(*m)),
            MalType::Lambda { params, body, capt_env, is_macro, meta } => Val::Lambda {
                params: views(params@),
                body: Box::new(body.view()),
                capt_env: *capt_env,
                is_macro: *is_macro,
                meta: meta_view(*meta),
            },
            MalType::Atom(a) => Val::Atom(*a),
        }
    }
}

/// The models of a sequence of values.
pub open spec fn views(s: Seq<MalType>) -> Seq<Val>
    decreases s, 1int,
{
    if s.len() == 0 {
        Seq::empty()
    } else {
        views(s.subrange(0, s.len() - 1)).push(s[s.len() - 1].view())
    }
}

/// The model of hash-map entries: keys by their characters, values by their models.
pub open spec fn entry_views(s: Seq<(String, MalType)>) -> Seq<(Seq<char>, Val)>
    decreases s, 1int,
{
    if s.len() == 0 {
        Seq::empty()
    } else {
        entry_views(s.subrange(0, s.len() - 1)).push((s[s.len() - 1].0@, s[s.len() - 1].1.view()))
    }
}

/// The model of optional metadata.
pub open spec fn meta_view(m: Option<Box<MalType>>) -> Option<Box<Val>>
    decreases m, 1int,
{
    match m {
        Some(b) => Some(Box::new(b.view())),
        None => None,
    }
}

/// A sequence's models are as many as its items.
pub broadcast proof fn lemma_views_len(s: Seq<MalType>)
    ensures
        #[trigger] views(s).len() == s.len(),
    decreases s.len(),
{
    if s.len() > 0 {
        lemma_views_len(s.subrange(0, s.len() - 1));
    }
}

/// The model at a position of a sequence is the model of the item there.
pub broadcast proof fn lemma_views_index(s: Seq<MalType>, i: int)
    requires
        0 <= i < s.len(),
    ensures
        #[trigger] views(s)[i] == s[i].view(),
    decreases s.len(),
{
    lemma_views_len(s.subrange(0, s.len() - 1));
    if i < s.len() - 1 {
        lemma_views_index(s.subrange(0, s.len() - 1), i);
    }
}

/// Hash-map entries have as many models as entries.
pub broadcast proof fn lemma_entry_views_len(s: Seq<(String, MalType)>)
    ensures
        #[trigger] entry_views(s).len() == s.len(),
    decreases s.len(),
{
    if s.len() > 0 {
        lemma_entry_views_len(s.subrange(0, s.len() - 1));
    }
}

/// The model of an entry is its key's characters and its value's model.
pub broadcast proof fn lemma_entry_views_index(s: Seq<(String, MalType)>, i: int)
    requires
        0 <= i < s.len(),
    ensures
        #[trigger] entry_views(s)[i] == (s[i].0@, s[i].1.view()),
    decreases s.len(),
{
    lemma_entry_views_len(s.subrange(0, s.len() - 1));
    if i < s.len() - 1 {
        lemma_entry_views_index(s.subrange(0, s.len() - 1), i);
    }
}

pub broadcast group group_views {
    lemma_views_len,
    lemma_views_index,
    lemma_entry_views_len,
    lemma_entry_views_index,
}

impl MalType {
    /// A copy of this value with the same model.
    pub fn deep_clone(&self) -> (r: MalType)
        ensures
            r@ == self@,
        decreases self, 0int,
    {
        match self {
            MalType::Nil => MalType::Nil,
            MalType::Bool(b) => MalType::Bool(*b),
            MalType::Number(n) => MalType::Number(*n),
            MalType::Symbol(s) => MalType::Symbol(s.clone()),
            MalType::String(s) => MalType::String(s.clone()),
            MalType::Keyword(s) => MalType::Keyword(s.clone()),
            MalType::List(l, m) => MalType::List(clone_values(l), clone_meta(m)),
            MalType::Vector(l, m) => MalType::Vector(clone_values(l), clone_meta(m)),
            MalType::HashMap(e, m) => MalType::HashMap(clone_entries(e), clone_meta(m)),
            MalType::BuiltinFunc(f, m) => MalType::BuiltinFunc(*f, clone_meta(m)),
            MalType::Lambda { params, body, capt_env, is_macro, meta } => MalType::Lambda {
                params: clone_values(params),
                body: Box::new(body.deep_clone()),
                capt_env: *capt_env,
                is_macro: *is_macro,
                meta: clone_meta(meta),
            },
            MalType::Atom(a) => MalType::Atom(*a),
        }
    }
}

/// Copies of a vector of values, with the same models.
pub fn clone_values(v: &Vec<MalType>) -> (r: Vec<MalType>)
    ensures
        views(r@) == views(v@),
    decreases v, 1int,
{
    broadcast use group_views;
    let mut out: Vec<MalType> = Vec::new();
    let mut i: usize = 0;
    while i < v.len()
        invariant
            i <= v.len(),
            out@.len() == i,
            forall|j: int| 0 <= j < i ==> #[trigger] out@[j].view() == v@[j].view(),
        decreases v.len() - i,
    {
        proof {
            assert(decreases_to!(v => v@));
            assert(decreases_to!(v@ => v@[i as int]));
        }
        out.push(v[i].deep_clone());
        i = i + 1;
    }
    assert(views(out@) =~= views(v@));
    out
}

/// Copies of hash-map entries, with the same models.
pub fn clone_entries(v: &Vec<(String, MalType)>) -> (r: Vec<(String, MalType)>)
    ensures
        entry_views(r@) == entry_views(v@),
    decreases v, 1int,
{
    broadcast use group_views;
    let mut out: Vec<(String, MalType)> = Vec::new();
    let mut i: usize = 0;
    while i < v.len()
        invariant
            i <= v.len(),
            out@.len() == i,
            forall|j: int| 0 <= j < i ==> #[trigger] out@[j].0@ == v@[j].0@ && out@[j].1.view() == v@[j].1.view(),
        decreases v.len() - i,
    {
        proof {
            assert(decreases_to!(v => v@));
            assert(decreases_to!(v@ => v@[i as int]));
            assert(decreases_to!(v@[i as int] => v@[i as int].1));
        }
        let k = v[i].0.clone();
        let x = v[i].1.deep_clone();
        out.push((k, x));
        i = i + 1;
    }
    assert(entry_views(out@) =~= entry_views(v@));
    out
}

/// A copy of optional metadata, with the same model.
pub fn clone_meta(m: &Option<Box<MalType>>) -> (r: Option<Box<MalType>>)
    ensures
        meta_view(r) == meta_view(*m),
    decreases m, 1int,
{
    match m {
        Some(b) => Some(Box::new(b.deep_clone())),
        None => None,
    }
}

/// The model of a value, variant by variant.
pub proof fn lemma_view_shape(x: &MalType)
    ensures
        match *x {
            MalType::Nil => x@ == Val::Nil,
            MalType::Bool(b) => x@ == Val::Bool(b),
            MalType::Number(n) => x@ == Val::Number(n),
            MalType::Symbol(s) => x@ == Val::Symbol(s@),
            MalType::String(s) => x@ == Val::Str(s@),
            MalType::Keyword(s) => x@ == Val::Keyword(s@),
            MalType::List(l, m) => x@ == Val::List(views(l@), meta_view(m)),
            MalType::Vector(l, m) => x@ == Val::Vector(views(l@), meta_view(m)),
            MalType::HashMap(e, m) => x@ == Val::HashMap(entry_views(e@), meta_view(m)),
            MalType::BuiltinFunc(f, m) => x@ == Val::BuiltinFunc(f, meta_view(m)),
            MalType::Lambda { params, body, capt_env, is_macro, meta } => x@ == Val::Lambda {
                params: views(params@),
                body: Box::new((*body)@),
                capt_env,
                is_macro,
                meta: meta_view(meta),
            },
            MalType::Atom(a) => x@ == Val::Atom(a),
        },
{
}

/// What the interpreter asks of its host while evaluating.
pub enum HostRequest {
    /// Read a line of input, after showing the prompt when there is one.
    ReadLine(Option<String>),
    /// Read the whole content of the named file.
    ReadFile(String),
    /// The current time, in milliseconds since the Unix epoch.
    Now,
}

/// The host's answer to a [`HostRequest`].
pub enum HostReply {
    /// The text that was read (a line with its newline, or a file's content).
    Text(String),
    /// The request failed, with the host's message.
    Failed(String),
    /// A time in milliseconds.
    Millis(i64),
}

/// The errors of reading and evaluating.
pub enum MalError {
    EmptyInput,
    ParseError(String),
    EvalError(String),
    IOError(String),
    Exception(MalType),
    /// Evaluation needs an answer from the host before it can go on.
    Pending(HostRequest),
}

/// The result of reading or evaluating.
pub type MalResult = Result<MalType, MalError>;

/// The model of a [`HostRequest`].
pub enum Ask {
    ReadLine(Option<Seq<char>>),
    ReadFile(Seq<char>),
    Now,
}

/// The model of a [`MalError`].
pub enum Fault {
    Empty,
    Parse(Seq<char>),
    Eval(Seq<char>),
    Io(Seq<char>),
    Thrown(Val),
    Pending(Ask),
}

impl HostRequest {
    pub open spec fn view(&self) -> Ask {
        match self {
            HostRequest::ReadLine(p) => Ask::ReadLine(match p { Some(s) => Some(s@), None => None }),
            HostRequest::ReadFile(f) => Ask::ReadFile(f@),
            HostRequest::Now => Ask::Now,
        }
    }
}

impl MalError {
    pub open spec fn view(&self) -> Fault {
        match self {
            MalError::EmptyInput => Fault::Empty,
            MalError::ParseError(m) => Fault::Parse(m@),
            MalError::EvalError(m) => Fault::Eval(m@),
            MalError::IOError(m) => Fault::Io(m@),
            MalError::Exception(v) => Fault::Thrown(v@),
            MalError::Pending(q) => Fault::Pending(q@),
        }
    }
}

/// The model of a result: the value's model, or the error's.
pub open spec fn res_view(r: MalResult) -> Result<Val, Fault> {
    match r {
        Ok(v) => Ok(v@),
        Err(e) => Err(e@),
    }
}

/// The model of a result that holds a sequence of values.
pub open spec fn seq_res_view(r: Result<Vec<MalType>, MalError>) -> Result<Seq<Val>, Fault> {
    match r {
        Ok(v) => Ok(views(v@)),
        Err(e) => Err(e@),
    }
}

/// Metadata that is absent has no model.
pub proof fn lemma_meta_none()
    ensures
        meta_view(None) == None::<Box<Val>>,
{
}

/// A list without metadata.
pub fn new_list(list: Vec<MalType>) -> (r: MalType)
    ensures
        r@ == Val::List(views(list@), None),
{
    proof { lemma_meta_none(); }
    MalType::List(list, None)
}

/// A vector without metadata.
pub fn new_vector(vector: Vec<MalType>) -> (r: MalType)
    ensures
        r@ == Val::Vector(views(vector@), None),
{
    proof { lemma_meta_none(); }
    MalType::Vector(vector, None)
}

/// A hash-map without metadata.
pub fn new_hashmap(hashmap: Vec<(String, MalType)>) -> (r: MalType)
    ensures
        r@ == Val::HashMap(entry_views(hashmap@), None),
{
    proof { lemma_meta_none(); }
    MalType::HashMap(hashmap, None)
}

/// Whether a value counts as true in a condition: all but `nil` and `false` do.
pub open spec fn truthy(v: Val) -> bool {
    !(v is Nil || v == Val::Bool(false))
}

/// The hash-map key that a value stands for: a string's text, or a keyword's text with
/// [`KW_SUFFIX`] after it. `None` for other values.
pub open spec fn key_of(v: Val) -> Option<Seq<char>> {
    match v {
        Val::Str(s) => Some(s),
        Val::Keyword(k) => Some(k.push(KW_SUFFIX)),
        _ => None,
    }
}

/// Whether a value is a list whose first item is the symbol `sym`.
pub open spec fn list_with_sym(v: Val, sym: Seq<char>) -> bool {
    match v {
        Val::List(l, _) => l.len() > 0 && l[0] == Val::Symbol(sym),
        _ => false,
    }
}

/// A function value marked as a macro; other values unchanged.
pub open spec fn as_macro(v: Val) -> Val {
    match v {
        Val::Lambda { params, body, capt_env, meta, .. } =>
            Val::Lambda { params, body, capt_env, is_macro: true, meta },
        _ => v,
    }
}

/// The first item of a list or vector (`nil` when empty, and for `nil`); `None` for other values.
pub open spec fn first_of(v: Val) -> Option<Val> {
    match v {
        Val::Nil => Some(Val::Nil),
        Val::List(l, _) => if l.len() == 0 { Some(Val::Nil) } else { Some(l[0]) },
        Val::Vector(l, _) => if l.len() == 0 { Some(Val::Nil) } else { Some(l[0]) },
        _ => None,
    }
}

/// The value that an error is turned into when it is caught.
pub open spec fn fault_value(f: Fault) -> Val {
    match f {
        Fault::Empty => Val::Str("no input"@),
        Fault::Parse(m) => Val::Str(m),
        Fault::Eval(m) => Val::Str(m),
        Fault::Io(m) => Val::Str(m),
        Fault::Thrown(v) => v,
        Fault::Pending(_) => Val::Str("host request pending"@),
    }
}

impl MalType {
    /// Whether this value counts as true: all but `nil` and `false` do.
    pub fn to_bool(&self) -> (r: bool)
        ensures
            r == truthy(self@),
    {
        match self {
            MalType::Nil => false,
            MalType::Bool(b) => *b,
            _ => true,
        }
    }

    /// The hash-map key that this value stands for; see [`key_of`].
    pub fn to_key(&self) -> (r: Result<String, MalError>)
        ensures
            match key_of(self@) {
                Some(k) => r matches Ok(s) && s@ == k,
                None => r matches Err(e) && e@ == Fault::Parse("hash-map key not hashable"@),
            },
    {
        match self {
            MalType::String(k) => Ok(k.clone()),
            MalType::Keyword(k) => {
                let mut s = k.clone();
                push_char(&mut s, KW_SUFFIX);
                Ok(s)
            },
            _ => Err(MalError::ParseError(owned("hash-map key not hashable"))),
        }
    }

    /// Whether this value is a list whose first item is the symbol `sym`.
    pub fn is_list_with_sym(&self, sym: &str) -> (r: bool)
        ensures
            r == list_with_sym(self@, sym@),
    {
        broadcast use group_views;
        match self {
            MalType::List(list, _) => {
                if list.len() == 0 {
                    false
                } else {
                    
                    assert(views(list@)[0] == list@[0]@);
                    match &list[0] {
                        MalType::Symbol(s) => str_is(s.as_str(), sym),
                        _ => {
                            assert(!(list@[0]@ is Symbol));
                            false
                        },
                    }
                }
            },
            _ => false,
        }
    }

    /// Whether this value is a vector.
    pub fn is_vector(&self) -> (r: bool)
        ensures
            r == (self@ is Vector),
    {
        match self {
            MalType::Vector(..) => true,
            _ => false,
        }
    }

    /// Marks a function as a macro; other values are left as they are.
    pub fn set_macro(&mut self)
        ensures
            final(self)@ == as_macro(old(self)@),
    {
        match self {
            MalType::Lambda { is_macro, .. } => {
                *is_macro = true;
            },
            _ => {},
        }
    }

    /// The first item of a list or vector (`nil` when empty, and for `nil`); `None` for
    /// other values.
    pub fn get_first(self) -> (r: Option<Self>)
        ensures
            match first_of(self@) {
                Some(f) => r matches Some(x) && x@ == f,
                None => r is None,
            },
    {
        broadcast use group_views;
        match self {
            MalType::Nil => Some(MalType::Nil),
            MalType::List(mut list, _) | MalType::Vector(mut list, _) => {
                if list.len() == 0 {
                    Some(MalType::Nil)
                } else {
                    assert(views(list@)[0] == list@[0]@);
                    Some(list.swap_remove(0))
                }
            },
            _ => None,
        }
    }
}

impl MalError {
    /// The value that this error becomes when it is caught: a thrown value itself, else
    /// its message as a string.
    pub fn into_mal(self) -> (r: MalType)
        ensures
            r@ == fault_value(self@),
    {
        match self {
            MalError::EmptyInput => MalType::String(owned("no input")),
            MalError::ParseError(msg) => MalType::String(msg),
            MalError::EvalError(msg) => MalType::String(msg),
            MalError::IOError(msg) => MalType::String(msg),
            MalError::Exception(mal) => mal,
            MalError::Pending(_) => MalType::String(owned("host request pending")),
        }
    }
}

} // verus!
