//! The read-eval-print cycle: the top-level environment with the core namespace, the
//! definitions made in the language itself, and the printing of results and errors.
use vstd::prelude::*;
use crate::env::{outer_before, Env, EnvStore, Frame, FrameView};
use crate::eval::{eval, eval_spec, root_env, MAX_STEPS};
use crate::printer::{print_string_readably, quoted};
use crate::reader::{read_str, read_str_spec, texts};
use crate::runtime::{env_set, reply_views, show, RtView, Runtime};
use crate::text::{owned, push_str};
use crate::types::{
    clone_entries, entry_views, group_views, lemma_meta_none, new_list, res_view, views, Builtin, Fault,
    HostReply, HostRequest, MalError, MalResult, MalType, Val,
};

verus! {

broadcast use group_views;

/// How deep the evaluation of one top-level form may nest.
pub const MAX_DEPTH: u64 = 100_000;

/// The entry that binds `name` to a builtin function.
pub open spec fn builtin_entry(name: Seq<char>, b: Builtin) -> (Seq<char>, Val) {
    (name, Val::BuiltinFunc(b, None))
}

/// The bindings of the core namespace, in order.
pub open spec fn ns_spec() -> Seq<(Seq<char>, Val)> {
    Seq::empty()
        .push(("*host-language*"@, Val::Str("rust"@)))
        .push(("*ARGV*"@, Val::List(Seq::empty(), None)))
        .push(builtin_entry("+"@, Builtin::Add))
        .push(builtin_entry("-"@, Builtin::Sub))
        .push(builtin_entry("*"@, Builtin::Mult))
        .push(builtin_entry("/"@, Builtin::Div))
        .push(builtin_entry("prn"@, Builtin::Prn))
        .push(builtin_entry("list"@, Builtin::List))
        .push(builtin_entry("list?"@, Builtin::IsList))
        .push(builtin_entry("empty?"@, Builtin::IsEmpty))
        .push(builtin_entry("count"@, Builtin::Count))
        .push(builtin_entry("="@, Builtin::Eq))
        .push(builtin_entry("<"@, Builtin::Lt))
        .push(builtin_entry("<="@, Builtin::Le))
        .push(builtin_entry(">"@, Builtin::Gt))
        .push(builtin_entry(">="@, Builtin::Ge))
        .push(builtin_entry("pr-str"@, Builtin::PrStr))
        .push(builtin_entry("str"@, Builtin::Str))
        .push(builtin_entry("println"@, Builtin::Println))
        .push(builtin_entry("read-string"@, Builtin::ReadString))
        .push(builtin_entry("slurp"@, Builtin::Slurp))
        .push(builtin_entry("atom"@, Builtin::Atom))
        .push(builtin_entry("atom?"@, Builtin::IsAtom))
        .push(builtin_entry("deref"@, Builtin::Deref))
        .push(builtin_entry("reset!"@, Builtin::Reset))
        .push(builtin_entry("swap!"@, Builtin::Swap))
        .push(builtin_entry("cons"@, Builtin::Cons))
        .push(builtin_entry("concat"@, Builtin::Concat))
        .push(builtin_entry("vec"@, Builtin::Vec))
        .push(builtin_entry("nth"@, Builtin::Nth))
        .push(builtin_entry("first"@, Builtin::First))
        .push(builtin_entry("rest"@, Builtin::Rest))
        .push(builtin_entry("macro?"@, Builtin::IsMacro))
        .push(builtin_entry("throw"@, Builtin::Throw))
        .push(builtin_entry("apply"@, Builtin::Apply))
        .push(builtin_entry("map"@, Builtin::MapFn))
        .push(builtin_entry("nil?"@, Builtin::IsNil))
        .push(builtin_entry("true?"@, Builtin::IsTrue))
        .push(builtin_entry("false?"@, Builtin::IsFalse))
        .push(builtin_entry("symbol?"@, Builtin::IsSymbol))
        .push(builtin_entry("symbol"@, Builtin::Symbol))
        .push(builtin_entry("keyword"@, Builtin::Keyword))
        .push(builtin_entry("keyword?"@, Builtin::IsKeyword))
        .push(builtin_entry("vector"@, Builtin::Vector))
        .push(builtin_entry("vector?"@, Builtin::IsVector))
        .push(builtin_entry("sequential?"@, Builtin::IsSequential))
        .push(builtin_entry("hash-map"@, Builtin::HashMap))
        .push(builtin_entry("map?"@, Builtin::IsMap))
        .push(builtin_entry("assoc"@, Builtin::Assoc))
        .push(builtin_entry("dissoc"@, Builtin::Dissoc))
        .push(builtin_entry("get"@, Builtin::Get))
        .push(builtin_entry("contains?"@, Builtin::Contains))
        .push(builtin_entry("keys"@, Builtin::Keys))
        .push(builtin_entry("vals"@, Builtin::Vals))
        .push(builtin_entry("readline"@, Builtin::Readline))
        .push(builtin_entry("time-ms"@, Builtin::TimeMs))
        .push(builtin_entry("meta"@, Builtin::Meta))
        .push(builtin_entry("with-meta"@, Builtin::WithMeta))
        .push(builtin_entry("fn?"@, Builtin::IsFn))
        .push(builtin_entry("string?"@, Builtin::IsString))
        .push(builtin_entry("number?"@, Builtin::IsNumber))
        .push(builtin_entry("seq"@, Builtin::SeqFn))
        .push(builtin_entry("conj"@, Builtin::Conj))
}

fn add_builtin(v: &mut Vec<(String, MalType)>, name: &str, b: Builtin)
    ensures
        entry_views(final(v)@) == entry_views(old(v)@).push(builtin_entry(name@, b)),
{
    proof { lemma_meta_none(); }
    let ghost before = v@;
    v.push((owned(name), MalType::BuiltinFunc(b, None)));
    assert(entry_views(v@) =~= entry_views(before).push(builtin_entry(name@, b)));
}

/// The bindings of the core namespace.
pub fn ns() -> (r: Vec<(String, MalType)>)
    ensures
        entry_views(r@) == ns_spec(),
{
    let mut v: Vec<(String, MalType)> = Vec::new();
    assert(entry_views(v@) =~= Seq::<(Seq<char>, Val)>::empty());
    let host = (owned("*host-language*"), MalType::String(owned("rust")));
    let ghost h = (host.0@, host.1@);
    v.push(host);
    assert(entry_views(v@) =~= Seq::<(Seq<char>, Val)>::empty().push(h));
    let none: Vec<MalType> = Vec::new();
    assert(views(none@) =~= Seq::<Val>::empty());
    let argv = (owned("*ARGV*"), new_list(none));
    let ghost a = (argv.0@, argv.1@);
    let ghost before = v@;
    v.push(argv);
    assert(entry_views(v@) =~= entry_views(before).push(a));
    add_builtin(&mut v, "+", Builtin::Add);
    add_builtin(&mut v, "-", Builtin::Sub);
    add_builtin(&mut v, "*", Builtin::Mult);
    add_builtin(&mut v, "/", Builtin::Div);
    add_builtin(&mut v, "prn", Builtin::Prn);
    add_builtin(&mut v, "list", Builtin::List);
    add_builtin(&mut v, "list?", Builtin::IsList);
    add_builtin(&mut v, "empty?", Builtin::IsEmpty);
    add_builtin(&mut v, "count", Builtin::Count);
    add_builtin(&mut v, "=", Builtin::Eq);
    add_builtin(&mut v, "<", Builtin::Lt);
    add_builtin(&mut v, "<=", Builtin::Le);
    add_builtin(&mut v, ">", Builtin::Gt);
    add_builtin(&mut v, ">=", Builtin::Ge);
    add_builtin(&mut v, "pr-str", Builtin::PrStr);
    add_builtin(&mut v, "str", Builtin::Str);
    add_builtin(&mut v, "println", Builtin::Println);
    add_builtin(&mut v, "read-string", Builtin::ReadString);
    add_builtin(&mut v, "slurp", Builtin::Slurp);
    add_builtin(&mut v, "atom", Builtin::Atom);
    add_builtin(&mut v, "atom?", Builtin::IsAtom);
    add_builtin(&mut v, "deref", Builtin::Deref);
    add_builtin(&mut v, "reset!", Builtin::Reset);
    add_builtin(&mut v, "swap!", Builtin::Swap);
    add_builtin(&mut v, "cons", Builtin::Cons);
    add_builtin(&mut v, "concat", Builtin::Concat);
    add_builtin(&mut v, "vec", Builtin::Vec);
    add_builtin(&mut v, "nth", Builtin::Nth);
    add_builtin(&mut v, "first", Builtin::First);
    add_builtin(&mut v, "rest", Builtin::Rest);
    add_builtin(&mut v, "macro?", Builtin::IsMacro);
    add_builtin(&mut v, "throw", Builtin::Throw);
    add_builtin(&mut v, "apply", Builtin::Apply);
    add_builtin(&mut v, "map", Builtin::MapFn);
    add_builtin(&mut v, "nil?", Builtin::IsNil);
    add_builtin(&mut v, "true?", Builtin::IsTrue);
    add_builtin(&mut v, "false?", Builtin::IsFalse);
    add_builtin(&mut v, "symbol?", Builtin::IsSymbol);
    add_builtin(&mut v, "symbol", Builtin::Symbol);
    add_builtin(&mut v, "keyword", Builtin::Keyword);
    add_builtin(&mut v, "keyword?", Builtin::IsKeyword);
    add_builtin(&mut v, "vector", Builtin::Vector);
    add_builtin(&mut v, "vector?", Builtin::IsVector);
    add_builtin(&mut v, "sequential?", Builtin::IsSequential);
    add_builtin(&mut v, "hash-map", Builtin::HashMap);
    add_builtin(&mut v, "map?", Builtin::IsMap);
    add_builtin(&mut v, "assoc", Builtin::Assoc);
    add_builtin(&mut v, "dissoc", Builtin::Dissoc);
    add_builtin(&mut v, "get", Builtin::Get);
    add_builtin(&mut v, "contains?", Builtin::Contains);
    add_builtin(&mut v, "keys", Builtin::Keys);
    add_builtin(&mut v, "vals", Builtin::Vals);
    add_builtin(&mut v, "readline", Builtin::Readline);
    add_builtin(&mut v, "time-ms", Builtin::TimeMs);
    add_builtin(&mut v, "meta", Builtin::Meta);
    add_builtin(&mut v, "with-meta", Builtin::WithMeta);
    add_builtin(&mut v, "fn?", Builtin::IsFn);
    add_builtin(&mut v, "string?", Builtin::IsString);
    add_builtin(&mut v, "number?", Builtin::IsNumber);
    add_builtin(&mut v, "seq", Builtin::SeqFn);
    add_builtin(&mut v, "conj", Builtin::Conj);
    v
}

/// The state of a new interpreter: one top-level frame holding the core namespace and `eval`.
pub open spec fn initial_state() -> RtView {
    RtView {
        frames: seq![FrameView { data: ns_spec().push(builtin_entry("eval"@, Builtin::Eval)), outer: None }],
        atoms: Seq::empty(),
        replies: Seq::empty(),
        used: 0,
        output: Seq::empty(),
    }
}

/// A new interpreter's store has each frame's outer frame before it: its one frame has none.
pub proof fn law_initial_state_outer_before()
    ensures
        outer_before(initial_state().frames),
{
}

/// The texts of optional strings.
pub open spec fn opt_text(o: Option<String>) -> Option<Seq<char>> {
    match o {
        Some(t) => Some(t@),
        None => None,
    }
}

/// What is printed for a result: the value written readably, or the error's message;
/// nothing for empty input.
pub open spec fn print_spec(r: Result<Val, Fault>, s: RtView) -> Option<Seq<char>> {
    match r {
        Ok(v) => Some(show(v, true, s)),
        Err(Fault::Empty) => None,
        Err(Fault::Parse(m)) => Some("mal: parse error: "@ + m),
        Err(Fault::Eval(m)) => Some("mal: eval error: "@ + m),
        Err(Fault::Io(m)) => Some("mal: IO error: "@ + m),
        Err(Fault::Thrown(v)) => Some("mal: uncaught exception: "@ + show(v, true, s)),
        Err(Fault::Pending(_)) => Some("mal: no answer from the host"@),
    }
}

/// Reading the first form of `input`, then evaluating it in the top-level environment.
pub open spec fn read_eval_spec(input: Seq<char>, s: RtView) -> (Result<Val, Fault>, RtView) {
    match read_str_spec(input) {
        Err(f) => (Err(f), s),
        Ok(ast) => eval_spec(ast, root_env(), s, MAX_DEPTH as nat, MAX_STEPS as nat),
    }
}

/// Reading, evaluating and printing `input`.
pub open spec fn rep_spec(input: Seq<char>, s: RtView) -> (Option<Seq<char>>, RtView) {
    let (r, s1) = read_eval_spec(input, s);
    (print_spec(r, s1), s1)
}

/// The state in which an attempt at an input starts: the host's replies are used from the
/// first, and nothing is printed yet.
pub open spec fn attempt_state(s: RtView) -> RtView {
    RtView { used: 0, output: Seq::empty(), ..s }
}

/// The state kept after an input is done: the replies are forgotten.
pub open spec fn settled(s: RtView) -> RtView {
    RtView { replies: Seq::empty(), used: 0, ..s }
}

/// The definition of `not`, the first of those that the interpreter makes in its own
/// language when it starts.
pub open spec fn prelude_not() -> Seq<char> {
    "(def! not (fn* (a) (if a false true)))"@
}

/// The definition of `load-file`, which evaluates the forms of a file.
pub open spec fn prelude_load_file() -> Seq<char> {
    "(def! load-file (fn* (f) (eval (read-string (str \"(do \" (slurp f) \"\\nnil)\")))))"@
}

/// The definition of the macro `cond`.
pub open spec fn prelude_cond() -> Seq<char> {
    "(defmacro! cond (fn* (& xs) (if (> (count xs) 0) (list 'if (first xs) (if (> (count xs) 1) (nth xs 1) (throw \"odd number of forms to cond\")) (cons 'cond (rest (rest xs)))))))"@
}

/// The state after the definitions of [`prelude_not`], [`prelude_load_file`] and
/// [`prelude_cond`] are evaluated from the initial state.
pub open spec fn prelude_state() -> RtView {
    rep_spec(prelude_cond(), rep_spec(prelude_load_file(), rep_spec(prelude_not(), initial_state()).1).1).1
}

/// Reads the first form of `input`.
pub fn read(input: &str) -> (r: MalResult)
    ensures
        res_view(r) == read_str_spec(input@),
{
    read_str(input)
}

fn prefixed(prefix: &str, m: &str) -> (r: String)
    ensures
        r@ == prefix@ + m@,
{
    let mut t = owned(prefix);
    push_str(&mut t, m);
    t
}

/// The text printed for a result; see [`print_spec`].
pub fn print(rt: &Runtime, mal: MalResult) -> (r: Option<String>)
    ensures
        opt_text(r) == print_spec(res_view(mal), rt@),
{
    match mal {
        Ok(v) => Some(rt.show(&v, true)),
        Err(MalError::EmptyInput) => None,
        Err(MalError::ParseError(m)) => Some(prefixed("mal: parse error: ", m.as_str())),
        Err(MalError::EvalError(m)) => Some(prefixed("mal: eval error: ", m.as_str())),
        Err(MalError::IOError(m)) => Some(prefixed("mal: IO error: ", m.as_str())),
        Err(MalError::Exception(v)) => {
            let t = rt.show(&v, true);
            Some(prefixed("mal: uncaught exception: ", t.as_str()))
        },
        Err(MalError::Pending(_)) => Some(owned("mal: no answer from the host")),
    }
}

fn read_eval(rt: &mut Runtime, input: &str) -> (r: MalResult)
    ensures
        (res_view(r), final(rt)@) == read_eval_spec(input@, old(rt)@),
{
    match read(input) {
        Ok(ast) => eval(rt, ast, Env { id: 0 }, MAX_DEPTH),
        Err(e) => Err(e),
    }
}

/// Reads, evaluates and prints `input`; see [`rep_spec`].
pub fn rep(input: &str, rt: &mut Runtime) -> (r: Option<String>)
    ensures
        (opt_text(r), final(rt)@) == rep_spec(input@, old(rt)@),
{
    let res = read_eval(rt, input);
    print(rt, res)
}

/// What one attempt at an input comes to.
pub enum Outcome {
    /// The input is done; this is what to print for it.
    Done(Option<String>),
    /// The host must answer this request before the input can be done.
    NeedHost(HostRequest),
}

/// The model of an [`Outcome`].
pub enum OutcomeView {
    Done(Option<Seq<char>>),
    NeedHost(crate::types::Ask),
}

impl Outcome {
    pub open spec fn view(&self) -> OutcomeView {
        match self {
            Outcome::Done(o) => OutcomeView::Done(opt_text(*o)),
            Outcome::NeedHost(q) => OutcomeView::NeedHost(q@),
        }
    }
}

/// The outcome and final state of an attempt at `input` from state `s`: the input is read
/// and evaluated from [`attempt_state`]. When evaluation stops at a request to the host,
/// only the lines printed so far are kept; else the attempt's state is kept, [`settled`].
pub open spec fn rep_step_spec(input: Seq<char>, s: RtView) -> (OutcomeView, RtView) {
    let (r, t1) = read_eval_spec(input, attempt_state(s));
    match r {
        Err(Fault::Pending(q)) => (OutcomeView::NeedHost(q), RtView { output: t1.output, ..s }),
        _ => (OutcomeView::Done(print_spec(r, t1)), settled(t1)),
    }
}

/// The frames of a store, copied.
fn clone_frames(store: &EnvStore) -> (r: EnvStore)
    ensures
        r@ == store@,
{
    let mut frames: Vec<Frame> = Vec::new();
    let mut i: usize = 0;
    while i < store.frames.len()
        invariant
            i <= store.frames@.len(),
            frames@.len() == i,
            forall|j: int| 0 <= j < i ==> #[trigger] frames@[j]@ == store.frames@[j]@,
        decreases store.frames.len() - i,
    {
        let f = &store.frames[i];
        frames.push(Frame { data: clone_entries(&f.data), outer: f.outer });
        i = i + 1;
    }
    let r = EnvStore { frames };
    assert(r@ =~= store@);
    r
}

impl Runtime {
    /// A new interpreter; see [`initial_state`].
    pub fn new() -> (r: Runtime)
        ensures
            r@ == initial_state(),
    {
        let mut data = ns();
        proof { lemma_meta_none(); }
        let ghost before = data@;
        data.push((owned("eval"), MalType::BuiltinFunc(Builtin::Eval, None)));
        assert(entry_views(data@) =~= entry_views(before).push(builtin_entry("eval"@, Builtin::Eval)));
        let mut frames: Vec<Frame> = Vec::new();
        frames.push(Frame { data, outer: None });
        let r = Runtime { envs: EnvStore { frames }, atoms: Vec::new(), replies: Vec::new(), used: 0, output: Vec::new() };
        assert(r.envs@ =~= initial_state().frames);
        assert(views(r.atoms@) =~= Seq::<Val>::empty());
        assert(reply_views(r.replies@) =~= Seq::<crate::runtime::Reply>::empty());
        assert(texts(r.output@) =~= Seq::<Seq<char>>::empty());
        r
    }

    /// A new interpreter after the definitions that it makes in its own language; see
    /// [`prelude_state`].
    pub fn with_prelude() -> (r: Runtime)
        ensures
            r@ == prelude_state(),
    {
        let mut rt = Runtime::new();
        let _not = rep("(def! not (fn* (a) (if a false true)))", &mut rt);
        let _load_file = rep("(def! load-file (fn* (f) (eval (read-string (str \"(do \" (slurp f) \"\\nnil)\")))))", &mut rt);
        let _cond = rep("(defmacro! cond (fn* (& xs) (if (> (count xs) 0) (list 'if (first xs) (if (> (count xs) 1) (nth xs 1) (throw \"odd number of forms to cond\")) (cons 'cond (rest (rest xs)))))))", &mut rt);
        rt
    }

    /// A copy of this state.
    pub fn snapshot(&self) -> (r: Runtime)
        ensures
            r@ == self@,
    {
        let envs = clone_frames(&self.envs);
        let atoms = crate::types::clone_values(&self.atoms);
        let mut replies: Vec<HostReply> = Vec::new();
        let mut i: usize = 0;
        while i < self.replies.len()
            invariant
                i <= self.replies@.len(),
                replies@.len() == i,
                forall|j: int| 0 <= j < i ==> #[trigger] replies@[j]@ == self.replies@[j]@,
            decreases self.replies.len() - i,
        {
            let x = match &self.replies[i] {
                HostReply::Text(t) => HostReply::Text(t.clone()),
                HostReply::Failed(m) => HostReply::Failed(m.clone()),
                HostReply::Millis(n) => HostReply::Millis(*n),
            };
            replies.push(x);
            i = i + 1;
        }
        let mut output: Vec<String> = Vec::new();
        let mut k: usize = 0;
        while k < self.output.len()
            invariant
                k <= self.output@.len(),
                output@.len() == k,
                forall|j: int| 0 <= j < k ==> #[trigger] output@[j]@ == self.output@[j]@,
            decreases self.output.len() - k,
        {
            output.push(self.output[k].clone());
            k = k + 1;
        }
        let r = Runtime { envs, atoms, replies, used: self.used, output };
        assert(reply_views(r.replies@) =~= reply_views(self.replies@));
        assert(texts(r.output@) =~= texts(self.output@));
        r
    }

    /// Gives the host's answer to the request that an attempt stopped at.
    pub fn answer(&mut self, reply: HostReply)
        ensures
            final(self)@ == (RtView { replies: old(self)@.replies.push(reply@), ..old(self)@ }),
    {
        let ghost rv = reply@;
        self.replies.push(reply);
        assert(reply_views(self.replies@) =~= reply_views(old(self).replies@).push(rv));
    }

    /// One attempt at an input; see [`rep_step_spec`]. The host answers a request with
    /// [`Runtime::answer`] and then makes the attempt again; the lines printed by an attempt
    /// are in `output`.
    pub fn rep_step(&mut self, input: &str) -> (out: Outcome)
        ensures
            (out@, final(self)@) == rep_step_spec(input@, old(self)@),
    {
        let mut trial = self.snapshot();
        trial.used = 0;
        trial.output = Vec::new();
        assert(trial@ == attempt_state(old(self)@)) by {
            assert(texts(trial.output@) =~= Seq::<Seq<char>>::empty());
        }
        let r = read_eval(&mut trial, input);
        match r {
            Err(MalError::Pending(q)) => {
                self.output = trial.output;
                Outcome::NeedHost(q)
            },
            other => {
                let o = print(&trial, other);
                trial.replies = Vec::new();
                trial.used = 0;
                assert(reply_views(trial.replies@) =~= Seq::<crate::runtime::Reply>::empty());
                *self = trial;
                Outcome::Done(o)
            },
        }
    }

    /// Binds `*ARGV*` in the top-level environment to a list of the given strings.
    pub fn set_argv(&mut self, args: Vec<String>)
        ensures
            final(self)@ == env_set(old(self)@, root_env(), "*ARGV*"@, Val::List(str_vals(texts(args@)), None)),
    {
        let mut items: Vec<MalType> = Vec::new();
        let mut i: usize = 0;
        while i < args.len()
            invariant
                i <= args@.len(),
                items@.len() == i,
                forall|j: int| 0 <= j < i ==> #[trigger] items@[j]@ == Val::Str(args@[j]@),
            decreases args.len() - i,
        {
            items.push(MalType::String(args[i].clone()));
            i = i + 1;
        }
        assert(views(items@) =~= str_vals(texts(args@)));
        self.env_set(Env { id: 0 }, owned("*ARGV*"), new_list(items));
    }
}

/// String values of texts.
pub open spec fn str_vals(ts: Seq<Seq<char>>) -> Seq<Val> {
    Seq::new(ts.len(), |i: int| Val::Str(ts[i]))
}

/// The form that loads a script: `(load-file "path")`.
pub fn load_file_form(path: &str) -> (r: String)
    ensures
        r@ == "(load-file "@ + quoted(path@) + ")"@,
{
    let mut t = owned("(load-file ");
    let q = print_string_readably(path);
    push_str(&mut t, q.as_str());
    push_str(&mut t, ")");
    t
}

/// An attempt that needs no further answer from the host prints what `rep` prints from the
/// attempt's starting state, and keeps the state that `rep` leaves, with the replies forgotten.
pub proof fn law_attempt_is_rep(input: Seq<char>, s: RtView)
    requires
        !(read_eval_spec(input, attempt_state(s)).0 matches Err(Fault::Pending(_))),
    ensures
        rep_step_spec(input, s) == (OutcomeView::Done(rep_spec(input, attempt_state(s)).0), settled(rep_spec(input, attempt_state(s)).1)),
{
}

/// An attempt that stops at a request to the host changes nothing but the lines printed.
pub proof fn law_pending_attempt_keeps_state(input: Seq<char>, s: RtView)
    requires
        read_eval_spec(input, attempt_state(s)).0 matches Err(Fault::Pending(_)),
    ensures
        rep_step_spec(input, s).1 == (RtView { output: rep_step_spec(input, s).1.output, ..s }),
        rep_step_spec(input, s).0 is NeedHost,
{
}

} // verus!
