//! The state of a running interpreter: its environments, its atoms, the answers that the
//! host has given to its requests, and the lines it has printed. The functions of the core
//! namespace that read or change that state are here.
use vstd::prelude::*;
use crate::assoc::{assoc_get, assoc_insert, law_get_after_insert, law_insert_keeps_other_keys};
use crate::env::{bind_params, lookup, outer_before, Env, EnvStore, FrameView};
use crate::namespace::{ev, eval_err};
use crate::printer::{pr, pr_str};
use crate::reader::texts;
use crate::text::{chars_of, owned, push_char, push_str};
use crate::types::{truthy, group_views, lemma_view_shape, res_view, views, Ask, Fault, HostReply, HostRequest, MalError, MalResult, MalType, Val};

verus! {

broadcast use group_views;

/// The model of a [`HostReply`].
pub enum Reply {
    Text(Seq<char>),
    Failed(Seq<char>),
    Millis(i64),
}

impl HostReply {
    pub open spec fn view(&self) -> Reply {
        match self {
            HostReply::Text(t) => Reply::Text(t@),
            HostReply::Failed(m) => Reply::Failed(m@),
            HostReply::Millis(n) => Reply::Millis(*n),
        }
    }
}

/// The models of host replies.
pub open spec fn reply_views(v: Seq<HostReply>) -> Seq<Reply> {
    Seq::new(v.len(), |i: int| v[i]@)
}

/// The state of an interpreter.
pub struct Runtime {
    /// The environment frames; frame 0 is the top-level environment.
    pub envs: EnvStore,
    /// The content of each atom, by index.
    pub atoms: Vec<MalType>,
    /// The host's answers to the requests of the current evaluation, in order.
    pub replies: Vec<HostReply>,
    /// How many of `replies` have been used.
    pub used: usize,
    /// The lines printed so far.
    pub output: Vec<String>,
}

/// The model of a [`Runtime`].
pub struct RtView {
    pub frames: Seq<FrameView>,
    pub atoms: Seq<Val>,
    pub replies: Seq<Reply>,
    pub used: int,
    pub output: Seq<Seq<char>>,
}

impl Runtime {
    pub open spec fn view(&self) -> RtView {
        RtView {
            frames: self.envs@,
            atoms: views(self.atoms@),
            replies: reply_views(self.replies@),
            used: self.used as int,
            output: texts(self.output@),
        }
    }
}

/// The state after printing a line.
pub open spec fn printed(s: RtView, line: Seq<char>) -> RtView {
    RtView { output: s.output.push(line), ..s }
}

/// The text of a value as the printer writes it in state `s`.
pub open spec fn show(v: Val, readably: bool, s: RtView) -> Seq<char> {
    pr(v, readably, s.atoms, s.atoms.len() as nat)
}

/// The texts of values, separated by `sep`.
pub open spec fn show_all(vs: Seq<Val>, readably: bool, sep: Seq<char>, s: RtView) -> Seq<char>
    decreases vs.len(),
{
    if vs.len() == 0 {
        Seq::empty()
    } else if vs.len() == 1 {
        show(vs[0], readably, s)
    } else {
        show_all(vs.drop_last(), readably, sep, s) + sep + show(vs.last(), readably, s)
    }
}

impl Runtime {
    /// Prints a line.
    pub fn print_line(&mut self, line: String)
        ensures
            final(self)@ == printed(old(self)@, line@),
    {
        let ghost l = line@;
        self.output.push(line);
        assert(texts(self.output@) =~= texts(old(self).output@).push(l));
    }

    /// The text of a value, with atoms opened from this state.
    pub fn show(&self, v: &MalType, readably: bool) -> (r: String)
        ensures
            r@ == show(v@, readably, self@),
    {
        pr_str(v, readably, &self.atoms)
    }

    /// The texts of values, separated by `sep`.
    pub fn show_all(&self, vs: &Vec<MalType>, readably: bool, sep: &str) -> (r: String)
        ensures
            r@ == show_all(views(vs@), readably, sep@, self@),
    {
        let ghost s = views(vs@);
        let mut out = String::new();
        let mut i: usize = 0;
        while i < vs.len()
            invariant
                i <= vs@.len(),
                s == views(vs@),
                out@ == show_all(s.take(i as int), readably, sep@, self@),
            decreases vs.len() - i,
        {
            if i > 0 {
                push_str(&mut out, sep);
            }
            let t = self.show(&vs[i], readably);
            push_str(&mut out, t.as_str());
            proof {
                assert(s.take(i + 1).drop_last() == s.take(i as int));
                assert(s.take(i + 1).last() == vs@[i as int]@);
                if i == 0 {
                    assert(out@ =~= show_all(s.take(1), readably, sep@, self@));
                } else {
                    assert(out@ =~= show_all(s.take(i + 1), readably, sep@, self@));
                }
            }
            i = i + 1;
        }
        assert(s.take(vs.len() as int) == s);
        out
    }
}

/// The model of `pr-str`: the readable texts of the arguments, separated by spaces.
pub open spec fn prstr_spec(args: Seq<Val>, s: RtView) -> (Result<Val, Fault>, RtView) {
    (Ok(Val::Str(show_all(args, true, " "@, s))), s)
}

/// The model of `str`: the plain texts of the arguments, run together.
pub open spec fn str_spec(args: Seq<Val>, s: RtView) -> (Result<Val, Fault>, RtView) {
    (Ok(Val::Str(show_all(args, false, Seq::empty(), s))), s)
}

/// The model of `prn`: prints the readable texts of the arguments, separated by spaces.
pub open spec fn prn_spec(args: Seq<Val>, s: RtView) -> (Result<Val, Fault>, RtView) {
    (Ok(Val::Nil), printed(s, show_all(args, true, " "@, s)))
}

/// The model of `println`: prints the plain texts of the arguments, separated by spaces.
pub open spec fn println_spec(args: Seq<Val>, s: RtView) -> (Result<Val, Fault>, RtView) {
    (Ok(Val::Nil), printed(s, show_all(args, false, " "@, s)))
}

impl Runtime {
    /// `pr-str`
    pub fn prstr(&mut self, args: Vec<MalType>) -> (r: MalResult)
        ensures
            (res_view(r), final(self)@) == prstr_spec(views(args@), old(self)@),
    {
        Ok(MalType::String(self.show_all(&args, true, " ")))
    }

    /// `str`
    pub fn str(&mut self, args: Vec<MalType>) -> (r: MalResult)
        ensures
            (res_view(r), final(self)@) == str_spec(views(args@), old(self)@),
    {
        let sep = "";
        proof { reveal_strlit(""); }
        assert(sep@ =~= Seq::<char>::empty());
        Ok(MalType::String(self.show_all(&args, false, sep)))
    }

    /// `prn`
    pub fn prn(&mut self, args: Vec<MalType>) -> (r: MalResult)
        ensures
            (res_view(r), final(self)@) == prn_spec(views(args@), old(self)@),
    {
        let line = self.show_all(&args, true, " ");
        self.print_line(line);
        Ok(MalType::Nil)
    }

    /// `println`
    pub fn println(&mut self, args: Vec<MalType>) -> (r: MalResult)
        ensures
            (res_view(r), final(self)@) == println_spec(views(args@), old(self)@),
    {
        let line = self.show_all(&args, false, " ");
        self.print_line(line);
        Ok(MalType::Nil)
    }
}

/// The state after adding an atom.
pub open spec fn with_atom(s: RtView, v: Val) -> RtView {
    RtView { atoms: s.atoms.push(v), ..s }
}

/// The state after an atom's content is replaced.
pub open spec fn atom_set(s: RtView, a: int, v: Val) -> RtView {
    RtView { atoms: s.atoms.update(a, v), ..s }
}

/// The model of `atom`: a new atom holding the first argument.
pub open spec fn atom_spec(args: Seq<Val>, s: RtView) -> (Result<Val, Fault>, RtView) {
    if args.len() == 0 {
        (ev("'atom' expects value"@), s)
    } else {
        (Ok(Val::Atom(s.atoms.len() as usize)), with_atom(s, args[0]))
    }
}

/// The model of `deref`: an atom's content.
pub open spec fn deref_spec(args: Seq<Val>, s: RtView) -> (Result<Val, Fault>, RtView) {
    if args.len() > 0 && args[0] is Atom && args[0]->Atom_0 < s.atoms.len() {
        (Ok(s.atoms[args[0]->Atom_0 as int]), s)
    } else {
        (ev("'deref' expects an atom"@), s)
    }
}

/// The model of `reset!`: the second argument becomes the atom's content, and the result.
pub open spec fn reset_spec(args: Seq<Val>, s: RtView) -> (Result<Val, Fault>, RtView) {
    if args.len() >= 2 && args[0] is Atom && args[0]->Atom_0 < s.atoms.len() {
        (Ok(args[1]), atom_set(s, args[0]->Atom_0 as int, args[1]))
    } else {
        (ev("'reset!' expects atom and value"@), s)
    }
}

impl Runtime {
    /// `atom`
    pub fn atom(&mut self, args: Vec<MalType>) -> (r: MalResult)
        ensures
            (res_view(r), final(self)@) == atom_spec(views(args@), old(self)@),
    {
        if args.len() == 0 {
            return Err(eval_err("'atom' expects value"));
        }
        let a = self.atoms.len();
        let v = args[0].deep_clone();
        let ghost vv = v@;
        self.atoms.push(v);
        assert(views(self.atoms@) =~= views(old(self).atoms@).push(vv));
        Ok(MalType::Atom(a))
    }

    /// `deref`
    pub fn deref(&mut self, args: Vec<MalType>) -> (r: MalResult)
        ensures
            (res_view(r), final(self)@) == deref_spec(views(args@), old(self)@),
    {
        if args.len() > 0 {
            proof { lemma_view_shape(&args@[0]); }
            match &args[0] {
                MalType::Atom(a) => {
                    if *a < self.atoms.len() {
                        return Ok(self.atoms[*a].deep_clone());
                    }
                },
                _ => {},
            }
        }
        Err(eval_err("'deref' expects an atom"))
    }

    /// Replaces an atom's content.
    pub fn set_atom(&mut self, a: usize, v: MalType)
        requires
            a < old(self).atoms@.len(),
        ensures
            final(self)@ == atom_set(old(self)@, a as int, v@),
    {
        let ghost vv = v@;
        self.atoms.set(a, v);
        assert(views(self.atoms@) =~= views(old(self).atoms@).update(a as int, vv));
    }

    /// `reset!`
    pub fn reset(&mut self, args: Vec<MalType>) -> (r: MalResult)
        ensures
            (res_view(r), final(self)@) == reset_spec(views(args@), old(self)@),
    {
        if args.len() >= 2 {
            proof { lemma_view_shape(&args@[0]); }
            match &args[0] {
                MalType::Atom(a) => {
                    if *a < self.atoms.len() {
                        let v = args[1].deep_clone();
                        self.set_atom(*a, args[1].deep_clone());
                        return Ok(v);
                    }
                },
                _ => {},
            }
        }
        Err(eval_err("'reset!' expects atom and value"))
    }
}

/// The host's next unused reply, if there is one.
pub open spec fn next_reply(s: RtView) -> Option<Reply> {
    if 0 <= s.used < s.replies.len() { Some(s.replies[s.used]) } else { None }
}

/// The state after a reply is used.
pub open spec fn reply_used(s: RtView) -> RtView {
    RtView { used: s.used + 1, ..s }
}

/// The message for a reply of the wrong kind.
pub open spec fn odd_reply() -> Seq<char> {
    "unexpected reply from host"@
}

/// The model of `readline`: reads a line after showing the prompt given by a string
/// argument. At the end of input the result is `nil` and an empty line is printed; else the
/// line without its newline.
pub open spec fn readline_spec(args: Seq<Val>, s: RtView) -> (Result<Val, Fault>, RtView) {
    match next_reply(s) {
        None => {
            let prompt = if args.len() > 0 && args[0] is Str { Some(args[0]->Str_0) } else { None };
            (Err(Fault::Pending(Ask::ReadLine(prompt))), s)
        },
        Some(Reply::Text(t)) => if t.len() == 0 {
            (Ok(Val::Nil), printed(reply_used(s), Seq::empty()))
        } else if t.last() == '\n' {
            (Ok(Val::Str(t.drop_last())), reply_used(s))
        } else {
            (Ok(Val::Str(t)), reply_used(s))
        },
        Some(Reply::Failed(m)) => (Err(Fault::Io(m)), reply_used(s)),
        Some(Reply::Millis(_)) => (Err(Fault::Io(odd_reply())), reply_used(s)),
    }
}

/// The model of `slurp`: the content of the file named by a string argument.
pub open spec fn slurp_spec(args: Seq<Val>, s: RtView) -> (Result<Val, Fault>, RtView) {
    if args.len() > 0 && args[0] is Str {
        match next_reply(s) {
            None => (Err(Fault::Pending(Ask::ReadFile(args[0]->Str_0))), s),
            Some(Reply::Text(t)) => (Ok(Val::Str(t)), reply_used(s)),
            Some(Reply::Failed(m)) => (Err(Fault::Io(m)), reply_used(s)),
            Some(Reply::Millis(_)) => (Err(Fault::Io(odd_reply())), reply_used(s)),
        }
    } else {
        (ev("'slurp' expects string"@), s)
    }
}

/// The model of `time-ms`: the current time in milliseconds.
pub open spec fn timems_spec(s: RtView) -> (Result<Val, Fault>, RtView) {
    match next_reply(s) {
        None => (Err(Fault::Pending(Ask::Now)), s),
        Some(Reply::Millis(n)) => (Ok(Val::Number(n)), reply_used(s)),
        Some(Reply::Failed(m)) => (Err(Fault::Io(m)), reply_used(s)),
        Some(Reply::Text(_)) => (Err(Fault::Io(odd_reply())), reply_used(s)),
    }
}

impl Runtime {
    /// The next unused reply, which is then used; `None` when the host has not answered yet.
    fn take_reply(&mut self) -> (r: Option<HostReply>)
        ensures
            match next_reply(old(self)@) {
                Some(rep) => r matches Some(x) && x@ == rep && final(self)@ == reply_used(old(self)@),
                None => r is None && final(self)@ == old(self)@,
            },
    {
        if self.used < self.replies.len() {
            let x = match &self.replies[self.used] {
                HostReply::Text(t) => HostReply::Text(t.clone()),
                HostReply::Failed(m) => HostReply::Failed(m.clone()),
                HostReply::Millis(n) => HostReply::Millis(*n),
            };
            self.used = self.used + 1;
            Some(x)
        } else {
            None
        }
    }

    /// `readline`
    pub fn readline(&mut self, args: Vec<MalType>) -> (r: MalResult)
        ensures
            (res_view(r), final(self)@) == readline_spec(views(args@), old(self)@),
    {
        match self.take_reply() {
            None => {
                let mut prompt: Option<String> = None;
                if args.len() > 0 {
                    proof { lemma_view_shape(&args@[0]); }
                    match &args[0] {
                        MalType::String(m) => {
                            prompt = Some(m.clone());
                        },
                        _ => {},
                    }
                }
                Err(MalError::Pending(HostRequest::ReadLine(prompt)))
            },
            Some(HostReply::Text(t)) => {
                let cs = chars_of(t.as_str());
                if cs.len() == 0 {
                    self.print_line(String::new());
                    Ok(MalType::Nil)
                } else if cs[cs.len() - 1] == '\n' {
                    let mut line = String::new();
                    let mut i: usize = 0;
                    while i < cs.len() - 1
                        invariant
                            cs@.len() > 0,
                            i <= cs@.len() - 1,
                            line@ == cs@.take(i as int),
                        decreases cs.len() - i,
                    {
                        push_char(&mut line, cs[i]);
                        assert(cs@.take(i + 1) == cs@.take(i as int).push(cs@[i as int]));
                        i = i + 1;
                    }
                    assert(line@ =~= t@.drop_last());
                    Ok(MalType::String(line))
                } else {
                    Ok(MalType::String(t))
                }
            },
            Some(HostReply::Failed(m)) => Err(MalError::IOError(m)),
            Some(HostReply::Millis(_)) => Err(MalError::IOError(owned("unexpected reply from host"))),
        }
    }

    /// `slurp`
    pub fn slurp(&mut self, args: Vec<MalType>) -> (r: MalResult)
        ensures
            (res_view(r), final(self)@) == slurp_spec(views(args@), old(self)@),
    {
        if args.len() > 0 {
            proof { lemma_view_shape(&args@[0]); }
            match &args[0] {
                MalType::String(f) => {
                    return match self.take_reply() {
                        None => Err(MalError::Pending(HostRequest::ReadFile(f.clone()))),
                        Some(HostReply::Text(t)) => Ok(MalType::String(t)),
                        Some(HostReply::Failed(m)) => Err(MalError::IOError(m)),
                        Some(HostReply::Millis(_)) => Err(MalError::IOError(owned("unexpected reply from host"))),
                    };
                },
                _ => {},
            }
        }
        Err(eval_err("'slurp' expects string"))
    }

    /// `time-ms`
    pub fn timems(&mut self) -> (r: MalResult)
        ensures
            (res_view(r), final(self)@) == timems_spec(old(self)@),
    {
        match self.take_reply() {
            None => Err(MalError::Pending(HostRequest::Now)),
            Some(HostReply::Millis(n)) => Ok(MalType::Number(n)),
            Some(HostReply::Failed(m)) => Err(MalError::IOError(m)),
            Some(HostReply::Text(_)) => Err(MalError::IOError(owned("unexpected reply from host"))),
        }
    }
}

/// The value of `key` seen from environment `env`, or the error of a missing binding.
pub open spec fn env_get(s: RtView, env: Env, key: Seq<char>) -> Result<Val, Fault> {
    match lookup(s.frames, env.id as int, key) {
        Some(v) => Ok(v),
        None => Err(Fault::Eval("'"@ + key + "' not found"@)),
    }
}

/// The state after `key` is bound to `v` in the frame of `env`.
pub open spec fn env_set(s: RtView, env: Env, key: Seq<char>, v: Val) -> RtView {
    if env.id < s.frames.len() {
        RtView {
            frames: s.frames.update(
                env.id as int,
                FrameView { data: assoc_insert(s.frames[env.id as int].data, key, v), outer: s.frames[env.id as int].outer },
            ),
            ..s
        }
    } else {
        s
    }
}

/// The handle that the next new frame gets.
pub open spec fn next_env(s: RtView) -> Env {
    Env { id: s.frames.len() as usize }
}

/// The state after an empty frame with outer frame `outer` is added.
pub open spec fn push_frame(s: RtView, outer: Option<Env>) -> RtView {
    RtView { frames: s.frames.push(FrameView { data: Seq::empty(), outer }), ..s }
}

/// A new frame in which `binds` are bound to `exprs`, and the state with it; `Err` holds
/// the message when the parameters do not fit the arguments.
pub open spec fn new_frame(s: RtView, outer: Option<Env>, binds: Seq<Val>, exprs: Seq<Val>) -> Result<(Env, RtView), Seq<char>> {
    match bind_params(binds, exprs, Seq::empty()) {
        Ok(data) => Ok((next_env(s), RtView { frames: s.frames.push(FrameView { data, outer }), ..s })),
        Err(m) => Err(m),
    }
}

/// The state after tracing the evaluation of `ast`: a line `EVAL: ...` is printed when
/// `DEBUG-EVAL` is bound to a true value.
pub open spec fn trace(ast: Val, env: Env, s: RtView) -> RtView {
    match lookup(s.frames, env.id as int, "DEBUG-EVAL"@) {
        Some(v) => if truthy(v) { printed(s, "EVAL: "@ + show(ast, true, s)) } else { s },
        None => s,
    }
}

impl Runtime {
    /// The value of `key` seen from `env`.
    pub fn env_get(&self, env: Env, key: &str) -> (r: MalResult)
        ensures
            res_view(r) == env_get(self@, env, key@),
    {
        env.get(&self.envs, key)
    }

    /// Binds `key` to `v` in the frame of `env`.
    pub fn env_set(&mut self, env: Env, key: String, v: MalType)
        ensures
            final(self)@ == env_set(old(self)@, env, key@, v@),
    {
        env.set(&mut self.envs, key, v);
    }

    /// A new frame in which `binds` are bound to `exprs`.
    pub fn new_frame(&mut self, outer: Option<Env>, binds: Vec<MalType>, exprs: Vec<MalType>) -> (r: Result<Env, MalError>)
        ensures
            match new_frame(old(self)@, outer, views(binds@), views(exprs@)) {
                Ok((e, s1)) => r matches Ok(x) && x == e && final(self)@ == s1,
                Err(m) => r matches Err(err) && err@ == Fault::Eval(m) && final(self)@ == old(self)@,
            },
    {
        Env::new(&mut self.envs, outer, binds, exprs)
    }

    /// A new empty frame with outer frame `outer`.
    pub fn push_frame(&mut self, outer: Option<Env>) -> (r: Env)
        ensures
            r == next_env(old(self)@),
            final(self)@ == push_frame(old(self)@, outer),
    {
        let binds: Vec<MalType> = Vec::new();
        let exprs: Vec<MalType> = Vec::new();
        assert(views(binds@) =~= Seq::<Val>::empty());
        assert(views(exprs@) =~= Seq::<Val>::empty());
        match self.new_frame(outer, binds, exprs) {
            Ok(e) => e,
            Err(_) => {
                assert(false);
                Env { id: 0 }
            },
        }
    }

    /// Traces the evaluation of `ast` in `env`; see [`trace`].
    pub fn trace(&mut self, ast: &MalType, env: Env)
        ensures
            final(self)@ == trace(ast@, env, old(self)@),
    {
        proof { reveal_strlit("DEBUG-EVAL"); }
        match self.env_get(env, "DEBUG-EVAL") {
            Ok(v) => {
                if v.to_bool() {
                    let mut line = owned("EVAL: ");
                    let t = self.show(ast, true);
                    push_str(&mut line, t.as_str());
                    self.print_line(line);
                }
            },
            Err(_) => {},
        }
    }
}

/// Frames whose bindings agree except that frame `id` may differ on key `k`: every other
/// key is seen alike from every frame.
proof fn lemma_lookup_other_key(f1: Seq<FrameView>, f2: Seq<FrameView>, id: int, k: Seq<char>, k2: Seq<char>, at: int)
    requires
        k != k2,
        f1.len() == f2.len(),
        forall|j: int| 0 <= j < f1.len() && j != at ==> #[trigger] f1[j] == f2[j],
        0 <= at < f1.len() ==> f1[at].outer == f2[at].outer
            && assoc_get(f1[at].data, k2) == assoc_get(f2[at].data, k2),
    ensures
        lookup(f1, id, k2) == lookup(f2, id, k2),
    decreases id,
{
    if 0 <= id < f1.len() {
        match f1[id].outer {
            Some(o) => if o.id < id {
                lemma_lookup_other_key(f1, f2, o.id as int, k, k2, at);
            },
            None => {},
        }
    }
}

/// Reading a name right after binding it in an environment gives the bound value.
pub proof fn law_env_get_after_set(s: RtView, env: Env, k: Seq<char>, v: Val)
    requires
        env.id < s.frames.len(),
    ensures
        env_get(env_set(s, env, k, v), env, k) == Ok::<Val, Fault>(v),
{
    law_get_after_insert(s.frames[env.id as int].data, k, v);
}

/// Binding a name leaves every other name, seen from any environment, as it was.
pub proof fn law_env_set_keeps_other_names(s: RtView, env: Env, k: Seq<char>, v: Val, env2: Env, k2: Seq<char>)
    requires
        k != k2,
    ensures
        env_get(env_set(s, env, k, v), env2, k2) == env_get(s, env2, k2),
{
    let s1 = env_set(s, env, k, v);
    if env.id < s.frames.len() {
        law_insert_keeps_other_keys(s.frames[env.id as int].data, k, k2, v);
        lemma_lookup_other_key(s1.frames, s.frames, env2.id as int, k, k2, env.id as int);
    }
}

/// Adding a frame at the end changes nothing seen from the frames before it.
proof fn lemma_lookup_push(f: Seq<FrameView>, x: FrameView, id: int, k: Seq<char>)
    requires
        0 <= id < f.len(),
    ensures
        lookup(f.push(x), id, k) == lookup(f, id, k),
    decreases id,
{
    assert(f.push(x)[id] == f[id]);
    match f[id].outer {
        Some(o) => if o.id < id {
            lemma_lookup_push(f, x, o.id as int, k);
        },
        None => {},
    }
}

/// A new frame sees, for each name that it does not bind, what its outer environment sees;
/// and adding it changes nothing seen from the environments that were there before.
pub proof fn law_new_frame_scoping(s: RtView, outer: Env, binds: Seq<Val>, exprs: Seq<Val>, k: Seq<char>, env2: Env)
    requires
        outer.id < s.frames.len(),
        s.frames.len() < usize::MAX,
        new_frame(s, Some(outer), binds, exprs) is Ok,
    ensures
        ({
            let (e, s1) = new_frame(s, Some(outer), binds, exprs)->Ok_0;
            &&& assoc_get(s1.frames[e.id as int].data, k) is None ==> env_get(s1, e, k) == env_get(s, outer, k)
            &&& env2.id < s.frames.len() ==> env_get(s1, env2, k) == env_get(s, env2, k)
        }),
{
    let (e, s1) = new_frame(s, Some(outer), binds, exprs)->Ok_0;
    let data = bind_params(binds, exprs, Seq::empty())->Ok_0;
    let x = FrameView { data, outer: Some(outer) };
    assert(s1.frames == s.frames.push(x));
    assert(e.id as int == s.frames.len());
    assert(s1.frames[e.id as int] == x);
    lemma_lookup_push(s.frames, x, outer.id as int, k);
    if env2.id < s.frames.len() {
        lemma_lookup_push(s.frames, x, env2.id as int, k);
    }
}

/// Whether state `t` can follow state `s`: frames are only added and each keeps its outer
/// frame, atoms are only added, the host's replies stay and are used in order, and printed
/// lines stay.
pub open spec fn grows(s: RtView, t: RtView) -> bool {
    &&& s.frames.len() <= t.frames.len()
    &&& forall|i: int| 0 <= i < s.frames.len() ==> (#[trigger] t.frames[i]).outer == s.frames[i].outer
    &&& s.atoms.len() <= t.atoms.len()
    &&& t.replies == s.replies
    &&& s.used <= t.used
    &&& s.output.len() <= t.output.len()
    &&& forall|i: int| 0 <= i < s.output.len() ==> #[trigger] t.output[i] == s.output[i]
}

/// A state can follow itself.
pub proof fn lemma_grows_refl(s: RtView)
    ensures
        grows(s, s),
{
}

/// A state that can follow one that can follow `a` can follow `a`.
pub proof fn lemma_grows_trans(a: RtView, b: RtView, c: RtView)
    requires
        grows(a, b),
        grows(b, c),
    ensures
        grows(a, c),
{
    assert forall|i: int| 0 <= i < a.frames.len() implies (#[trigger] c.frames[i]).outer == a.frames[i].outer by {
        assert(c.frames[i].outer == b.frames[i].outer);
    }
    assert forall|i: int| 0 <= i < a.output.len() implies #[trigger] c.output[i] == a.output[i] by {
        assert(c.output[i] == b.output[i]);
    }
}

/// The small changes of state all let the state grow.
pub proof fn lemma_small_steps_grow(s: RtView, line: Seq<char>, env: Env, k: Seq<char>, v: Val, a: int, outer: Option<Env>)
    ensures
        grows(s, printed(s, line)),
        grows(s, env_set(s, env, k, v)),
        grows(s, push_frame(s, outer)),
        grows(s, with_atom(s, v)),
        0 <= a < s.atoms.len() ==> grows(s, atom_set(s, a, v)),
        grows(s, reply_used(s)),
        grows(s, printed(reply_used(s), line)),
{
    let p = printed(s, line);
    assert forall|i: int| 0 <= i < s.output.len() implies #[trigger] p.output[i] == s.output[i] by {}
    let q = printed(reply_used(s), line);
    assert forall|i: int| 0 <= i < s.output.len() implies #[trigger] q.output[i] == s.output[i] by {}
    let t = push_frame(s, outer);
    assert forall|i: int| 0 <= i < s.frames.len() implies (#[trigger] t.frames[i]).outer == s.frames[i].outer by {}
    let u = env_set(s, env, k, v);
    assert forall|i: int| 0 <= i < s.frames.len() implies (#[trigger] u.frames[i]).outer == s.frames[i].outer by {}
}

/// Tracing lets the state grow.
pub proof fn lemma_trace_grows(ast: Val, env: Env, s: RtView)
    ensures
        grows(s, trace(ast, env, s)),
{
    lemma_small_steps_grow(s, "EVAL: "@ + show(ast, true, s), env, Seq::empty(), Val::Nil, 0, None);
}

/// A new frame lets the state grow.
pub proof fn lemma_new_frame_grows(s: RtView, outer: Option<Env>, binds: Seq<Val>, exprs: Seq<Val>)
    ensures
        new_frame(s, outer, binds, exprs) matches Ok((_, s1)) ==> grows(s, s1),
{
    match new_frame(s, outer, binds, exprs) {
        Ok((_, s1)) => {
            assert forall|i: int| 0 <= i < s.frames.len() implies (#[trigger] s1.frames[i]).outer == s.frames[i].outer by {}
        },
        Err(_) => {},
    }
}

/// The functions of the core namespace that use the state let it grow.
pub proof fn lemma_stateful_builtins_grow(args: Seq<Val>, s: RtView)
    ensures
        grows(s, prstr_spec(args, s).1),
        grows(s, str_spec(args, s).1),
        grows(s, prn_spec(args, s).1),
        grows(s, println_spec(args, s).1),
        grows(s, atom_spec(args, s).1),
        grows(s, deref_spec(args, s).1),
        grows(s, reset_spec(args, s).1),
        grows(s, readline_spec(args, s).1),
        grows(s, slurp_spec(args, s).1),
        grows(s, timems_spec(s).1),
{
    lemma_small_steps_grow(s, show_all(args, true, " "@, s), root_env_handle(), Seq::empty(), Val::Nil, 0, None);
    lemma_small_steps_grow(s, show_all(args, false, " "@, s), root_env_handle(), Seq::empty(), Val::Nil, 0, None);
    lemma_small_steps_grow(s, Seq::empty(), root_env_handle(), Seq::empty(), if args.len() > 0 { args[0] } else { Val::Nil }, 0, None);
    if args.len() >= 2 && args[0] is Atom {
        lemma_small_steps_grow(s, Seq::empty(), root_env_handle(), Seq::empty(), args[1], args[0]->Atom_0 as int, None);
    }
}

/// The handle of the top-level environment.
pub open spec fn root_env_handle() -> Env {
    Env { id: 0 }
}

/// A new atom holds the value it was made with; `reset!` replaces an atom's content, which
/// `deref` then reads; other atoms keep theirs.
pub proof fn law_atom_read_after_write(s: RtView, v: Val, w: Val, a: usize, b: usize)
    requires
        s.atoms.len() < usize::MAX,
        a < s.atoms.len(),
        b < s.atoms.len(),
        a != b,
    ensures
        ({
            let (r, s1) = atom_spec(seq![v], s);
            &&& r == Ok::<Val, Fault>(Val::Atom(s.atoms.len() as usize))
            &&& deref_spec(seq![Val::Atom(s.atoms.len() as usize)], s1) == (Ok::<Val, Fault>(v), s1)
        }),
        ({
            let (r, s1) = reset_spec(seq![Val::Atom(a), w], s);
            &&& r == Ok::<Val, Fault>(w)
            &&& deref_spec(seq![Val::Atom(a)], s1) == (Ok::<Val, Fault>(w), s1)
            &&& deref_spec(seq![Val::Atom(b)], s1).0 == deref_spec(seq![Val::Atom(b)], s).0
        }),
{
    let s1 = atom_set(s, a as int, w);
    assert(s1.atoms[b as int] == s.atoms[b as int]);
}

/// Binding a name in a valid environment changes only that environment's own frame, where the
/// name is bound to the value (replacing its binding there, or added at the end); every other
/// frame, and each frame's outer frame, stays.
pub proof fn law_env_set_frames(s: RtView, env: Env, k: Seq<char>, v: Val)
    requires
        env.id < s.frames.len(),
    ensures
        ({
            let s1 = env_set(s, env, k, v);
            &&& s1.frames.len() == s.frames.len()
            &&& s1.frames[env.id as int].data == assoc_insert(s.frames[env.id as int].data, k, v)
            &&& forall|i: int| 0 <= i < s.frames.len() ==> (#[trigger] s1.frames[i]).outer == s.frames[i].outer
            &&& forall|i: int| 0 <= i < s.frames.len() && i != env.id ==> #[trigger] s1.frames[i] == s.frames[i]
            &&& s1.atoms == s.atoms && s1.output == s.output
        }),
        env_get(env_set(s, env, k, v), env, k) == Ok::<Val, Fault>(v),
{
    law_env_get_after_set(s, env, k, v);
}

/// The changes that the library makes to the store of frames keep each frame's outer frame
/// before it: binding a name changes no frame's outer frame, and a new frame (empty, or
/// holding parameters bound to arguments) whose outer frame is already in the store comes
/// after it.
pub proof fn law_store_keeps_outer_before(s: RtView, env: Env, k: Seq<char>, v: Val, outer: Option<Env>, binds: Seq<Val>, exprs: Seq<Val>)
    requires
        outer_before(s.frames),
    ensures
        outer_before(env_set(s, env, k, v).frames),
        (outer matches Some(o) ==> o.id < s.frames.len()) ==> outer_before(push_frame(s, outer).frames),
        (outer matches Some(o) ==> o.id < s.frames.len()) ==> (new_frame(s, outer, binds, exprs) matches Ok((e, s1))
            ==> outer_before(s1.frames) && e == next_env(s) && s1.frames[s.frames.len() as int].outer == outer),
{
    let u = env_set(s, env, k, v);
    assert forall|i: int| 0 <= i < u.frames.len() && (#[trigger] u.frames[i]).outer is Some implies u.frames[i].outer->0.id < i by {
        assert(u.frames[i].outer == s.frames[i].outer);
    }
    if outer matches Some(o) ==> o.id < s.frames.len() {
        let t = push_frame(s, outer);
        assert forall|i: int| 0 <= i < t.frames.len() && (#[trigger] t.frames[i]).outer is Some implies t.frames[i].outer->0.id < i by {
            if i < s.frames.len() {
                assert(t.frames[i] == s.frames[i]);
            }
        }
        if let Ok((e, s1)) = new_frame(s, outer, binds, exprs) {
            assert forall|i: int| 0 <= i < s1.frames.len() && (#[trigger] s1.frames[i]).outer is Some implies s1.frames[i].outer->0.id < i by {
                if i < s.frames.len() {
                    assert(s1.frames[i] == s.frames[i]);
                }
            }
        }
    }
}

} // verus!
