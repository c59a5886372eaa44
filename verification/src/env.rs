//! Environments: frames of bindings held in a store, each with an optional outer frame.
//! A lookup searches a frame, then its outer frame, and so on.
use vstd::prelude::*;
use crate::assoc::{assoc_get, assoc_insert, assoc_lookup, assoc_set, law_get_after_insert, law_insert_keeps_other_keys};
use crate::text::{owned, push_str};
use crate::types::{entry_views, group_views, lemma_view_shape, views, MalError, MalResult, MalType, Val, Fault, res_view};

verus! {

broadcast use group_views;

/// A handle to an environment frame held in an [`EnvStore`].
#[derive(Clone, Copy, Debug, PartialEq, Eq, Structural)]
pub struct Env {
    pub id: usize,
}

/// One frame: its bindings, and the frame that lookups fall back to.
pub struct Frame {
    pub data: Vec<(String, MalType)>,
    pub outer: Option<Env>,
}

/// All frames of a program's run. Frames are only ever added.
pub struct EnvStore {
    pub frames: Vec<Frame>,
}

/// The model of a frame.
pub struct FrameView {
    pub data: Seq<(Seq<char>, Val)>,
    pub outer: Option<Env>,
}

impl Frame {
    pub open spec fn view(&self) -> FrameView {
        FrameView { data: entry_views(self.data@), outer: self.outer }
    }
}

/// The models of a sequence of frames.
pub open spec fn frame_views(s: Seq<Frame>) -> Seq<FrameView> {
    Seq::new(s.len(), |i: int| s[i].view())
}

impl EnvStore {
    pub open spec fn view(&self) -> Seq<FrameView> {
        frame_views(self.frames@)
    }

    /// An empty store.
    pub fn new() -> (r: EnvStore)
        ensures
            r@ == Seq::<FrameView>::empty(),
    {
        let r = EnvStore { frames: Vec::new() };
        assert(r@ =~= Seq::<FrameView>::empty());
        r
    }
}

/// The value that `key` has in frame `id`: its binding there, else in the outer frame, and
/// so on. An outer frame is only followed when it comes before its inner frame in the store.
pub open spec fn lookup(frames: Seq<FrameView>, id: int, key: Seq<char>) -> Option<Val>
    decreases id,
{
    if id < 0 || id >= frames.len() {
        None
    } else {
        match assoc_get(frames[id].data, key) {
            Some(v) => Some(v),
            None => match frames[id].outer {
                Some(o) => if o.id < id { lookup(frames, o.id as int, key) } else { None },
                None => None,
            },
        }
    }
}

/// The bindings that parameters `binds` give to arguments `exprs`, added to `data`:
/// each symbol takes the next argument, and a symbol after `&` takes a list of the rest.
/// `Err` holds the message of the error.
pub open spec fn bind_params(binds: Seq<Val>, exprs: Seq<Val>, data: Seq<(Seq<char>, Val)>) -> Result<Seq<(Seq<char>, Val)>, Seq<char>>
    decreases binds.len(),
{
    if binds.len() == 0 {
        Ok(data)
    } else {
        match binds[0] {
            Val::Symbol(sym) => if sym == "&"@ {
                if binds.len() >= 2 && binds[1] is Symbol {
                    Ok(assoc_insert(data, binds[1]->Symbol_0, Val::List(exprs, None)))
                } else {
                    Err("no symbol after &"@)
                }
            } else if exprs.len() == 0 {
                Err("more args expected"@)
            } else {
                bind_params(binds.drop_first(), exprs.drop_first(), assoc_insert(data, sym, exprs[0]))
            },
            _ => Err("bind is not a symbol"@),
        }
    }
}

/// The error of a lookup that finds no binding.
fn not_found(key: &str) -> (e: MalError)
    ensures
        e@ == Fault::Eval("'"@ + key@ + "' not found"@),
{
    let mut msg = owned("'");
    push_str(&mut msg, key);
    push_str(&mut msg, "' not found");
    MalError::EvalError(msg)
}

impl Env {
    /// A new frame with outer frame `outer`, in which `binds` are bound to `exprs`.
    /// On an error the store is unchanged.
    pub fn new(store: &mut EnvStore, outer: Option<Env>, binds: Vec<MalType>, exprs: Vec<MalType>) -> (r: Result<Env, MalError>)
        ensures
            match bind_params(views(binds@), views(exprs@), Seq::empty()) {
                Ok(data) => r matches Ok(e) && e.id == old(store)@.len()
                    && final(store)@ == old(store)@.push(FrameView { data, outer }),
                Err(msg) => r matches Err(err) && err@ == Fault::Eval(msg) && final(store)@ == old(store)@,
            },
    {
        proof { reveal_strlit("&"); reveal_strlit("no symbol after &"); reveal_strlit("more args expected"); reveal_strlit("bind is not a symbol"); }
        let mut data: Vec<(String, MalType)> = Vec::new();
        let mut i: usize = 0;
        let mut j: usize = 0;
        assert(views(binds@).skip(0) == views(binds@));
        assert(views(exprs@).skip(0) == views(exprs@));
        while i < binds.len()
            invariant
                i <= binds.len(),
                j <= exprs.len(),
                store@ == old(store)@,
                bind_params(views(binds@), views(exprs@), Seq::empty())
                    == bind_params(views(binds@).skip(i as int), views(exprs@).skip(j as int), entry_views(data@)),
            decreases binds.len() - i,
        {
            let ghost bs = views(binds@).skip(i as int);
            let ghost es = views(exprs@).skip(j as int);
            proof { lemma_view_shape(&binds@[i as int]); }
            assert(bs[0] == binds@[i as int]@);
            match &binds[i] {
                MalType::Symbol(sym) => {
                    if crate::text::str_is(sym.as_str(), "&") {
                        if i + 1 < binds.len() {
                            proof { lemma_view_shape(&binds@[i + 1]); }
                            assert(bs[1] == binds@[i + 1]@);
                            match &binds[i + 1] {
                                MalType::Symbol(rest_sym) => {
                                    let mut rest: Vec<MalType> = Vec::new();
                                    let mut k: usize = j;
                                    while k < exprs.len()
                                        invariant
                                            j <= k <= exprs.len(),
                                            views(rest@) == views(exprs@).subrange(j as int, k as int),
                                        decreases exprs.len() - k,
                                    {
                                        let ghost prev = rest@;
                                        rest.push(exprs[k].deep_clone());
                                        assert(views(rest@).len() == views(prev).len() + 1);
                                        assert(forall|m: int| 0 <= m < prev.len() ==> #[trigger] views(rest@)[m] == views(prev)[m]);
                                        assert(views(rest@) =~= views(exprs@).subrange(j as int, k + 1));
                                        k = k + 1;
                                    }
                                    assert(views(rest@) =~= es);
                                    let list = crate::types::new_list(rest);
                                    assoc_set(&mut data, rest_sym.clone(), list);
                                    let e = Env { id: store.frames.len() };
                                    let ghost fv = FrameView { data: entry_views(data@), outer };
                                    let ghost before = store.frames@;
                                    store.frames.push(Frame { data, outer });
                                    assert(store.frames@ == before.push(Frame { data, outer }));
                                    assert(store@ =~= old(store)@.push(fv));
                                    return Ok(e);
                                },
                                _ => {},
                            }
                        }
                        return Err(MalError::EvalError(owned("no symbol after &")));
                    }
                    if j >= exprs.len() {
                        return Err(MalError::EvalError(owned("more args expected")));
                    }
                    assert(es[0] == exprs@[j as int]@);
                    assoc_set(&mut data, sym.clone(), exprs[j].deep_clone());
                    assert(bs.drop_first() =~= views(binds@).skip(i + 1));
                    assert(es.drop_first() =~= views(exprs@).skip(j + 1));
                    i = i + 1;
                    j = j + 1;
                },
                _ => {
                    return Err(MalError::EvalError(owned("bind is not a symbol")));
                },
            }
        }
        let e = Env { id: store.frames.len() };
        let ghost fv = FrameView { data: entry_views(data@), outer };
        store.frames.push(Frame { data, outer });
        assert(store@ =~= old(store)@.push(fv));
        Ok(e)
    }

    /// Binds `key` to `value` in this frame (replacing an earlier binding of `key` there).
    pub fn set(&self, store: &mut EnvStore, key: String, value: MalType)
        ensures
            self.id < old(store)@.len() ==> final(store)@ == old(store)@.update(
                self.id as int,
                FrameView { data: assoc_insert(old(store)@[self.id as int].data, key@, value@), outer: old(store)@[self.id as int].outer },
            ),
            self.id >= old(store)@.len() ==> final(store)@ == old(store)@,
    {
        if self.id < store.frames.len() {
            let mut frame = Frame { data: Vec::new(), outer: None };
            store.frames.set_and_swap(self.id, &mut frame);
            assoc_set(&mut frame.data, key, value);
            let ghost fv = frame@;
            store.frames.set_and_swap(self.id, &mut frame);
            assert(store@ =~= old(store)@.update(self.id as int, fv));
        }
    }

    /// The value of `key` seen from this frame.
    pub fn get(&self, store: &EnvStore, key: &str) -> (r: MalResult)
        ensures
            match lookup(store@, self.id as int, key@) {
                Some(v) => r matches Ok(x) && x@ == v,
                None => r matches Err(e) && e@ == Fault::Eval("'"@ + key@ + "' not found"@),
            },
    {
        let mut cur: usize = self.id;
        while cur < store.frames.len()
            invariant
                lookup(store@, self.id as int, key@) == lookup(store@, cur as int, key@),
            decreases cur,
        {
            assert(store@[cur as int].data == entry_views(store.frames@[cur as int].data@));
            match assoc_lookup(&store.frames[cur].data, key) {
                Some(v) => {
                    return Ok(v);
                },
                None => {},
            }
            match store.frames[cur].outer {
                Some(o) => {
                    if o.id < cur {
                        cur = o.id;
                    } else {
                        return Err(not_found(key));
                    }
                },
                None => {
                    return Err(not_found(key));
                },
            }
        }
        Err(not_found(key))
    }
}

/// Whether parameters are symbols other than `&`, each named once.
pub open spec fn plain_params(binds: Seq<Val>) -> bool {
    &&& forall|j: int| 0 <= j < binds.len() ==> (#[trigger] binds[j]) is Symbol && binds[j]->Symbol_0 != "&"@
    &&& forall|a: int, b: int| 0 <= a < b < binds.len() ==> #[trigger] binds[a] != #[trigger] binds[b]
}

proof fn lemma_bind_keeps_unnamed(binds: Seq<Val>, exprs: Seq<Val>, acc: Seq<(Seq<char>, Val)>, name: Seq<char>)
    requires
        plain_params(binds),
        binds.len() <= exprs.len(),
        forall|j: int| 0 <= j < binds.len() ==> (#[trigger] binds[j]) != Val::Symbol(name),
    ensures
        bind_params(binds, exprs, acc) matches Ok(res) && assoc_get(res, name) == assoc_get(acc, name),
    decreases binds.len(),
{
    if binds.len() > 0 {
        let sym = binds[0]->Symbol_0;
        assert(binds[0] != Val::Symbol(name));
        law_insert_keeps_other_keys(acc, sym, name, exprs[0]);
        let rest = binds.drop_first();
        assert forall|a: int, b: int| 0 <= a < b < rest.len() implies #[trigger] rest[a] != #[trigger] rest[b] by {
            assert(rest[a] == binds[a + 1] && rest[b] == binds[b + 1]);
        }
        assert forall|j: int| 0 <= j < rest.len() implies (#[trigger] rest[j]) is Symbol && rest[j]->Symbol_0 != "&"@ by {
            assert(rest[j] == binds[j + 1]);
        }
        assert forall|j: int| 0 <= j < rest.len() implies (#[trigger] rest[j]) != Val::Symbol(name) by {
            assert(rest[j] == binds[j + 1]);
        }
        lemma_bind_keeps_unnamed(rest, exprs.drop_first(), assoc_insert(acc, sym, exprs[0]), name);
    }
}

proof fn lemma_params_bound(binds: Seq<Val>, exprs: Seq<Val>, acc: Seq<(Seq<char>, Val)>, i: int)
    requires
        0 <= i < binds.len(),
        binds.len() <= exprs.len(),
        plain_params(binds),
    ensures
        bind_params(binds, exprs, acc) matches Ok(res) && assoc_get(res, binds[i]->Symbol_0) == Some(exprs[i]),
    decreases binds.len(),
{
    let sym = binds[0]->Symbol_0;
    assert(binds[0] is Symbol && sym != "&"@);
    let rest = binds.drop_first();
    assert forall|a: int, b: int| 0 <= a < b < rest.len() implies #[trigger] rest[a] != #[trigger] rest[b] by {
        assert(rest[a] == binds[a + 1] && rest[b] == binds[b + 1]);
    }
    assert forall|j: int| 0 <= j < rest.len() implies (#[trigger] rest[j]) is Symbol && rest[j]->Symbol_0 != "&"@ by {
        assert(rest[j] == binds[j + 1]);
    }
    if i == 0 {
        assert forall|j: int| 0 <= j < rest.len() implies (#[trigger] rest[j]) != Val::Symbol(sym) by {
            assert(rest[j] == binds[j + 1]);
            assert(binds[0] != binds[j + 1]);
        }
        lemma_bind_keeps_unnamed(rest, exprs.drop_first(), assoc_insert(acc, sym, exprs[0]), sym);
        law_get_after_insert(acc, sym, exprs[0]);
    } else {
        assert(rest[i - 1] == binds[i]);
        lemma_params_bound(rest, exprs.drop_first(), assoc_insert(acc, sym, exprs[0]), i - 1);
    }
}

/// When the parameters are distinct symbols without `&` and there are enough arguments,
/// binding them succeeds and each parameter is bound to the argument at its position.
pub proof fn law_params_bound(binds: Seq<Val>, exprs: Seq<Val>, i: int)
    requires
        0 <= i < binds.len(),
        binds.len() <= exprs.len(),
        plain_params(binds),
    ensures
        bind_params(binds, exprs, Seq::empty()) matches Ok(data) && assoc_get(data, binds[i]->Symbol_0) == Some(exprs[i]),
{
    lemma_params_bound(binds, exprs, Seq::empty(), i);
}

/// The last position at which parameters name `name`, or `-1`.
pub open spec fn last_param(binds: Seq<Val>, name: Seq<char>) -> int
    decreases binds.len(),
{
    if binds.len() == 0 {
        -1
    } else {
        let r = last_param(binds.drop_first(), name);
        if r >= 0 { r + 1 } else if binds[0] == Val::Symbol(name) { 0 } else { -1 }
    }
}

/// Whether parameters are symbols other than `&` (names may repeat).
pub open spec fn symbol_params(binds: Seq<Val>) -> bool {
    forall|j: int| 0 <= j < binds.len() ==> (#[trigger] binds[j]) is Symbol && binds[j]->Symbol_0 != "&"@
}

proof fn lemma_last_param_range(binds: Seq<Val>, name: Seq<char>)
    ensures
        -1 <= last_param(binds, name) < binds.len(),
        last_param(binds, name) >= 0 ==> binds[last_param(binds, name)] == Val::Symbol(name),
    decreases binds.len(),
{
    if binds.len() > 0 {
        lemma_last_param_range(binds.drop_first(), name);
    }
}

proof fn lemma_bind_symbols(binds: Seq<Val>, exprs: Seq<Val>, acc: Seq<(Seq<char>, Val)>, name: Seq<char>)
    requires
        symbol_params(binds),
    ensures
        bind_params(binds, exprs, acc) is Ok <==> exprs.len() >= binds.len(),
        bind_params(binds, exprs, acc) matches Ok(res) ==> assoc_get(res, name) == if last_param(binds, name) >= 0 {
            Some(exprs[last_param(binds, name)])
        } else {
            assoc_get(acc, name)
        },
    decreases binds.len(),
{
    if binds.len() > 0 {
        let sym = binds[0]->Symbol_0;
        assert(binds[0] is Symbol && sym != "&"@);
        let rest = binds.drop_first();
        assert forall|j: int| 0 <= j < rest.len() implies (#[trigger] rest[j]) is Symbol && rest[j]->Symbol_0 != "&"@ by {
            assert(rest[j] == binds[j + 1]);
        }
        if exprs.len() > 0 {
            let acc2 = assoc_insert(acc, sym, exprs[0]);
            lemma_bind_symbols(rest, exprs.drop_first(), acc2, name);
            lemma_last_param_range(rest, name);
            if last_param(rest, name) < 0 {
                if sym == name {
                    law_get_after_insert(acc, sym, exprs[0]);
                } else {
                    law_insert_keeps_other_keys(acc, sym, name, exprs[0]);
                }
            }
        }
    }
}

/// Binding parameters that are symbols other than `&` succeeds exactly when there are at
/// least as many arguments; each name is then bound to the argument at the last position
/// that names it (a later duplicate wins), extra arguments are dropped, and no other name is
/// bound.
pub proof fn law_bind_symbols(binds: Seq<Val>, exprs: Seq<Val>, name: Seq<char>)
    requires
        symbol_params(binds),
    ensures
        bind_params(binds, exprs, Seq::empty()) is Ok <==> exprs.len() >= binds.len(),
        exprs.len() < binds.len() ==> bind_params(binds, exprs, Seq::empty()) == Err::<Seq<(Seq<char>, Val)>, Seq<char>>("more args expected"@),
        bind_params(binds, exprs, Seq::empty()) matches Ok(data) ==> assoc_get(data, name) == if last_param(binds, name) >= 0 {
            Some(exprs[last_param(binds, name)])
        } else {
            None
        },
{
    lemma_bind_symbols(binds, exprs, Seq::empty(), name);
    crate::assoc::lemma_find_key(Seq::empty(), name);
    if exprs.len() < binds.len() {
        lemma_bind_short(binds, exprs, Seq::empty());
    }
}

proof fn lemma_bind_short(binds: Seq<Val>, exprs: Seq<Val>, acc: Seq<(Seq<char>, Val)>)
    requires
        symbol_params(binds),
        exprs.len() < binds.len(),
    ensures
        bind_params(binds, exprs, acc) == Err::<Seq<(Seq<char>, Val)>, Seq<char>>("more args expected"@),
    decreases binds.len(),
{
    let sym = binds[0]->Symbol_0;
    assert(binds[0] is Symbol && sym != "&"@);
    if exprs.len() > 0 {
        let rest = binds.drop_first();
        assert forall|j: int| 0 <= j < rest.len() implies (#[trigger] rest[j]) is Symbol && rest[j]->Symbol_0 != "&"@ by {
            assert(rest[j] == binds[j + 1]);
        }
        lemma_bind_short(rest, exprs.drop_first(), assoc_insert(acc, sym, exprs[0]));
    }
}

/// Whether each frame's outer frame, if any, comes before it in the store.
pub open spec fn outer_before(frames: Seq<FrameView>) -> bool {
    forall|i: int| 0 <= i < frames.len() && (#[trigger] frames[i]).outer is Some ==> frames[i].outer->0.id < i
}

/// The frames that a lookup from frame `id` visits: that frame, its outer frame, and so on.
pub open spec fn chain(frames: Seq<FrameView>, id: int) -> Seq<int>
    decreases id,
{
    if id < 0 || id >= frames.len() {
        Seq::empty()
    } else {
        seq![id] + match frames[id].outer {
            Some(o) => if o.id < id { chain(frames, o.id as int) } else { Seq::empty() },
            None => Seq::empty(),
        }
    }
}

/// The value bound to `key` in the first of the given frames that binds it.
pub open spec fn first_binding(frames: Seq<FrameView>, ids: Seq<int>, key: Seq<char>) -> Option<Val>
    decreases ids.len(),
{
    if ids.len() == 0 {
        None
    } else {
        match assoc_get(frames[ids[0]].data, key) {
            Some(v) => Some(v),
            None => first_binding(frames, ids.drop_first(), key),
        }
    }
}

/// A lookup gives the binding in the first frame along the chain of outer frames that binds
/// the key, and nothing when none does; where every outer frame comes before its inner frame,
/// that chain follows each outer frame until a frame has none.
pub proof fn law_lookup_first_binding(frames: Seq<FrameView>, id: int, key: Seq<char>)
    ensures
        lookup(frames, id, key) == first_binding(frames, chain(frames, id), key),
        outer_before(frames) && 0 <= id < frames.len() ==> chain(frames, id) == seq![id] + match frames[id].outer {
            Some(o) => chain(frames, o.id as int),
            None => Seq::<int>::empty(),
        },
    decreases id,
{
    if 0 <= id < frames.len() {
        let c = chain(frames, id);
        assert(c[0] == id);
        match frames[id].outer {
            Some(o) => if o.id < id {
                law_lookup_first_binding(frames, o.id as int, key);
                assert(c.drop_first() =~= chain(frames, o.id as int));
            } else {
                assert(c.drop_first() =~= Seq::<int>::empty());
            },
            None => {
                assert(c.drop_first() =~= Seq::<int>::empty());
            },
        }
    }
}

} // verus!
