use vstd::prelude::*;

verus! {

/// What a stage does with a value it receives.
pub enum Kind<F, P> {
    /// The entry point of the chain: forwards what is sent.
    Root,
    /// Applies a function and forwards the result.
    Transform(F),
    /// Forwards only the values that satisfy a predicate.
    Predicate(P),
    /// Buffers every value it receives, in order, for pulling.
    Pull,
    /// A stage whose handle is gone: it holds nothing and receives nothing.
    Vacant,
}

/// Abstract state of one stage of a chain.
pub struct StageView<V, F, P> {
    pub kind: Kind<F, P>,
    /// The slot this stage listens to.
    pub upstream: nat,
    /// False once the stage's handle is gone.
    pub live: bool,
    /// Values buffered and not yet pulled (empty for other kinds).
    pub pending: Seq<V>,
}

/// A function usable as a mapping stage: callable on every value, and
/// giving one result per argument.
pub open spec fn pure_fn<V, F: Fn(V) -> V>(f: F) -> bool {
    &&& forall|x: V| call_requires(f, (x,))
    &&& forall|x: V, y: V, z: V|
        call_ensures(f, (x,), y) && call_ensures(f, (x,), z) ==> y == z
}

/// A predicate usable as a filtering stage: callable on every value, and
/// giving one answer per argument.
pub open spec fn pure_pred<V, P: Fn(&V) -> bool>(p: P) -> bool {
    &&& forall|x: V| call_requires(p, (&x,))
    &&& forall|x: V, a: bool, b: bool|
        call_ensures(p, (&x,), a) && call_ensures(p, (&x,), b) ==> a == b
}

/// The result of a pure function on `x`.
pub open spec fn image<V, F: Fn(V) -> V>(f: F, x: V) -> V {
    choose|y: V| call_ensures(f, (x,), y)
}

/// The answer of a pure predicate on `x`.
pub open spec fn passes<V, P: Fn(&V) -> bool>(p: P, x: V) -> bool {
    call_ensures(p, (&x,), true)
}



/// A well-formed chain: slot 0 is the live root, every other stage listens
/// to an earlier slot that is not a pull stage, and every function and
/// predicate is pure.
#[verifier::opaque]
pub open spec fn chain_wf<V, F: Fn(V) -> V, P: Fn(&V) -> bool>(s: Seq<StageView<V, F, P>>) -> bool {
    &&& s.len() >= 1
    &&& s[0].kind is Root
    &&& s[0].live
    &&& forall|i: int|
        1 <= i < s.len() ==> {
            &&& (#[trigger] s[i]).upstream < i
            &&& !(s[i].kind is Root)
            &&& !(s[s[i].upstream as int].kind is Pull)
        }
    &&& forall|i: int|
        0 <= i < s.len() ==> match (#[trigger] s[i]).kind {
            Kind::Transform(f) => pure_fn(f),
            Kind::Predicate(p) => pure_pred(p),
            _ => true,
        }
    &&& forall|i: int| 0 <= i < s.len() && !((#[trigger] s[i]).kind is Pull) ==> s[i].pending.len() == 0
    &&& forall|i: int| 0 <= i < s.len() ==> ((#[trigger] s[i]).kind is Vacant <==> !s[i].live)
}

/// The value that stage `i` forwards (or buffers, for a pull stage) when
/// `v` is sent into the chain; `None` when the value stops before it.
pub open spec fn forwarded<V, F: Fn(V) -> V, P: Fn(&V) -> bool>(
    s: Seq<StageView<V, F, P>>,
    v: V,
    i: int,
) -> Option<V>
    decreases i,
{
    if i <= 0 {
        Some(v)
    } else if i >= s.len() || !s[i].live || s[i].upstream >= i {
        None
    } else {
        match forwarded(s, v, s[i].upstream as int) {
            None => None,
            Some(x) => match s[i].kind {
                Kind::Transform(f) => Some(image(f, x)),
                Kind::Predicate(p) => if passes(p, x) {
                    Some(x)
                } else {
                    None
                },
                _ => Some(x),
            },
        }
    }
}

pub open spec fn opt_seq<V>(o: Option<V>) -> Seq<V> {
    match o {
        Some(x) => seq![x],
        None => seq![],
    }
}

/// The chain after `v` was sent: each pull stage has buffered what reached it.
pub open spec fn after_send<V, F: Fn(V) -> V, P: Fn(&V) -> bool>(
    s: Seq<StageView<V, F, P>>,
    v: V,
) -> Seq<StageView<V, F, P>> {
    Seq::new(
        s.len(),
        |i: int|
            if s[i].kind is Pull {
                StageView { pending: s[i].pending + opt_seq(forwarded(s, v, i)), ..s[i] }
            } else {
                s[i]
            },
    )
}

/// The chain after the values of `vs` were sent, in order.
pub open spec fn after_sends<V, F: Fn(V) -> V, P: Fn(&V) -> bool>(
    s: Seq<StageView<V, F, P>>,
    vs: Seq<V>,
) -> Seq<StageView<V, F, P>>
    decreases vs.len(),
{
    if vs.len() == 0 {
        s
    } else {
        after_send(after_sends(s, vs.drop_last()), vs.last())
    }
}

/// The chain after a new live stage of kind `k` was attached to `up`.
pub open spec fn after_attach<V, F, P>(
    s: Seq<StageView<V, F, P>>,
    k: Kind<F, P>,
    up: nat,
) -> Seq<StageView<V, F, P>> {
    s.push(StageView { kind: k, upstream: up, live: true, pending: seq![] })
}

/// A stage whose handle is gone: its function or predicate and its buffer
/// are dropped, and it no longer receives anything.
pub open spec fn released<V, F, P>(st: StageView<V, F, P>) -> StageView<V, F, P> {
    StageView { kind: Kind::Vacant, upstream: st.upstream, live: false, pending: seq![] }
}

/// The chain after every stage but the root whose entry in `held` is false
/// lost its handle; a stage with no entry keeps it.
pub open spec fn after_prune<V, F, P>(s: Seq<StageView<V, F, P>>, held: Seq<bool>) -> Seq<
    StageView<V, F, P>,
> {
    Seq::new(
        s.len(),
        |i: int|
            if 1 <= i < held.len() && !held[i] {
                released(s[i])
            } else {
                s[i]
            },
    )
}

/// Whether `i` names a live pull stage of the chain.
pub open spec fn pull_at<V, F, P>(s: Seq<StageView<V, F, P>>, i: int) -> bool {
    0 <= i < s.len() && s[i].kind is Pull && s[i].live
}

/// What pulling from stage `i` returns: its oldest buffered value, if any.
pub open spec fn pulled<V, F, P>(s: Seq<StageView<V, F, P>>, i: int) -> Option<V> {
    if pull_at(s, i) && s[i].pending.len() > 0 {
        Some(s[i].pending[0])
    } else {
        None
    }
}

/// The chain after pulling from stage `i`.
pub open spec fn after_pull<V, F, P>(s: Seq<StageView<V, F, P>>, i: int) -> Seq<
    StageView<V, F, P>,
> {
    if pull_at(s, i) && s[i].pending.len() > 0 {
        s.update(i, StageView { pending: s[i].pending.drop_first(), ..s[i] })
    } else {
        s
    }
}

/// What `n` successive pulls from stage `i` return.
pub open spec fn pulls<V, F, P>(s: Seq<StageView<V, F, P>>, i: int, n: nat) -> Seq<Option<V>>
    decreases n,
{
    if n == 0 {
        seq![]
    } else {
        seq![pulled(s, i)] + pulls(after_pull(s, i), i, (n - 1) as nat)
    }
}

/// Sending changes only what pull stages hold, so a well-formed chain stays
/// well-formed.
pub proof fn lemma_send_keeps_wf<V, F: Fn(V) -> V, P: Fn(&V) -> bool>(s: Seq<StageView<V, F, P>>, v: V)
    requires
        chain_wf(s),
    ensures
        chain_wf(after_send(s, v)),
        after_send(s, v).len() == s.len(),
        forall|i: int|
            0 <= i < s.len() ==> {
                &&& (#[trigger] after_send(s, v)[i]).kind == s[i].kind
                &&& after_send(s, v)[i].upstream == s[i].upstream
                &&& after_send(s, v)[i].live == s[i].live
            },
{
    reveal(chain_wf);
    let t = after_send(s, v);
    assert forall|i: int| 1 <= i < t.len() implies {
        &&& (#[trigger] t[i]).upstream < i
        &&& !(t[i].kind is Root)
        &&& !(t[t[i].upstream as int].kind is Pull)
    } by {
        assert(s[i].upstream < i);
    }
}

/// Whether a new stage may listen to slot `up`: it exists, is live, and
/// forwards values (a pull stage only buffers them).
pub open spec fn can_listen<V, F, P>(s: Seq<StageView<V, F, P>>, up: int) -> bool {
    0 <= up < s.len() && s[up].live && !(s[up].kind is Pull)
}

/// Whether `k` may be the kind of a new stage.
pub open spec fn attachable<V, F: Fn(V) -> V, P: Fn(&V) -> bool>(k: Kind<F, P>) -> bool {
    match k {
        Kind::Root => false,
        Kind::Transform(f) => pure_fn(f),
        Kind::Predicate(p) => pure_pred(p),
        Kind::Pull => true,
        Kind::Vacant => false,
    }
}

pub proof fn lemma_attach_keeps_wf<V, F: Fn(V) -> V, P: Fn(&V) -> bool>(
    s: Seq<StageView<V, F, P>>,
    k: Kind<F, P>,
    up: nat,
)
    requires
        chain_wf(s),
        can_listen(s, up as int),
        attachable(k),
    ensures
        chain_wf(after_attach(s, k, up)),
{
    reveal(chain_wf);
    let t = after_attach(s, k, up);
    assert forall|i: int| 1 <= i < t.len() implies {
        &&& (#[trigger] t[i]).upstream < i
        &&& !(t[i].kind is Root)
        &&& !(t[t[i].upstream as int].kind is Pull)
    } by {
        if i < s.len() {
            assert(t[i] == s[i]);
            assert(s[i].upstream < i);
        }
    }
    assert forall|i: int| 0 <= i < t.len() implies match (#[trigger] t[i]).kind {
        Kind::Transform(f) => pure_fn(f),
        Kind::Predicate(p) => pure_pred(p),
        _ => true,
    } by {
        if i < s.len() {
            assert(t[i] == s[i]);
        }
    }
}

pub proof fn lemma_prune_keeps_wf<V, F: Fn(V) -> V, P: Fn(&V) -> bool>(
    s: Seq<StageView<V, F, P>>,
    held: Seq<bool>,
)
    requires
        chain_wf(s),
    ensures
        chain_wf(after_prune(s, held)),
{
    reveal(chain_wf);
    let t = after_prune(s, held);
    assert forall|j: int| 1 <= j < t.len() implies {
        &&& (#[trigger] t[j]).upstream < j
        &&& !(t[j].kind is Root)
        &&& !(t[t[j].upstream as int].kind is Pull)
    } by {
        assert(s[j].upstream < j);
    }
}

pub proof fn lemma_pull_keeps_wf<V, F: Fn(V) -> V, P: Fn(&V) -> bool>(
    s: Seq<StageView<V, F, P>>,
    i: int,
)
    requires
        chain_wf(s),
    ensures
        chain_wf(after_pull(s, i)),
{
    reveal(chain_wf);
    let t = after_pull(s, i);
    assert forall|j: int| 1 <= j < t.len() implies {
        &&& (#[trigger] t[j]).upstream < j
        &&& !(t[j].kind is Root)
        &&& !(t[t[j].upstream as int].kind is Pull)
    } by {
        assert(s[j].upstream < j);
    }
}

} // verus!
