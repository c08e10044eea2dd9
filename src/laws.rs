use vstd::prelude::*;
use crate::model::{
    Kind, StageView, pure_fn, pure_pred, image, passes, chain_wf, forwarded, opt_seq, after_send,
    after_sends, after_attach, after_prune, released, pull_at, pulled, after_pull, pulls, lemma_send_keeps_wf,
};

verus! {

/// What stage `i` collects, in order, when the values of `vs` are sent.
pub open spec fn collected<V, F: Fn(V) -> V, P: Fn(&V) -> bool>(
    s: Seq<StageView<V, F, P>>,
    vs: Seq<V>,
    i: int,
) -> Seq<V>
    decreases vs.len(),
{
    if vs.len() == 0 {
        seq![]
    } else {
        collected(s, vs.drop_last(), i) + opt_seq(forwarded(s, vs.last(), i))
    }
}

/// Two chains with the same stages, listening to the same slots, with the
/// same liveness.
pub open spec fn same_shape<V, F, P>(s: Seq<StageView<V, F, P>>, t: Seq<StageView<V, F, P>>) -> bool {
    &&& s.len() == t.len()
    &&& forall|i: int|
        0 <= i < s.len() ==> {
            &&& (#[trigger] t[i]).kind == s[i].kind
            &&& t[i].upstream == s[i].upstream
            &&& t[i].live == s[i].live
        }
}

/// Where a value goes depends on the stages alone, not on what is buffered.
pub proof fn lemma_forwarded_same_shape<V, F: Fn(V) -> V, P: Fn(&V) -> bool>(
    s: Seq<StageView<V, F, P>>,
    t: Seq<StageView<V, F, P>>,
    v: V,
    i: int,
)
    requires
        same_shape(s, t),
    ensures
        forwarded(s, v, i) == forwarded(t, v, i),
    decreases i,
{
    if i > 0 && i < s.len() && s[i].live && s[i].upstream < i {
        lemma_forwarded_same_shape(s, t, v, s[i].upstream as int);
    }
}

/// Sending values keeps the chain's stages as they were.
pub proof fn lemma_sends_same_shape<V, F: Fn(V) -> V, P: Fn(&V) -> bool>(
    s: Seq<StageView<V, F, P>>,
    vs: Seq<V>,
)
    requires
        chain_wf(s),
    ensures
        chain_wf(after_sends(s, vs)),
        same_shape(s, after_sends(s, vs)),
    decreases vs.len(),
{
    if vs.len() > 0 {
        lemma_sends_same_shape(s, vs.drop_last());
        lemma_send_keeps_wf(after_sends(s, vs.drop_last()), vs.last());
    }
}

/// Order is kept: after any sequence of sends, each pull stage holds what
/// it held before, followed by exactly the values that reached it, in the
/// order they were sent.
pub proof fn law_pull_collects_in_order<V, F: Fn(V) -> V, P: Fn(&V) -> bool>(
    s: Seq<StageView<V, F, P>>,
    vs: Seq<V>,
    i: int,
)
    requires
        chain_wf(s),
        0 <= i < s.len(),
        s[i].kind is Pull,
    ensures
        after_sends(s, vs)[i].pending == s[i].pending + collected(s, vs, i),
    decreases vs.len(),
{
    if vs.len() > 0 {
        let pre = vs.drop_last();
        let t = after_sends(s, pre);
        law_pull_collects_in_order(s, pre, i);
        lemma_sends_same_shape(s, pre);
        lemma_forwarded_same_shape(s, t, vs.last(), i);
        assert(s[i].pending + collected(s, pre, i) + opt_seq(forwarded(s, vs.last(), i))
            =~= s[i].pending + collected(s, vs, i));
    }
}

/// Pulling `n` times from a pull stage that holds at least `n` values
/// returns its first `n` values, oldest first.
pub proof fn lemma_pulls_take<V, F, P>(s: Seq<StageView<V, F, P>>, i: int, n: nat)
    requires
        pull_at(s, i),
        n <= s[i].pending.len(),
    ensures
        pulls(s, i, n) == s[i].pending.take(n as int).map_values(|x: V| Some(x)),
    decreases n,
{
    if n > 0 {
        let t = after_pull(s, i);
        lemma_pulls_take(t, i, (n - 1) as nat);
        assert(t[i].pending =~= s[i].pending.drop_first());
        assert(pulls(s, i, n) =~= s[i].pending.take(n as int).map_values(|x: V| Some(x)));
    }
}

/// A stage through which every value reaches stage `i` unchanged collects
/// exactly the values sent.
proof fn lemma_collected_all<V, F: Fn(V) -> V, P: Fn(&V) -> bool>(
    s: Seq<StageView<V, F, P>>,
    vs: Seq<V>,
    i: int,
)
    requires
        forall|v: V| forwarded(s, v, i) == Some(v),
    ensures
        collected(s, vs, i) == vs,
    decreases vs.len(),
{
    if vs.len() > 0 {
        lemma_collected_all(s, vs.drop_last(), i);
        assert(vs.drop_last() + seq![vs.last()] =~= vs);
    }
}

/// A stage that every value reaches through `f` collects the image of each
/// value sent.
proof fn lemma_collected_images<V, F: Fn(V) -> V, P: Fn(&V) -> bool>(
    s: Seq<StageView<V, F, P>>,
    vs: Seq<V>,
    i: int,
    f: F,
)
    requires
        forall|v: V| forwarded(s, v, i) == Some(image(f, v)),
    ensures
        collected(s, vs, i) == vs.map_values(|x: V| image(f, x)),
    decreases vs.len(),
{
    if vs.len() > 0 {
        lemma_collected_images(s, vs.drop_last(), i, f);
        assert(vs.drop_last().map_values(|x: V| image(f, x)) + seq![image(f, vs.last())]
            =~= vs.map_values(|x: V| image(f, x)));
    }
}

/// What a pure function returned on `x` is its image.
pub proof fn lemma_image_is_result<V, F: Fn(V) -> V>(f: F, x: V, y: V)
    requires
        pure_fn(f),
        call_ensures(f, (x,), y),
    ensures
        image(f, x) == y,
{
}

/// What a pure predicate answered on `x` is whether `x` passes.
pub proof fn lemma_passes_is_answer<V, P: Fn(&V) -> bool>(p: P, x: V, b: bool)
    requires
        pure_pred(p),
        call_ensures(p, (&x,), b),
    ensures
        passes(p, x) == b,
{
}

/// A pull stage attached to the sink and sent `v1, ..., vn` returns
/// exactly `v1, ..., vn`, in that order, from `n` pulls.
pub proof fn law_sink_pull_fifo<V, F: Fn(V) -> V, P: Fn(&V) -> bool>(
    s: Seq<StageView<V, F, P>>,
    i: int,
    vs: Seq<V>,
)
    requires
        chain_wf(s),
        pull_at(s, i),
        s[i].upstream == 0,
        s[i].pending.len() == 0,
    ensures
        pulls(after_sends(s, vs), i, vs.len()) == vs.map_values(|x: V| Some(x)),
{
    assert forall|v: V| forwarded(s, v, i) == Some(v) by {
        assert(forwarded(s, v, 0) == Some(v));
    }
    lemma_collected_all(s, vs, i);
    law_pull_collects_in_order(s, vs, i);
    lemma_sends_same_shape(s, vs);
    let t = after_sends(s, vs);
    assert(t[i].pending =~= vs);
    lemma_pulls_take(t, i, vs.len());
    assert(vs.take(vs.len() as int) =~= vs);
}

/// Sink, then a mapping stage with `f`, then a pull stage: sending `v` and
/// pulling returns what `f` returns on `v`.
pub proof fn law_map_then_pull<V, F: Fn(V) -> V, P: Fn(&V) -> bool>(
    s: Seq<StageView<V, F, P>>,
    m: int,
    i: int,
    f: F,
    v: V,
    y: V,
)
    requires
        chain_wf(s),
        0 < m < s.len(),
        s[m].kind == Kind::<F, P>::Transform(f),
        s[m].live,
        s[m].upstream == 0,
        pull_at(s, i),
        s[i].upstream == m,
        s[i].pending.len() == 0,
        call_ensures(f, (v,), y),
    ensures
        pulled(after_send(s, v), i) == Some(y),
{
    reveal(chain_wf);
    assert(forwarded(s, v, 0) == Some(v));
    assert(forwarded(s, v, m) == Some(image(f, v)));
    assert(forwarded(s, v, i) == Some(image(f, v)));
    let t = after_send(s, v);
    assert(t[i].pending =~= seq![image(f, v)]);
}

/// Sink, then a filtering stage with `p`, then a pull stage: a value `v`
/// comes out of the next pull iff `p` holds of it; otherwise a later value
/// `w` that `p` lets through comes out first.
pub proof fn law_filter_then_pull<V, F: Fn(V) -> V, P: Fn(&V) -> bool>(
    s: Seq<StageView<V, F, P>>,
    q: int,
    i: int,
    p: P,
    v: V,
    b: bool,
    w: V,
)
    requires
        chain_wf(s),
        0 < q < s.len(),
        s[q].kind == Kind::<F, P>::Predicate(p),
        s[q].live,
        s[q].upstream == 0,
        pull_at(s, i),
        s[i].upstream == q,
        s[i].pending.len() == 0,
        call_ensures(p, (&v,), b),
        call_ensures(p, (&w,), true),
    ensures
        after_send(s, v)[i].pending == if b { seq![v] } else { seq![] },
        pulled(after_sends(s, seq![v, w]), i) == if b { Some(v) } else { Some(w) },
{
    reveal(chain_wf);
    let vs = seq![v, w];
    assert(passes(p, v) == b);
    assert(forwarded(s, v, 0) == Some(v));
    assert(forwarded(s, w, 0) == Some(w));
    assert(forwarded(s, v, q) == if b { Some(v) } else { None });
    assert(forwarded(s, w, q) == Some(w));
    assert(forwarded(s, v, i) == if b { Some(v) } else { None });
    assert(forwarded(s, w, i) == Some(w));
    assert(vs.drop_last() =~= seq![v]);
    assert(seq![v].drop_last() =~= Seq::<V>::empty());
    assert(seq![v].last() == v);
    assert(vs.last() == w);
    assert(collected(s, Seq::<V>::empty(), i) =~= Seq::<V>::empty());
    assert(collected(s, seq![v], i) =~= opt_seq(forwarded(s, v, i)));
    assert(collected(s, vs, i) =~= opt_seq(forwarded(s, v, i)) + seq![w]);
    law_pull_collects_in_order(s, vs, i);
    lemma_sends_same_shape(s, vs);
    let u = after_sends(s, vs);
    assert(u[i].pending =~= opt_seq(forwarded(s, v, i)) + seq![w]);
    let t = after_send(s, v);
    assert(t[i].pending =~= (if b { seq![v] } else { seq![] }));
}

/// Sibling mapping stages on one sink, with `f` and `g`, each with a pull
/// stage: after any sequence of sends each pull stage holds the image of
/// every value sent, whatever the other branch does.
pub proof fn law_siblings_independent<V, F: Fn(V) -> V, P: Fn(&V) -> bool>(
    s: Seq<StageView<V, F, P>>,
    m1: int,
    i1: int,
    f: F,
    m2: int,
    i2: int,
    g: F,
    vs: Seq<V>,
)
    requires
        chain_wf(s),
        0 < m1 < s.len(),
        s[m1].kind == Kind::<F, P>::Transform(f),
        s[m1].live,
        s[m1].upstream == 0,
        pull_at(s, i1),
        s[i1].upstream == m1,
        0 < m2 < s.len(),
        s[m2].kind == Kind::<F, P>::Transform(g),
        s[m2].live,
        s[m2].upstream == 0,
        pull_at(s, i2),
        s[i2].upstream == m2,
    ensures
        after_sends(s, vs)[i1].pending == s[i1].pending + vs.map_values(|x: V| image(f, x)),
        after_sends(s, vs)[i2].pending == s[i2].pending + vs.map_values(|x: V| image(g, x)),
{
    reveal(chain_wf);
    assert forall|v: V| forwarded(s, v, i1) == Some(image(f, v)) by {
        assert(forwarded(s, v, 0) == Some(v));
        assert(forwarded(s, v, m1) == Some(image(f, v)));
    }
    assert forall|v: V| forwarded(s, v, i2) == Some(image(g, v)) by {
        assert(forwarded(s, v, 0) == Some(v));
        assert(forwarded(s, v, m2) == Some(image(g, v)));
    }
    lemma_collected_images(s, vs, i1, f);
    lemma_collected_images(s, vs, i2, g);
    law_pull_collects_in_order(s, vs, i1);
    law_pull_collects_in_order(s, vs, i2);
}

/// Whether stage `j` is stage `i` or listens to it, directly or through
/// other stages.
pub open spec fn downstream_of<V, F, P>(s: Seq<StageView<V, F, P>>, j: int, i: int) -> bool
    decreases j,
{
    if j == i {
        true
    } else if 0 < j < s.len() && s[j].upstream < j {
        downstream_of(s, s[j].upstream as int, i)
    } else {
        false
    }
}

/// Once the handle of stage `i` is gone, pruning vacates the stage (its
/// function or predicate and its buffer are dropped), and no value sent
/// afterwards reaches it or any stage downstream of it.
pub proof fn law_dropped_receives_nothing<V, F: Fn(V) -> V, P: Fn(&V) -> bool>(
    s: Seq<StageView<V, F, P>>,
    held: Seq<bool>,
    i: int,
    j: int,
    v: V,
)
    requires
        chain_wf(s),
        1 <= i < s.len(),
        i < held.len(),
        !held[i],
        downstream_of(s, j, i),
    ensures
        after_prune(s, held)[i] == released(s[i]),
        forwarded(after_prune(s, held), v, j) is None,
        after_send(after_prune(s, held), v)[i] == released(s[i]),
    decreases j,
{
    let t = after_prune(s, held);
    assert(t[i] == released(s[i]));
    if j != i {
        reveal(chain_wf);
        assert(0 < j < s.len() && s[j].upstream < j);
        assert(t[j].upstream == s[j].upstream);
        law_dropped_receives_nothing(s, held, i, s[j].upstream as int, v);
    }
}

/// Growing the chain is pure growth: a new stage, wherever it is attached,
/// changes nothing that the stages already there receive.
pub proof fn law_attach_keeps_deliveries<V, F: Fn(V) -> V, P: Fn(&V) -> bool>(
    s: Seq<StageView<V, F, P>>,
    k: Kind<F, P>,
    up: nat,
    v: V,
    j: int,
)
    requires
        0 <= j < s.len(),
    ensures
        forwarded(after_attach(s, k, up), v, j) == forwarded(s, v, j),
    decreases j,
{
    let t = after_attach(s, k, up);
    if j > 0 {
        assert(t[j] == s[j]);
        if s[j].live && s[j].upstream < j {
            law_attach_keeps_deliveries(s, k, up, v, s[j].upstream as int);
        }
    }
}

/// The root forwards every value sent as it is.
pub proof fn lemma_forwarded_root<V, F: Fn(V) -> V, P: Fn(&V) -> bool>(
    s: Seq<StageView<V, F, P>>,
    v: V,
)
    ensures
        forwarded(s, v, 0) == Some(v),
{
}

/// One step of forwarding: a live stage that receives `x` from its
/// upstream forwards what its kind makes of `x`.
pub proof fn lemma_forwarded_step<V, F: Fn(V) -> V, P: Fn(&V) -> bool>(
    s: Seq<StageView<V, F, P>>,
    v: V,
    i: int,
    x: V,
)
    requires
        0 < i < s.len(),
        s[i].live,
        s[i].upstream < i,
        forwarded(s, v, s[i].upstream as int) == Some(x),
    ensures
        forwarded(s, v, i) == match s[i].kind {
            Kind::Transform(f) => Some(image(f, x)),
            Kind::Predicate(p) => if passes(p, x) {
                Some(x)
            } else {
                None
            },
            _ => Some(x),
        },
{
}

/// One stage after a send: a pull stage appends what reached it, any other
/// stage is unchanged.
pub proof fn lemma_after_send_at<V, F: Fn(V) -> V, P: Fn(&V) -> bool>(
    s: Seq<StageView<V, F, P>>,
    v: V,
    i: int,
)
    requires
        0 <= i < s.len(),
    ensures
        after_send(s, v).len() == s.len(),
        after_send(s, v)[i] == if s[i].kind is Pull {
            StageView { pending: s[i].pending + opt_seq(forwarded(s, v, i)), ..s[i] }
        } else {
            s[i]
        },
{
}

/// A closure that accepts every value and whose result is fixed by `g` is
/// a pure function, and its image is what it returns.
pub proof fn lemma_pure_fn_intro<V, F: Fn(V) -> V>(f: F, g: spec_fn(V) -> V)
    requires
        forall|x: V| call_requires(f, (x,)),
        forall|x: V, y: V| call_ensures(f, (x,), y) ==> y == g(x),
    ensures
        pure_fn(f),
        forall|x: V, y: V| call_ensures(f, (x,), y) ==> image(f, x) == y,
{
}

/// A closure that accepts every value and whose answer is fixed by `g` is
/// a pure predicate, and a value passes it iff it answers true.
pub proof fn lemma_pure_pred_intro<V, P: Fn(&V) -> bool>(p: P, g: spec_fn(V) -> bool)
    requires
        forall|x: V| call_requires(p, (&x,)),
        forall|x: V, b: bool| call_ensures(p, (&x,), b) ==> b == g(x),
    ensures
        pure_pred(p),
        forall|x: V, b: bool| call_ensures(p, (&x,), b) ==> passes(p, x) == b,
{
}

/// Pulling from one stage leaves every other stage as it was.
pub proof fn law_pull_touches_only_its_stage<V, F, P>(s: Seq<StageView<V, F, P>>, i: int, j: int)
    requires
        0 <= j < s.len(),
        j != i,
    ensures
        after_pull(s, i).len() == s.len(),
        after_pull(s, i)[j] == s[j],
{
}

/// While every handle is held, pruning changes nothing, so `send` is
/// exactly `deliver`.
pub proof fn law_all_held_prunes_nothing<V, F, P>(s: Seq<StageView<V, F, P>>, held: Seq<bool>)
    requires
        forall|i: int| 0 <= i < held.len() ==> held[i],
    ensures
        after_prune(s, held) == s,
{
    assert(after_prune(s, held) =~= s);
}

} // verus!
