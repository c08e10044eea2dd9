use std::collections::VecDeque;
use std::rc::Rc;
use vstd::prelude::*;
use crate::stage::{MapStage, Filter, Iter};
use crate::model::{
    Kind, StageView, pure_fn, pure_pred, chain_wf, forwarded, opt_seq, after_send, after_attach,
    after_prune, pulled, after_pull, can_listen, attachable, lemma_send_keeps_wf,
    lemma_attach_keeps_wf, lemma_prune_keeps_wf, lemma_pull_keeps_wf,
};

verus! {

/// One stage of the chain: what it does, the slot it listens to, whether
/// its handle is still held, what it has buffered (for a pull stage), and
/// a second pointer to the token its handle owns (none for the root).
struct Slot<V, F, P> {
    kind: Kind<F, P>,
    upstream: usize,
    live: bool,
    queue: VecDeque<V>,
    token: Option<Rc<()>>,
}

/// Relies on std::rc::Rc::strong_count: how many `Rc` pointers to the
/// token exist, so whether the stage's handle still holds its own.
#[verifier::external_body]
fn holders(token: &Rc<()>) -> (r: usize) {
    Rc::strong_count(token)
}

/// Relies on std::rc::Rc::clone: a second pointer to the same token.
#[verifier::external_body]
fn share(token: &Rc<()>) -> (r: Rc<()>) {
    Rc::clone(token)
}

/// The entry point of a chain, and the owner of all its stages.
///
/// Values are copied to every stage they reach; stages are grown with
/// `map`, `filter` and `iter` here and through the `Event` handles, and
/// every stage that a value sent can reach has received it when `send`
/// returns. A mapping keeps the value type `V`, and one chain takes one
/// function type `F` for all its mappings and one predicate type `P` for all
/// its filters (a boxed closure or a function pointer type lets a chain mix
/// several). A stage lives as long as its handle: `send` first vacates every
/// stage whose handle was dropped.
pub struct Sink<V, F, P> {
    slots: Vec<Slot<V, F, P>>,
}

impl<V: Copy, F: Fn(V) -> V, P: Fn(&V) -> bool> Sink<V, F, P> {
    /// The abstract chain: one view per stage, the root first.
    pub closed spec fn view(&self) -> Seq<StageView<V, F, P>> {
        Seq::new(
            self.slots@.len(),
            |i: int|
                StageView {
                    kind: self.slots@[i].kind,
                    upstream: self.slots@[i].upstream as nat,
                    live: self.slots@[i].live,
                    pending: self.slots@[i].queue@,
                },
        )
    }

    pub open spec fn wf(&self) -> bool {
        chain_wf(self.view())
    }

    /// A sink with no listeners.
    pub fn new() -> (r: Self)
        ensures
            r.wf(),
            r.view() == seq![StageView::<V, F, P> { kind: Kind::Root, upstream: 0, live: true, pending: seq![] }],
    {
        let mut slots: Vec<Slot<V, F, P>> = Vec::new();
        slots.push(Slot { kind: Kind::Root, upstream: 0, live: true, queue: VecDeque::new(), token: None });
        let r = Sink { slots };
        proof {
            reveal(chain_wf);
        }
        assert(r.view() =~= seq![StageView::<V, F, P> { kind: Kind::Root, upstream: 0, live: true, pending: seq![] }]);
        r
    }

    /// Computes what each stage forwards when `v` is sent.
    fn deliveries(&self, v: V) -> (got: Vec<Option<V>>)
        requires
            self.wf(),
        ensures
            got@.len() == self.view().len(),
            forall|j: int| 0 <= j < got@.len() ==> got@[j] == forwarded(self.view(), v, j),
    {
        let ghost s = self.view();
        proof {
            reveal(chain_wf);
        }
        let n = self.slots.len();
        let mut got: Vec<Option<V>> = Vec::new();
        let mut i: usize = 0;
        while i < n
            invariant
                n == s.len(),
                s == self.view(),
                chain_wf(s),
                i <= n,
                got@.len() == i,
                forall|j: int| 0 <= j < i ==> got@[j] == forwarded(s, v, j),
            decreases n - i,
        {
            let o: Option<V> = if i == 0 {
                Some(v)
            } else {
                let slot = &self.slots[i];
                proof {
                    reveal(chain_wf);
                }
                assert(s[i as int].upstream < i);
                if !slot.live {
                    None
                } else {
                    let before: Option<V> = got[slot.upstream];
                    match before {
                        None => None,
                        Some(x) => match &slot.kind {
                            Kind::Transform(f) => {
                                let y = f(x);
                                assert(pure_fn(*f));
                                Some(y)
                            },
                            Kind::Predicate(p) => {
                                assert(pure_pred(*p));
                                if p(&x) {
                                    Some(x)
                                } else {
                                    None
                                }
                            },
                            _ => Some(x),
                        },
                    }
                }
            };
            assert(o == forwarded(s, v, i as int));
            got.push(o);
            i = i + 1;
        }
        got
    }

    /// Sends `v` through the chain as it stands: every live pull stage that
    /// `v` reaches, through the maps and filters on its way, buffers what
    /// arrives.
    pub fn deliver(&mut self, v: V)
        requires
            old(self).wf(),
        ensures
            final(self).wf(),
            final(self).view() == after_send(old(self).view(), v),
    {
        let got = self.deliveries(v);
        let ghost s = self.view();
        let n = self.slots.len();
        let mut i: usize = 0;
        while i < n
            invariant
                n == s.len(),
                got@.len() == n,
                forall|j: int| 0 <= j < n ==> got@[j] == forwarded(s, v, j),
                i <= n,
                self.view().len() == n,
                forall|j: int| 0 <= j < i ==> self.view()[j] == (#[trigger] after_send(s, v)[j]),
                forall|j: int| i <= j < n ==> self.view()[j] == s[j],
            decreases n - i,
        {
            let is_pull = match self.slots[i].kind {
                Kind::Pull => true,
                _ => false,
            };
            let ghost before = self.view();
            if is_pull {
                if let Some(x) = got[i] {
                    self.slots[i].queue.push_back(x);
                    assert(s[i as int].pending + opt_seq(Some(x)) =~= s[i as int].pending.push(x));
                } else {
                    assert(s[i as int].pending + opt_seq(got@[i as int]) =~= s[i as int].pending);
                }
            }
            assert(self.view()[i as int] == after_send(s, v)[i as int]);
            assert forall|j: int| 0 <= j < n && j != i implies self.view()[j] == before[j] by {}
            i = i + 1;
        }
        assert(self.view() =~= after_send(s, v));
        proof {
            lemma_send_keeps_wf(s, v);
        }
    }

    /// Adds a live stage of kind `k` listening to slot `up`, kept live by
    /// the handle that owns `token`; returns its slot.
    pub(crate) fn attach(&mut self, k: Kind<F, P>, up: usize, token: &Rc<()>) -> (id: usize)
        requires
            old(self).wf(),
            can_listen(old(self).view(), up as int),
            attachable(k),
        ensures
            final(self).wf(),
            final(self).view() == after_attach(old(self).view(), k, up as nat),
            id == old(self).view().len(),
    {
        let ghost s = self.view();
        let id = self.slots.len();
        self.slots.push(Slot { kind: k, upstream: up, live: true, queue: VecDeque::new(), token: Some(share(token)) });
        assert(self.view() =~= after_attach(s, k, up as nat));
        proof {
            lemma_attach_keeps_wf(s, k, up as nat);
        }
        id
    }

    /// Takes the oldest value buffered by pull stage `i`, if there is one.
    pub(crate) fn pull(&mut self, i: usize) -> (r: Option<V>)
        requires
            old(self).wf(),
        ensures
            final(self).wf(),
            r == pulled(old(self).view(), i as int),
            final(self).view() == after_pull(old(self).view(), i as int),
    {
        let ghost s = self.view();
        if i >= self.slots.len() || !self.slots[i].live {
            return None;
        }
        let is_pull = match self.slots[i].kind {
            Kind::Pull => true,
            _ => false,
        };
        if !is_pull {
            return None;
        }
        let r = self.slots[i].queue.pop_front();
        proof {
            if s[i as int].pending.len() > 0 {
                assert(self.view() =~= after_pull(s, i as int));
            } else {
                assert(self.view() =~= s);
            }
            lemma_pull_keeps_wf(s, i as int);
        }
        r
    }

    /// Vacates every stage but the root whose entry in `held` is false: its
    /// function or predicate and its buffer are dropped, and it receives
    /// nothing from then on. A stage with no entry is kept.
    pub fn prune(&mut self, held: &Vec<bool>)
        requires
            old(self).wf(),
        ensures
            final(self).wf(),
            final(self).view() == after_prune(old(self).view(), held@),
    {
        let ghost s = self.view();
        proof {
            reveal(chain_wf);
        }
        assert(after_prune(s, held@)[0] == s[0]);
        let n = self.slots.len();
        let mut i: usize = 1;
        while i < n
            invariant
                n == s.len(),
                1 <= i <= n,
                self.view().len() == n,
                forall|j: int| 0 <= j < i ==> self.view()[j] == (#[trigger] after_prune(s, held@)[j]),
                forall|j: int| i <= j < n ==> self.view()[j] == s[j],
            decreases n - i,
        {
            let ghost before = self.view();
            if i < held.len() && !held[i] {
                self.slots[i].kind = Kind::Vacant;
                self.slots[i].live = false;
                self.slots[i].queue = VecDeque::new();
                self.slots[i].token = None;
            }
            assert(self.view()[i as int] == after_prune(s, held@)[i as int]);
            assert forall|j: int| 0 <= j < n && j != i implies self.view()[j] == before[j] by {}
            i = i + 1;
        }
        assert(self.view() =~= after_prune(s, held@));
        proof {
            lemma_prune_keeps_wf(s, held@);
        }
    }

    /// Whether each stage's handle still exists (the root always counts as
    /// held).
    fn handles_held(&self) -> (held: Vec<bool>)
        ensures
            held@.len() == self.view().len(),
    {
        let n = self.slots.len();
        let mut held: Vec<bool> = Vec::new();
        let mut i: usize = 0;
        while i < n
            invariant
                n == self.view().len(),
                i <= n,
                held@.len() == i,
            decreases n - i,
        {
            let h = match &self.slots[i].token {
                Some(t) => holders(t) > 1,
                None => true,
            };
            held.push(h);
            i = i + 1;
        }
        held
    }

    /// Sends `v`: first every stage whose handle is gone is vacated, then
    /// `v` is delivered through what remains.
    pub fn send(&mut self, v: V)
        requires
            old(self).wf(),
        ensures
            final(self).wf(),
            exists|held: Seq<bool>|
                held.len() == old(self).view().len() && final(self).view() == after_send(
                    #[trigger] after_prune(old(self).view(), held),
                    v,
                ),
    {
        let held = self.handles_held();
        let ghost pruned = after_prune(self.view(), held@);
        self.prune(&held);
        self.deliver(v);
        assert(self.view() == after_send(pruned, v));
    }

    /// Attaches to the sink a stage that applies `f` to every value sent.
    pub fn map(&mut self, f: F) -> (r: MapStage)
        requires
            old(self).wf(),
            pure_fn(f),
        ensures
            final(self).wf(),
            final(self).view() == after_attach(old(self).view(), Kind::Transform(f), 0),
            r.index() == old(self).view().len(),
    {
        proof {
            reveal(chain_wf);
        }
        let token = Rc::new(());
        let id = self.attach(Kind::Transform(f), 0, &token);
        MapStage::from_slot(id, token)
    }

    /// Attaches to the sink a stage that forwards the values sent that
    /// satisfy `p`.
    pub fn filter(&mut self, p: P) -> (r: Filter)
        requires
            old(self).wf(),
            pure_pred(p),
        ensures
            final(self).wf(),
            final(self).view() == after_attach(old(self).view(), Kind::Predicate(p), 0),
            r.index() == old(self).view().len(),
    {
        proof {
            reveal(chain_wf);
        }
        let token = Rc::new(());
        let id = self.attach(Kind::Predicate(p), 0, &token);
        Filter::from_slot(id, token)
    }

    /// Attaches to the sink a pull stage that buffers every value sent.
    pub fn iter(&mut self) -> (r: Iter)
        requires
            old(self).wf(),
        ensures
            final(self).wf(),
            final(self).view() == after_attach(old(self).view(), Kind::Pull, 0),
            r.index() == old(self).view().len(),
    {
        proof {
            reveal(chain_wf);
        }
        let token = Rc::new(());
        let id = self.attach(Kind::Pull, 0, &token);
        Iter::from_slot(id, token)
    }
}

} // verus!
