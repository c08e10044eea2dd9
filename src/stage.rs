use std::rc::Rc;
use vstd::prelude::*;
use crate::model::{Kind, pure_fn, pure_pred, can_listen, after_attach, pulled, after_pull};
use crate::sink::Sink;

verus! {

/// Handle to a mapping stage of a chain. The stage lives as long as the
/// handle: once it is dropped, the next `send` vacates the stage, and the
/// stages listening to it receive nothing more.
pub struct MapStage {
    id: usize,
    token: Rc<()>,
}

/// Handle to a filtering stage of a chain; it keeps the stage alive as a
/// `MapStage` does.
pub struct Filter {
    id: usize,
    token: Rc<()>,
}

/// Handle to a pull stage: the values that reach it are buffered in order
/// and taken one at a time with `next`. Once the handle is dropped, the next
/// `send` drops the buffer and the stage receives nothing more.
pub struct Iter {
    id: usize,
    token: Rc<()>,
}

/// What every stage that forwards values offers: growing the chain by one
/// more stage listening to it.
pub trait Event: Sized {
    /// The slot of the chain this handle names.
    spec fn index(&self) -> int;

    /// Attaches a stage that applies `f` to every value this stage forwards.
    fn map<V: Copy, F: Fn(V) -> V, P: Fn(&V) -> bool>(&self, sink: &mut Sink<V, F, P>, f: F) -> (r: MapStage)
        requires
            old(sink).wf(),
            can_listen(old(sink).view(), self.index()),
            pure_fn(f),
        ensures
            final(sink).wf(),
            final(sink).view() == after_attach(old(sink).view(), Kind::Transform(f), self.index() as nat),
            r.index() == old(sink).view().len(),
    ;

    /// Attaches a stage that forwards the values of this stage that satisfy `p`.
    fn filter<V: Copy, F: Fn(V) -> V, P: Fn(&V) -> bool>(&self, sink: &mut Sink<V, F, P>, p: P) -> (r: Filter)
        requires
            old(sink).wf(),
            can_listen(old(sink).view(), self.index()),
            pure_pred(p),
        ensures
            final(sink).wf(),
            final(sink).view() == after_attach(old(sink).view(), Kind::Predicate(p), self.index() as nat),
            r.index() == old(sink).view().len(),
    ;

    /// Attaches a pull stage that buffers every value this stage forwards.
    fn iter<V: Copy, F: Fn(V) -> V, P: Fn(&V) -> bool>(&self, sink: &mut Sink<V, F, P>) -> (r: Iter)
        requires
            old(sink).wf(),
            can_listen(old(sink).view(), self.index()),
        ensures
            final(sink).wf(),
            final(sink).view() == after_attach(old(sink).view(), Kind::Pull, self.index() as nat),
            r.index() == old(sink).view().len(),
    ;
}

impl MapStage {
    pub closed spec fn index(&self) -> int {
        self.id as int
    }

    pub(crate) fn from_slot(id: usize, token: Rc<()>) -> (r: Self)
        ensures
            r.index() == id,
    {
        MapStage { id, token }
    }
}

impl Filter {
    pub closed spec fn index(&self) -> int {
        self.id as int
    }

    pub(crate) fn from_slot(id: usize, token: Rc<()>) -> (r: Self)
        ensures
            r.index() == id,
    {
        Filter { id, token }
    }
}

impl Iter {
    pub closed spec fn index(&self) -> int {
        self.id as int
    }

    pub(crate) fn from_slot(id: usize, token: Rc<()>) -> (r: Self)
        ensures
            r.index() == id,
    {
        Iter { id, token }
    }

    /// Takes the oldest value buffered by this stage; `None` when every
    /// value that reached it has been taken (nothing blocks: a later `send`
    /// may buffer more).
    pub fn next<V: Copy, F: Fn(V) -> V, P: Fn(&V) -> bool>(&self, sink: &mut Sink<V, F, P>) -> (r: Option<V>)
        requires
            old(sink).wf(),
        ensures
            final(sink).wf(),
            r == pulled(old(sink).view(), self.index()),
            final(sink).view() == after_pull(old(sink).view(), self.index()),
    {
        sink.pull(self.id)
    }
}

impl Event for MapStage {
    open spec fn index(&self) -> int {
        MapStage::index(self)
    }

    fn map<V: Copy, F: Fn(V) -> V, P: Fn(&V) -> bool>(&self, sink: &mut Sink<V, F, P>, f: F) -> (r: MapStage) {
        let token = Rc::new(());
        let id = sink.attach(Kind::Transform(f), self.id, &token);
        MapStage::from_slot(id, token)
    }

    fn filter<V: Copy, F: Fn(V) -> V, P: Fn(&V) -> bool>(&self, sink: &mut Sink<V, F, P>, p: P) -> (r: Filter) {
        let token = Rc::new(());
        let id = sink.attach(Kind::Predicate(p), self.id, &token);
        Filter::from_slot(id, token)
    }

    fn iter<V: Copy, F: Fn(V) -> V, P: Fn(&V) -> bool>(&self, sink: &mut Sink<V, F, P>) -> (r: Iter) {
        let token = Rc::new(());
        let id = sink.attach(Kind::Pull, self.id, &token);
        Iter::from_slot(id, token)
    }
}

impl Event for Filter {
    open spec fn index(&self) -> int {
        Filter::index(self)
    }

    fn map<V: Copy, F: Fn(V) -> V, P: Fn(&V) -> bool>(&self, sink: &mut Sink<V, F, P>, f: F) -> (r: MapStage) {
        let token = Rc::new(());
        let id = sink.attach(Kind::Transform(f), self.id, &token);
        MapStage::from_slot(id, token)
    }

    fn filter<V: Copy, F: Fn(V) -> V, P: Fn(&V) -> bool>(&self, sink: &mut Sink<V, F, P>, p: P) -> (r: Filter) {
        let token = Rc::new(());
        let id = sink.attach(Kind::Predicate(p), self.id, &token);
        Filter::from_slot(id, token)
    }

    fn iter<V: Copy, F: Fn(V) -> V, P: Fn(&V) -> bool>(&self, sink: &mut Sink<V, F, P>) -> (r: Iter) {
        let token = Rc::new(());
        let id = sink.attach(Kind::Pull, self.id, &token);
        Iter::from_slot(id, token)
    }
}

} // verus!
