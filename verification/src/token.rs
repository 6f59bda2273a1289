//! The two tokens that a payload's hooks talk to.
//!
//! [`GcTraceToken`] is handed to [`GcTarget::trace`](crate::target::GcTarget::trace)
//! during a sweep and collects the headers that the trace reaches.
//! [`GcDropToken`] is handed to
//! [`GcTarget::finalize`](crate::target::GcTarget::finalize) when a payload is
//! destroyed and collects the handles that the payload gives up.

use vstd::prelude::*;
use crate::handle::{GcObject, GcObjectThin, GcRoot, GcRootThin};
use crate::header::{GcInfo, GcState};

verus! {

/// What a trace token holds: the headers that the sweep works on and the top
/// of the worklist, which is threaded through their `next` links.
pub struct GcTraceView {
    pub head: Option<usize>,
    pub infos: Seq<GcInfo>,
}

impl GcTraceView {
    /// Reporting one weak handle: an unmarked target is marked and put on top
    /// of the worklist; any other target, and an address that the sweep does
    /// not know, leaves the token as it is.
    pub open spec fn accept(self, id: usize) -> GcTraceView {
        if id < self.infos.len() && self.infos[id as int].state == GcState::Unmarked {
            GcTraceView {
                head: Some(id),
                infos: self.infos.update(
                    id as int,
                    GcInfo { state: GcState::Marked, next: self.head, ..self.infos[id as int] },
                ),
            }
        } else {
            self
        }
    }

    /// Reporting a sequence of weak handles, first to last.
    pub open spec fn accept_all(self, ids: Seq<usize>) -> GcTraceView
        decreases ids.len(),
    {
        if ids.len() == 0 {
            self
        } else {
            self.accept_all(ids.drop_last()).accept(ids.last())
        }
    }

    /// Reporting a single handle is one `accept`.
    pub proof fn lemma_accept_one(self, id: usize)
        ensures
            self.accept_all(seq![id]) == self.accept(id),
    {
        reveal_with_fuel(GcTraceView::accept_all, 2);
        assert(seq![id].drop_last() =~= Seq::<usize>::empty());
    }

    /// Reporting `a` and then `b` is reporting their concatenation.
    pub proof fn lemma_accept_concat(self, a: Seq<usize>, b: Seq<usize>)
        ensures
            self.accept_all(a + b) == self.accept_all(a).accept_all(b),
        decreases b.len(),
    {
        if b.len() == 0 {
            assert(a + b =~= a);
        } else {
            self.lemma_accept_concat(a, b.drop_last());
            assert((a + b).drop_last() =~= a + b.drop_last());
            assert((a + b).last() == b.last());
        }
    }
}

/// The worklist of a sweep, as the trace hook sees it.
pub struct GcTraceToken {
    pub(crate) head: Option<usize>,
    pub(crate) infos: Vec<GcInfo>,
}

impl View for GcTraceToken {
    type V = GcTraceView;

    closed spec fn view(&self) -> GcTraceView {
        GcTraceView { head: self.head, infos: self.infos@ }
    }
}

impl GcTraceToken {
    /// A token over the header table `infos`, with an empty worklist.
    pub(crate) fn new(infos: Vec<GcInfo>) -> (r: Self)
        ensures
            r.head is None,
            r.infos == infos,
    {
        Self { head: None, infos }
    }

    /// What the token's view is made of.
    pub(crate) proof fn lemma_view(&self)
        ensures
            self@ == (GcTraceView { head: self.head, infos: self.infos@ }),
    {
    }

    /// Puts a header on top of the worklist, whatever its state.
    pub(crate) fn push(&mut self, node: usize)
        requires
            node < old(self).infos@.len(),
        ensures
            final(self).head == Some(node),
            final(self).infos@ == old(self).infos@.update(
                node as int,
                GcInfo { next: old(self).head, ..old(self).infos@[node as int] },
            ),
    {
        self.infos[node].next = self.head;
        self.head = Some(node);
    }

    /// Takes the top header off the worklist.
    pub(crate) fn pop(&mut self) -> (r: Option<usize>)
        requires
            old(self).head matches Some(h) ==> h < old(self).infos@.len(),
        ensures
            r == old(self).head,
            final(self).infos@ == old(self).infos@,
            final(self).head == match old(self).head {
                Some(h) => old(self).infos@[h as int].next,
                None => None,
            },
    {
        let r = self.head;
        match r {
            Some(h) => {
                self.head = self.infos[h].next;
                r
            },
            None => None,
        }
    }

    /// Reports the header at `value`: marks it and queues it if the sweep had
    /// it as unmarked.
    pub(crate) fn accept_box(&mut self, value: usize)
        ensures
            final(self)@ == old(self)@.accept(value),
    {
        if value < self.infos.len() {
            match self.infos[value].state {
                GcState::Unmarked => {
                    self.infos[value].state = GcState::Marked;
                    self.infos[value].next = self.head;
                    self.head = Some(value);
                    assert(self@.infos =~= old(self)@.accept(value).infos);
                },
                GcState::Marked | GcState::Active | GcState::Dropped => {},
            }
        }
    }

    /// Reports a weak handle that the traced payload stores.
    pub fn accept<T: ?Sized>(&mut self, value: &GcObject<T>)
        ensures
            final(self)@ == old(self)@.accept(value@),
    {
        self.accept_box(value.as_ptr());
    }

    /// Reports a thin weak handle that the traced payload stores.
    pub fn accept_thin(&mut self, value: &GcObjectThin)
        ensures
            final(self)@ == old(self)@.accept(value@),
    {
        self.accept_box(value.as_ptr());
    }
}

/// What a drop token holds: the targets of the strong and of the weak handles
/// that destroyed payloads have given up and that are not yet released.
pub struct GcDropView {
    pub roots: Seq<usize>,
    pub objects: Seq<usize>,
}

/// The handles of destroyed payloads that wait for their release.
pub struct GcDropToken {
    pub(crate) roots: Vec<usize>,
    pub(crate) objects: Vec<usize>,
}

impl View for GcDropToken {
    type V = GcDropView;

    closed spec fn view(&self) -> GcDropView {
        GcDropView { roots: self.roots@, objects: self.objects@ }
    }
}

impl GcDropToken {
    /// A token that holds nothing.
    pub(crate) fn new() -> (r: GcDropToken)
        ensures
            r@.roots == Seq::<usize>::empty(),
            r@.objects == Seq::<usize>::empty(),
    {
        GcDropToken { roots: Vec::new(), objects: Vec::new() }
    }

    /// Adds one strong (or weak) handle to those that wait.
    pub(crate) fn push(&mut self, strong: bool, id: usize)
        ensures
            final(self)@.roots == if strong {
                old(self)@.roots.push(id)
            } else {
                old(self)@.roots
            },
            final(self)@.objects == if strong {
                old(self)@.objects
            } else {
                old(self)@.objects.push(id)
            },
    {
        if strong {
            self.roots.push(id);
        } else {
            self.objects.push(id);
        }
    }

    /// Takes out the handle that is released next: the last strong one, or
    /// the last weak one if no strong one waits. The flag tells which kind it
    /// is.
    pub(crate) fn pop(&mut self) -> (r: Option<(bool, usize)>)
        ensures
            r is None ==> old(self)@.roots.len() == 0 && old(self)@.objects.len() == 0,
            r is None ==> final(self)@ == old(self)@,
            r matches Some((strong, id)) ==> strong == (old(self)@.roots.len() > 0),
            r matches Some((strong, id)) ==> (strong ==> {
                &&& id == old(self)@.roots.last()
                &&& final(self)@.roots == old(self)@.roots.drop_last()
                &&& final(self)@.objects == old(self)@.objects
            }),
            r matches Some((strong, id)) ==> (!strong ==> {
                &&& old(self)@.objects.len() > 0
                &&& id == old(self)@.objects.last()
                &&& final(self)@.objects == old(self)@.objects.drop_last()
                &&& final(self)@.roots == old(self)@.roots
            }),
    {
        if self.roots.len() > 0 {
            let id = self.roots.pop().unwrap();
            assert(self.roots@ =~= old(self).roots@.drop_last());
            Some((true, id))
        } else if self.objects.len() > 0 {
            let id = self.objects.pop().unwrap();
            assert(self.objects@ =~= old(self).objects@.drop_last());
            Some((false, id))
        } else {
            None
        }
    }

    /// Gives up a strong handle that the destroyed payload stored.
    pub fn accept_root<T: ?Sized>(&mut self, value: &GcRoot<T>)
        ensures
            final(self)@.roots == old(self)@.roots.push(value@),
            final(self)@.objects == old(self)@.objects,
    {
        self.roots.push(value.as_ptr());
    }

    /// Gives up a thin strong handle that the destroyed payload stored.
    pub fn accept_root_thin(&mut self, value: &GcRootThin)
        ensures
            final(self)@.roots == old(self)@.roots.push(value@),
            final(self)@.objects == old(self)@.objects,
    {
        self.roots.push(value.as_ptr());
    }

    /// Gives up a weak handle that the destroyed payload stored.
    pub fn accept<T: ?Sized>(&mut self, value: &GcObject<T>)
        ensures
            final(self)@.roots == old(self)@.roots,
            final(self)@.objects == old(self)@.objects.push(value@),
    {
        self.objects.push(value.as_ptr());
    }

    /// Gives up a thin weak handle that the destroyed payload stored.
    pub fn accept_thin(&mut self, value: &GcObjectThin)
        ensures
            final(self)@.roots == old(self)@.roots,
            final(self)@.objects == old(self)@.objects.push(value@),
    {
        self.objects.push(value.as_ptr());
    }
}

} // verus!
