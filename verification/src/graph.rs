//! The managed graph: which objects can be reached, and what a sweep does.
//!
//! The weak handles that payloads store are the edges of the graph. Its
//! roots are the objects of the registry that have a strong handle.

use vstd::prelude::*;
use crate::counting::{
    buried, held, lemma_buried, lemma_held_fewer, lemma_joined, lemma_retained, handles_of,
    occurrences, retained,
};
use crate::header::{GcCell, GcState};
use crate::heap::GcHeap;
use crate::target::GcTarget;

verus! {

impl<T: GcTarget> GcHeap<T> {
    /// `id` is in the registry and has a strong handle: a starting point of
    /// the sweep.
    pub open spec fn is_root(self, id: usize) -> bool {
        self.order.contains(id) && self.counter(true, id) > 0
    }

    /// The payload of `a` stores a weak handle to `b`, and both are in the
    /// registry.
    pub open spec fn edge(self, a: usize, b: usize) -> bool {
        &&& self.order.contains(a)
        &&& self.order.contains(b)
        &&& handles_of(self.values[a as int], false).contains(b)
    }

    /// `path` starts at a root and follows edges.
    pub open spec fn is_path(self, path: Seq<usize>) -> bool {
        &&& path.len() > 0
        &&& self.is_root(path[0])
        &&& forall|i: int| 0 <= i < path.len() - 1 ==> self.edge(#[trigger] path[i], path[i + 1])
    }

    /// `id` can be reached from a root through weak handles.
    pub open spec fn reachable(self, id: usize) -> bool {
        exists|path: Seq<usize>| #[trigger] self.is_path(path) && path.last() == id
    }

    /// A sweep destroys the payload at `id`: it is in the registry and cannot
    /// be reached.
    pub open spec fn victim(self, id: usize) -> bool {
        self.order.contains(id) && !self.reachable(id)
    }

    /// The payloads after a sweep.
    pub open spec fn swept_values(self) -> Seq<Option<T>> {
        Seq::new(
            self.values.len(),
            |i: int|
                if self.victim(i as usize) {
                    None
                } else {
                    self.values[i]
                },
        )
    }

    /// One sweep: the payloads that cannot be reached are destroyed, newest
    /// first, and their headers leave the registry; the others stay as they
    /// are and in their order. The handles that the destroyed payloads
    /// stored are released by counting down only: no handle in a user's
    /// hands is touched, and no payload that can be reached is destroyed.
    pub open spec fn sweep(self) -> GcHeap<T> {
        let values = self.swept_values();
        GcHeap {
            cells: Seq::new(
                self.cells.len(),
                |i: int|
                    {
                        let cell = self.cells[i];
                        GcCell {
                            state: if self.victim(i as usize) {
                                GcState::Dropped
                            } else {
                                cell.state
                            },
                            root: (cell.root - held(self.values, true, i as usize) + held(
                                values,
                                true,
                                i as usize,
                            )) as nat,
                            count: (cell.count - held(self.values, false, i as usize) + held(
                                values,
                                false,
                                i as usize,
                            )) as nat,
                        }
                    },
            ),
            values,
            order: retained(self.order, |id: usize| self.reachable(id)),
            graves: self.graves + buried(self.order, |id: usize| self.victim(id)),
            ..self
        }
    }

    /// A manual request for a sweep: nothing happens if one is under way.
    pub open spec fn gc(self) -> GcHeap<T> {
        if self.sweeping {
            self
        } else {
            self.sweep()
        }
    }

    /// An allocation that finds the threshold reached sweeps first.
    pub open spec fn alloc_sweeps(self) -> bool {
        self.auto_gc != 0 && self.alloc_count + 1 == self.auto_gc
    }

    /// The collector before the new object of an allocation is linked: the
    /// allocation is counted, and swept for if it is the one that reaches the
    /// threshold.
    pub open spec fn tick(self) -> GcHeap<T> {
        if self.auto_gc == 0 {
            self
        } else if self.alloc_sweeps() {
            GcHeap { alloc_count: 0, ..self }.gc()
        } else {
            GcHeap { alloc_count: (self.alloc_count + 1) as usize, ..self }
        }
    }

    /// Allocating an object with payload `value`.
    pub open spec fn allocate(self, value: T) -> GcHeap<T> {
        self.tick().insert(value)
    }

    /// Every object of the registry can be reached: a sweep would destroy
    /// nothing.
    pub open spec fn settled(self) -> bool {
        forall|id: usize| self.order.contains(id) ==> #[trigger] self.reachable(id)
    }
}

impl<T: GcTarget> GcHeap<T> {
    /// A root can be reached.
    pub proof fn lemma_root_reachable(self, id: usize)
        requires
            self.is_root(id),
        ensures
            self.reachable(id),
    {
        let path = seq![id];
        assert(self.is_path(path));
        assert(path.last() == id);
    }

    /// What a reachable object has an edge to can be reached.
    pub proof fn lemma_edge_reachable(self, a: usize, b: usize)
        requires
            self.reachable(a),
            self.edge(a, b),
        ensures
            self.reachable(b),
    {
        let path = choose|path: Seq<usize>| #[trigger] self.is_path(path) && path.last() == a;
        let longer = path.push(b);
        assert forall|i: int| 0 <= i < longer.len() - 1 implies self.edge(
            #[trigger] longer[i],
            longer[i + 1],
        ) by {
            if i < path.len() - 1 {
                assert(self.edge(path[i], path[i + 1]));
            }
        }
        assert(self.is_path(longer));
        assert(longer.last() == b);
    }

    /// What can be reached is in the registry.
    pub proof fn lemma_reachable_linked(self, id: usize)
        requires
            self.reachable(id),
        ensures
            self.order.contains(id),
    {
        let path = choose|path: Seq<usize>| #[trigger] self.is_path(path) && path.last() == id;
        if path.len() > 1 {
            assert(self.edge(path[path.len() - 2], path[path.len() - 2 + 1]));
        }
    }

    /// A sweep takes handles out of the payloads and puts none in.
    pub proof fn lemma_swept_fewer(self, strong: bool, id: usize)
        ensures
            held(self.swept_values(), strong, id) <= held(self.values, strong, id),
    {
        lemma_held_fewer(self.values, self.swept_values(), strong, id);
    }

    /// A sweep keeps the invariant of the collector.
    pub proof fn lemma_sweep_wf(self)
        requires
            self.wf(),
        ensures
            self.sweep().wf(),
    {
        let swept = self.sweep();
        let keep = |id: usize| self.reachable(id);
        let gone = |id: usize| self.victim(id);
        lemma_retained(self.order, keep);
        lemma_buried(self.order, gone);
        lemma_joined(self.graves, buried(self.order, gone));
        assert forall|x: usize| self.graves.contains(x) implies !#[trigger] buried(
            self.order,
            gone,
        ).contains(x) by {
            if self.order.contains(x) {
                let j = choose|j: int| 0 <= j < self.order.len() && self.order[j] == x;
                assert(self.is_object(self.order[j]));
                let cell = self.cells[x as int];
                assert(self.alive(x));
            }
        }
        assert forall|x: usize| #[trigger] swept.graves.contains(x) <==> swept.destroyed(x) by {
            assert(self.graves.contains(x) <==> self.destroyed(x));
            if self.order.contains(x) {
                let j = choose|j: int| 0 <= j < self.order.len() && self.order[j] == x;
                assert(self.is_object(self.order[j]));
            }
        }
        assert forall|strong: bool, id: usize|
            #[trigger] held(swept.values, strong, id) + occurrences(Seq::<usize>::empty(), id)
                <= swept.counter(strong, id) by {
            self.lemma_swept_fewer(strong, id);
            assert(held(self.values, strong, id) + occurrences(Seq::<usize>::empty(), id)
                <= self.counter(strong, id));
        }
        assert forall|k: int| 0 <= k < swept.order.len() implies swept.is_object(
            #[trigger] swept.order[k],
        ) by {
            assert(swept.order.contains(swept.order[k]));
            let j = choose|j: int| 0 <= j < self.order.len() && self.order[j] == swept.order[k];
            assert(self.is_object(self.order[j]));
        }
        assert(!self.order.contains(0)) by {
            if self.order.contains(0) {
                let j = choose|j: int| 0 <= j < self.order.len() && self.order[j] == 0;
                assert(self.is_object(self.order[j]));
            }
        }
        assert(!self.order.contains(1)) by {
            if self.order.contains(1) {
                let j = choose|j: int| 0 <= j < self.order.len() && self.order[j] == 1;
                assert(self.is_object(self.order[j]));
            }
        }
        self.lemma_swept_fewer(true, 0);
        self.lemma_swept_fewer(false, 0);
        self.lemma_swept_fewer(true, 1);
        self.lemma_swept_fewer(false, 1);
        assert(held(self.values, true, 0) + occurrences(Seq::<usize>::empty(), 0) <= self.counter(
            true,
            0,
        ));
        assert(held(self.values, false, 0) + occurrences(Seq::<usize>::empty(), 0)
            <= self.counter(false, 0));
        assert(held(self.values, true, 1) + occurrences(Seq::<usize>::empty(), 1) <= self.counter(
            true,
            1,
        ));
        assert(held(self.values, false, 1) + occurrences(Seq::<usize>::empty(), 1)
            <= self.counter(false, 1));
        assert forall|id: usize| swept.is_object(id) implies {
            let cell = #[trigger] swept.cells[id as int];
            &&& cell.state == GcState::Active || cell.state == GcState::Dropped
            &&& cell.state == GcState::Active <==> swept.order.contains(id)
            &&& cell.state == GcState::Active <==> swept.values[id as int] is Some
            &&& cell.state == GcState::Dropped ==> cell.root == 0
        } by {
            let was = self.cells[id as int];
            assert(self.is_object(id));
            self.lemma_swept_fewer(true, id);
            assert(held(self.values, true, id) + occurrences(Seq::<usize>::empty(), id)
                <= self.counter(true, id));
            if self.order.contains(id) && was.root > 0 {
                self.lemma_root_reachable(id);
            }
        }
    }

    /// A sweep leaves the handles in the users' hands alone.
    pub proof fn lemma_sweep_spare(self, strong: bool, id: usize)
        requires
            self.wf(),
        ensures
            self.sweep().spare(strong, id) == self.spare(strong, id),
    {
        self.lemma_swept_fewer(strong, id);
        assert(held(self.values, strong, id) + occurrences(Seq::<usize>::empty(), id)
            <= self.counter(strong, id));
    }

    /// A sweep of an empty registry changes nothing.
    pub proof fn lemma_sweep_empty(self)
        requires
            self.wf(),
            self.order.len() == 0,
        ensures
            self.sweep() == self,
    {
        let swept = self.sweep();
        assert(swept.values =~= self.values);
        assert(swept.cells =~= self.cells);
        assert(swept.order =~= self.order);
        assert(swept.graves =~= self.graves);
    }

    /// A request for a sweep keeps the invariant, the number of addresses
    /// and the handles in the users' hands. What was destroyed stays
    /// destroyed, and a header without handles stays without.
    pub proof fn lemma_gc(self)
        requires
            self.wf(),
        ensures
            self.gc().wf(),
            self.gc().cells.len() == self.cells.len(),
            self.gc().sweeping == self.sweeping,
            forall|s: bool, x: usize| #[trigger] self.gc().spare(s, x) == self.spare(s, x),
            forall|x: usize| self.destroyed(x) ==> #[trigger] self.gc().destroyed(x),
            forall|x: usize| self.released(x) ==> #[trigger] self.gc().released(x),
    {
        if !self.sweeping {
            self.lemma_sweep_wf();
            assert forall|s: bool, x: usize| #[trigger] self.sweep().spare(s, x) == self.spare(
                s,
                x,
            ) by {
                self.lemma_sweep_spare(s, x);
            }
            assert forall|x: usize| self.released(x) implies #[trigger] self.sweep().released(
                x,
            ) by {
                self.lemma_swept_fewer(true, x);
                self.lemma_swept_fewer(false, x);
                assert(held(self.values, true, x) + occurrences(Seq::<usize>::empty(), x)
                    <= self.counter(true, x));
                assert(held(self.values, false, x) + occurrences(Seq::<usize>::empty(), x)
                    <= self.counter(false, x));
            }
        }
    }

    /// The collector before an allocation links its object satisfies the
    /// invariant, has as many addresses as before, and has left the handles
    /// in the users' hands alone.
    pub proof fn lemma_tick(self)
        requires
            self.wf(),
        ensures
            self.tick().wf(),
            self.tick().cells.len() == self.cells.len(),
            self.tick().sweeping == self.sweeping,
            forall|s: bool, x: usize| #[trigger] self.tick().spare(s, x) == self.spare(s, x),
            forall|x: usize| self.destroyed(x) ==> #[trigger] self.tick().destroyed(x),
            forall|x: usize| self.released(x) ==> #[trigger] self.tick().released(x),
    {
        if self.auto_gc != 0 && self.alloc_sweeps() {
            let counted = GcHeap { alloc_count: 0, ..self };
            counted.lemma_gc();
        }
    }
}

} // verus!
