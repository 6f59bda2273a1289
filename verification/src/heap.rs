//! The collector as a mathematical object.
//!
//! A [`GcHeap`] is what a [`GcContext`](crate::context::GcContext) stands for:
//! one cell and one payload slot per address, and the registry as the sequence
//! of the addresses it links, oldest first. This module states the invariant
//! and the steps that handles take; the sweep is stated in
//! [`graph`](crate::graph).

use vstd::prelude::*;
use crate::counting::{
    handles_of, held, lemma_held_push, lemma_held_update, lemma_occurrences_concat,
    lemma_occurrences_push, lemma_pushed, occurrences,
};
use crate::header::{GcCell, GcState};
use crate::registry::lemma_remove;
use crate::target::GcTarget;

verus! {

/// The collector's state: cells, payloads and registry.
///
/// Addresses 0 and 1 are the registry's sentinels. `order` lists the
/// addresses that the registry links between them, oldest first. `graves`
/// lists the addresses whose payloads were destroyed, in the order in which
/// their destructors ran.
pub struct GcHeap<T> {
    pub cells: Seq<GcCell>,
    pub values: Seq<Option<T>>,
    pub order: Seq<usize>,
    pub graves: Seq<usize>,
    pub auto_gc: usize,
    pub alloc_count: usize,
    pub sweeping: bool,
}

/// The handles of the given kind that wait for their release.
pub open spec fn pending(roots: Seq<usize>, objects: Seq<usize>, strong: bool) -> Seq<usize> {
    if strong {
        roots
    } else {
        objects
    }
}

impl<T: GcTarget> GcHeap<T> {
    /// The context right after its creation: the two sentinels and nothing else.
    pub open spec fn empty() -> GcHeap<T> {
        let sentinel = GcCell { state: GcState::Active, root: 1, count: 0 };
        GcHeap {
            cells: seq![sentinel, sentinel],
            values: seq![None, None],
            order: Seq::empty(),
            graves: Seq::empty(),
            auto_gc: 0,
            alloc_count: 0,
            sweeping: false,
        }
    }

    /// `id` is the address of a header that is not a sentinel.
    pub open spec fn is_object(self, id: usize) -> bool {
        2 <= id < self.cells.len()
    }

    /// The payload at `id` has not been destroyed.
    pub open spec fn alive(self, id: usize) -> bool {
        self.is_object(id) && self.values[id as int] is Some
    }

    /// The payload at `id` has been destroyed.
    pub open spec fn destroyed(self, id: usize) -> bool {
        self.is_object(id) && self.values[id as int] is None
    }

    /// The header at `id` is of no use any more: its payload is destroyed and
    /// no handle refers to it.
    pub open spec fn released(self, id: usize) -> bool {
        &&& self.destroyed(id)
        &&& self.cells[id as int].root == 0
        &&& self.cells[id as int].count == 0
    }

    /// The root (or weak) count of `id`, and 0 for an address that is no object.
    pub open spec fn counter(self, strong: bool, id: usize) -> nat {
        if self.is_object(id) {
            self.cells[id as int].counter(strong)
        } else {
            0
        }
    }

    /// How many strong (or weak) handles to `id` exist outside the payloads:
    /// the handles that the collector's users hold.
    pub open spec fn spare(self, strong: bool, id: usize) -> int {
        self.counter(strong, id) - held(self.values, strong, id)
    }

    /// A strong (or weak) handle to `id` can be in a user's hands.
    pub open spec fn owns(self, strong: bool, id: usize) -> bool {
        self.spare(strong, id) > 0
    }

    /// Every handle stored in `value` can be in a user's hands, so that
    /// `value` can be stored as a payload.
    pub open spec fn can_store(self, value: T) -> bool {
        forall|strong: bool, id: usize| #[trigger]
            occurrences(handles_of(Some(value), strong), id) <= self.spare(strong, id)
    }

    /// Cells, payloads and registry fit together.
    pub open spec fn shape(self) -> bool {
        let sentinel = GcCell { state: GcState::Active, root: 1, count: 0 };
        &&& self.cells.len() == self.values.len()
        &&& 2 <= self.cells.len() <= usize::MAX
        &&& self.cells[0] == sentinel
        &&& self.cells[1] == sentinel
        &&& self.values[0] is None
        &&& self.values[1] is None
        &&& self.order.no_duplicates()
        &&& forall|k: int| 0 <= k < self.order.len() ==> self.is_object(#[trigger] self.order[k])
        &&& forall|id: usize|
            self.is_object(id) ==> {
                let cell = #[trigger] self.cells[id as int];
                &&& cell.state == GcState::Active || cell.state == GcState::Dropped
                &&& cell.state == GcState::Active <==> self.order.contains(id)
                &&& cell.state == GcState::Active <==> self.values[id as int] is Some
                &&& cell.state == GcState::Dropped ==> cell.root == 0
            }
        &&& self.graves.no_duplicates()
        &&& forall|id: usize| #[trigger] self.graves.contains(id) <==> self.destroyed(id)
        &&& self.auto_gc != 0 ==> self.alloc_count < self.auto_gc
    }

    /// The count laws, with `roots` and `objects` the handles that destroyed
    /// payloads have given up and that still wait for their release: every
    /// counter covers the handles that the payloads store and those that wait.
    pub open spec fn accounted(self, roots: Seq<usize>, objects: Seq<usize>) -> bool {
        forall|strong: bool, id: usize|
            #[trigger] held(self.values, strong, id) + occurrences(
                if strong {
                    roots
                } else {
                    objects
                },
                id,
            ) <= self.counter(strong, id)
    }

    /// The invariant of the collector between two operations.
    pub open spec fn wf(self) -> bool {
        &&& self.shape()
        &&& self.accounted(Seq::empty(), Seq::empty())
    }

    /// The object at `id` has a handle, strong or weak.
    pub open spec fn held_up(self, id: usize) -> bool {
        self.cells[id as int].root + self.cells[id as int].count > 0
    }

    /// Every object in the registry has a handle: what counting alone can
    /// reclaim has been reclaimed.
    pub open spec fn prompt(self) -> bool {
        forall|id: usize| self.order.contains(id) ==> #[trigger] self.held_up(id)
    }

    /// Counting has kept up from `self` to `after`: the registry of `after`
    /// holds no object that `self` did not have there, and every object in
    /// it that had a handle in `self` has one in `after`.
    pub open spec fn keeps_up(self, after: GcHeap<T>) -> bool {
        &&& forall|id: usize| #[trigger] after.order.contains(id) ==> self.order.contains(id)
        &&& forall|id: usize|
            after.order.contains(id) && self.held_up(id) ==> #[trigger] after.held_up(id)
    }

    /// Acquiring one more strong (or weak) handle to `id`.
    pub open spec fn retain(self, strong: bool, id: usize) -> GcHeap<T> {
        let cell = self.cells[id as int];
        GcHeap {
            cells: self.cells.update(
                id as int,
                cell.with_counter(strong, cell.counter(strong) + 1),
            ),
            ..self
        }
    }

    /// Giving up one strong (or weak) handle to `id`, without looking at what
    /// this leaves.
    pub open spec fn forgo(self, strong: bool, id: usize) -> GcHeap<T> {
        if self.is_object(id) && self.cells[id as int].counter(strong) > 0 {
            let cell = self.cells[id as int];
            GcHeap {
                cells: self.cells.update(
                    id as int,
                    cell.with_counter(strong, (cell.counter(strong) - 1) as nat),
                ),
                ..self
            }
        } else {
            self
        }
    }

    /// The eager check finds that `id` must go: it is in the registry and no
    /// handle of either kind is left.
    pub open spec fn doomed(self, id: usize) -> bool {
        &&& self.order.contains(id)
        &&& self.is_object(id)
        &&& self.cells[id as int].state == GcState::Active
        &&& self.cells[id as int].root == 0
        &&& self.cells[id as int].count == 0
    }

    /// Destroying the payload at `id` and taking its header out of the
    /// registry.
    pub open spec fn destroy(self, id: usize) -> GcHeap<T> {
        GcHeap {
            cells: self.cells.update(
                id as int,
                GcCell { state: GcState::Dropped, ..self.cells[id as int] },
            ),
            values: self.values.update(id as int, None),
            order: self.order.remove(self.order.index_of(id)),
            graves: self.graves.push(id),
            ..self
        }
    }

    /// Releasing the handles that wait in `roots` and `objects`, last first
    /// and strong ones before weak ones. Each release is followed by the
    /// eager check, and a payload that the check destroys adds the handles
    /// that it stored to those that wait.
    pub open spec fn settle(self, roots: Seq<usize>, objects: Seq<usize>) -> GcHeap<T>
        decreases self.order.len(), roots.len() + objects.len(),
    {
        if roots.len() == 0 && objects.len() == 0 {
            self
        } else {
            let strong = roots.len() > 0;
            let id = if strong {
                roots.last()
            } else {
                objects.last()
            };
            let roots = if strong {
                roots.drop_last()
            } else {
                roots
            };
            let objects = if strong {
                objects
            } else {
                objects.drop_last()
            };
            let next = self.forgo(strong, id);
            if next.doomed(id) {
                let value = self.values[id as int];
                next.destroy(id).settle(
                    roots + handles_of(value, true),
                    objects + handles_of(value, false),
                )
            } else {
                next.settle(roots, objects)
            }
        }
    }

    /// Releasing one strong (or weak) handle to `id`, with all that follows
    /// from it.
    pub open spec fn release(self, strong: bool, id: usize) -> GcHeap<T> {
        if strong {
            self.settle(seq![id], Seq::empty())
        } else {
            self.settle(Seq::empty(), seq![id])
        }
    }

    /// Linking a new object with payload `value` at the end of the registry.
    /// The one handle to it is the strong handle that allocation returns.
    pub open spec fn insert(self, value: T) -> GcHeap<T> {
        GcHeap {
            cells: self.cells.push(GcCell { state: GcState::Active, root: 1, count: 0 }),
            values: self.values.push(Some(value)),
            order: self.order.push(self.cells.len() as usize),
            ..self
        }
    }

    /// Storing `value` as the payload of `id`.
    pub open spec fn store(self, id: usize, value: T) -> GcHeap<T> {
        GcHeap { values: self.values.update(id as int, Some(value)), ..self }
    }

    /// Setting the threshold of the automatic sweep, which restarts the
    /// count of allocations. 0 switches the automatic sweep off.
    pub open spec fn set_auto_gc(self, auto_gc: usize) -> GcHeap<T> {
        GcHeap { auto_gc, alloc_count: 0, ..self }
    }
}

impl<T: GcTarget> GcHeap<T> {
    /// A handle in a user's hands refers to an object, and a strong one to an
    /// object whose payload is alive.
    pub proof fn lemma_owned(self, strong: bool, id: usize)
        requires
            self.wf(),
            self.owns(strong, id),
        ensures
            self.is_object(id),
            self.cells[id as int].counter(strong) > 0,
            strong ==> self.alive(id) && self.cells[id as int].state == GcState::Active,
    {
        assert(held(self.values, strong, id) >= 0);
        let cell = self.cells[id as int];
    }

    /// Acquiring a handle keeps the invariant.
    pub proof fn lemma_retain(self, strong: bool, id: usize)
        requires
            self.wf(),
            self.is_object(id),
            strong ==> self.cells[id as int].state == GcState::Active,
        ensures
            self.retain(strong, id).wf(),
            forall|s: bool, x: usize|
                #[trigger] self.retain(strong, id).spare(s, x) == self.spare(s, x) + if s == strong
                    && x == id {
                    1int
                } else {
                    0int
                },
    {
        let after = self.retain(strong, id);
        assert forall|x: usize| after.is_object(x) implies {
            let cell = #[trigger] after.cells[x as int];
            &&& cell.state == GcState::Active || cell.state == GcState::Dropped
            &&& cell.state == GcState::Active <==> after.order.contains(x)
            &&& cell.state == GcState::Active <==> after.values[x as int] is Some
            &&& cell.state == GcState::Dropped ==> cell.root == 0
        } by {
            let was = self.cells[x as int];
        }
        assert forall|s: bool, x: usize|
            #[trigger] held(after.values, s, x) + occurrences(Seq::<usize>::empty(), x)
                <= after.counter(s, x) by {
            assert(held(self.values, s, x) + occurrences(Seq::<usize>::empty(), x) <= self.counter(
                s,
                x,
            ));
        }
    }

    /// Releasing one handle that the user holds: the handles that wait are
    /// accounted for.
    pub proof fn lemma_release(self, strong: bool, id: usize)
        requires
            self.wf(),
            self.owns(strong, id),
        ensures
            self.accounted(
                if strong {
                    seq![id]
                } else {
                    Seq::empty()
                },
                if strong {
                    Seq::empty()
                } else {
                    seq![id]
                },
            ),
            forall|x: usize|
                #[trigger] occurrences(seq![id], x) == if x == id {
                    1nat
                } else {
                    0nat
                },
    {
        let one = seq![id];
        assert(one.drop_last() =~= Seq::<usize>::empty());
        assert forall|x: usize| #[trigger] occurrences(one, x) == if x == id {
            1nat
        } else {
            0nat
        } by {
            reveal_with_fuel(occurrences, 2);
        }
        assert forall|s: bool, x: usize|
            #[trigger] held(self.values, s, x) + occurrences(
                if s {
                    if strong {
                        one
                    } else {
                        Seq::empty()
                    }
                } else {
                    if strong {
                        Seq::empty()
                    } else {
                        one
                    }
                },
                x,
            ) <= self.counter(s, x) by {
            assert(held(self.values, s, x) + occurrences(Seq::<usize>::empty(), x) <= self.counter(
                s,
                x,
            ));
            assert(occurrences(one, x) <= 1);
        }
    }

    /// Counting off a handle that waits keeps shape and count laws. The
    /// counter that is counted down was above 0.
    pub proof fn lemma_forgo(
        self,
        strong: bool,
        id: usize,
        roots: Seq<usize>,
        objects: Seq<usize>,
    )
        requires
            self.shape(),
            self.accounted(
                if strong {
                    roots.push(id)
                } else {
                    roots
                },
                if strong {
                    objects
                } else {
                    objects.push(id)
                },
            ),
        ensures
            self.is_object(id),
            self.cells[id as int].counter(strong) > 0,
            self.forgo(strong, id).shape(),
            self.forgo(strong, id).accounted(roots, objects),
            forall|s: bool, x: usize|
                #[trigger] self.forgo(strong, id).spare(s, x) == self.spare(s, x) - if s == strong
                    && x == id {
                    1int
                } else {
                    0int
                },
    {
        let next = self.forgo(strong, id);
        let all_roots = if strong {
            roots.push(id)
        } else {
            roots
        };
        let all_objects = if strong {
            objects
        } else {
            objects.push(id)
        };
        assert(held(self.values, strong, id) + occurrences(
            pending(all_roots, all_objects, strong),
            id,
        ) <= self.counter(strong, id));
        lemma_occurrences_push(pending(roots, objects, strong), id, id);
        assert(self.is_object(id));
        assert forall|x: usize| next.is_object(x) implies {
            let cell = #[trigger] next.cells[x as int];
            &&& cell.state == GcState::Active || cell.state == GcState::Dropped
            &&& cell.state == GcState::Active <==> next.order.contains(x)
            &&& cell.state == GcState::Active <==> next.values[x as int] is Some
            &&& cell.state == GcState::Dropped ==> cell.root == 0
        } by {
            let was = self.cells[x as int];
        }
        assert forall|s: bool, x: usize|
            #[trigger] held(next.values, s, x) + occurrences(pending(roots, objects, s), x)
                <= next.counter(s, x) by {
            assert(held(self.values, s, x) + occurrences(pending(all_roots, all_objects, s), x)
                <= self.counter(s, x));
            lemma_occurrences_push(pending(roots, objects, s), id, x);
        }
    }

    /// Destroying a payload that the eager check has found without handles
    /// keeps shape and count laws: the handles that the payload stored wait
    /// for their release from now on.
    pub proof fn lemma_destroy(self, id: usize, roots: Seq<usize>, objects: Seq<usize>)
        requires
            self.shape(),
            self.accounted(roots, objects),
            self.doomed(id),
        ensures
            ({
                let value = self.values[id as int];
                let after = self.destroy(id);
                &&& after.shape()
                &&& after.accounted(
                    roots + handles_of(value, true),
                    objects + handles_of(value, false),
                )
                &&& after.order.len() < self.order.len()
                &&& forall|x: usize| #[trigger]
                    after.order.contains(x) <==> self.order.contains(x) && x != id
                &&& forall|s: bool, x: usize|
                    #[trigger] after.spare(s, x) == self.spare(s, x) + occurrences(
                        handles_of(value, s),
                        x,
                    )
            }),
    {
        let value = self.values[id as int];
        let after = self.destroy(id);
        let k = self.order.index_of(id);
        lemma_remove(self.order, k);
        lemma_pushed(self.graves, id);
        assert(self.alive(id));
        assert(!self.graves.contains(id));
        assert forall|x: usize| #[trigger] after.graves.contains(x) <==> after.destroyed(x) by {
            assert(self.graves.contains(x) <==> self.destroyed(x));
        }
        assert forall|x: usize| after.is_object(x) implies {
            let cell = #[trigger] after.cells[x as int];
            &&& cell.state == GcState::Active || cell.state == GcState::Dropped
            &&& cell.state == GcState::Active <==> after.order.contains(x)
            &&& cell.state == GcState::Active <==> after.values[x as int] is Some
            &&& cell.state == GcState::Dropped ==> cell.root == 0
        } by {
            let was = self.cells[x as int];
        }
        assert forall|j: int| 0 <= j < after.order.len() implies after.is_object(
            #[trigger] after.order[j],
        ) by {
            assert(after.order.contains(after.order[j]));
            let i = choose|i: int| 0 <= i < self.order.len() && self.order[i] == after.order[j];
            assert(self.is_object(self.order[i]));
        }
        assert forall|s: bool, x: usize|
            #[trigger] held(after.values, s, x) + occurrences(
                pending(roots + handles_of(value, true), objects + handles_of(value, false), s),
                x,
            ) <= after.counter(s, x) by {
            lemma_held_update(self.values, id as int, None, s, x);
            lemma_occurrences_concat(roots, handles_of(value, true), x);
            lemma_occurrences_concat(objects, handles_of(value, false), x);
            assert(held(self.values, s, x) + occurrences(pending(roots, objects, s), x)
                <= self.counter(s, x));
            assert(handles_of(None::<T>, s) =~= Seq::<usize>::empty());
        }
        assert forall|s: bool, x: usize|
            #[trigger] after.spare(s, x) == self.spare(s, x) + occurrences(
                handles_of(value, s),
                x,
            ) by {
            lemma_held_update(self.values, id as int, None, s, x);
            assert(handles_of(None::<T>, s) =~= Seq::<usize>::empty());
        }
    }

    /// One release with its eager check keeps shape and count laws.
    pub proof fn lemma_settle_step(
        self,
        strong: bool,
        id: usize,
        roots: Seq<usize>,
        objects: Seq<usize>,
    )
        requires
            self.shape(),
            self.accounted(
                if strong {
                    roots.push(id)
                } else {
                    roots
                },
                if strong {
                    objects
                } else {
                    objects.push(id)
                },
            ),
        ensures
            ({
                let next = self.forgo(strong, id);
                let value = self.values[id as int];
                &&& self.is_object(id)
                &&& self.cells[id as int].counter(strong) > 0
                &&& next.shape()
                &&& next.accounted(roots, objects)
                &&& !next.doomed(id) ==> self.keeps_up(next)
                &&& next.doomed(id) ==> {
                    let after = next.destroy(id);
                    &&& after.shape()
                    &&& after.accounted(
                        roots + handles_of(value, true),
                        objects + handles_of(value, false),
                    )
                    &&& after.order.len() < self.order.len()
                    &&& self.keeps_up(after)
                    &&& forall|x: usize| #[trigger]
                        after.order.contains(x) <==> self.order.contains(x) && x != id
                    &&& forall|s: bool, x: usize|
                        #[trigger] after.spare(s, x) == next.spare(s, x) + occurrences(
                            handles_of(value, s),
                            x,
                        )
                }
            }),
    {
        let next = self.forgo(strong, id);
        self.lemma_forgo(strong, id, roots, objects);
        if next.doomed(id) {
            let after = next.destroy(id);
            next.lemma_destroy(id, roots, objects);
            assert forall|x: usize| after.order.contains(x) && self.held_up(x) implies #[trigger]
                after.held_up(x) by {
                let k = choose|k: int| 0 <= k < self.order.len() && self.order[k] == x;
                assert(self.is_object(self.order[k]));
            }
        } else {
            assert forall|x: usize| next.order.contains(x) && self.held_up(x) implies #[trigger]
                next.held_up(x) by {
                let k = choose|k: int| 0 <= k < self.order.len() && self.order[k] == x;
                assert(self.is_object(self.order[k]));
                let cell = next.cells[x as int];
            }
        }
    }

    /// Releasing the handles that wait, with all that follows from it, ends
    /// in a heap that satisfies the invariant. Every handle that waited has
    /// left its counter, and none in a user's hands was touched. What was
    /// destroyed stays destroyed, a header without handles stays without,
    /// the payloads that are left are unchanged, and counting has kept up:
    /// no object is left in the registry without a handle unless it was
    /// there without one before.
    pub proof fn lemma_settle(self, roots: Seq<usize>, objects: Seq<usize>)
        requires
            self.shape(),
            self.accounted(roots, objects),
        ensures
            self.settle(roots, objects).wf(),
            self.settle(roots, objects).cells.len() == self.cells.len(),
            self.settle(roots, objects).auto_gc == self.auto_gc,
            self.settle(roots, objects).alloc_count == self.alloc_count,
            self.settle(roots, objects).sweeping == self.sweeping,
            forall|s: bool, x: usize|
                #[trigger] self.settle(roots, objects).spare(s, x) == self.spare(s, x)
                    - occurrences(pending(roots, objects, s), x),
            forall|x: usize|
                self.destroyed(x) ==> #[trigger] self.settle(roots, objects).destroyed(x),
            forall|x: usize|
                self.released(x) ==> #[trigger] self.settle(roots, objects).released(x),
            forall|x: usize|
                #[trigger] self.settle(roots, objects).alive(x) ==> self.settle(
                    roots,
                    objects,
                ).values[x as int] == self.values[x as int],
            self.keeps_up(self.settle(roots, objects)),
            self.prompt() ==> self.settle(roots, objects).prompt(),
            self.graves.is_prefix_of(self.settle(roots, objects).graves),
        decreases self.order.len(), roots.len() + objects.len(),
    {
        let end = self.settle(roots, objects);
        if roots.len() == 0 && objects.len() == 0 {
            assert(roots =~= Seq::<usize>::empty());
            assert(objects =~= Seq::<usize>::empty());
        } else {
            let strong = roots.len() > 0;
            let id = if strong {
                roots.last()
            } else {
                objects.last()
            };
            let rest_roots = if strong {
                roots.drop_last()
            } else {
                roots
            };
            let rest_objects = if strong {
                objects
            } else {
                objects.drop_last()
            };
            if strong {
                assert(rest_roots.push(id) =~= roots);
            } else {
                assert(rest_objects.push(id) =~= objects);
            }
            let next = self.forgo(strong, id);
            let value = self.values[id as int];
            self.lemma_settle_step(strong, id, rest_roots, rest_objects);
            assert forall|s: bool, x: usize|
                #[trigger] next.spare(s, x) + occurrences(pending(rest_roots, rest_objects, s), x)
                    == self.spare(s, x) - occurrences(pending(roots, objects, s), x) + 2
                    * occurrences(pending(rest_roots, rest_objects, s), x) by {
                lemma_occurrences_push(pending(rest_roots, rest_objects, s), id, x);
            }
            if next.doomed(id) {
                let after = next.destroy(id);
                let more_roots = rest_roots + handles_of(value, true);
                let more_objects = rest_objects + handles_of(value, false);
                after.lemma_settle(more_roots, more_objects);
                assert(end == after.settle(more_roots, more_objects));
                assert(self.graves.is_prefix_of(after.graves));
                assert forall|s: bool, x: usize|
                    #[trigger] end.spare(s, x) == self.spare(s, x) - occurrences(
                        pending(roots, objects, s),
                        x,
                    ) by {
                    lemma_occurrences_concat(rest_roots, handles_of(value, true), x);
                    lemma_occurrences_concat(rest_objects, handles_of(value, false), x);
                    assert(end.spare(s, x) == after.spare(s, x) - occurrences(
                        pending(more_roots, more_objects, s),
                        x,
                    ));
                    assert(after.spare(s, x) == next.spare(s, x) + occurrences(
                        handles_of(value, s),
                        x,
                    ));
                    assert(next.spare(s, x) + occurrences(pending(rest_roots, rest_objects, s), x)
                        == self.spare(s, x) - occurrences(pending(roots, objects, s), x) + 2
                        * occurrences(pending(rest_roots, rest_objects, s), x));
                }
                assert forall|x: usize| self.destroyed(x) implies #[trigger] end.destroyed(x) by {
                    assert(after.destroyed(x));
                }
                assert forall|x: usize| self.released(x) implies #[trigger] end.released(x) by {
                    assert(after.released(x));
                }
                assert forall|x: usize| #[trigger] end.alive(x) implies end.values[x as int]
                    == self.values[x as int] by {
                    assert(after.alive(x));
                }
                assert(self.keeps_up(end)) by {
                    assert forall|x: usize| #[trigger]
                        end.order.contains(x) implies self.order.contains(x) by {
                        assert(after.order.contains(x));
                    }
                    assert forall|x: usize|
                        end.order.contains(x) && self.held_up(x) implies #[trigger] end.held_up(
                        x,
                    ) by {
                        assert(after.order.contains(x));
                        assert(after.held_up(x));
                    }
                }
            } else {
                next.lemma_settle(rest_roots, rest_objects);
                assert(end == next.settle(rest_roots, rest_objects));
                assert(self.keeps_up(end)) by {
                    assert forall|x: usize| #[trigger]
                        end.order.contains(x) implies self.order.contains(x) by {
                        assert(next.order.contains(x));
                    }
                    assert forall|x: usize|
                        end.order.contains(x) && self.held_up(x) implies #[trigger] end.held_up(
                        x,
                    ) by {
                        assert(next.order.contains(x));
                        assert(next.held_up(x));
                    }
                }
                assert forall|s: bool, x: usize|
                    #[trigger] end.spare(s, x) == self.spare(s, x) - occurrences(
                        pending(roots, objects, s),
                        x,
                    ) by {
                    assert(end.spare(s, x) == next.spare(s, x) - occurrences(
                        pending(rest_roots, rest_objects, s),
                        x,
                    ));
                    assert(next.spare(s, x) + occurrences(pending(rest_roots, rest_objects, s), x)
                        == self.spare(s, x) - occurrences(pending(roots, objects, s), x) + 2
                        * occurrences(pending(rest_roots, rest_objects, s), x));
                }
                assert forall|x: usize| self.destroyed(x) implies #[trigger] end.destroyed(x) by {
                    assert(next.destroyed(x));
                }
                assert forall|x: usize| self.released(x) implies #[trigger] end.released(x) by {
                    assert(next.released(x));
                }
            }
        }
    }

    /// Linking a new object keeps the invariant. The new object has the one
    /// strong handle that allocation returns, and the handles in its payload
    /// have left the user's hands.
    pub proof fn lemma_insert(self, value: T)
        requires
            self.wf(),
            self.can_store(value),
            self.cells.len() < usize::MAX,
        ensures
            self.insert(value).wf(),
            self.prompt() ==> self.insert(value).prompt(),
            forall|s: bool, x: usize|
                #[trigger] self.insert(value).spare(s, x) == self.spare(s, x) + (if s && x
                    == self.cells.len() {
                    1int
                } else {
                    0int
                }) - occurrences(handles_of(Some(value), s), x),
    {
        let after = self.insert(value);
        let id = self.cells.len() as usize;
        assert(!self.order.contains(id)) by {
            if self.order.contains(id) {
                let k = choose|k: int| 0 <= k < self.order.len() && self.order[k] == id;
                assert(self.is_object(self.order[k]));
            }
        }
        assert forall|x: usize| #[trigger]
            after.order.contains(x) <==> self.order.contains(x) || x == id by {
            if self.order.contains(x) {
                let k = choose|k: int| 0 <= k < self.order.len() && self.order[k] == x;
                assert(after.order[k] == x);
            }
            assert(after.order[after.order.len() - 1] == id);
        }
        assert forall|k: int| 0 <= k < after.order.len() implies after.is_object(
            #[trigger] after.order[k],
        ) by {
            if k < self.order.len() {
                assert(self.is_object(self.order[k]));
            }
        }
        assert forall|x: usize| after.is_object(x) implies {
            let cell = #[trigger] after.cells[x as int];
            &&& cell.state == GcState::Active || cell.state == GcState::Dropped
            &&& cell.state == GcState::Active <==> after.order.contains(x)
            &&& cell.state == GcState::Active <==> after.values[x as int] is Some
            &&& cell.state == GcState::Dropped ==> cell.root == 0
        } by {
            if x != id {
                let was = self.cells[x as int];
                assert(self.is_object(x));
            }
        }
        assert forall|s: bool, x: usize|
            #[trigger] after.spare(s, x) == self.spare(s, x) + (if s && x == self.cells.len() {
                1int
            } else {
                0int
            }) - occurrences(handles_of(Some(value), s), x) by {
            lemma_held_push(self.values, Some(value), s, x);
        }
        assert forall|s: bool, x: usize|
            #[trigger] held(after.values, s, x) + occurrences(Seq::<usize>::empty(), x)
                <= after.counter(s, x) by {
            lemma_held_push(self.values, Some(value), s, x);
            assert(occurrences(handles_of(Some(value), s), x) <= self.spare(s, x));
            assert(held(self.values, s, x) + occurrences(Seq::<usize>::empty(), x) <= self.counter(
                s,
                x,
            ));
        }
        if self.prompt() {
            assert forall|x: usize| after.order.contains(x) implies #[trigger] after.held_up(x) by {
                if x != id {
                    assert(self.held_up(x));
                    let k = choose|k: int| 0 <= k < self.order.len() && self.order[k] == x;
                    assert(self.is_object(self.order[k]));
                }
            }
        }
    }

    /// Storing a payload keeps the invariant. The handles in the new payload
    /// have left the user's hands, those in the old one have come into them.
    pub proof fn lemma_store(self, id: usize, value: T)
        requires
            self.wf(),
            self.owns(true, id),
            self.can_store(value),
        ensures
            self.store(id, value).wf(),
            self.prompt() ==> self.store(id, value).prompt(),
            forall|s: bool, x: usize|
                #[trigger] self.store(id, value).spare(s, x) == self.spare(s, x) + occurrences(
                    handles_of(self.values[id as int], s),
                    x,
                ) - occurrences(handles_of(Some(value), s), x),
    {
        let after = self.store(id, value);
        self.lemma_owned(true, id);
        assert forall|x: usize| after.is_object(x) implies {
            let cell = #[trigger] after.cells[x as int];
            &&& cell.state == GcState::Active || cell.state == GcState::Dropped
            &&& cell.state == GcState::Active <==> after.order.contains(x)
            &&& cell.state == GcState::Active <==> after.values[x as int] is Some
            &&& cell.state == GcState::Dropped ==> cell.root == 0
        } by {
            let was = self.cells[x as int];
        }
        assert forall|s: bool, x: usize|
            #[trigger] after.spare(s, x) == self.spare(s, x) + occurrences(
                handles_of(self.values[id as int], s),
                x,
            ) - occurrences(handles_of(Some(value), s), x) by {
            lemma_held_update(self.values, id as int, Some(value), s, x);
        }
        assert forall|s: bool, x: usize|
            #[trigger] held(after.values, s, x) + occurrences(Seq::<usize>::empty(), x)
                <= after.counter(s, x) by {
            lemma_held_update(self.values, id as int, Some(value), s, x);
            assert(occurrences(handles_of(Some(value), s), x) <= self.spare(s, x));
            assert(held(self.values, s, x) + occurrences(Seq::<usize>::empty(), x) <= self.counter(
                s,
                x,
            ));
        }
        if self.prompt() {
            assert forall|x: usize| after.order.contains(x) implies #[trigger] after.held_up(x) by {
                assert(self.held_up(x));
            }
        }
    }
}

} // verus!
