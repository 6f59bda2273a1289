//! The collector context: owner of the arena and of the registry.

use vstd::prelude::*;
use std::marker::PhantomData;
use crate::handle::GcRoot;
use crate::header::{GcBox, GcCell, GcContextState, GcInfo, GcState};
use crate::counting::{handles_of, lemma_held_none, occurrences};
use crate::heap::GcHeap;
use crate::registry::{
    addresses, append, lemma_bounded, linked, remove, GcNodeBackIter, HEAD, TAIL,
};
use crate::slots::GcSlots;
use crate::target::GcTarget;
use crate::token::GcDropToken;

verus! {

/// States and counters of a header table.
pub open spec fn cells_of(infos: Seq<GcInfo>) -> Seq<GcCell> {
    Seq::new(infos.len(), |i: int| infos[i].cell())
}

/// Owner of all managed objects of one payload type.
///
/// The headers and the payloads stand in two tables with one slot per
/// address. Addresses are never used twice: when a payload is destroyed its
/// storage goes, and its header stays behind as a tombstone, so that a weak
/// handle to it can still be asked, and answers that its target is gone.
pub struct GcContext<T: GcTarget> {
    pub(crate) auto_gc: usize,
    pub(crate) state: GcContextState,
    pub(crate) alloc_count: usize,
    pub(crate) infos: Vec<GcInfo>,
    pub(crate) values: GcSlots<T>,
    pub(crate) order: Ghost<Seq<usize>>,
    pub(crate) graves: Ghost<Seq<usize>>,
}

impl<T: GcTarget> View for GcContext<T> {
    type V = GcHeap<T>;

    closed spec fn view(&self) -> GcHeap<T> {
        GcHeap {
            cells: cells_of(self.infos@),
            values: self.values@,
            order: self.order@,
            graves: self.graves@,
            auto_gc: self.auto_gc,
            alloc_count: self.alloc_count,
            sweeping: self.state == GcContextState::Gc,
        }
    }
}

impl<T: GcTarget> GcContext<T> {
    /// The links of the headers spell the registry.
    pub closed spec fn repr(&self) -> bool {
        &&& linked(self.infos@, self.order@)
        &&& self.infos@.len() == self.values@.len()
    }

    /// What the context's view and its invariant are made of.
    pub(crate) proof fn lemma_inside(&self)
        ensures
            self@ == (GcHeap {
                cells: cells_of(self.infos@),
                values: self.values@,
                order: self.order@,
                graves: self.graves@,
                auto_gc: self.auto_gc,
                alloc_count: self.alloc_count,
                sweeping: self.state == GcContextState::Gc,
            }),
            self.repr() == (linked(self.infos@, self.order@) && self.infos@.len()
                == self.values@.len()),
    {
    }

    /// The invariant that every operation keeps.
    pub open spec fn wf(&self) -> bool {
        &&& self.repr()
        &&& self@.wf()
    }

    /// An empty context: two sentinels that link to each other, no automatic
    /// sweep.
    pub fn new() -> (r: Self)
        ensures
            r.wf(),
            r@ == GcHeap::<T>::empty(),
    {
        let mut head = GcInfo::new();
        head.root = 1;
        let mut tail = GcInfo::new();
        tail.root = 1;
        head.next = Some(TAIL);
        tail.prev = Some(HEAD);
        let mut infos: Vec<GcInfo> = Vec::new();
        infos.push(head);
        infos.push(tail);
        let mut values: GcSlots<T> = GcSlots::new();
        values.push(None);
        values.push(None);
        let r = Self {
            auto_gc: 0,
            state: GcContextState::Normal,
            alloc_count: 0,
            infos,
            values,
            order: Ghost(Seq::empty()),
            graves: Ghost(Seq::empty()),
        };
        proof {
            assert(r@.cells =~= GcHeap::<T>::empty().cells);
            assert(r@.values =~= GcHeap::<T>::empty().values);
            lemma_held_none(r@.values);
        }
        r
    }

    /// Sets the threshold of the automatic sweep and restarts the count of
    /// allocations. With a threshold of `n > 0`, every `n`-th allocation
    /// sweeps before it links its object; 0 switches the automatic sweep off.
    pub fn set_auto_gc(&mut self, auto_gc: usize)
        requires
            old(self).wf(),
        ensures
            final(self).wf(),
            final(self)@ == old(self)@.set_auto_gc(auto_gc),
    {
        self.auto_gc = auto_gc;
        self.alloc_count = 0;
    }

    /// The number of addresses in use, the two sentinels included.
    pub fn len(&self) -> (r: usize)
        ensures
            r == self@.cells.len(),
    {
        self.infos.len()
    }

    /// The lifecycle state of the header at `id`.
    pub fn state(&self, id: usize) -> (r: GcState)
        requires
            id < self@.cells.len(),
        ensures
            r == self@.cells[id as int].state,
    {
        self.infos[id].state
    }

    /// The number of strong handles to `id`.
    pub fn root_count(&self, id: usize) -> (r: usize)
        requires
            id < self@.cells.len(),
        ensures
            r == self@.cells[id as int].root,
    {
        self.infos[id].root
    }

    /// The number of weak handles to `id`.
    pub fn weak_count(&self, id: usize) -> (r: usize)
        requires
            id < self@.cells.len(),
        ensures
            r == self@.cells[id as int].count,
    {
        self.infos[id].count
    }

    /// Counts one more strong (or weak) handle to `id`.
    pub(crate) fn from_box(&mut self, strong: bool, id: usize)
        requires
            old(self).wf(),
            old(self)@.is_object(id),
            old(self)@.counter(strong, id) < usize::MAX,
            strong ==> old(self)@.cells[id as int].state == GcState::Active,
        ensures
            final(self).wf(),
            final(self)@ == old(self)@.retain(strong, id),
    {
        if strong {
            self.infos[id].root = self.infos[id].root + 1;
        } else {
            self.infos[id].count = self.infos[id].count + 1;
        }
        proof {
            old(self)@.lemma_retain(strong, id);
            assert(self@.cells =~= old(self)@.retain(strong, id).cells);
            assert forall|k: int| 0 <= k < self.order@.len() implies {
                let info = #[trigger] self.infos@[self.order@[k] as int];
                &&& info.prev == old(self).infos@[self.order@[k] as int].prev
                &&& info.next == old(self).infos@[self.order@[k] as int].next
            } by {}
        }
    }

    /// Counts one more strong handle to `id` if its payload is alive, and
    /// says whether it did.
    pub(crate) fn upgrade(&mut self, id: usize) -> (r: bool)
        requires
            old(self).wf(),
            old(self)@.owns(false, id),
            old(self)@.counter(true, id) < usize::MAX,
        ensures
            final(self).wf(),
            r == old(self)@.alive(id),
            final(self)@ == if r {
                old(self)@.retain(true, id)
            } else {
                old(self)@
            },
    {
        proof {
            self@.lemma_owned(false, id);
        }
        if self.infos[id].is_live() {
            self.from_box(true, id);
            true
        } else {
            false
        }
    }

    /// Releases one strong (or weak) handle to `id`.
    pub(crate) fn release(&mut self, strong: bool, id: usize)
        requires
            old(self).wf(),
            old(self)@.owns(strong, id),
        ensures
            final(self).wf(),
            final(self)@ == old(self)@.release(strong, id),
    {
        let mut bin = GcDropToken::new();
        bin.push(strong, id);
        proof {
            self@.lemma_release(strong, id);
            assert(bin@.roots =~= if strong {
                seq![id]
            } else {
                Seq::empty()
            });
            assert(bin@.objects =~= if strong {
                Seq::empty()
            } else {
                seq![id]
            });
        }
        self.settle(bin);
    }

    /// Links a new object with payload `value` at the end of the registry and
    /// returns its address. The new header counts one strong handle: the one
    /// that the caller makes of the address.
    pub(crate) fn insert(&mut self, value: T) -> (id: usize)
        requires
            old(self).wf(),
            old(self)@.can_store(value),
        ensures
            final(self).wf(),
            final(self)@ == old(self)@.insert(value),
            id == old(self)@.cells.len(),
    {
        let id = self.infos.len();
        let mut fresh = GcBox::new(value);
        fresh.info.root = 1;
        self.infos.push(fresh.info);
        self.values.push(fresh.value);
        proof {
            assert forall|k: int| 0 <= k < self.order@.len() implies {
                let info = #[trigger] self.infos@[self.order@[k] as int];
                info == old(self).infos@[self.order@[k] as int]
            } by {}
            assert(!self.order@.contains(id)) by {
                if self.order@.contains(id) {
                    let k = choose|k: int| 0 <= k < self.order@.len() && self.order@[k] == id;
                    assert(self.order@[k] < old(self).infos@.len());
                }
            }
        }
        let ghost pushed = self.infos@;
        let total = self.infos.len();
        assert(pushed.len() == total);
        append(&mut self.infos, id, Ghost(self.order@));
        proof {
            self.order@ = self.order@.push(id);
            let after = old(self)@.insert(value);
            old(self)@.lemma_insert(value);
            assert forall|i: int| 0 <= i < after.cells.len() implies self@.cells[i]
                == after.cells[i] by {
                assert(pushed[i].cell() == self.infos@[i].cell());
            }
            assert(self@.cells =~= after.cells);
        }
        id
    }

    /// Allocates an object with payload `value` and returns the one strong
    /// handle to it. The handles stored in `value` pass from the caller to
    /// the collector.
    ///
    /// With a threshold set, the allocation is counted first, and the one
    /// that reaches the threshold sweeps before the new object is linked.
    /// No allocation is possible while a sweep is under way.
    pub fn allocate(&mut self, value: T) -> (r: GcRoot<T>)
        requires
            old(self).wf(),
            !old(self)@.sweeping,
            old(self)@.can_store(value),
        ensures
            final(self).wf(),
            final(self)@ == old(self)@.allocate(value),
            r@ == old(self)@.tick().cells.len(),
    {
        if self.auto_gc != 0 {
            let alloc_count = self.alloc_count + 1;
            if alloc_count == self.auto_gc {
                self.alloc_count = 0;
                let ghost counted = self@;
                self.gc();
                proof {
                    counted.lemma_sweep_wf();
                    assert forall|strong: bool, id: usize| #[trigger]
                        occurrences(handles_of(Some(value), strong), id) <= self@.spare(
                            strong,
                            id,
                        ) by {
                        counted.lemma_sweep_spare(strong, id);
                        assert(occurrences(handles_of(Some(value), strong), id) <= old(
                            self,
                        )@.spare(strong, id));
                    }
                }
            } else {
                self.alloc_count = alloc_count;
            }
        }
        let id = self.insert(value);
        let r = GcRoot { ptr: id, marker: PhantomData };
        assert(r@ == id) by {
            r.lemma_view();
        }
        r
    }

    /// Ends the context: runs a last sweep and returns the number of objects
    /// that are still in the registry after it. Such objects are kept by
    /// handles that were never released, or by strong handles that payloads
    /// store. They are taken out of the registry and go with the arena,
    /// without being asked to give up their handles.
    pub fn drop(self) -> (leaks: usize)
        requires
            self.wf(),
        ensures
            leaks == self@.gc().order.len(),
    {
        let mut this = self;
        this.gc();
        let ghost order = this.order@;
        let mut iter = GcNodeBackIter::steal(&mut this.infos, Ghost(order));
        let ghost mut ahead: int = order.len() as int;
        let total = this.infos.len();
        proof {
            lemma_bounded(order, total as nat);
        }
        let mut leak_count: usize = 0;
        while !iter.is_empty()
            invariant
                addresses(this.infos@, order),
                order.len() <= usize::MAX,
                0 <= ahead <= order.len(),
                leak_count == order.len() - ahead,
                forall|k: int|
                    0 <= k < ahead ==> (#[trigger] this.infos@[order[k] as int]).prev == if k == 0 {
                        None
                    } else {
                        Some(order[k - 1])
                    },
                iter.node == if ahead == 0 {
                    None
                } else {
                    Some(order[ahead - 1])
                },
            decreases ahead,
        {
            let ghost infos = this.infos@;
            assert(infos[order[ahead - 1] as int].prev == if ahead - 1 == 0 {
                None
            } else {
                Some(order[ahead - 1 - 1])
            });
            let node = iter.next(&this.infos).unwrap();
            leak_count = leak_count + 1;
            this.infos[node].prev = None;
            this.infos[node].next = None;
            proof {
                ahead = ahead - 1;
                assert forall|k: int| 0 <= k < ahead implies (
                #[trigger] this.infos@[order[k] as int]).prev == if k == 0 {
                    None
                } else {
                    Some(order[k - 1])
                } by {
                    let was = infos[order[k] as int];
                    assert(order[k] != order[ahead]);
                }
            }
        }
        leak_count
    }

    /// Stores `value` as the payload of `id` and returns the payload that was
    /// there. The handles in `value` pass from the caller to the collector,
    /// those in the result from the collector to the caller.
    pub(crate) fn store(&mut self, id: usize, value: T) -> (r: T)
        requires
            old(self).wf(),
            old(self)@.owns(true, id),
            old(self)@.can_store(value),
        ensures
            final(self).wf(),
            final(self)@ == old(self)@.store(id, value),
            Some(r) == old(self)@.values[id as int],
    {
        proof {
            self@.lemma_owned(true, id);
        }
        let slot = self.values.replace(id, value);
        proof {
            old(self)@.lemma_store(id, value);
        }
        slot.unwrap()
    }

    /// Releases the handles that wait in `bin`, last first and strong ones
    /// before weak ones. After each release the eager check looks at the
    /// header: an active one that no handle refers to any more loses its
    /// payload and leaves the registry, and the handles that its payload
    /// stored join those that wait.
    pub(crate) fn settle(&mut self, bin: GcDropToken)
        requires
            old(self).repr(),
            old(self)@.shape(),
            old(self)@.accounted(bin@.roots, bin@.objects),
        ensures
            final(self).wf(),
            final(self)@ == old(self)@.settle(bin@.roots, bin@.objects),
    {
        let mut bin = bin;
        let ghost start = bin@;
        loop
            invariant
                self.repr(),
                self@.shape(),
                self@.accounted(bin@.roots, bin@.objects),
                self@.settle(bin@.roots, bin@.objects) == old(self)@.settle(
                    start.roots,
                    start.objects,
                ),
            ensures
                self.wf(),
                self@ == old(self)@.settle(start.roots, start.objects),
            decreases self@.order.len(), bin@.roots.len() + bin@.objects.len(),
        {
            let ghost before = self@;
            let ghost waiting = bin@;
            let (strong, id) = match bin.pop() {
                Some(popped) => popped,
                None => {
                    assert(bin@.roots =~= Seq::<usize>::empty());
                    assert(bin@.objects =~= Seq::<usize>::empty());
                    break ;
                },
            };
            proof {
                if strong {
                    assert(bin@.roots.push(id) =~= waiting.roots);
                } else {
                    assert(bin@.objects.push(id) =~= waiting.objects);
                }
                before.lemma_forgo(strong, id, bin@.roots, bin@.objects);
            }
            let ghost linked_infos = self.infos@;
            if strong {
                self.infos[id].root = self.infos[id].root - 1;
            } else {
                self.infos[id].count = self.infos[id].count - 1;
            }
            let ghost next = before.forgo(strong, id);
            proof {
                assert(self@.cells =~= next.cells);
                assert(self@ == next);
                assert forall|k: int| 0 <= k < self.order@.len() implies {
                    let info = #[trigger] self.infos@[self.order@[k] as int];
                    &&& info.prev == linked_infos[self.order@[k] as int].prev
                    &&& info.next == linked_infos[self.order@[k] as int].next
                } by {}
            }
            self.check_ref(id, &mut bin);
        }
    }

    /// The eager check on the header at `id`, made after one of its counters
    /// went down. An active header that no handle refers to any more loses
    /// its payload and leaves the registry; the handles that the payload
    /// stored are put into `bin`. A header in any other state, or with a
    /// handle left, stays as it is.
    pub(crate) fn check_ref(&mut self, id: usize, bin: &mut GcDropToken)
        requires
            old(self).repr(),
            old(self)@.shape(),
            old(self)@.accounted(old(bin)@.roots, old(bin)@.objects),
            old(self)@.is_object(id),
        ensures
            final(self).repr(),
            final(self)@.shape(),
            final(self)@.accounted(final(bin)@.roots, final(bin)@.objects),
            old(self)@.doomed(id) ==> {
                &&& final(self)@ == old(self)@.destroy(id)
                &&& final(bin)@.roots == old(bin)@.roots + handles_of(
                    old(self)@.values[id as int],
                    true,
                )
                &&& final(bin)@.objects == old(bin)@.objects + handles_of(
                    old(self)@.values[id as int],
                    false,
                )
            },
            !old(self)@.doomed(id) ==> final(self)@ == old(self)@ && final(bin)@ == old(bin)@,
    {
        let ghost next = self@;
        let info = self.infos[id];
        match info.state {
            GcState::Active => {
                if info.root == 0 && info.count == 0 {
                    assert(next.doomed(id));
                    self.infos[id].state = GcState::Dropped;
                    let value = self.drop_value(id);
                    let ghost parked = bin@;
                    match &value {
                        Some(v) => {
                            v.finalize(bin);
                        },
                        None => {},
                    }
                    let ghost marked_infos = self.infos@;
                    remove(&mut self.infos, id, Ghost(self.order@));
                    proof {
                        self.order@ = self.order@.remove(self.order@.index_of(id));
                        self.graves@ = self.graves@.push(id);
                        let after = next.destroy(id);
                        next.lemma_destroy(id, parked.roots, parked.objects);
                        assert forall|i: int| 0 <= i < after.cells.len() implies self@.cells[i]
                            == after.cells[i] by {
                            assert(marked_infos[i].cell() == self.infos@[i].cell());
                        }
                        assert(self@.cells =~= after.cells);
                        assert(self@.values =~= after.values);
                        assert(bin@.roots =~= parked.roots + handles_of(value, true));
                        assert(bin@.objects =~= parked.objects + handles_of(value, false));
                    }
                }
            },
            // A tombstone stays where it is: once its last handle is gone,
            // nothing refers to it again.
            GcState::Dropped => {},
            // While a sweep runs, the sweep decides.
            GcState::Marked | GcState::Unmarked => {},
        }
    }

    /// Takes the payload at `id` out of its slot, which destroys it once the
    /// caller lets go of it.
    pub(crate) fn drop_value(&mut self, id: usize) -> (r: Option<T>)
        requires
            id < old(self).values@.len(),
        ensures
            r == old(self).values@[id as int],
            final(self).values@ == old(self).values@.update(id as int, None),
            final(self).infos == old(self).infos,
            final(self).order == old(self).order,
            final(self).graves == old(self).graves,
            final(self).auto_gc == old(self).auto_gc,
            final(self).alloc_count == old(self).alloc_count,
            final(self).state == old(self).state,
    {
        self.values.take(id)
    }

    /// The payload behind a strong handle.
    pub(crate) fn value(&self, id: usize) -> (r: &T)
        requires
            self.wf(),
            self@.alive(id),
        ensures
            Some(*r) == self@.values[id as int],
    {
        self.values.get(id).unwrap()
    }
}

} // verus!
