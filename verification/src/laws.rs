//! What holds of the collector, whatever its users do.
//!
//! The operations are stated as steps on a [`GcHeap`]. The laws below speak
//! of every heap that satisfies the collector's invariant and of every step
//! that its user is entitled to.

use vstd::prelude::*;
use crate::counting::{
    handles_of, held, lemma_buried_none, lemma_held_plain, lemma_held_same, lemma_held_witness,
    lemma_retained, lemma_retained_all, occurrences, retained,
};
use crate::header::GcState;
use crate::heap::GcHeap;
use crate::target::GcTarget;

verus! {

/// One operation of a user on the collector.
pub enum GcStep<T> {
    /// Cloning a strong (or weak) handle to `id`.
    Clone { strong: bool, id: usize },
    /// Making a weak handle from a strong handle to `id`.
    Downgrade { id: usize },
    /// Asking a weak handle to `id` for a strong one.
    Upgrade { id: usize },
    /// Releasing a strong (or weak) handle to `id`.
    Drop { strong: bool, id: usize },
    /// Allocating an object with payload `value`.
    Allocate { value: T },
    /// Storing `value` as the payload of `id`, through a strong handle.
    Replace { id: usize, value: T },
    /// Requesting a sweep.
    Gc,
    /// Setting the threshold of the automatic sweep.
    SetAutoGc { auto_gc: usize },
}

impl<T: GcTarget> GcHeap<T> {
    /// The user holds what the step needs: the handle that it uses, and the
    /// handles inside a payload that it hands over.
    pub open spec fn permits(self, step: GcStep<T>) -> bool {
        match step {
            GcStep::Clone { strong, id } => self.owns(strong, id),
            GcStep::Downgrade { id } => self.owns(true, id),
            GcStep::Upgrade { id } => self.owns(false, id),
            GcStep::Drop { strong, id } => self.owns(strong, id),
            GcStep::Allocate { value } => {
                &&& !self.sweeping
                &&& self.can_store(value)
                &&& self.cells.len() < usize::MAX
            },
            GcStep::Replace { id, value } => self.owns(true, id) && self.can_store(value),
            GcStep::Gc => true,
            GcStep::SetAutoGc { auto_gc } => true,
        }
    }

    /// The collector after the step.
    pub open spec fn step(self, step: GcStep<T>) -> GcHeap<T> {
        match step {
            GcStep::Clone { strong, id } => self.retain(strong, id),
            GcStep::Downgrade { id } => self.retain(false, id),
            GcStep::Upgrade { id } => if self.alive(id) {
                self.retain(true, id)
            } else {
                self
            },
            GcStep::Drop { strong, id } => self.release(strong, id),
            GcStep::Allocate { value } => self.allocate(value),
            GcStep::Replace { id, value } => self.store(id, value),
            GcStep::Gc => self.gc(),
            GcStep::SetAutoGc { auto_gc } => self.set_auto_gc(auto_gc),
        }
    }

    /// How many handles of the given kind to `id` the step puts into the
    /// user's hands, minus those that it takes out of them.
    pub open spec fn handed_out(self, step: GcStep<T>, strong: bool, id: usize) -> int {
        match step {
            GcStep::Clone { strong: kind, id: target } => if kind == strong && target == id {
                1
            } else {
                0
            },
            GcStep::Downgrade { id: target } => if !strong && target == id {
                1
            } else {
                0
            },
            GcStep::Upgrade { id: target } => if strong && target == id && self.alive(target) {
                1
            } else {
                0
            },
            GcStep::Drop { strong: kind, id: target } => if kind == strong && target == id {
                -1
            } else {
                0
            },
            GcStep::Allocate { value } => (if strong && id == self.cells.len() {
                1int
            } else {
                0int
            }) - occurrences(handles_of(Some(value), strong), id),
            GcStep::Replace { id: target, value } => occurrences(
                handles_of(self.values[target as int], strong),
                id,
            ) - occurrences(handles_of(Some(value), strong), id),
            GcStep::Gc => 0,
            GcStep::SetAutoGc { auto_gc } => 0,
        }
    }
}

/// The collector's invariant holds after every step that the user is
/// entitled to. With it hold the count laws: every counter covers the
/// handles that the payloads store, and what it has beyond them are the
/// handles in the users' hands.
pub proof fn law_invariant<T: GcTarget>(heap: GcHeap<T>, step: GcStep<T>)
    requires
        heap.wf(),
        heap.permits(step),
    ensures
        heap.step(step).wf(),
        heap.step(step).sweeping == heap.sweeping,
{
    match step {
        GcStep::Clone { strong, id } => {
            heap.lemma_owned(strong, id);
            heap.lemma_retain(strong, id);
        },
        GcStep::Downgrade { id } => {
            heap.lemma_owned(true, id);
            heap.lemma_retain(false, id);
        },
        GcStep::Upgrade { id } => {
            heap.lemma_owned(false, id);
            if heap.alive(id) {
                let cell = heap.cells[id as int];
                heap.lemma_retain(true, id);
            }
        },
        GcStep::Drop { strong, id } => {
            heap.lemma_release(strong, id);
            if strong {
                heap.lemma_settle(seq![id], Seq::empty());
            } else {
                heap.lemma_settle(Seq::empty(), seq![id]);
            }
        },
        GcStep::Allocate { value } => {
            heap.lemma_tick();
            heap.tick().lemma_insert(value);
        },
        GcStep::Replace { id, value } => {
            heap.lemma_store(id, value);
        },
        GcStep::Gc => {
            heap.lemma_gc();
        },
        GcStep::SetAutoGc { auto_gc } => {},
    }
}

/// Where no payload stores a handle, every counter counts handles in the
/// users' hands only, and a value without handles can always be stored.
pub proof fn law_plain_payloads<T: GcTarget>(heap: GcHeap<T>, value: T, strong: bool, id: usize)
    requires
        heap.wf(),
        forall|i: int, s: bool|
            0 <= i < heap.values.len() ==> (#[trigger] handles_of(heap.values[i], s)).len() == 0,
        value.roots().len() == 0,
        value.objects().len() == 0,
    ensures
        heap.spare(strong, id) == heap.counter(strong, id),
        heap.can_store(value),
{
    lemma_held_plain(heap.values, strong, id);
    assert forall|s: bool, x: usize| #[trigger]
        occurrences(handles_of(Some(value), s), x) <= heap.spare(s, x) by {
        lemma_held_plain(heap.values, s, x);
    }
}

/// Between two operations, the header of every object is active or dropped:
/// the two states of a sweep are never seen from outside.
pub proof fn law_state_confinement<T: GcTarget>(heap: GcHeap<T>, id: usize)
    requires
        heap.wf(),
        heap.is_object(id),
    ensures
        heap.cells[id as int].state == GcState::Active || heap.cells[id as int].state
            == GcState::Dropped,
        heap.cells[id as int].state == GcState::Active <==> heap.alive(id),
{
    let cell = heap.cells[id as int];
}

/// The count laws. The root count of an object is the number of strong
/// handles to it that payloads store plus the number of those in the users'
/// hands, and likewise the weak count. A step changes the number in the
/// users' hands by exactly the handles that it gives to its caller, minus
/// those that it takes.
pub proof fn law_counts<T: GcTarget>(heap: GcHeap<T>, step: GcStep<T>, strong: bool, id: usize)
    requires
        heap.wf(),
        heap.permits(step),
    ensures
        heap.counter(strong, id) == held(heap.values, strong, id) + heap.spare(strong, id),
        heap.spare(strong, id) >= 0,
        heap.step(step).spare(strong, id) == heap.spare(strong, id) + heap.handed_out(
            step,
            strong,
            id,
        ),
{
    assert(held(heap.values, strong, id) + occurrences(Seq::<usize>::empty(), id) <= heap.counter(
        strong,
        id,
    ));
    match step {
        GcStep::Clone { strong: kind, id: target } => {
            heap.lemma_owned(kind, target);
            heap.lemma_retain(kind, target);
        },
        GcStep::Downgrade { id: target } => {
            heap.lemma_owned(true, target);
            heap.lemma_retain(false, target);
        },
        GcStep::Upgrade { id: target } => {
            heap.lemma_owned(false, target);
            if heap.alive(target) {
                let cell = heap.cells[target as int];
                heap.lemma_retain(true, target);
            }
        },
        GcStep::Drop { strong: kind, id: target } => {
            heap.lemma_release(kind, target);
            assert(occurrences(Seq::<usize>::empty(), id) == 0);
            if kind {
                heap.lemma_settle(seq![target], Seq::empty());
            } else {
                heap.lemma_settle(Seq::empty(), seq![target]);
            }
        },
        GcStep::Allocate { value } => {
            heap.lemma_tick();
            heap.tick().lemma_insert(value);
        },
        GcStep::Replace { id: target, value } => {
            heap.lemma_store(target, value);
        },
        GcStep::Gc => {
            heap.lemma_gc();
        },
        GcStep::SetAutoGc { auto_gc } => {},
    }
}

/// A strong handle is always valid: as long as a user holds one, the payload
/// of its target is alive, whatever step is taken with other handles. No
/// release and no sweep destroys it.
pub proof fn law_strong_handle_valid<T: GcTarget>(heap: GcHeap<T>, step: GcStep<T>, id: usize)
    requires
        heap.wf(),
        heap.permits(step),
        heap.spare(true, id) + heap.handed_out(step, true, id) > 0,
    ensures
        heap.step(step).owns(true, id),
        heap.step(step).alive(id),
        heap.step(step).cells[id as int].state == GcState::Active,
{
    law_counts(heap, step, true, id);
    law_invariant(heap, step);
    heap.step(step).lemma_owned(true, id);
}

/// No payload is destroyed twice and no header is given up twice. The list
/// of the destroyed payloads names each of them once, and a step only adds
/// to its end. A payload that is destroyed stays destroyed through every
/// step, so that a weak handle to it is refused for good, and a header that
/// has lost its payload and all its handles is never touched again. No
/// address is used a second time.
pub proof fn law_destroyed_once<T: GcTarget>(heap: GcHeap<T>, step: GcStep<T>, id: usize)
    requires
        heap.wf(),
        heap.permits(step),
    ensures
        heap.graves.no_duplicates(),
        heap.graves.contains(id) <==> heap.destroyed(id),
        heap.graves.is_prefix_of(heap.step(step).graves),
        heap.destroyed(id) ==> heap.step(step).destroyed(id),
        heap.released(id) ==> heap.step(step).released(id),
        heap.step(step).cells.len() >= heap.cells.len(),
{
    match step {
        GcStep::Clone { strong, id: target } => {
            heap.lemma_owned(strong, target);
        },
        GcStep::Downgrade { id: target } => {
            heap.lemma_owned(true, target);
        },
        GcStep::Upgrade { id: target } => {
            heap.lemma_owned(false, target);
        },
        GcStep::Drop { strong, id: target } => {
            heap.lemma_release(strong, target);
            if strong {
                heap.lemma_settle(seq![target], Seq::empty());
            } else {
                heap.lemma_settle(Seq::empty(), seq![target]);
            }
        },
        GcStep::Allocate { value } => {
            heap.lemma_tick();
            let counted = heap.tick();
            if heap.destroyed(id) {
                assert(counted.destroyed(id));
            }
            if heap.released(id) {
                assert(counted.released(id));
            }
        },
        GcStep::Replace { id: target, value } => {
            heap.lemma_owned(true, target);
        },
        GcStep::Gc => {
            heap.lemma_gc();
        },
        GcStep::SetAutoGc { auto_gc } => {},
    }
}

/// A weak handle is upgraded exactly when the payload of its target has not
/// been destroyed.
pub proof fn law_upgrade<T: GcTarget>(heap: GcHeap<T>, id: usize)
    requires
        heap.wf(),
        heap.owns(false, id),
    ensures
        heap.handed_out(GcStep::Upgrade { id }, true, id) == if heap.destroyed(id) {
            0int
        } else {
            1int
        },
        heap.destroyed(id) ==> heap.step(GcStep::Upgrade { id }) == heap,
{
    heap.lemma_owned(false, id);
}

/// The eager rule. Releasing a handle counts it off. If the object is then
/// an active one without any handle, its payload is destroyed at once and it
/// leaves the registry; in every other case nothing else happens.
pub proof fn law_release<T: GcTarget>(heap: GcHeap<T>, strong: bool, id: usize)
    requires
        heap.wf(),
        heap.owns(strong, id),
    ensures
        !heap.forgo(strong, id).doomed(id) ==> heap.release(strong, id) == heap.forgo(strong, id),
        heap.forgo(strong, id).doomed(id) <==> heap.alive(id) && heap.cells[id as int].root
            + heap.cells[id as int].count == 1,
        heap.forgo(strong, id).doomed(id) ==> heap.release(strong, id).destroyed(id)
            && !heap.release(strong, id).order.contains(id),
        heap.forgo(strong, id).doomed(id) ==> heap.graves.push(id).is_prefix_of(
            heap.release(strong, id).graves,
        ),
{
    let one = seq![id];
    let none = Seq::<usize>::empty();
    assert(one.drop_last() =~= none);
    assert(one.last() == id);
    assert(none.push(id) =~= one);
    heap.lemma_owned(strong, id);
    heap.lemma_release(strong, id);
    let next = heap.forgo(strong, id);
    let cell = heap.cells[id as int];
    let after = next.cells[id as int];
    let value = heap.values[id as int];
    reveal_with_fuel(GcHeap::settle, 2);
    heap.lemma_settle_step(strong, id, none, none);
    if next.doomed(id) {
        let gone = next.destroy(id);
        assert(heap.release(strong, id) == gone.settle(
            none + handles_of(value, true),
            none + handles_of(value, false),
        ));
        gone.lemma_settle(none + handles_of(value, true), none + handles_of(value, false));
        assert(gone.destroyed(id));
    }
}

/// Reference counting keeps up. No step but a sweep leaves an object in the
/// registry without a handle, unless the object was there without one
/// before. So as long as no sweep has run, every object in the registry has
/// a handle. A sweep can leave an object without one, by destroying the
/// payload that stored its last strong handle.
pub proof fn law_prompt<T: GcTarget>(heap: GcHeap<T>, step: GcStep<T>, id: usize)
    requires
        heap.wf(),
        heap.permits(step),
        !(step is Gc),
        step is Allocate ==> !heap.alloc_sweeps(),
        heap.step(step).order.contains(id),
        !heap.step(step).held_up(id),
    ensures
        heap.order.contains(id),
        !heap.held_up(id),
{
    let after = heap.step(step);
    let k = choose|k: int| 0 <= k < after.order.len() && after.order[k] == id;
    assert(after.order[k] == id);
    match step {
        GcStep::Clone { strong, id: target } => {
            heap.lemma_owned(strong, target);
        },
        GcStep::Downgrade { id: target } => {
            heap.lemma_owned(true, target);
        },
        GcStep::Upgrade { id: target } => {
            heap.lemma_owned(false, target);
        },
        GcStep::Drop { strong, id: target } => {
            heap.lemma_release(strong, target);
            if strong {
                heap.lemma_settle(seq![target], Seq::empty());
            } else {
                heap.lemma_settle(Seq::empty(), seq![target]);
            }
        },
        GcStep::Allocate { value } => {
            heap.lemma_tick();
            let counted = heap.tick();
            assert(counted.order == heap.order);
            assert(counted.cells == heap.cells);
            if k < heap.order.len() {
                assert(heap.order[k] == id);
                assert(heap.is_object(heap.order[k]));
            }
        },
        GcStep::Replace { id: target, value } => {},
        GcStep::Gc => {},
        GcStep::SetAutoGc { auto_gc } => {},
    }
}

/// Where no sweep has run since the context was made, every object in the
/// registry has a handle.
pub proof fn law_prompt_kept<T: GcTarget>(heap: GcHeap<T>, step: GcStep<T>)
    requires
        heap.wf(),
        heap.prompt(),
        heap.permits(step),
        !(step is Gc),
        step is Allocate ==> !heap.alloc_sweeps(),
    ensures
        heap.step(step).prompt(),
        GcHeap::<T>::empty().prompt(),
{
    let after = heap.step(step);
    assert forall|id: usize| after.order.contains(id) implies #[trigger] after.held_up(id) by {
        if !after.held_up(id) {
            law_prompt(heap, step, id);
            assert(heap.held_up(id));
        }
    }
    assert forall|id: usize| GcHeap::<T>::empty().order.contains(id) implies #[trigger] GcHeap::<
        T,
    >::empty().held_up(id) by {}
}

/// A group of objects that the users hold no strong handle to, that no weak
/// handle refers to, and whose strong handles are stored inside the group
/// without forming a cycle, has lost all its payloads, given that none of
/// its members is in the registry without a handle. `rank` witnesses that
/// there is no cycle: whoever stores a strong handle has a higher rank than
/// its target.
pub proof fn law_unheld_destroyed<T: GcTarget>(
    heap: GcHeap<T>,
    inside: spec_fn(usize) -> bool,
    rank: spec_fn(usize) -> nat,
    bound: nat,
    id: usize,
)
    requires
        heap.wf(),
        forall|x: usize|
            #[trigger] inside(x) ==> {
                &&& heap.is_object(x)
                &&& heap.spare(true, x) == 0
                &&& heap.counter(false, x) == 0
                &&& rank(x) < bound
                &&& heap.order.contains(x) ==> heap.held_up(x)
            },
        forall|x: usize, y: usize|
            #![trigger inside(y), heap.alive(x)]
            inside(y) && heap.alive(x) && handles_of(heap.values[x as int], true).contains(y)
                ==> inside(x) && rank(x) > rank(y),
        inside(id),
    ensures
        heap.destroyed(id),
    decreases bound - rank(id),
{
    if heap.alive(id) {
        let cell = heap.cells[id as int];
        assert(heap.order.contains(id));
        assert(heap.held_up(id));
        let i = lemma_held_witness(heap.values, true, id);
        assert(heap.values[i] is Some);
        let holder = i as usize;
        assert(heap.alive(holder));
        assert(inside(holder) && rank(holder) > rank(id));
        law_unheld_destroyed(heap, inside, rank, bound, holder);
    }
}

/// Eager reclamation. When a handle is released, then before the release
/// returns, every object is destroyed that belongs to a group without
/// handles from outside: no strong handle in a user's hands, no weak handle
/// at all, and the strong handles stored inside the group, without a cycle.
/// This is said of groups whose members all had a handle before the
/// release: an object that a sweep has left in the registry without one
/// waits for the next sweep.
pub proof fn law_eager_reclamation<T: GcTarget>(
    heap: GcHeap<T>,
    strong: bool,
    released: usize,
    inside: spec_fn(usize) -> bool,
    rank: spec_fn(usize) -> nat,
    bound: nat,
    id: usize,
)
    requires
        heap.wf(),
        heap.owns(strong, released),
        forall|x: usize| #[trigger] inside(x) && heap.order.contains(x) ==> heap.held_up(x),
        ({
            let after = heap.release(strong, released);
            &&& forall|x: usize|
                #[trigger] inside(x) ==> after.is_object(x) && after.spare(true, x) == 0
                    && after.counter(false, x) == 0 && rank(x) < bound
            &&& forall|x: usize, y: usize|
                #![trigger inside(y), after.alive(x)]
                inside(y) && after.alive(x) && handles_of(after.values[x as int], true).contains(y)
                    ==> inside(x) && rank(x) > rank(y)
        }),
        inside(id),
    ensures
        heap.release(strong, released).destroyed(id),
{
    let after = heap.release(strong, released);
    heap.lemma_release(strong, released);
    if strong {
        heap.lemma_settle(seq![released], Seq::empty());
    } else {
        heap.lemma_settle(Seq::empty(), seq![released]);
    }
    assert forall|x: usize| #[trigger] inside(x) implies (after.order.contains(x)
        ==> after.held_up(x)) by {
        if after.order.contains(x) {
            assert(heap.order.contains(x));
            assert(heap.held_up(x));
        }
    }
    law_unheld_destroyed(after, inside, rank, bound, id);
}

/// A sweep destroys every payload in the registry that cannot be reached
/// from an object with a strong handle, and takes its header out of the
/// registry.
pub proof fn law_sweep_reclaims<T: GcTarget>(heap: GcHeap<T>, id: usize)
    requires
        heap.wf(),
        !heap.sweeping,
        heap.order.contains(id),
        !heap.reachable(id),
    ensures
        heap.gc().destroyed(id),
        heap.gc().cells[id as int].state == GcState::Dropped,
        !heap.gc().order.contains(id),
{
    lemma_retained(heap.order, |x: usize| heap.reachable(x));
    let k = choose|k: int| 0 <= k < heap.order.len() && heap.order[k] == id;
    assert(heap.is_object(heap.order[k]));
}

/// A sweep keeps every object that can be reached from an object with a
/// strong handle: in the registry, active, and with its payload as it was.
/// The registry keeps its order.
pub proof fn law_sweep_preserves<T: GcTarget>(heap: GcHeap<T>, id: usize)
    requires
        heap.wf(),
        !heap.sweeping,
        heap.reachable(id),
    ensures
        heap.gc().alive(id),
        heap.gc().values[id as int] == heap.values[id as int],
        heap.gc().cells[id as int].state == GcState::Active,
        heap.gc().order.contains(id),
        heap.gc().order == retained(heap.order, |x: usize| heap.reachable(x)),
{
    lemma_retained(heap.order, |x: usize| heap.reachable(x));
    heap.lemma_reachable_linked(id);
    let k = choose|k: int| 0 <= k < heap.order.len() && heap.order[k] == id;
    assert(heap.is_object(heap.order[k]));
    let cell = heap.cells[id as int];
}

/// A sweep touches nothing outside the registry: a tombstone keeps its
/// state, and loses only the handles that destroyed payloads stored.
pub proof fn law_sweep_frame<T: GcTarget>(heap: GcHeap<T>, id: usize)
    requires
        heap.wf(),
        !heap.sweeping,
        heap.is_object(id),
        !heap.order.contains(id),
    ensures
        heap.gc().cells[id as int].state == heap.cells[id as int].state,
        heap.gc().values[id as int] == heap.values[id as int],
        heap.gc().spare(true, id) == heap.spare(true, id),
        heap.gc().spare(false, id) == heap.spare(false, id),
{
    heap.lemma_sweep_spare(true, id);
    heap.lemma_sweep_spare(false, id);
}

/// A group of objects without a strong handle, to which only members of the
/// group store weak handles, cannot be reached.
pub proof fn law_cycle_unreachable<T: GcTarget>(
    heap: GcHeap<T>,
    inside: spec_fn(usize) -> bool,
    path: Seq<usize>,
)
    requires
        forall|x: usize| #[trigger] inside(x) ==> heap.counter(true, x) == 0,
        forall|a: usize, b: usize|
            #![trigger heap.edge(a, b)]
            heap.edge(a, b) && inside(b) ==> inside(a),
        heap.is_path(path),
    ensures
        !inside(path.last()),
    decreases path.len(),
{
    if path.len() > 1 {
        let shorter = path.drop_last();
        assert forall|i: int| 0 <= i < shorter.len() - 1 implies heap.edge(
            #[trigger] shorter[i],
            shorter[i + 1],
        ) by {
            assert(heap.edge(path[i], path[i + 1]));
        }
        assert(heap.is_path(shorter));
        law_cycle_unreachable(heap, inside, shorter);
        assert(heap.edge(path[path.len() - 2], path[path.len() - 2 + 1]));
    } else {
        assert(heap.is_root(path[0]));
    }
}

/// A sweep reclaims cycles. A group of objects in the registry without a
/// strong handle, to which only members of the group store weak handles, is
/// destroyed by one sweep, however its members refer to each other.
pub proof fn law_sweep_reclaims_cycles<T: GcTarget>(
    heap: GcHeap<T>,
    inside: spec_fn(usize) -> bool,
    id: usize,
)
    requires
        heap.wf(),
        !heap.sweeping,
        forall|x: usize| #[trigger] inside(x) ==> heap.counter(true, x) == 0,
        forall|a: usize, b: usize|
            #![trigger heap.edge(a, b)]
            heap.edge(a, b) && inside(b) ==> inside(a),
        inside(id),
        heap.order.contains(id),
    ensures
        heap.gc().destroyed(id),
{
    if heap.reachable(id) {
        let path = choose|path: Seq<usize>| #[trigger] heap.is_path(path) && path.last() == id;
        law_cycle_unreachable(heap, inside, path);
    }
    law_sweep_reclaims(heap, id);
}

/// A sweep changes nothing exactly when every object of the registry can be
/// reached.
pub proof fn law_sweep_fixed<T: GcTarget>(heap: GcHeap<T>)
    requires
        heap.wf(),
        !heap.sweeping,
    ensures
        heap.gc() == heap <==> heap.settled(),
{
    let keep = |x: usize| heap.reachable(x);
    lemma_retained(heap.order, keep);
    if heap.settled() {
        assert forall|i: int| 0 <= i < heap.order.len() implies keep(#[trigger] heap.order[i]) by {
            assert(heap.order.contains(heap.order[i]));
        }
        lemma_retained_all(heap.order, keep);
        let swept = heap.sweep();
        let gone = |x: usize| heap.victim(x);
        assert forall|i: int| 0 <= i < heap.order.len() implies !gone(#[trigger] heap.order[i]) by {
            assert(heap.order.contains(heap.order[i]));
        }
        lemma_buried_none(heap.order, gone);
        assert(swept.graves =~= heap.graves);
        assert(swept.values =~= heap.values);
        assert(swept.cells =~= heap.cells);
    }
    if heap.gc() == heap {
        assert forall|id: usize| heap.order.contains(id) implies #[trigger] heap.reachable(id) by {
            assert(retained(heap.order, keep).contains(id));
        }
    }
}

/// Idempotence. A second sweep right after a sweep changes nothing, given
/// that the first one has left every object of the registry reachable. It
/// does unless a payload that it destroyed stored the last strong handle of
/// an object that it kept.
pub proof fn law_sweep_idempotent<T: GcTarget>(heap: GcHeap<T>)
    requires
        heap.wf(),
        !heap.sweeping,
        heap.gc().settled(),
    ensures
        heap.gc().gc() == heap.gc(),
{
    heap.lemma_gc();
    law_sweep_fixed(heap.gc());
}

/// A sweep leaves every object of the registry reachable if the payloads
/// that it destroys store no strong handles.
pub proof fn law_sweep_settles<T: GcTarget>(heap: GcHeap<T>)
    requires
        heap.wf(),
        !heap.sweeping,
        forall|id: usize| #[trigger]
            heap.victim(id) ==> handles_of(heap.values[id as int], true).len() == 0,
    ensures
        heap.gc().settled(),
        heap.gc().gc() == heap.gc(),
{
    let swept = heap.gc();
    let keep = |x: usize| heap.reachable(x);
    lemma_retained(heap.order, keep);
    heap.lemma_gc();
    assert forall|x: usize| #[trigger]
        held(swept.values, true, x) == held(heap.values, true, x) by {
        assert forall|i: int| 0 <= i < heap.values.len() implies #[trigger] handles_of(
            swept.values[i],
            true,
        ) == handles_of(heap.values[i], true) by {
            if heap.victim(i as usize) {
                assert(handles_of(heap.values[i], true) =~= Seq::<usize>::empty());
            }
        }
        lemma_held_same(heap.values, swept.values, true, x);
    }
    assert forall|id: usize| swept.order.contains(id) implies #[trigger] swept.reachable(id) by {
        assert(heap.reachable(id));
        let path = choose|path: Seq<usize>| #[trigger] heap.is_path(path) && path.last() == id;
        lemma_path_kept(heap, path);
        assert(swept.is_path(path));
    }
    law_sweep_fixed(swept);
}

/// A path is still a path after a sweep that took no strong handle away.
proof fn lemma_path_kept<T: GcTarget>(heap: GcHeap<T>, path: Seq<usize>)
    requires
        heap.wf(),
        !heap.sweeping,
        heap.is_path(path),
        forall|x: usize| #[trigger] held(heap.gc().values, true, x) == held(heap.values, true, x),
    ensures
        heap.gc().is_path(path),
{
    let swept = heap.gc();
    let keep = |x: usize| heap.reachable(x);
    lemma_retained(heap.order, keep);
    assert forall|i: int| 0 <= i < path.len() implies heap.reachable(#[trigger] path[i]) by {
        let front = path.take(i + 1);
        assert forall|j: int| 0 <= j < front.len() - 1 implies heap.edge(
            #[trigger] front[j],
            front[j + 1],
        ) by {
            assert(heap.edge(path[j], path[j + 1]));
        }
        assert(heap.is_path(front));
        assert(front.last() == path[i]);
    }
    assert(heap.reachable(path[0]));
    let first = path[0];
    let k = choose|k: int| 0 <= k < heap.order.len() && heap.order[k] == first;
    assert(heap.is_object(heap.order[k]));
    assert(held(swept.values, true, first) == held(heap.values, true, first));
    assert(swept.is_root(first));
    assert forall|i: int| 0 <= i < path.len() - 1 implies swept.edge(
        #[trigger] path[i],
        path[i + 1],
    ) by {
        assert(heap.edge(path[i], path[i + 1]));
        assert(heap.reachable(path[i]));
        assert(heap.reachable(path[i + 1]));
        let j = choose|j: int| 0 <= j < heap.order.len() && heap.order[j] == path[i];
        assert(heap.is_object(heap.order[j]));
    }
}

/// The collector after the allocations of the payloads `values`, one after
/// the other.
pub open spec fn allocate_all<T: GcTarget>(heap: GcHeap<T>, values: Seq<T>) -> GcHeap<T>
    decreases values.len(),
{
    if values.len() == 0 {
        heap
    } else {
        allocate_all(heap, values.drop_last()).allocate(values.last())
    }
}

/// The cadence of the automatic sweep. After the threshold was set to
/// `n > 0`, the allocations number `n`, `2n`, `3n`, ... sweep, and no other
/// does: the count of allocations since the last sweep is the number of
/// allocations modulo `n`.
pub proof fn law_auto_gc_cadence<T: GcTarget>(heap: GcHeap<T>, n: usize, values: Seq<T>)
    requires
        n > 0,
    ensures
        allocate_all(heap.set_auto_gc(n), values).auto_gc == n,
        allocate_all(heap.set_auto_gc(n), values).alloc_count == values.len() % (n as nat),
        values.len() > 0 ==> (allocate_all(heap.set_auto_gc(n), values.drop_last()).alloc_sweeps()
            <==> values.len() % (n as nat) == 0),
    decreases values.len(),
{
    let start = heap.set_auto_gc(n);
    if values.len() > 0 {
        let front = values.drop_last();
        law_auto_gc_cadence(heap, n, front);
        let before = allocate_all(start, front);
        let k = values.len() as int;
        let m = n as int;
        assert(before.alloc_count == (k - 1) % m);
        assert(0 <= (k - 1) % m < m && (((k - 1) % m + 1 == m) <==> k % m == 0) && (((k - 1) % m
            + 1 != m) ==> k % m == (k - 1) % m + 1)) by (nonlinear_arith)
            requires
                k > 0,
                m > 0,
        ;
    }
}

/// Without a threshold no allocation sweeps.
pub proof fn law_auto_gc_off<T: GcTarget>(heap: GcHeap<T>, value: T)
    ensures
        !heap.set_auto_gc(0).alloc_sweeps(),
        heap.set_auto_gc(0).allocate(value) == heap.set_auto_gc(0).insert(value),
{
}

} // verus!
