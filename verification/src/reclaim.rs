//! The last pass of a sweep: the walk that puts the marked objects back into
//! the registry and destroys the payloads of the others.

use vstd::prelude::*;
use crate::context::GcContext;
use crate::header::{GcInfo, GcState};
use crate::context::cells_of;
use crate::counting::{
    buried, handles_of, held, lemma_held_update, lemma_occurrences_concat, lemma_retained,
    occurrences, retained,
};
use crate::heap::GcHeap;
use crate::registry::{
    after, before, detached, lemma_index_of, linked, GcNodeBackIter, HEAD, TAIL,
};
use crate::sweep::{lemma_trace_complete, tracing};
use crate::token::GcTraceView;
use crate::target::GcTarget;
use crate::token::{GcDropToken, GcDropView};

verus! {

/// The handles of the given kind that wait in a drop token.
pub open spec fn waiting(bin: GcDropView, strong: bool) -> Seq<usize> {
    if strong {
        bin.roots
    } else {
        bin.objects
    }
}

/// The invariant of the walk, with `ahead` objects of the old registry not
/// yet visited. `graves` is the list of destroyed payloads so far. `kept` is
/// the new registry so far: the objects among the
/// visited ones that can be reached, in their old order. They are linked to
/// each other and to the back sentinel; the front sentinel is linked last.
/// The payloads of the other visited objects are destroyed, and `bin` holds
/// the handles that they stored.
pub open spec fn reclaiming<T: GcTarget>(
    heap: GcHeap<T>,
    infos: Seq<GcInfo>,
    values: Seq<Option<T>>,
    graves: Seq<usize>,
    bin: GcDropView,
    ahead: int,
    kept: Seq<usize>,
) -> bool {
    let order = heap.order;
    &&& graves == heap.graves + buried(order.skip(ahead), |id: usize| heap.victim(id))
    &&& infos.len() == heap.cells.len()
    &&& values.len() == heap.cells.len()
    &&& infos.len() <= usize::MAX
    &&& 0 <= ahead <= order.len()
    &&& kept == retained(order.skip(ahead), |id: usize| heap.reachable(id))
    &&& kept.no_duplicates()
    &&& infos[HEAD as int].next == Some(TAIL)
    &&& infos[TAIL as int].prev == Some(before(kept, kept.len() as int))
    &&& forall|i: int|
        0 <= i < infos.len() ==> {
            let info = #[trigger] infos[i];
            &&& info.root == heap.cells[i].root
            &&& info.count == heap.cells[i].count
            &&& !order.contains(i as usize) ==> info.state == heap.cells[i].state && values[i]
                == heap.values[i]
        }
    &&& forall|k: int|
        0 <= k < order.len() ==> {
            let info = #[trigger] infos[order[k] as int];
            if k < ahead {
                &&& info.state == if heap.reachable(order[k]) {
                    GcState::Marked
                } else {
                    GcState::Unmarked
                }
                &&& info.prev == if k == 0 {
                    None
                } else {
                    Some(order[k - 1])
                }
                &&& values[order[k] as int] == heap.values[order[k] as int]
            } else if heap.reachable(order[k]) {
                &&& info.state == GcState::Active
                &&& values[order[k] as int] == heap.values[order[k] as int]
            } else {
                &&& info.state == GcState::Dropped
                &&& values[order[k] as int] is None
            }
        }
    &&& forall|i: int|
        0 <= i < kept.len() ==> {
            let info = #[trigger] infos[kept[i] as int];
            &&& 2 <= kept[i] < infos.len()
            &&& info.state == GcState::Active
            &&& info.next == Some(after(kept, i))
            &&& i > 0 ==> info.prev == Some(kept[i - 1])
        }
    &&& forall|strong: bool, id: usize|
        #[trigger] held(values, strong, id) + occurrences(waiting(bin, strong), id) == held(
            heap.values,
            strong,
            id,
        )
}

/// After the trace, the walk can begin.
pub proof fn lemma_reclaim_begin<T: GcTarget>(
    heap: GcHeap<T>,
    base: Seq<GcInfo>,
    token: GcTraceView,
)
    requires
        heap.shape(),
        base.len() <= usize::MAX,
        linked(base, Seq::empty()),
        detached(base, heap.order),
        tracing(heap, base, token, Seq::empty(), None, Seq::empty()),
    ensures
        reclaiming(
            heap,
            token.infos,
            heap.values,
            heap.graves,
            GcDropView { roots: Seq::empty(), objects: Seq::empty() },
            heap.order.len() as int,
            Seq::empty(),
        ),
{
    let order = heap.order;
    let infos = token.infos;
    assert(heap.graves + Seq::<usize>::empty() =~= heap.graves);
    let bin = GcDropView { roots: Seq::empty(), objects: Seq::empty() };
    assert(order.skip(order.len() as int) =~= Seq::<usize>::empty());
    assert(!order.contains(HEAD)) by {
        if order.contains(HEAD) {
            let j = choose|j: int| 0 <= j < order.len() && order[j] == HEAD;
            assert(heap.is_object(order[j]));
        }
    }
    assert(!order.contains(TAIL)) by {
        if order.contains(TAIL) {
            let j = choose|j: int| 0 <= j < order.len() && order[j] == TAIL;
            assert(heap.is_object(order[j]));
        }
    }
    assert(infos[HEAD as int] == base[HEAD as int]);
    assert(infos[TAIL as int] == base[TAIL as int]);
    assert forall|i: int| 0 <= i < infos.len() implies {
        let info = #[trigger] infos[i];
        &&& info.root == heap.cells[i].root
        &&& info.count == heap.cells[i].count
        &&& !order.contains(i as usize) ==> info.state == heap.cells[i].state
    } by {
        assert(base[i].cell() == heap.cells[i]);
    }
    assert forall|k: int| 0 <= k < order.len() implies {
        let info = #[trigger] infos[order[k] as int];
        &&& info.state == if heap.reachable(order[k]) {
            GcState::Marked
        } else {
            GcState::Unmarked
        }
        &&& info.prev == if k == 0 {
            None
        } else {
            Some(order[k - 1])
        }
    } by {
        lemma_index_of(order, k);
        assert(heap.is_object(order[k]));
        lemma_trace_complete(heap, base, token, order[k]);
        let was = base[order[k] as int];
    }
}

/// The header table after the marked header at `node` was put in front of
/// `that`.
pub open spec fn relinked(infos: Seq<GcInfo>, node: usize, that: usize) -> Seq<GcInfo> {
    let first = infos.update(
        node as int,
        GcInfo { next: Some(that), state: GcState::Active, ..infos[node as int] },
    );
    first.update(that as int, GcInfo { prev: Some(node), ..first[that as int] })
}

/// The drop token after a payload gave up its handles.
pub open spec fn given_up<T: GcTarget>(bin: GcDropView, value: Option<T>) -> GcDropView {
    GcDropView {
        roots: bin.roots + handles_of(value, true),
        objects: bin.objects + handles_of(value, false),
    }
}

/// One step of the walk.
pub proof fn lemma_reclaim_step<T: GcTarget>(
    heap: GcHeap<T>,
    infos: Seq<GcInfo>,
    values: Seq<Option<T>>,
    graves: Seq<usize>,
    bin: GcDropView,
    ahead: int,
    kept: Seq<usize>,
)
    requires
        heap.shape(),
        reclaiming(heap, infos, values, graves, bin, ahead, kept),
        ahead > 0,
    ensures
        ({
            let node = heap.order[ahead - 1];
            let that = after(kept, -1);
            let info = infos[node as int];
            &&& 2 <= node < infos.len()
            &&& that < infos.len()
            &&& that != node
            &&& info.prev == if ahead == 1 {
                None
            } else {
                Some(heap.order[ahead - 2])
            }
            &&& info.state == GcState::Marked || info.state == GcState::Unmarked
            &&& values[node as int] == heap.values[node as int]
            &&& info.state == GcState::Marked ==> reclaiming(
                heap,
                relinked(infos, node, that),
                values,
                graves,
                bin,
                ahead - 1,
                seq![node] + kept,
            )
            &&& info.state == GcState::Unmarked ==> reclaiming(
                heap,
                infos.update(node as int, GcInfo { state: GcState::Dropped, ..info }),
                values.update(node as int, None),
                graves.push(node),
                given_up(bin, values[node as int]),
                ahead - 1,
                kept,
            )
        }),
{
    let order = heap.order;
    let node = order[ahead - 1];
    let that = after(kept, -1);
    let info = infos[order[ahead - 1] as int];
    let keep = |id: usize| heap.reachable(id);
    let gone = |id: usize| heap.victim(id);
    lemma_index_of(order, ahead - 1);
    assert(heap.is_object(order[ahead - 1]));
    assert(order.skip(ahead - 1)[0] == node);
    assert(order.skip(ahead - 1).skip(1) =~= order.skip(ahead));
    assert(gone(node) == !heap.reachable(node));
    assert(buried(order.skip(ahead - 1), gone) == if gone(node) {
        buried(order.skip(ahead), gone).push(node)
    } else {
        buried(order.skip(ahead), gone)
    });
    assert((heap.graves + buried(order.skip(ahead), gone)).push(node) =~= heap.graves + buried(
        order.skip(ahead),
        gone,
    ).push(node));
    if kept.len() > 0 {
        assert(infos[kept[0] as int].state == GcState::Active);
    }
    assert(!kept.contains(node)) by {
        if kept.contains(node) {
            let i = choose|i: int| 0 <= i < kept.len() && kept[i] == node;
            assert(infos[kept[i] as int].state == GcState::Active);
        }
    }
    if info.state == GcState::Marked {
        let after_infos = relinked(infos, node, that);
        let grown = seq![node] + kept;
        assert(heap.reachable(node));
        assert(keep(node));
        assert(grown == retained(order.skip(ahead - 1), keep));
        assert(grown.no_duplicates()) by {
            assert forall|i: int, j: int|
                0 <= i < grown.len() && 0 <= j < grown.len() && i != j implies grown[i]
                != grown[j] by {
                if i > 0 {
                    assert(grown[i] == kept[i - 1]);
                }
                if j > 0 {
                    assert(grown[j] == kept[j - 1]);
                }
            }
        }
        assert forall|k: int| 0 <= k < order.len() implies {
            let at = #[trigger] after_infos[order[k] as int];
            if k < ahead - 1 {
                &&& at.state == if heap.reachable(order[k]) {
                    GcState::Marked
                } else {
                    GcState::Unmarked
                }
                &&& at.prev == if k == 0 {
                    None
                } else {
                    Some(order[k - 1])
                }
                &&& values[order[k] as int] == heap.values[order[k] as int]
            } else if heap.reachable(order[k]) {
                &&& at.state == GcState::Active
                &&& values[order[k] as int] == heap.values[order[k] as int]
            } else {
                &&& at.state == GcState::Dropped
                &&& values[order[k] as int] is None
            }
        } by {
            let was = infos[order[k] as int];
            if k != ahead - 1 {
                assert(order[k] != node);
            }
            if order[k] == that {
                assert(kept[0] == that);
                assert(infos[kept[0] as int].state == GcState::Active);
            }
        }
        assert forall|i: int| 0 <= i < grown.len() implies {
            let at = #[trigger] after_infos[grown[i] as int];
            &&& 2 <= grown[i] < after_infos.len()
            &&& at.state == GcState::Active
            &&& at.next == Some(after(grown, i))
            &&& i > 0 ==> at.prev == Some(grown[i - 1])
        } by {
            if i > 0 {
                assert(grown[i] == kept[i - 1]);
                let was = infos[kept[i - 1] as int];
                assert(was.next == Some(after(kept, i - 1)));
                if i > 1 {
                    assert(grown[i - 1] == kept[i - 2]);
                }
            }
        }
        assert forall|i: int| 0 <= i < after_infos.len() implies {
            let at = #[trigger] after_infos[i];
            &&& at.root == heap.cells[i].root
            &&& at.count == heap.cells[i].count
            &&& !order.contains(i as usize) ==> at.state == heap.cells[i].state && values[i]
                == heap.values[i]
        } by {
            let was = infos[i];
        }
    } else {
        assert(info.state == GcState::Unmarked);
        let after_infos = infos.update(node as int, GcInfo { state: GcState::Dropped, ..info });
        let after_values = values.update(node as int, None);
        let after_bin = given_up(bin, values[node as int]);
        assert(!keep(node));
        assert(kept == retained(order.skip(ahead - 1), keep));
        assert forall|k: int| 0 <= k < order.len() implies {
            let at = #[trigger] after_infos[order[k] as int];
            if k < ahead - 1 {
                &&& at.state == if heap.reachable(order[k]) {
                    GcState::Marked
                } else {
                    GcState::Unmarked
                }
                &&& at.prev == if k == 0 {
                    None
                } else {
                    Some(order[k - 1])
                }
                &&& after_values[order[k] as int] == heap.values[order[k] as int]
            } else if heap.reachable(order[k]) {
                &&& at.state == GcState::Active
                &&& after_values[order[k] as int] == heap.values[order[k] as int]
            } else {
                &&& at.state == GcState::Dropped
                &&& after_values[order[k] as int] is None
            }
        } by {
            let was = infos[order[k] as int];
            if k != ahead - 1 {
                assert(order[k] != node);
            }
        }
        assert forall|i: int| 0 <= i < kept.len() implies {
            let at = #[trigger] after_infos[kept[i] as int];
            &&& 2 <= kept[i] < after_infos.len()
            &&& at.state == GcState::Active
            &&& at.next == Some(after(kept, i))
            &&& i > 0 ==> at.prev == Some(kept[i - 1])
        } by {
            let was = infos[kept[i] as int];
        }
        assert forall|i: int| 0 <= i < after_infos.len() implies {
            let at = #[trigger] after_infos[i];
            &&& at.root == heap.cells[i].root
            &&& at.count == heap.cells[i].count
            &&& !order.contains(i as usize) ==> at.state == heap.cells[i].state && after_values[i]
                == heap.values[i]
        } by {
            let was = infos[i];
        }
        assert forall|strong: bool, id: usize|
            #[trigger] held(after_values, strong, id) + occurrences(
                waiting(after_bin, strong),
                id,
            ) == held(heap.values, strong, id) by {
            lemma_held_update(values, node as int, None, strong, id);
            lemma_occurrences_concat(bin.roots, handles_of(values[node as int], true), id);
            lemma_occurrences_concat(bin.objects, handles_of(values[node as int], false), id);
            assert(held(values, strong, id) + occurrences(waiting(bin, strong), id) == held(
                heap.values,
                strong,
                id,
            ));
            assert(handles_of(None::<T>, strong) =~= Seq::<usize>::empty());
        }
    }
}

/// The header table after the front sentinel and the first kept object were
/// linked to each other.
pub open spec fn closed_up(infos: Seq<GcInfo>, that: usize) -> Seq<GcInfo> {
    let first = infos.update(that as int, GcInfo { prev: Some(HEAD), ..infos[that as int] });
    first.update(HEAD as int, GcInfo { next: Some(that), ..first[HEAD as int] })
}

/// What the walk leaves behind: the registry links the objects that can be
/// reached, in their old order; the payloads of the others are destroyed;
/// no counter has changed yet, and `bin` holds the handles that the
/// destroyed payloads stored.
pub open spec fn reclaimed<T: GcTarget>(
    heap: GcHeap<T>,
    infos: Seq<GcInfo>,
    values: Seq<Option<T>>,
    graves: Seq<usize>,
    bin: GcDropView,
) -> bool {
    &&& graves == heap.sweep().graves
    &&& linked(infos, heap.sweep().order)
    &&& infos.len() == heap.cells.len()
    &&& infos.len() <= usize::MAX
    &&& values == heap.swept_values()
    &&& forall|i: int|
        0 <= i < infos.len() ==> {
            let info = #[trigger] infos[i];
            &&& info.root == heap.cells[i].root
            &&& info.count == heap.cells[i].count
            &&& info.state == heap.sweep().cells[i].state
        }
    &&& forall|strong: bool, id: usize|
        #[trigger] held(values, strong, id) + occurrences(waiting(bin, strong), id) == held(
            heap.values,
            strong,
            id,
        )
}

/// The end of the walk.
pub proof fn lemma_reclaim_done<T: GcTarget>(
    heap: GcHeap<T>,
    infos: Seq<GcInfo>,
    values: Seq<Option<T>>,
    graves: Seq<usize>,
    bin: GcDropView,
    kept: Seq<usize>,
)
    requires
        heap.shape(),
        reclaiming(heap, infos, values, graves, bin, 0, kept),
    ensures
        after(kept, -1) < infos.len(),
        kept == heap.sweep().order,
        reclaimed(heap, closed_up(infos, after(kept, -1)), values, graves, bin),
{
    let order = heap.order;
    let that = after(kept, -1);
    let done = closed_up(infos, that);
    let keep = |id: usize| heap.reachable(id);
    assert(order.skip(0) =~= order);
    lemma_retained(order, keep);
    if kept.len() > 0 {
        assert(infos[kept[0] as int].state == GcState::Active);
        assert(infos[kept[kept.len() - 1] as int].state == GcState::Active);
    }
    assert forall|k: int| 0 <= k < kept.len() implies {
        let info = #[trigger] done[kept[k] as int];
        &&& info.prev == Some(before(kept, k))
        &&& info.next == Some(after(kept, k))
    } by {
        let was = infos[kept[k] as int];
        if k > 0 {
            assert(kept[k] != kept[0]);
        }
    }
    assert forall|k: int| 0 <= k < kept.len() implies 2 <= #[trigger] kept[k] < done.len() by {
        let was = infos[kept[k] as int];
    }
    assert(values =~= heap.swept_values()) by {
        assert forall|i: int| 0 <= i < values.len() implies values[i] == heap.swept_values()[i] by {
            let info = infos[i];
            if order.contains(i as usize) {
                let k = choose|k: int| 0 <= k < order.len() && order[k] == i as usize;
                let at = infos[order[k] as int];
            }
        }
    }
    assert forall|i: int| 0 <= i < done.len() implies {
        let info = #[trigger] done[i];
        &&& info.root == heap.cells[i].root
        &&& info.count == heap.cells[i].count
        &&& info.state == heap.sweep().cells[i].state
    } by {
        let was = infos[i];
        if order.contains(i as usize) {
            let k = choose|k: int| 0 <= k < order.len() && order[k] == i as usize;
            let at = infos[order[k] as int];
            assert(heap.is_object(order[k]));
            let cell = heap.cells[i];
        }
    }
}

/// The root (or weak) count that the header table has for `id`, and 0 for an
/// address that is no object.
pub open spec fn counter_of(infos: Seq<GcInfo>, strong: bool, id: usize) -> nat {
    if 2 <= id < infos.len() {
        infos[id as int].cell().counter(strong)
    } else {
        0
    }
}

/// The invariant while the handles of the destroyed payloads are released:
/// registry, states and payloads are those after the sweep, and every
/// counter is as far above its value after the sweep as handles to it wait
/// in `bin`.
pub open spec fn draining<T: GcTarget>(
    heap: GcHeap<T>,
    infos: Seq<GcInfo>,
    values: Seq<Option<T>>,
    bin: GcDropView,
) -> bool {
    &&& linked(infos, heap.sweep().order)
    &&& infos.len() == heap.cells.len()
    &&& infos.len() <= usize::MAX
    &&& values == heap.swept_values()
    &&& infos[HEAD as int].cell() == heap.cells[HEAD as int]
    &&& infos[TAIL as int].cell() == heap.cells[TAIL as int]
    &&& forall|i: int|
        0 <= i < infos.len() ==> (#[trigger] infos[i]).state == heap.sweep().cells[i].state
    &&& forall|strong: bool, id: usize|
        #[trigger] held(values, strong, id) + occurrences(waiting(bin, strong), id) + heap.counter(
            strong,
            id,
        ) == held(heap.values, strong, id) + counter_of(infos, strong, id)
}

/// The header table after one counter of `id` went down by one.
pub open spec fn counted_down(infos: Seq<GcInfo>, strong: bool, id: usize) -> Seq<GcInfo> {
    let info = infos[id as int];
    infos.update(
        id as int,
        if strong {
            GcInfo { root: (info.root - 1) as usize, ..info }
        } else {
            GcInfo { count: (info.count - 1) as usize, ..info }
        },
    )
}

/// After the walk, the release of the collected handles can begin.
pub proof fn lemma_drain_begin<T: GcTarget>(
    heap: GcHeap<T>,
    infos: Seq<GcInfo>,
    values: Seq<Option<T>>,
    graves: Seq<usize>,
    bin: GcDropView,
)
    requires
        heap.wf(),
        reclaimed(heap, infos, values, graves, bin),
    ensures
        draining(heap, infos, values, bin),
{
    assert(infos[0].root == heap.cells[0].root);
    assert(infos[1].root == heap.cells[1].root);
    assert forall|strong: bool, id: usize|
        #[trigger] held(values, strong, id) + occurrences(waiting(bin, strong), id)
            + heap.counter(strong, id) == held(heap.values, strong, id) + counter_of(
            infos,
            strong,
            id,
        ) by {
        assert(held(values, strong, id) + occurrences(waiting(bin, strong), id) == held(
            heap.values,
            strong,
            id,
        ));
        if 2 <= id < infos.len() {
            let info = infos[id as int];
            assert(info.root == heap.cells[id as int].root);
        }
    }
}

/// Releasing the handle that waits last.
pub proof fn lemma_drain_step<T: GcTarget>(
    heap: GcHeap<T>,
    infos: Seq<GcInfo>,
    values: Seq<Option<T>>,
    bin: GcDropView,
    strong: bool,
)
    requires
        heap.wf(),
        draining(heap, infos, values, bin),
        waiting(bin, strong).len() > 0,
    ensures
        ({
            let id = waiting(bin, strong).last();
            let rest = if strong {
                GcDropView { roots: bin.roots.drop_last(), ..bin }
            } else {
                GcDropView { objects: bin.objects.drop_last(), ..bin }
            };
            &&& 2 <= id < infos.len()
            &&& infos[id as int].cell().counter(strong) > 0
            &&& draining(heap, counted_down(infos, strong, id), values, rest)
        }),
{
    let id = waiting(bin, strong).last();
    let rest = if strong {
        GcDropView { roots: bin.roots.drop_last(), ..bin }
    } else {
        GcDropView { objects: bin.objects.drop_last(), ..bin }
    };
    let after_infos = counted_down(infos, strong, id);
    let order = heap.sweep().order;
    assert(held(values, strong, id) + occurrences(waiting(bin, strong), id) + heap.counter(
        strong,
        id,
    ) == held(heap.values, strong, id) + counter_of(infos, strong, id));
    assert(held(heap.values, strong, id) + occurrences(Seq::<usize>::empty(), id) <= heap.counter(
        strong,
        id,
    ));
    assert forall|k: int| 0 <= k < order.len() implies {
        let info = #[trigger] after_infos[order[k] as int];
        &&& info.prev == Some(before(order, k))
        &&& info.next == Some(after(order, k))
    } by {
        let was = infos[order[k] as int];
    }
    assert forall|i: int| 0 <= i < after_infos.len() implies (#[trigger] after_infos[i]).state
        == heap.sweep().cells[i].state by {
        let was = infos[i];
    }
    assert forall|s: bool, x: usize|
        #[trigger] held(values, s, x) + occurrences(waiting(rest, s), x) + heap.counter(s, x)
            == held(heap.values, s, x) + counter_of(after_infos, s, x) by {
        assert(held(values, s, x) + occurrences(waiting(bin, s), x) + heap.counter(s, x) == held(
            heap.values,
            s,
            x,
        ) + counter_of(infos, s, x));
    }
}

/// Once no handle waits any more, the sweep is complete.
pub proof fn lemma_drain_done<T: GcTarget>(
    heap: GcHeap<T>,
    infos: Seq<GcInfo>,
    values: Seq<Option<T>>,
    bin: GcDropView,
)
    requires
        heap.wf(),
        draining(heap, infos, values, bin),
        bin.roots.len() == 0,
        bin.objects.len() == 0,
    ensures
        cells_of(infos) == heap.sweep().cells,
{
    let swept = heap.sweep();
    assert forall|i: int| 0 <= i < infos.len() implies cells_of(infos)[i] == swept.cells[i] by {
        let info = infos[i];
        assert(info.state == swept.cells[i].state);
        let id = i as usize;
        assert(held(values, true, id) + occurrences(waiting(bin, true), id) + heap.counter(true, id)
            == held(heap.values, true, id) + counter_of(infos, true, id));
        assert(held(values, false, id) + occurrences(waiting(bin, false), id) + heap.counter(
            false,
            id,
        ) == held(heap.values, false, id) + counter_of(infos, false, id));
        assert(held(heap.values, true, id) + occurrences(Seq::<usize>::empty(), id)
            <= heap.counter(true, id));
        assert(held(heap.values, false, id) + occurrences(Seq::<usize>::empty(), id)
            <= heap.counter(false, id));
        if i < 2 {
            heap.lemma_swept_fewer(true, id);
            heap.lemma_swept_fewer(false, id);
        }
    }
    assert(cells_of(infos) =~= swept.cells);
}

impl<T: GcTarget> GcContext<T> {
    /// Releases the handles that the payloads destroyed by a sweep stored.
    /// The sweep owns every header that it walked, so a release here only
    /// counts down: a kept object that loses its last handle in this way
    /// stays until the next sweep finds that it cannot be reached.
    pub(crate) fn drain(&mut self, bin: GcDropToken, Ghost(heap): Ghost<GcHeap<T>>)
        requires
            heap.wf(),
            reclaimed(heap, old(self).infos@, old(self).values@, old(self).graves@, bin@),
            old(self).order@ == heap.sweep().order,
        ensures
            final(self).graves@ == heap.sweep().graves,
            final(self).infos@.len() == heap.cells.len(),
            linked(final(self).infos@, heap.sweep().order),
            cells_of(final(self).infos@) == heap.sweep().cells,
            final(self).values@ == heap.sweep().values,
            final(self).order@ == heap.sweep().order,
            final(self).auto_gc == old(self).auto_gc,
            final(self).alloc_count == old(self).alloc_count,
            final(self).state == old(self).state,
    {
        let mut bin = bin;
        proof {
            lemma_drain_begin(heap, self.infos@, self.values@, self.graves@, bin@);
        }
        loop
            invariant
                heap.wf(),
                draining(heap, self.infos@, self.values@, bin@),
                self.order@ == heap.sweep().order,
                self.graves@ == heap.sweep().graves,
                self.auto_gc == old(self).auto_gc,
                self.alloc_count == old(self).alloc_count,
                self.state == old(self).state,
            ensures
                draining(heap, self.infos@, self.values@, bin@),
                bin@.roots.len() == 0,
                bin@.objects.len() == 0,
            decreases bin@.roots.len() + bin@.objects.len(),
        {
            let ghost infos = self.infos@;
            let ghost parked = bin@;
            let (strong, id) = match bin.pop() {
                Some(popped) => popped,
                None => {
                    break ;
                },
            };
            proof {
                lemma_drain_step(heap, infos, self.values@, parked, strong);
            }
            if strong {
                self.infos[id].root = self.infos[id].root - 1;
            } else {
                self.infos[id].count = self.infos[id].count - 1;
            }
            proof {
                assert(self.infos@ =~= counted_down(infos, strong, id));
                assert(bin@ == if strong {
                    GcDropView { roots: parked.roots.drop_last(), ..parked }
                } else {
                    GcDropView { objects: parked.objects.drop_last(), ..parked }
                });
            }
        }
        proof {
            lemma_drain_done(heap, self.infos@, self.values@, bin@);
        }
    }
}

impl<T: GcTarget> GcContext<T> {
    /// The walk over the list that a sweep took out of the registry, newest
    /// object first. A marked object becomes active again and is put at the
    /// front of the new registry. An unmarked object's payload is destroyed
    /// and its header becomes a tombstone. Returns the handles that the
    /// destroyed payloads stored.
    pub(crate) fn reclaim(&mut self, iter: GcNodeBackIter, Ghost(heap): Ghost<GcHeap<T>>) -> (bin:
        GcDropToken)
        requires
            heap.shape(),
            reclaiming(
                heap,
                old(self).infos@,
                old(self).values@,
                old(self).graves@,
                GcDropView { roots: Seq::empty(), objects: Seq::empty() },
                heap.order.len() as int,
                Seq::empty(),
            ),
            iter.node == if heap.order.len() == 0 {
                None
            } else {
                Some(heap.order.last())
            },
        ensures
            reclaimed(heap, final(self).infos@, final(self).values@, final(self).graves@, bin@),
            final(self).order@ == heap.sweep().order,
            final(self).auto_gc == old(self).auto_gc,
            final(self).alloc_count == old(self).alloc_count,
            final(self).state == old(self).state,
    {
        let mut iter = iter;
        let mut bin = GcDropToken::new();
        let mut that = self.infos[HEAD].next;
        let ghost mut ahead: int = heap.order.len() as int;
        let ghost mut kept: Seq<usize> = Seq::empty();
        proof {
            assert(bin@ == GcDropView { roots: Seq::empty(), objects: Seq::empty() });
        }
        while !iter.is_empty()
            invariant
                heap.shape(),
                reclaiming(heap, self.infos@, self.values@, self.graves@, bin@, ahead, kept),
                that == Some(after(kept, -1)),
                iter.node == if ahead == 0 {
                    None
                } else {
                    Some(heap.order[ahead - 1])
                },
                self.auto_gc == old(self).auto_gc,
                self.alloc_count == old(self).alloc_count,
                self.state == old(self).state,
            decreases ahead,
        {
            let ghost infos = self.infos@;
            let ghost values = self.values@;
            let ghost parked = bin@;
            proof {
                lemma_reclaim_step(heap, infos, values, self.graves@, parked, ahead, kept);
            }
            let node = iter.next(&self.infos).unwrap();
            match self.infos[node].state {
                // The first pass has left no header of the list in either
                // state.
                GcState::Active | GcState::Dropped => {},
                GcState::Marked => {
                    let front = that.unwrap();
                    self.infos[node].next = that;
                    self.infos[front].prev = Some(node);
                    self.infos[node].state = GcState::Active;
                    that = Some(node);
                    proof {
                        assert(self.infos@ =~= relinked(infos, node, front));
                        kept = seq![node] + kept;
                    }
                },
                GcState::Unmarked => {
                    self.infos[node].state = GcState::Dropped;
                    let value = self.drop_value(node);
                    match &value {
                        Some(payload) => {
                            payload.finalize(&mut bin);
                        },
                        None => {},
                    }
                    proof {
                        assert(self.infos@ =~= infos.update(
                            node as int,
                            GcInfo { state: GcState::Dropped, ..infos[node as int] },
                        ));
                        assert(bin@.roots =~= given_up(parked, value).roots);
                        assert(bin@.objects =~= given_up(parked, value).objects);
                        assert(bin@ == given_up(parked, values[node as int]));
                        self.graves@ = self.graves@.push(node);
                    }
                },
            }
            proof {
                ahead = ahead - 1;
            }
        }
        proof {
            lemma_reclaim_done(heap, self.infos@, self.values@, self.graves@, bin@, kept);
        }
        let ghost infos = self.infos@;
        let front = that.unwrap();
        self.infos[front].prev = Some(HEAD);
        self.infos[HEAD].next = that;
        proof {
            assert(self.infos@ =~= closed_up(infos, front));
            self.order@ = kept;
        }
        bin
    }
}

} // verus!
