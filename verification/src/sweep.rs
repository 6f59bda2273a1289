//! The sweep: marking from the roots, tracing to a fixed point, and
//! reclaiming what was not reached.

use vstd::prelude::*;
use crate::header::{GcInfo, GcState};
use crate::counting::handles_of;
use crate::heap::GcHeap;
use crate::context::{cells_of, GcContext};
use crate::header::GcContextState;
use crate::reclaim::lemma_reclaim_begin;
use crate::registry::{addresses, detached, lemma_index_of, GcNodeBackIter};
use crate::slots::GcSlots;
use crate::target::GcTarget;
use crate::token::{GcTraceToken, GcTraceView};

verus! {

/// The header at `id` is marked.
pub open spec fn is_marked(infos: Seq<GcInfo>, id: usize) -> bool {
    id < infos.len() && infos[id as int].state == GcState::Marked
}

/// The worklist of `token` is the stack `work`, its top last: marked headers,
/// each linked by `next` to the one below it.
pub open spec fn stacked(token: GcTraceView, work: Seq<usize>) -> bool {
    &&& work.no_duplicates()
    &&& token.head == if work.len() == 0 {
        None
    } else {
        Some(work.last())
    }
    &&& forall|i: int|
        0 <= i < work.len() ==> {
            &&& is_marked(token.infos, #[trigger] work[i])
            &&& token.infos[work[i] as int].next == if i == 0 {
                None
            } else {
                Some(work[i - 1])
            }
        }
}

/// How many headers of `order` are unmarked.
pub open spec fn unmarked(infos: Seq<GcInfo>, order: Seq<usize>) -> nat
    decreases order.len(),
{
    if order.len() == 0 {
        0
    } else {
        unmarked(infos, order.drop_last()) + if infos[order.last() as int].state
            == GcState::Unmarked {
            1nat
        } else {
            0nat
        }
    }
}

/// What is left to do in a trace: every unmarked header may still be queued
/// and then worked off.
pub open spec fn effort(token: GcTraceView, order: Seq<usize>, work: Seq<usize>) -> nat {
    2 * unmarked(token.infos, order) + work.len()
}

/// The token after the top of its worklist was taken off.
pub open spec fn popped(token: GcTraceView) -> GcTraceView {
    GcTraceView {
        head: match token.head {
            Some(h) => token.infos[h as int].next,
            None => None,
        },
        infos: token.infos,
    }
}

/// The worklist `work` after the handles `ids` were reported to `token`.
pub open spec fn queued(token: GcTraceView, work: Seq<usize>, ids: Seq<usize>) -> Seq<usize>
    decreases ids.len(),
{
    if ids.len() == 0 {
        work
    } else {
        let earlier = token.accept_all(ids.drop_last());
        let work = queued(token, work, ids.drop_last());
        if earlier.accept(ids.last()) != earlier {
            work.push(ids.last())
        } else {
            work
        }
    }
}

/// The invariant of a trace over the objects that `heap` had in its registry
/// when the sweep began. `base` is the header table right after the registry
/// was emptied, `work` the worklist. While the payload of `busy` is being
/// traced, `done` holds the handles that it has reported so far.
///
/// Counters and `prev` links are untouched, headers outside the sweep are
/// untouched altogether. Every object with a strong handle is marked, every
/// marked object can be reached, and the weak handles of a marked object
/// that is neither queued nor busy lead to marked objects only.
pub open spec fn tracing<T: GcTarget>(
    heap: GcHeap<T>,
    base: Seq<GcInfo>,
    token: GcTraceView,
    work: Seq<usize>,
    busy: Option<usize>,
    done: Seq<usize>,
) -> bool {
    &&& token.infos.len() == base.len()
    &&& base.len() == heap.cells.len()
    &&& forall|i: int| 0 <= i < base.len() ==> (#[trigger] base[i]).cell() == heap.cells[i]
    &&& stacked(token, work)
    &&& forall|i: int|
        0 <= i < token.infos.len() ==> {
            let info = #[trigger] token.infos[i];
            &&& info.root == base[i].root
            &&& info.count == base[i].count
            &&& info.prev == base[i].prev
            &&& if heap.order.contains(i as usize) {
                info.state == GcState::Marked || info.state == GcState::Unmarked
            } else {
                info == base[i] && info.state != GcState::Unmarked
            }
            &&& info.root > 0 && heap.order.contains(i as usize) ==> info.state == GcState::Marked
            &&& info.state == GcState::Marked ==> heap.reachable(i as usize)
        }
    &&& forall|a: usize, b: usize|
        #![trigger heap.edge(a, b)]
        heap.edge(a, b) && is_marked(token.infos, a) && !work.contains(a) && busy != Some(a)
            ==> is_marked(token.infos, b)
    &&& busy matches Some(n) ==> {
        &&& is_marked(token.infos, n)
        &&& !work.contains(n)
        &&& heap.order.contains(n)
        &&& forall|i: int|
            0 <= i < done.len() && heap.order.contains(#[trigger] done[i]) ==> is_marked(
                token.infos,
                done[i],
            )
    }
}

/// Changing the state of one header of `order` from unmarked to something
/// else leaves one unmarked header less.
pub proof fn lemma_unmarked_update(
    infos: Seq<GcInfo>,
    order: Seq<usize>,
    id: usize,
    info: GcInfo,
)
    requires
        addresses(infos, order),
        id < infos.len(),
        infos[id as int].state == GcState::Unmarked,
        info.state != GcState::Unmarked,
    ensures
        unmarked(infos.update(id as int, info), order) == unmarked(infos, order)
            - if order.contains(id) {
            1nat
        } else {
            0nat
        },
    decreases order.len(),
{
    if order.len() > 0 {
        let rest = order.drop_last();
        assert(addresses(infos, rest)) by {
            assert forall|k: int| 0 <= k < rest.len() implies 2 <= #[trigger] rest[k]
                < infos.len() by {
                assert(rest[k] == order[k]);
            }
        }
        lemma_unmarked_update(infos, rest, id, info);
        if order.last() == id {
            assert(!rest.contains(id)) by {
                if rest.contains(id) {
                    let k = choose|k: int| 0 <= k < rest.len() && rest[k] == id;
                    assert(order[k] == id);
                }
            }
            assert(order[order.len() - 1] == id);
        } else {
            if rest.contains(id) {
                let k = choose|k: int| 0 <= k < rest.len() && rest[k] == id;
                assert(order[k] == id);
            }
            if order.contains(id) {
                let k = choose|k: int| 0 <= k < order.len() && order[k] == id;
                assert(rest[k] == id);
            }
        }
    }
}

/// Taking the top off the worklist makes it the busy object.
pub proof fn lemma_trace_pop<T: GcTarget>(
    heap: GcHeap<T>,
    base: Seq<GcInfo>,
    token: GcTraceView,
    work: Seq<usize>,
)
    requires
        tracing(heap, base, token, work, None, Seq::empty()),
        work.len() > 0,
    ensures
        tracing(heap, base, popped(token), work.drop_last(), Some(work.last()), Seq::empty()),
        effort(popped(token), heap.order, work.drop_last()) < effort(token, heap.order, work),
{
    let rest = work.drop_last();
    let top = work.last();
    let after = popped(token);
    assert(is_marked(token.infos, work[work.len() - 1]));
    assert forall|i: int| 0 <= i < rest.len() implies {
        &&& is_marked(after.infos, #[trigger] rest[i])
        &&& after.infos[rest[i] as int].next == if i == 0 {
            None
        } else {
            Some(rest[i - 1])
        }
    } by {
        assert(rest[i] == work[i]);
    }
    assert(!rest.contains(top)) by {
        if rest.contains(top) {
            let k = choose|k: int| 0 <= k < rest.len() && rest[k] == top;
            assert(work[k] == top);
        }
    }
    assert forall|a: usize| a != top && !rest.contains(a) implies !work.contains(a) by {
        if work.contains(a) {
            let k = choose|k: int| 0 <= k < work.len() && work[k] == a;
            assert(rest[k] == a);
        }
    }
    heap.lemma_reachable_linked(top);
}

/// Reporting one weak handle of the busy object keeps the invariant of the
/// trace, and costs no effort.
pub proof fn lemma_trace_accept<T: GcTarget>(
    heap: GcHeap<T>,
    base: Seq<GcInfo>,
    token: GcTraceView,
    work: Seq<usize>,
    busy: usize,
    done: Seq<usize>,
    id: usize,
)
    requires
        heap.shape(),
        tracing(heap, base, token, work, Some(busy), done),
        handles_of(heap.values[busy as int], false).contains(id),
    ensures
        tracing(
            heap,
            base,
            token.accept(id),
            if token.accept(id) != token {
                work.push(id)
            } else {
                work
            },
            Some(busy),
            done.push(id),
        ),
        effort(
            token.accept(id),
            heap.order,
            if token.accept(id) != token {
                work.push(id)
            } else {
                work
            },
        ) <= effort(token, heap.order, work),
{
    let after = token.accept(id);
    let grown = done.push(id);
    if id < token.infos.len() && token.infos[id as int].state == GcState::Unmarked {
        let queue = work.push(id);
        assert(after.infos[id as int].state == GcState::Marked);
        assert(after != token);
        assert(heap.order.contains(id));
        assert(heap.edge(busy, id));
        heap.lemma_edge_reachable(busy, id);
        assert(!work.contains(id)) by {
            if work.contains(id) {
                let k = choose|k: int| 0 <= k < work.len() && work[k] == id;
                assert(is_marked(token.infos, work[k]));
            }
        }
        assert(queue.no_duplicates());
        assert forall|i: int| 0 <= i < queue.len() implies {
            &&& is_marked(after.infos, #[trigger] queue[i])
            &&& after.infos[queue[i] as int].next == if i == 0 {
                None
            } else {
                Some(queue[i - 1])
            }
        } by {
            if i < work.len() {
                assert(queue[i] == work[i]);
                assert(is_marked(token.infos, work[i]));
            }
        }
        assert forall|a: usize, b: usize|
            #![trigger heap.edge(a, b)]
            heap.edge(a, b) && is_marked(after.infos, a) && !queue.contains(a) && Some(busy)
                != Some(a) implies is_marked(after.infos, b) by {
            assert(queue[queue.len() - 1] == id);
            assert(a != id);
            assert(!work.contains(a)) by {
                if work.contains(a) {
                    let k = choose|k: int| 0 <= k < work.len() && work[k] == a;
                    assert(queue[k] == a);
                }
            }
            assert(is_marked(token.infos, b));
        }
        assert(!queue.contains(busy)) by {
            if queue.contains(busy) {
                let k = choose|k: int| 0 <= k < queue.len() && queue[k] == busy;
                if k < work.len() {
                    assert(work[k] == busy);
                }
            }
        }
        assert forall|i: int|
            0 <= i < grown.len() && heap.order.contains(#[trigger] grown[i]) implies is_marked(
            after.infos,
            grown[i],
        ) by {
            if i < done.len() {
                assert(grown[i] == done[i]);
                assert(is_marked(token.infos, done[i]));
            }
        }
        assert(addresses(token.infos, heap.order));
        lemma_unmarked_update(token.infos, heap.order, id, after.infos[id as int]);
    } else {
        assert(after == token);
        assert forall|i: int|
            0 <= i < grown.len() && heap.order.contains(#[trigger] grown[i]) implies is_marked(
            after.infos,
            grown[i],
        ) by {
            if i < done.len() {
                assert(grown[i] == done[i]);
            } else {
                let k = choose|k: int| 0 <= k < heap.order.len() && heap.order[k] == id;
                assert(heap.is_object(heap.order[k]));
                let info = token.infos[id as int];
                assert(info.state == GcState::Marked || info.state == GcState::Unmarked);
            }
        }
    }
}

/// Reporting weak handles of the busy object, one after the other, keeps the
/// invariant of the trace, and costs no effort.
pub proof fn lemma_trace_accept_all<T: GcTarget>(
    heap: GcHeap<T>,
    base: Seq<GcInfo>,
    token: GcTraceView,
    work: Seq<usize>,
    busy: usize,
    ids: Seq<usize>,
)
    requires
        heap.shape(),
        tracing(heap, base, token, work, Some(busy), Seq::empty()),
        forall|i: int|
            0 <= i < ids.len() ==> handles_of(heap.values[busy as int], false).contains(
                #[trigger] ids[i],
            ),
    ensures
        tracing(heap, base, token.accept_all(ids), queued(token, work, ids), Some(busy), ids),
        effort(token.accept_all(ids), heap.order, queued(token, work, ids)) <= effort(
            token,
            heap.order,
            work,
        ),
    decreases ids.len(),
{
    if ids.len() == 0 {
        assert(ids =~= Seq::<usize>::empty());
    } else {
        let front = ids.drop_last();
        assert forall|i: int| 0 <= i < front.len() implies handles_of(
            heap.values[busy as int],
            false,
        ).contains(#[trigger] front[i]) by {
            assert(front[i] == ids[i]);
        }
        lemma_trace_accept_all(heap, base, token, work, busy, front);
        assert(handles_of(heap.values[busy as int], false).contains(ids[ids.len() - 1]));
        lemma_trace_accept(
            heap,
            base,
            token.accept_all(front),
            queued(token, work, front),
            busy,
            front,
            ids.last(),
        );
        assert(front.push(ids.last()) =~= ids);
    }
}

/// Once the busy object has reported all its weak handles, it is done.
pub proof fn lemma_trace_done<T: GcTarget>(
    heap: GcHeap<T>,
    base: Seq<GcInfo>,
    token: GcTraceView,
    work: Seq<usize>,
    busy: usize,
)
    requires
        tracing(
            heap,
            base,
            token,
            work,
            Some(busy),
            handles_of(heap.values[busy as int], false),
        ),
    ensures
        tracing(heap, base, token, work, None, Seq::empty()),
{
    let done = handles_of(heap.values[busy as int], false);
    assert forall|a: usize, b: usize|
        #![trigger heap.edge(a, b)]
        heap.edge(a, b) && is_marked(token.infos, a) && !work.contains(a) implies is_marked(
        token.infos,
        b,
    ) by {
        if a == busy {
            let i = choose|i: int| 0 <= i < done.len() && done[i] == b;
            assert(heap.order.contains(done[i]));
        }
    }
}

/// With an empty worklist, every object on a path is marked.
pub proof fn lemma_trace_path<T: GcTarget>(
    heap: GcHeap<T>,
    base: Seq<GcInfo>,
    token: GcTraceView,
    path: Seq<usize>,
)
    requires
        heap.shape(),
        tracing(heap, base, token, Seq::empty(), None, Seq::empty()),
        heap.is_path(path),
    ensures
        is_marked(token.infos, path.last()),
    decreases path.len(),
{
    if path.len() == 1 {
        let x = path[0];
        let k = choose|k: int| 0 <= k < heap.order.len() && heap.order[k] == x;
        assert(heap.is_object(heap.order[k]));
        let info = token.infos[x as int];
        assert(base[x as int].cell() == heap.cells[x as int]);
        assert(info.root > 0);
    } else {
        let shorter = path.drop_last();
        assert forall|i: int| 0 <= i < shorter.len() - 1 implies heap.edge(
            #[trigger] shorter[i],
            shorter[i + 1],
        ) by {
            assert(heap.edge(path[i], path[i + 1]));
        }
        assert(heap.is_path(shorter));
        lemma_trace_path(heap, base, token, shorter);
        let a = path[path.len() - 2];
        let b = path[path.len() - 2 + 1];
        assert(heap.edge(a, b));
        assert(shorter.last() == a);
        assert(!Seq::<usize>::empty().contains(a));
    }
}

/// With an empty worklist the marked objects are those that can be reached.
pub proof fn lemma_trace_complete<T: GcTarget>(
    heap: GcHeap<T>,
    base: Seq<GcInfo>,
    token: GcTraceView,
    id: usize,
)
    requires
        heap.shape(),
        tracing(heap, base, token, Seq::empty(), None, Seq::empty()),
    ensures
        is_marked(token.infos, id) <==> heap.reachable(id),
{
    if is_marked(token.infos, id) {
        let info = token.infos[id as int];
        assert(heap.reachable(id));
    }
    if heap.reachable(id) {
        let path = choose|path: Seq<usize>| #[trigger] heap.is_path(path) && path.last() == id;
        lemma_trace_path(heap, base, token, path);
    }
}

/// What `token` holds.
pub open spec fn seen(head: Option<usize>, infos: Seq<GcInfo>) -> GcTraceView {
    GcTraceView { head, infos }
}

/// The invariant of the first pass, with `ahead` objects of the registry not
/// yet looked at: they are untouched, and each of the others is marked and
/// queued if it has a strong handle and unmarked if it has none.
pub open spec fn marking<T: GcTarget>(
    heap: GcHeap<T>,
    base: Seq<GcInfo>,
    token: GcTraceView,
    work: Seq<usize>,
    ahead: int,
) -> bool {
    let order = heap.order;
    &&& base.len() == heap.cells.len()
    &&& base.len() <= usize::MAX
    &&& forall|i: int| 0 <= i < base.len() ==> (#[trigger] base[i]).cell() == heap.cells[i]
    &&& detached(base, order)
    &&& 0 <= ahead <= order.len()
    &&& token.infos.len() == base.len()
    &&& stacked(token, work)
    &&& forall|i: int|
        0 <= i < base.len() ==> {
            let info = #[trigger] token.infos[i];
            &&& info.root == base[i].root
            &&& info.count == base[i].count
            &&& info.prev == base[i].prev
            &&& !order.contains(i as usize) ==> info == base[i]
        }
    &&& forall|k: int|
        0 <= k < order.len() ==> {
            let info = #[trigger] token.infos[order[k] as int];
            if k < ahead {
                info == base[order[k] as int]
            } else {
                &&& info.state == if info.root > 0 {
                    GcState::Marked
                } else {
                    GcState::Unmarked
                }
                &&& info.state == GcState::Marked ==> work.contains(order[k])
            }
        }
}

/// The token after the first pass has looked at the header at `node`.
pub open spec fn mark_one(token: GcTraceView, node: usize) -> GcTraceView {
    let info = token.infos[node as int];
    if info.root != 0 {
        GcTraceView {
            head: Some(node),
            infos: token.infos.update(
                node as int,
                GcInfo { state: GcState::Marked, next: token.head, ..info },
            ),
        }
    } else {
        GcTraceView {
            head: token.head,
            infos: token.infos.update(node as int, GcInfo { state: GcState::Unmarked, ..info }),
        }
    }
}

/// One step of the first pass.
pub proof fn lemma_mark_step<T: GcTarget>(
    heap: GcHeap<T>,
    base: Seq<GcInfo>,
    token: GcTraceView,
    work: Seq<usize>,
    ahead: int,
)
    requires
        heap.shape(),
        marking(heap, base, token, work, ahead),
        ahead > 0,
    ensures
        heap.order[ahead - 1] < base.len(),
        token.infos[heap.order[ahead - 1] as int].prev == if ahead == 1 {
            None
        } else {
            Some(heap.order[ahead - 2])
        },
        marking(
            heap,
            base,
            mark_one(token, heap.order[ahead - 1]),
            if token.infos[heap.order[ahead - 1] as int].root != 0 {
                work.push(heap.order[ahead - 1])
            } else {
                work
            },
            ahead - 1,
        ),
{
    let order = heap.order;
    let node = order[ahead - 1];
    let before = token.infos;
    let after = mark_one(token, node);
    let queue = if before[node as int].root != 0 {
        work.push(node)
    } else {
        work
    };
    assert(before[order[ahead - 1] as int] == base[order[ahead - 1] as int]);
    assert(base[order[ahead - 1] as int].prev == if ahead == 1 {
        None
    } else {
        Some(order[ahead - 2])
    });
    assert(base[node as int].cell() == heap.cells[node as int]);
    lemma_index_of(order, ahead - 1);
    assert(heap.is_object(node));
    assert(heap.cells[node as int].state == GcState::Active);
    assert(!work.contains(node)) by {
        if work.contains(node) {
            let i = choose|i: int| 0 <= i < work.len() && work[i] == node;
            assert(is_marked(before, work[i]));
        }
    }
    assert(queue.no_duplicates());
    assert forall|i: int| 0 <= i < queue.len() implies {
        &&& is_marked(after.infos, #[trigger] queue[i])
        &&& after.infos[queue[i] as int].next == if i == 0 {
            None
        } else {
            Some(queue[i - 1])
        }
    } by {
        if i < work.len() {
            assert(queue[i] == work[i]);
            assert(is_marked(before, work[i]));
        }
    }
    assert forall|k: int| 0 <= k < order.len() implies {
        let info = #[trigger] after.infos[order[k] as int];
        if k < ahead - 1 {
            info == base[order[k] as int]
        } else {
            &&& info.state == if info.root > 0 {
                GcState::Marked
            } else {
                GcState::Unmarked
            }
            &&& info.state == GcState::Marked ==> queue.contains(order[k])
        }
    } by {
        let was = before[order[k] as int];
        if k != ahead - 1 {
            assert(order[k] != node);
            if k >= ahead && was.state == GcState::Marked {
                let i = choose|i: int| 0 <= i < work.len() && work[i] == order[k];
                assert(queue[i] == order[k]);
            }
        } else {
            if after.infos[node as int].state == GcState::Marked {
                assert(queue[queue.len() - 1] == node);
            }
        }
    }
}

/// When the first pass has looked at every object, the trace can begin.
pub proof fn lemma_mark_done<T: GcTarget>(
    heap: GcHeap<T>,
    base: Seq<GcInfo>,
    token: GcTraceView,
    work: Seq<usize>,
)
    requires
        heap.shape(),
        marking(heap, base, token, work, 0),
    ensures
        tracing(heap, base, token, work, None, Seq::empty()),
{
    let order = heap.order;
    assert forall|i: int| 0 <= i < token.infos.len() implies {
        let info = #[trigger] token.infos[i];
        &&& if heap.order.contains(i as usize) {
            info.state == GcState::Marked || info.state == GcState::Unmarked
        } else {
            info == base[i] && info.state != GcState::Unmarked
        }
        &&& info.root > 0 && heap.order.contains(i as usize) ==> info.state == GcState::Marked
        &&& info.state == GcState::Marked ==> heap.reachable(i as usize)
    } by {
        let info = token.infos[i];
        assert(base[i].cell() == heap.cells[i]);
        if order.contains(i as usize) {
            let k = choose|k: int| 0 <= k < order.len() && order[k] == i as usize;
            let at = token.infos[order[k] as int];
            if info.state == GcState::Marked {
                heap.lemma_root_reachable(i as usize);
            }
        } else {
            if i >= 2 {
                assert(heap.is_object(i as usize));
                let cell = heap.cells[i];
                assert(cell.state == GcState::Active || cell.state == GcState::Dropped);
            }
        }
    }
    assert forall|a: usize, b: usize|
        #![trigger heap.edge(a, b)]
        heap.edge(a, b) && is_marked(token.infos, a) && !work.contains(a) implies is_marked(
        token.infos,
        b,
    ) by {
        let k = choose|k: int| 0 <= k < order.len() && order[k] == a;
        let at = token.infos[order[k] as int];
    }
}

/// The first pass of a sweep, over the list that `iter` walks: an object
/// with a strong handle is marked and queued, any other is set to unmarked.
/// Returns the worklist.
pub(crate) fn mark<T: GcTarget>(
    token: &mut GcTraceToken,
    iter: GcNodeBackIter,
    Ghost(heap): Ghost<GcHeap<T>>,
) -> (work: Ghost<Seq<usize>>)
    requires
        heap.shape(),
        old(token).head is None,
        old(token).infos@.len() == heap.cells.len(),
        forall|i: int|
            0 <= i < heap.cells.len() ==> (#[trigger] old(token).infos@[i]).cell() == heap.cells[i],
        detached(old(token).infos@, heap.order),
        iter.node == if heap.order.len() == 0 {
            None
        } else {
            Some(heap.order.last())
        },
    ensures
        tracing(
            heap,
            old(token).infos@,
            seen(final(token).head, final(token).infos@),
            work@,
            None,
            Seq::empty(),
        ),
{
    let ghost base = token.infos@;
    let ghost mut ahead: int = heap.order.len() as int;
    let ghost mut work: Seq<usize> = Seq::empty();
    let mut iter = iter;
    let total = token.infos.len();
    assert(base.len() == total);
    while !iter.is_empty()
        invariant
            heap.shape(),
            marking(heap, base, seen(token.head, token.infos@), work, ahead),
            iter.node == if ahead == 0 {
                None
            } else {
                Some(heap.order[ahead - 1])
            },
        decreases ahead,
    {
        let ghost before = seen(token.head, token.infos@);
        proof {
            lemma_mark_step(heap, base, before, work, ahead);
        }
        let node = iter.next(&token.infos).unwrap();
        if token.infos[node].root != 0 {
            token.infos[node].state = GcState::Marked;
            token.push(node);
            proof {
                work = work.push(node);
            }
        } else {
            token.infos[node].state = GcState::Unmarked;
        }
        proof {
            assert(token.infos@ =~= mark_one(before, node).infos);
            ahead = ahead - 1;
        }
    }
    proof {
        lemma_mark_done(heap, base, seen(token.head, token.infos@), work);
    }
    Ghost(work)
}

/// The second pass of a sweep: works the worklist off. Each object taken off
/// the list has its payload traced, which marks and queues what it refers to
/// and what was not marked yet.
pub(crate) fn trace_all<T: GcTarget>(
    token: &mut GcTraceToken,
    values: &GcSlots<T>,
    Ghost(heap): Ghost<GcHeap<T>>,
    Ghost(base): Ghost<Seq<GcInfo>>,
    Ghost(work): Ghost<Seq<usize>>,
)
    requires
        heap.shape(),
        values@ == heap.values,
        tracing(heap, base, seen(old(token).head, old(token).infos@), work, None, Seq::empty()),
    ensures
        tracing(
            heap,
            base,
            seen(final(token).head, final(token).infos@),
            Seq::empty(),
            None,
            Seq::empty(),
        ),
{
    let ghost mut work = work;
    loop
        invariant
            heap.shape(),
            values@ == heap.values,
            tracing(heap, base, seen(token.head, token.infos@), work, None, Seq::empty()),
        ensures
            tracing(heap, base, seen(token.head, token.infos@), Seq::empty(), None, Seq::empty()),
        decreases effort(seen(token.head, token.infos@), heap.order, work),
    {
        let ghost before = seen(token.head, token.infos@);
        proof {
            if work.len() > 0 {
                assert(is_marked(before.infos, work[work.len() - 1]));
            }
        }
        let node = match token.pop() {
            Some(node) => node,
            None => {
                proof {
                    assert(work =~= Seq::<usize>::empty());
                }
                break ;
            },
        };
        let ghost taken = seen(token.head, token.infos@);
        proof {
            assert(taken == popped(before));
            lemma_trace_pop(heap, base, before, work);
            work = work.drop_last();
            let k = choose|k: int| 0 <= k < heap.order.len() && heap.order[k] == node;
            assert(heap.is_object(heap.order[k]));
            let cell = heap.cells[node as int];
            assert(values@[node as int] is Some);
            token.lemma_view();
        }
        match values.get(node) {
            Some(value) => {
                value.trace(token);
                proof {
                    token.lemma_view();
                    let ids = value.objects();
                    assert(ids == handles_of(heap.values[node as int], false));
                    assert forall|i: int| 0 <= i < ids.len() implies handles_of(
                        heap.values[node as int],
                        false,
                    ).contains(#[trigger] ids[i]) by {}
                    lemma_trace_accept_all(heap, base, taken, work, node, ids);
                    lemma_trace_done(
                        heap,
                        base,
                        taken.accept_all(ids),
                        queued(taken, work, ids),
                        node,
                    );
                    work = queued(taken, work, ids);
                }
            },
            // Only objects of the registry are queued, and their payloads are
            // alive.
            None => {},
        }
    }
}

impl<T: GcTarget> GcContext<T> {
    /// Runs a sweep, unless one is under way.
    ///
    /// The sweep takes every object out of the registry, marks those that
    /// have a strong handle, follows the weak handles that the payloads of
    /// marked objects report until nothing new is marked, and then walks the
    /// list once: marked objects go back into the registry in their old
    /// order, the payloads of the others are destroyed. Last, the handles
    /// that the destroyed payloads stored are released.
    pub fn gc(&mut self)
        requires
            old(self).wf(),
        ensures
            final(self).wf(),
            final(self)@ == old(self)@.gc(),
    {
        match self.state {
            GcContextState::Normal => {
                let ghost heap = self@;
                let ghost linked_infos = self.infos@;
                proof {
                    self.lemma_inside();
                }
                self.state = GcContextState::Gc;
                let iter = GcNodeBackIter::steal(&mut self.infos, Ghost(self.order@));
                if iter.is_empty() {
                    proof {
                        self.lemma_inside();
                        heap.lemma_sweep_empty();
                        assert(self.order@ =~= Seq::<usize>::empty());
                        assert(cells_of(self.infos@) =~= heap.cells) by {
                            assert forall|i: int| 0 <= i < heap.cells.len() implies cells_of(
                                self.infos@,
                            )[i] == heap.cells[i] by {
                                assert(linked_infos[i].cell() == self.infos@[i].cell());
                            }
                        }
                    }
                    self.state = GcContextState::Normal;
                    proof {
                        self.lemma_inside();
                    }
                    return ;
                }
                let ghost base = self.infos@;
                let total = self.infos.len();
                assert(base.len() == total);
                let mut infos: Vec<GcInfo> = Vec::new();
                std::mem::swap(&mut self.infos, &mut infos);
                let mut token = GcTraceToken::new(infos);
                proof {
                    assert forall|i: int| 0 <= i < heap.cells.len() implies (
                    #[trigger] token.infos@[i]).cell() == heap.cells[i] by {
                        assert(linked_infos[i].cell() == base[i].cell());
                    }
                }
                let work = mark::<T>(&mut token, iter.clone(), Ghost(heap));
                trace_all(&mut token, &self.values, Ghost(heap), Ghost(base), work);
                std::mem::swap(&mut self.infos, &mut token.infos);
                proof {
                    lemma_reclaim_begin(heap, base, seen(token.head, self.infos@));
                }
                let bin = self.reclaim(iter, Ghost(heap));
                self.drain(bin, Ghost(heap));
                self.state = GcContextState::Normal;
                proof {
                    self.lemma_inside();
                    heap.lemma_sweep_wf();
                    assert(self@ == heap.sweep());
                }
            },
            GcContextState::Gc => {
                proof {
                    self.lemma_inside();
                }
            },
        }
    }
}

} // verus!
