//! The intrusive registry: a doubly linked list of headers between two
//! sentinels, threaded through the `next` and `prev` links of the headers.

use vstd::prelude::*;
use crate::header::GcInfo;

verus! {

/// Address of the sentinel at the front of the registry.
pub const HEAD: usize = 0;

/// Address of the sentinel at the back of the registry.
pub const TAIL: usize = 1;

/// Every address in `order` is that of an object, and none occurs twice.
pub open spec fn addresses(infos: Seq<GcInfo>, order: Seq<usize>) -> bool {
    &&& infos.len() >= 2
    &&& order.no_duplicates()
    &&& forall|k: int| 0 <= k < order.len() ==> 2 <= #[trigger] order[k] < infos.len()
}

/// The address before position `k` of `order`: the front sentinel for the
/// first position.
pub open spec fn before(order: Seq<usize>, k: int) -> usize {
    if k == 0 {
        HEAD
    } else {
        order[k - 1]
    }
}

/// The address after position `k` of `order`: the back sentinel for the last
/// position.
pub open spec fn after(order: Seq<usize>, k: int) -> usize {
    if k == order.len() - 1 {
        TAIL
    } else {
        order[k + 1]
    }
}

/// The links of `infos` spell the list: front sentinel, `order`, back sentinel.
pub open spec fn linked(infos: Seq<GcInfo>, order: Seq<usize>) -> bool {
    &&& addresses(infos, order)
    &&& infos[HEAD as int].next == Some(after(order, -1))
    &&& infos[TAIL as int].prev == Some(before(order, order.len() as int))
    &&& forall|k: int|
        0 <= k < order.len() ==> {
            let info = #[trigger] infos[order[k] as int];
            &&& info.prev == Some(before(order, k))
            &&& info.next == Some(after(order, k))
        }
}

/// The `prev` links of `infos` spell `order` backwards, down to a header
/// without a predecessor: the shape of a list that was taken out of the
/// registry.
pub open spec fn detached(infos: Seq<GcInfo>, order: Seq<usize>) -> bool {
    &&& addresses(infos, order)
    &&& forall|k: int|
        0 <= k < order.len() ==> (#[trigger] infos[order[k] as int]).prev == if k == 0 {
            None
        } else {
            Some(order[k - 1])
        }
}

/// Two header tables agree on states and counters.
pub open spec fn same_cells(a: Seq<GcInfo>, b: Seq<GcInfo>) -> bool {
    &&& a.len() == b.len()
    &&& forall|i: int| 0 <= i < a.len() ==> (#[trigger] a[i]).cell() == b[i].cell()
}

/// In a list without repetitions, an address is found where it stands.
pub proof fn lemma_index_of(order: Seq<usize>, k: int)
    requires
        order.no_duplicates(),
        0 <= k < order.len(),
    ensures
        order.index_of(order[k]) == k,
        order.contains(order[k]),
{
    let j = order.index_of(order[k]);
    assert(0 <= j < order.len() && order[j] == order[k]);
}

/// Taking one address out of a list without repetitions takes out exactly
/// that address.
pub proof fn lemma_remove(order: Seq<usize>, k: int)
    requires
        order.no_duplicates(),
        0 <= k < order.len(),
    ensures
        order.remove(k).no_duplicates(),
        order.remove(k).len() == order.len() - 1,
        forall|x: usize| #[trigger]
            order.remove(k).contains(x) <==> order.contains(x) && x != order[k],
{
    let rest = order.remove(k);
    assert forall|i: int, j: int|
        0 <= i < rest.len() && 0 <= j < rest.len() && i != j implies rest[i] != rest[j] by {
        let oi = if i < k { i } else { i + 1 };
        let oj = if j < k { j } else { j + 1 };
        assert(rest[i] == order[oi] && rest[j] == order[oj]);
    }
    assert forall|x: usize| #[trigger] rest.contains(x) <==> order.contains(x) && x != order[k] by {
        if rest.contains(x) {
            let i = choose|i: int| 0 <= i < rest.len() && rest[i] == x;
            let oi = if i < k { i } else { i + 1 };
            assert(order[oi] == x);
        }
        if order.contains(x) && x != order[k] {
            let oi = choose|i: int| 0 <= i < order.len() && order[i] == x;
            let i = if oi < k { oi } else { oi - 1 };
            assert(rest[i] == x);
        }
    }
}

/// A list of addresses below `bound` without repetitions is not longer than
/// `bound`.
pub proof fn lemma_bounded(order: Seq<usize>, bound: nat)
    requires
        order.no_duplicates(),
        forall|k: int| 0 <= k < order.len() ==> #[trigger] order[k] < bound,
        bound <= usize::MAX,
    ensures
        order.len() <= bound,
    decreases bound,
{
    if order.len() > 0 {
        assert(order[0] < bound);
        let top = (bound - 1) as usize;
        if order.contains(top) {
            let k = order.index_of(top);
            lemma_remove(order, k);
            let rest = order.remove(k);
            assert forall|i: int| 0 <= i < rest.len() implies #[trigger] rest[i] < bound - 1 by {
                assert(rest.contains(rest[i]));
                let j = choose|j: int| 0 <= j < order.len() && order[j] == rest[i];
            }
            lemma_bounded(rest, (bound - 1) as nat);
        } else {
            assert forall|i: int| 0 <= i < order.len() implies #[trigger] order[i] < bound - 1 by {
                assert(order.contains(order[i]));
            }
            lemma_bounded(order, (bound - 1) as nat);
        }
    }
}

/// Inserts the unlinked header `node` just before the back sentinel.
pub(crate) fn append(infos: &mut Vec<GcInfo>, node: usize, Ghost(order): Ghost<Seq<usize>>)
    requires
        linked(old(infos)@, order),
        2 <= node < old(infos)@.len(),
        !order.contains(node),
    ensures
        linked(final(infos)@, order.push(node)),
        same_cells(old(infos)@, final(infos)@),
{
    let prev = infos[TAIL].prev;
    let last = prev.unwrap();
    assert(last == before(order, order.len() as int));
    assert(last != node) by {
        if order.len() > 0 {
            assert(order[order.len() - 1] == last);
        }
    }
    infos[node].prev = prev;
    infos[node].next = Some(TAIL);
    infos[last].next = Some(node);
    infos[TAIL].prev = Some(node);
    proof {
        let grown = order.push(node);
        assert(grown.no_duplicates());
        assert forall|k: int| 0 <= k < grown.len() implies {
            let info = #[trigger] infos@[grown[k] as int];
            &&& info.prev == Some(before(grown, k))
            &&& info.next == Some(after(grown, k))
        } by {
            if k < order.len() {
                assert(grown[k] == order[k]);
                let info = old(infos)@[order[k] as int];
                assert(info.prev == Some(before(order, k)));
            }
        }
    }
}

/// Splices the linked header `node` out of the registry.
pub(crate) fn remove(infos: &mut Vec<GcInfo>, node: usize, Ghost(order): Ghost<Seq<usize>>)
    requires
        linked(old(infos)@, order),
        order.contains(node),
    ensures
        linked(final(infos)@, order.remove(order.index_of(node))),
        same_cells(old(infos)@, final(infos)@),
{
    let ghost k = order.index_of(node);
    assert(0 <= k < order.len() && order[k] == node);
    let ghost at = old(infos)@[order[k] as int];
    assert(at.prev == Some(before(order, k)));
    let prev = infos[node].prev;
    let next = infos[node].next;
    let p = prev.unwrap();
    let n = next.unwrap();
    infos[p].next = next;
    infos[n].prev = prev;
    proof {
        let rest = order.remove(k);
        lemma_remove(order, k);
        assert forall|i: int| 0 <= i < rest.len() implies 2 <= #[trigger] rest[i]
            < infos@.len() by {
            let oi = if i < k {
                i
            } else {
                i + 1
            };
            assert(rest[i] == order[oi]);
        }
        assert forall|i: int| 0 <= i < rest.len() implies {
            let info = #[trigger] infos@[rest[i] as int];
            &&& info.prev == Some(before(rest, i))
            &&& info.next == Some(after(rest, i))
        } by {
            let oi = if i < k { i } else { i + 1 };
            assert(rest[i] == order[oi]);
            let info = old(infos)@[order[oi] as int];
            assert(info.prev == Some(before(order, oi)));
            assert(order[oi] != node);
            if oi > 0 {
                assert(order[oi - 1] == before(order, oi));
            }
            if oi < order.len() - 1 {
                assert(order[oi + 1] == after(order, oi));
            }
        }
        if k > 0 {
            assert(order[k - 1] == p);
        }
        if k < order.len() - 1 {
            assert(order[k + 1] == n);
        }
    }
}

/// A walk over a list that was taken out of the registry, newest header
/// first.
pub struct GcNodeBackIter {
    pub(crate) node: Option<usize>,
}

impl GcNodeBackIter {
    /// A second walk from the same position.
    pub(crate) fn clone(&self) -> (r: Self)
        ensures
            r.node == self.node,
    {
        Self { node: self.node }
    }

    /// Takes every header out of the registry at once and returns a walk
    /// over them. The registry is left empty; the headers keep their `prev`
    /// links, the oldest one without a predecessor.
    pub(crate) fn steal(infos: &mut Vec<GcInfo>, Ghost(order): Ghost<Seq<usize>>) -> (r: Self)
        requires
            linked(old(infos)@, order),
        ensures
            linked(final(infos)@, Seq::empty()),
            detached(final(infos)@, order),
            same_cells(old(infos)@, final(infos)@),
            r.node == if order.len() == 0 {
                None
            } else {
                Some(order.last())
            },
    {
        let left = infos[HEAD].next;
        let right = infos[TAIL].prev;
        if left == Some(TAIL) {
            proof {
                if order.len() > 0 {
                    assert(order[0] == TAIL);
                }
            }
            return Self { node: None };
        }
        proof {
            if order.len() == 0 {
                assert(left == Some(TAIL));
            }
            assert(order[0] == left.unwrap());
            assert(order[order.len() - 1] == right.unwrap());
            let first = old(infos)@[order[0] as int];
            assert(first.prev == Some(before(order, 0)));
        }
        infos[HEAD].next = Some(TAIL);
        infos[TAIL].prev = Some(HEAD);
        let first = left.unwrap();
        let last = right.unwrap();
        infos[first].prev = None;
        infos[last].next = None;
        proof {
            assert forall|k: int| 0 <= k < order.len() implies (
            #[trigger] infos@[order[k] as int]).prev == if k == 0 {
                None
            } else {
                Some(order[k - 1])
            } by {
                let info = old(infos)@[order[k] as int];
                assert(info.prev == Some(before(order, k)));
                if k > 0 {
                    assert(order[k] != order[0]);
                }
            }
        }
        Self { node: right }
    }

    /// The walk has no header left.
    pub(crate) fn is_empty(&self) -> (r: bool)
        ensures
            r == (self.node is None),
    {
        self.node.is_none()
    }

    /// The header at the walk's position; the walk moves on to its
    /// predecessor.
    pub(crate) fn next(&mut self, infos: &Vec<GcInfo>) -> (r: Option<usize>)
        requires
            old(self).node matches Some(n) ==> n < infos@.len(),
        ensures
            r == old(self).node,
            final(self).node == match old(self).node {
                Some(n) => infos@[n as int].prev,
                None => None,
            },
    {
        let current = self.node;
        if let Some(current) = current {
            self.node = infos[current].prev;
        }
        current
    }
}

} // verus!
