//! Counting handles and selecting addresses: what the collector's model is
//! stated with.

use vstd::prelude::*;
use crate::target::GcTarget;

verus! {

/// How often `id` occurs in `s`.
pub open spec fn occurrences(s: Seq<usize>, id: usize) -> nat
    decreases s.len(),
{
    if s.len() == 0 {
        0
    } else {
        occurrences(s.drop_last(), id) + if s.last() == id {
            1nat
        } else {
            0nat
        }
    }
}

/// The targets of the strong (or weak) handles stored in a payload slot.
pub open spec fn handles_of<T: GcTarget>(value: Option<T>, strong: bool) -> Seq<usize> {
    match value {
        Some(v) => if strong {
            v.roots()
        } else {
            v.objects()
        },
        None => Seq::empty(),
    }
}

/// How many strong (or weak) handles to `id` the payloads in `values` store.
pub open spec fn held<T: GcTarget>(values: Seq<Option<T>>, strong: bool, id: usize) -> nat
    decreases values.len(),
{
    if values.len() == 0 {
        0
    } else {
        held(values.drop_last(), strong, id) + occurrences(handles_of(values.last(), strong), id)
    }
}

/// The elements of `s` that satisfy `keep`, in their order.
pub open spec fn retained(s: Seq<usize>, keep: spec_fn(usize) -> bool) -> Seq<usize>
    decreases s.len(),
{
    if s.len() == 0 {
        Seq::empty()
    } else if keep(s[0]) {
        seq![s[0]] + retained(s.skip(1), keep)
    } else {
        retained(s.skip(1), keep)
    }
}

/// The elements of `s` that satisfy `gone`, last first.
pub open spec fn buried(s: Seq<usize>, gone: spec_fn(usize) -> bool) -> Seq<usize>
    decreases s.len(),
{
    if s.len() == 0 {
        Seq::empty()
    } else if gone(s[0]) {
        buried(s.skip(1), gone).push(s[0])
    } else {
        buried(s.skip(1), gone)
    }
}

/// One more element is one more occurrence of it, and of nothing else.
pub proof fn lemma_occurrences_push(s: Seq<usize>, x: usize, id: usize)
    ensures
        occurrences(s.push(x), id) == occurrences(s, id) + if x == id {
            1nat
        } else {
            0nat
        },
{
    assert(s.push(x).drop_last() =~= s);
}

/// The occurrences in a concatenation are those in its parts.
pub proof fn lemma_occurrences_concat(a: Seq<usize>, b: Seq<usize>, id: usize)
    ensures
        occurrences(a + b, id) == occurrences(a, id) + occurrences(b, id),
    decreases b.len(),
{
    if b.len() == 0 {
        assert(a + b =~= a);
    } else {
        lemma_occurrences_concat(a, b.drop_last(), id);
        assert((a + b).drop_last() =~= a + b.drop_last());
    }
}

/// An address that occurs in a sequence is an element of it.
pub proof fn lemma_occurrences_contains(s: Seq<usize>, id: usize)
    ensures
        occurrences(s, id) > 0 <==> s.contains(id),
    decreases s.len(),
{
    if s.len() > 0 {
        lemma_occurrences_contains(s.drop_last(), id);
        if s.contains(id) {
            let i = choose|i: int| 0 <= i < s.len() && s[i] == id;
            if i < s.len() - 1 {
                assert(s.drop_last()[i] == id);
            }
        }
        if s.drop_last().contains(id) {
            let i = choose|i: int| 0 <= i < s.drop_last().len() && s.drop_last()[i] == id;
            assert(s[i] == id);
        }
    }
}

/// One more payload slot adds the handles that it stores.
pub proof fn lemma_held_push<T: GcTarget>(
    values: Seq<Option<T>>,
    value: Option<T>,
    strong: bool,
    id: usize,
)
    ensures
        held(values.push(value), strong, id) == held(values, strong, id) + occurrences(
            handles_of(value, strong),
            id,
        ),
{
    assert(values.push(value).drop_last() =~= values);
}

/// Payload slots that are all empty store no handle.
pub proof fn lemma_held_none<T: GcTarget>(values: Seq<Option<T>>)
    requires
        forall|i: int| 0 <= i < values.len() ==> values[i] is None,
    ensures
        forall|strong: bool, id: usize| #[trigger] held(values, strong, id) == 0,
    decreases values.len(),
{
    if values.len() > 0 {
        lemma_held_none(values.drop_last());
        assert forall|strong: bool, id: usize| #[trigger] held(values, strong, id) == 0 by {
            assert(held(values.drop_last(), strong, id) == 0);
            assert(handles_of(values.last(), strong) =~= Seq::<usize>::empty());
        }
    }
}

/// Replacing one payload takes its handles out of the total and puts those of
/// the new payload in.
pub proof fn lemma_held_update<T: GcTarget>(
    values: Seq<Option<T>>,
    i: int,
    value: Option<T>,
    strong: bool,
    id: usize,
)
    requires
        0 <= i < values.len(),
    ensures
        held(values.update(i, value), strong, id) + occurrences(handles_of(values[i], strong), id)
            == held(values, strong, id) + occurrences(handles_of(value, strong), id),
    decreases values.len(),
{
    let updated = values.update(i, value);
    if i == values.len() - 1 {
        assert(updated.drop_last() =~= values.drop_last());
    } else {
        lemma_held_update(values.drop_last(), i, value, strong, id);
        assert(updated.drop_last() =~= values.drop_last().update(i, value));
    }
}

/// A handle that is counted as held is stored in some payload.
pub proof fn lemma_held_witness<T: GcTarget>(values: Seq<Option<T>>, strong: bool, id: usize) -> (i:
    int)
    requires
        held(values, strong, id) > 0,
    ensures
        0 <= i < values.len(),
        handles_of(values[i], strong).contains(id),
    decreases values.len(),
{
    if occurrences(handles_of(values.last(), strong), id) > 0 {
        lemma_occurrences_contains(handles_of(values.last(), strong), id);
        values.len() - 1
    } else {
        lemma_held_witness(values.drop_last(), strong, id)
    }
}

/// Emptying payload slots takes handles out of the total and puts none in.
pub proof fn lemma_held_fewer<T: GcTarget>(
    values: Seq<Option<T>>,
    fewer: Seq<Option<T>>,
    strong: bool,
    id: usize,
)
    requires
        fewer.len() == values.len(),
        forall|i: int|
            0 <= i < values.len() ==> fewer[i] is None || #[trigger] fewer[i] == values[i],
    ensures
        held(fewer, strong, id) <= held(values, strong, id),
    decreases values.len(),
{
    if values.len() > 0 {
        assert forall|i: int| 0 <= i < values.drop_last().len() implies fewer.drop_last()[i] is None
            || #[trigger] fewer.drop_last()[i] == values.drop_last()[i] by {
            assert(fewer[i] is None || fewer[i] == values[i]);
        }
        lemma_held_fewer(values.drop_last(), fewer.drop_last(), strong, id);
        let last = fewer.len() - 1;
        assert(fewer[last] is None || fewer[last] == values[last]);
        if fewer.last() is None {
            assert(handles_of(fewer.last(), strong) =~= Seq::<usize>::empty());
        }
    }
}

/// Payload slots that store the same handles, slot by slot, store the same
/// in total.
pub proof fn lemma_held_same<T: GcTarget>(
    values: Seq<Option<T>>,
    other: Seq<Option<T>>,
    strong: bool,
    id: usize,
)
    requires
        other.len() == values.len(),
        forall|i: int|
            0 <= i < values.len() ==> #[trigger] handles_of(other[i], strong) == handles_of(
                values[i],
                strong,
            ),
    ensures
        held(other, strong, id) == held(values, strong, id),
    decreases values.len(),
{
    if values.len() > 0 {
        assert forall|i: int| 0 <= i < values.drop_last().len() implies #[trigger] handles_of(
            other.drop_last()[i],
            strong,
        ) == handles_of(values.drop_last()[i], strong) by {
            assert(handles_of(other[i], strong) == handles_of(values[i], strong));
        }
        lemma_held_same(values.drop_last(), other.drop_last(), strong, id);
        assert(handles_of(other[other.len() - 1], strong) == handles_of(
            values[values.len() - 1],
            strong,
        ));
    }
}

/// Payloads that store no handles of a kind store none in total.
pub proof fn lemma_held_plain<T: GcTarget>(values: Seq<Option<T>>, strong: bool, id: usize)
    requires
        forall|i: int|
            0 <= i < values.len() ==> (#[trigger] handles_of(values[i], strong)).len() == 0,
    ensures
        held(values, strong, id) == 0,
    decreases values.len(),
{
    if values.len() > 0 {
        assert forall|i: int| 0 <= i < values.drop_last().len() implies (#[trigger] handles_of(
            values.drop_last()[i],
            strong,
        )).len() == 0 by {
            assert(handles_of(values[i], strong).len() == 0);
        }
        lemma_held_plain(values.drop_last(), strong, id);
        assert(handles_of(values[values.len() - 1], strong).len() == 0);
    }
}

/// What `retained` keeps: the elements that satisfy `keep`, none of them
/// twice if none was there twice.
pub proof fn lemma_retained(s: Seq<usize>, keep: spec_fn(usize) -> bool)
    ensures
        forall|x: usize| #[trigger] retained(s, keep).contains(x) <==> s.contains(x) && keep(x),
        s.no_duplicates() ==> retained(s, keep).no_duplicates(),
        retained(s, keep).len() <= s.len(),
    decreases s.len(),
{
    if s.len() > 0 {
        let rest = s.skip(1);
        let kept = retained(rest, keep);
        let all = retained(s, keep);
        lemma_retained(rest, keep);
        assert forall|x: usize| #[trigger] all.contains(x) <==> s.contains(x) && keep(x) by {
            if all.contains(x) {
                let i = choose|i: int| 0 <= i < all.len() && all[i] == x;
                if keep(s[0]) && i > 0 {
                    assert(kept[i - 1] == x);
                }
                if x != s[0] || !keep(s[0]) {
                    assert(kept.contains(x));
                    let j = choose|j: int| 0 <= j < rest.len() && rest[j] == x;
                    assert(s[j + 1] == x);
                } else {
                    assert(s[0] == x);
                }
            }
            if s.contains(x) && keep(x) {
                let j = choose|j: int| 0 <= j < s.len() && s[j] == x;
                if j == 0 {
                    assert(all[0] == x);
                } else {
                    assert(rest[j - 1] == x);
                    assert(kept.contains(x));
                    let i = choose|i: int| 0 <= i < kept.len() && kept[i] == x;
                    if keep(s[0]) {
                        assert(all[i + 1] == x);
                    } else {
                        assert(all[i] == x);
                    }
                }
            }
        }
        if s.no_duplicates() {
            assert(rest.no_duplicates()) by {
                assert forall|i: int, j: int|
                    0 <= i < rest.len() && 0 <= j < rest.len() && i != j implies rest[i]
                    != rest[j] by {
                    assert(rest[i] == s[i + 1] && rest[j] == s[j + 1]);
                }
            }
            if keep(s[0]) {
                assert(!kept.contains(s[0])) by {
                    if rest.contains(s[0]) {
                        let j = choose|j: int| 0 <= j < rest.len() && rest[j] == s[0];
                        assert(s[j + 1] == s[0]);
                    }
                }
                assert forall|i: int, j: int|
                    0 <= i < all.len() && 0 <= j < all.len() && i != j implies all[i]
                    != all[j] by {
                    if i > 0 {
                        assert(all[i] == kept[i - 1]);
                    }
                    if j > 0 {
                        assert(all[j] == kept[j - 1]);
                    }
                }
            }
        }
    }
}

/// A selection that every element satisfies keeps everything.
pub proof fn lemma_retained_all(s: Seq<usize>, keep: spec_fn(usize) -> bool)
    requires
        forall|i: int| 0 <= i < s.len() ==> keep(#[trigger] s[i]),
    ensures
        retained(s, keep) == s,
    decreases s.len(),
{
    if s.len() > 0 {
        let rest = s.skip(1);
        assert forall|i: int| 0 <= i < rest.len() implies keep(#[trigger] rest[i]) by {
            assert(rest[i] == s[i + 1]);
        }
        lemma_retained_all(rest, keep);
        assert(keep(s[0]));
        assert(seq![s[0]] + rest =~= s);
    }
}

/// What `buried` lists: the elements that satisfy `gone`, none of them twice
/// if none was there twice.
pub proof fn lemma_buried(s: Seq<usize>, gone: spec_fn(usize) -> bool)
    ensures
        forall|x: usize| #[trigger] buried(s, gone).contains(x) <==> s.contains(x) && gone(x),
        s.no_duplicates() ==> buried(s, gone).no_duplicates(),
    decreases s.len(),
{
    if s.len() > 0 {
        let rest = s.skip(1);
        let deep = buried(rest, gone);
        let all = buried(s, gone);
        lemma_buried(rest, gone);
        assert forall|x: usize| #[trigger] all.contains(x) <==> s.contains(x) && gone(x) by {
            if all.contains(x) {
                let i = choose|i: int| 0 <= i < all.len() && all[i] == x;
                if gone(s[0]) && i == all.len() - 1 {
                    assert(s[0] == x);
                } else {
                    assert(deep[i] == x);
                    assert(deep.contains(x));
                    let j = choose|j: int| 0 <= j < rest.len() && rest[j] == x;
                    assert(s[j + 1] == x);
                }
            }
            if s.contains(x) && gone(x) {
                let j = choose|j: int| 0 <= j < s.len() && s[j] == x;
                if j == 0 {
                    assert(all[all.len() - 1] == x);
                } else {
                    assert(rest[j - 1] == x);
                    assert(deep.contains(x));
                    let i = choose|i: int| 0 <= i < deep.len() && deep[i] == x;
                    assert(all[i] == x);
                }
            }
        }
        if s.no_duplicates() {
            assert(rest.no_duplicates()) by {
                assert forall|i: int, j: int|
                    0 <= i < rest.len() && 0 <= j < rest.len() && i != j implies rest[i]
                    != rest[j] by {
                    assert(rest[i] == s[i + 1] && rest[j] == s[j + 1]);
                }
            }
            if gone(s[0]) {
                assert(!deep.contains(s[0])) by {
                    if rest.contains(s[0]) {
                        let j = choose|j: int| 0 <= j < rest.len() && rest[j] == s[0];
                        assert(s[j + 1] == s[0]);
                    }
                }
            }
        }
    }
}

/// A selection that no element satisfies lists nothing.
pub proof fn lemma_buried_none(s: Seq<usize>, gone: spec_fn(usize) -> bool)
    requires
        forall|i: int| 0 <= i < s.len() ==> !gone(#[trigger] s[i]),
    ensures
        buried(s, gone) == Seq::<usize>::empty(),
    decreases s.len(),
{
    if s.len() > 0 {
        let rest = s.skip(1);
        assert forall|i: int| 0 <= i < rest.len() implies !gone(#[trigger] rest[i]) by {
            assert(rest[i] == s[i + 1]);
        }
        lemma_buried_none(rest, gone);
        assert(!gone(s[0]));
    }
}

/// What a sequence holds after one more element was put at its end.
pub proof fn lemma_pushed(s: Seq<usize>, x: usize)
    ensures
        forall|y: usize| #[trigger] s.push(x).contains(y) <==> s.contains(y) || y == x,
        s.no_duplicates() && !s.contains(x) ==> s.push(x).no_duplicates(),
{
    let t = s.push(x);
    assert forall|y: usize| #[trigger] t.contains(y) <==> s.contains(y) || y == x by {
        if t.contains(y) {
            let i = choose|i: int| 0 <= i < t.len() && t[i] == y;
            if i < s.len() {
                assert(s[i] == y);
            }
        }
        if s.contains(y) {
            let i = choose|i: int| 0 <= i < s.len() && s[i] == y;
            assert(t[i] == y);
        }
        assert(t[t.len() - 1] == x);
    }
}

/// What the concatenation of two sequences holds.
pub proof fn lemma_joined(a: Seq<usize>, b: Seq<usize>)
    ensures
        forall|y: usize| #[trigger] (a + b).contains(y) <==> a.contains(y) || b.contains(y),
        a.no_duplicates() && b.no_duplicates() && (forall|y: usize|
            a.contains(y) ==> !#[trigger] b.contains(y)) ==> (a + b).no_duplicates(),
{
    let t = a + b;
    assert forall|y: usize| #[trigger] t.contains(y) <==> a.contains(y) || b.contains(y) by {
        if t.contains(y) {
            let i = choose|i: int| 0 <= i < t.len() && t[i] == y;
            if i < a.len() {
                assert(a[i] == y);
            } else {
                assert(b[i - a.len()] == y);
            }
        }
        if a.contains(y) {
            let i = choose|i: int| 0 <= i < a.len() && a[i] == y;
            assert(t[i] == y);
        }
        if b.contains(y) {
            let i = choose|i: int| 0 <= i < b.len() && b[i] == y;
            assert(t[a.len() + i] == y);
        }
    }
    if a.no_duplicates() && b.no_duplicates() && (forall|y: usize|
        a.contains(y) ==> !#[trigger] b.contains(y)) {
        assert forall|i: int, j: int| 0 <= i < t.len() && 0 <= j < t.len() && i != j implies t[i]
            != t[j] by {
            if i < a.len() && j >= a.len() {
                assert(a.contains(a[i]));
                assert(b.contains(b[j - a.len()]));
            }
            if j < a.len() && i >= a.len() {
                assert(a.contains(a[j]));
                assert(b.contains(b[i - a.len()]));
            }
        }
    }
}

} // verus!
