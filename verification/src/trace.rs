//! `GcTarget` for the handles themselves and for the common containers.
//!
//! A handle reports itself. A container reports what its items report, in
//! their order. A value without handles reports nothing.

use vstd::prelude::*;
use std::collections::VecDeque;
use std::marker::PhantomData;
use std::rc::Rc;
use crate::handle::{GcObject, GcObjectThin, GcRoot, GcRootThin};
use crate::target::GcTarget;
use crate::token::{GcDropToken, GcTraceToken};

verus! {

/// The strong (or weak) handles of a value.
pub open spec fn handles<T: GcTarget + ?Sized>(value: &T, strong: bool) -> Seq<usize> {
    if strong {
        value.roots()
    } else {
        value.objects()
    }
}

/// The strong (or weak) handles of the items of a sequence, item by item.
pub open spec fn all_handles<T: GcTarget>(items: Seq<T>, strong: bool) -> Seq<usize>
    decreases items.len(),
{
    if items.len() == 0 {
        Seq::empty()
    } else {
        all_handles(items.drop_last(), strong) + handles(&items.last(), strong)
    }
}

/// Traces the items of a slice, first to last.
pub fn trace_items<T: GcTarget>(items: &[T], token: &mut GcTraceToken)
    ensures
        final(token)@ == old(token)@.accept_all(all_handles(items@, false)),
{
    let mut i: usize = 0;
    while i < items.len()
        invariant
            i <= items@.len(),
            token@ == old(token)@.accept_all(all_handles(items@.take(i as int), false)),
        decreases items@.len() - i,
    {
        let ghost before = token@;
        items[i].trace(token);
        proof {
            let front = items@.take(i as int);
            let more = items@.take(i + 1);
            assert(more.drop_last() =~= front);
            assert(more.last() == items@[i as int]);
            old(token)@.lemma_accept_concat(
                all_handles(front, false),
                items@[i as int].objects(),
            );
        }
        i = i + 1;
    }
    proof {
        assert(items@.take(items@.len() as int) =~= items@);
    }
}

/// Lets the items of a slice give up their handles, first to last.
pub fn finalize_items<T: GcTarget>(items: &[T], token: &mut GcDropToken)
    ensures
        final(token)@.roots == old(token)@.roots + all_handles(items@, true),
        final(token)@.objects == old(token)@.objects + all_handles(items@, false),
{
    let mut i: usize = 0;
    while i < items.len()
        invariant
            i <= items@.len(),
            token@.roots == old(token)@.roots + all_handles(items@.take(i as int), true),
            token@.objects == old(token)@.objects + all_handles(items@.take(i as int), false),
        decreases items@.len() - i,
    {
        items[i].finalize(token);
        proof {
            let front = items@.take(i as int);
            let more = items@.take(i + 1);
            assert(more.drop_last() =~= front);
            assert(more.last() == items@[i as int]);
        }
        i = i + 1;
    }
    proof {
        assert(items@.take(items@.len() as int) =~= items@);
    }
}

impl<T: ?Sized> GcTarget for GcObject<T> {
    open spec fn objects(&self) -> Seq<usize> {
        seq![self@]
    }

    open spec fn roots(&self) -> Seq<usize> {
        Seq::empty()
    }

    fn trace(&self, token: &mut GcTraceToken) {
        proof {
            old(token)@.lemma_accept_one(self@);
        }
        token.accept(self);
    }

    fn finalize(&self, token: &mut GcDropToken) {
        token.accept(self);
    }
}

impl GcTarget for GcObjectThin {
    open spec fn objects(&self) -> Seq<usize> {
        seq![self@]
    }

    open spec fn roots(&self) -> Seq<usize> {
        Seq::empty()
    }

    fn trace(&self, token: &mut GcTraceToken) {
        proof {
            old(token)@.lemma_accept_one(self@);
        }
        token.accept_thin(self);
    }

    fn finalize(&self, token: &mut GcDropToken) {
        token.accept_thin(self);
    }
}

impl<T: ?Sized> GcTarget for GcRoot<T> {
    open spec fn objects(&self) -> Seq<usize> {
        Seq::empty()
    }

    open spec fn roots(&self) -> Seq<usize> {
        seq![self@]
    }

    /// A strong handle is no edge of the sweep: its target is kept by its
    /// root count.
    fn trace(&self, token: &mut GcTraceToken) {
        let _ = token;
    }

    fn finalize(&self, token: &mut GcDropToken) {
        token.accept_root(self);
    }
}

impl GcTarget for GcRootThin {
    open spec fn objects(&self) -> Seq<usize> {
        Seq::empty()
    }

    open spec fn roots(&self) -> Seq<usize> {
        seq![self@]
    }

    /// A strong handle is no edge of the sweep: its target is kept by its
    /// root count.
    fn trace(&self, token: &mut GcTraceToken) {
        let _ = token;
    }

    fn finalize(&self, token: &mut GcDropToken) {
        token.accept_root_thin(self);
    }
}

impl<T: GcTarget + ?Sized> GcTarget for &T {
    open spec fn objects(&self) -> Seq<usize> {
        (**self).objects()
    }

    open spec fn roots(&self) -> Seq<usize> {
        (**self).roots()
    }

    fn trace(&self, token: &mut GcTraceToken) {
        T::trace(*self, token);
    }

    fn finalize(&self, token: &mut GcDropToken) {
        T::finalize(*self, token);
    }
}

impl<T: GcTarget + ?Sized> GcTarget for &mut T {
    open spec fn objects(&self) -> Seq<usize> {
        (**self).objects()
    }

    open spec fn roots(&self) -> Seq<usize> {
        (**self).roots()
    }

    fn trace(&self, token: &mut GcTraceToken) {
        T::trace(*self, token);
    }

    fn finalize(&self, token: &mut GcDropToken) {
        T::finalize(*self, token);
    }
}

impl GcTarget for std::time::Duration {
    open spec fn objects(&self) -> Seq<usize> {
        Seq::empty()
    }

    open spec fn roots(&self) -> Seq<usize> {
        Seq::empty()
    }

    fn trace(&self, token: &mut GcTraceToken) {
        let _ = token;
    }

    fn finalize(&self, token: &mut GcDropToken) {
        let _ = token;
    }
}

impl<T: GcTarget + ?Sized> GcTarget for Box<T> {
    open spec fn objects(&self) -> Seq<usize> {
        (**self).objects()
    }

    open spec fn roots(&self) -> Seq<usize> {
        (**self).roots()
    }

    fn trace(&self, token: &mut GcTraceToken) {
        T::trace(self, token);
    }

    fn finalize(&self, token: &mut GcDropToken) {
        T::finalize(self, token);
    }
}

impl<T: GcTarget + ?Sized> GcTarget for Rc<T> {
    open spec fn objects(&self) -> Seq<usize> {
        (**self).objects()
    }

    open spec fn roots(&self) -> Seq<usize> {
        (**self).roots()
    }

    fn trace(&self, token: &mut GcTraceToken) {
        T::trace(self, token);
    }

    fn finalize(&self, token: &mut GcDropToken) {
        T::finalize(self, token);
    }
}

impl<T: GcTarget> GcTarget for [T] {
    open spec fn objects(&self) -> Seq<usize> {
        all_handles(self@, false)
    }

    open spec fn roots(&self) -> Seq<usize> {
        all_handles(self@, true)
    }

    fn trace(&self, token: &mut GcTraceToken) {
        trace_items(self, token);
    }

    fn finalize(&self, token: &mut GcDropToken) {
        finalize_items(self, token);
    }
}

impl<T: GcTarget> GcTarget for Vec<T> {
    open spec fn objects(&self) -> Seq<usize> {
        all_handles(self@, false)
    }

    open spec fn roots(&self) -> Seq<usize> {
        all_handles(self@, true)
    }

    fn trace(&self, token: &mut GcTraceToken) {
        trace_items(self.as_slice(), token);
    }

    fn finalize(&self, token: &mut GcDropToken) {
        finalize_items(self.as_slice(), token);
    }
}

impl<T: GcTarget> GcTarget for VecDeque<T> {
    open spec fn objects(&self) -> Seq<usize> {
        all_handles(self@, false)
    }

    open spec fn roots(&self) -> Seq<usize> {
        all_handles(self@, true)
    }

    fn trace(&self, token: &mut GcTraceToken) {
        let mut i: usize = 0;
        while i < self.len()
            invariant
                i <= self@.len(),
                token@ == old(token)@.accept_all(all_handles(self@.take(i as int), false)),
            decreases self@.len() - i,
        {
            self[i].trace(token);
            proof {
                let front = self@.take(i as int);
                let more = self@.take(i + 1);
                assert(more.drop_last() =~= front);
                assert(more.last() == self@[i as int]);
                old(token)@.lemma_accept_concat(
                    all_handles(front, false),
                    self@[i as int].objects(),
                );
            }
            i = i + 1;
        }
        proof {
            assert(self@.take(self@.len() as int) =~= self@);
        }
    }

    fn finalize(&self, token: &mut GcDropToken) {
        let mut i: usize = 0;
        while i < self.len()
            invariant
                i <= self@.len(),
                token@.roots == old(token)@.roots + all_handles(self@.take(i as int), true),
                token@.objects == old(token)@.objects + all_handles(self@.take(i as int), false),
            decreases self@.len() - i,
        {
            self[i].finalize(token);
            proof {
                let front = self@.take(i as int);
                let more = self@.take(i + 1);
                assert(more.drop_last() =~= front);
                assert(more.last() == self@[i as int]);
            }
            i = i + 1;
        }
        proof {
            assert(self@.take(self@.len() as int) =~= self@);
        }
    }
}

impl<T: GcTarget> GcTarget for Option<T> {
    open spec fn objects(&self) -> Seq<usize> {
        match self {
            Some(x) => x.objects(),
            None => Seq::empty(),
        }
    }

    open spec fn roots(&self) -> Seq<usize> {
        match self {
            Some(x) => x.roots(),
            None => Seq::empty(),
        }
    }

    fn trace(&self, token: &mut GcTraceToken) {
        if let Some(x) = self {
            x.trace(token);
        }
    }

    fn finalize(&self, token: &mut GcDropToken) {
        if let Some(x) = self {
            x.finalize(token);
        }
    }
}

impl<T: GcTarget, E: GcTarget> GcTarget for Result<T, E> {
    open spec fn objects(&self) -> Seq<usize> {
        match self {
            Ok(x) => x.objects(),
            Err(x) => x.objects(),
        }
    }

    open spec fn roots(&self) -> Seq<usize> {
        match self {
            Ok(x) => x.roots(),
            Err(x) => x.roots(),
        }
    }

    fn trace(&self, token: &mut GcTraceToken) {
        match self {
            Ok(x) => x.trace(token),
            Err(x) => x.trace(token),
        }
    }

    fn finalize(&self, token: &mut GcDropToken) {
        match self {
            Ok(x) => x.finalize(token),
            Err(x) => x.finalize(token),
        }
    }
}

impl<T> GcTarget for PhantomData<T> {
    open spec fn objects(&self) -> Seq<usize> {
        Seq::empty()
    }

    open spec fn roots(&self) -> Seq<usize> {
        Seq::empty()
    }

    fn trace(&self, token: &mut GcTraceToken) {
        let _ = token;
    }

    fn finalize(&self, token: &mut GcDropToken) {
        let _ = token;
    }
}


impl GcTarget for bool {
    open spec fn objects(&self) -> Seq<usize> {
        Seq::empty()
    }

    open spec fn roots(&self) -> Seq<usize> {
        Seq::empty()
    }

    fn trace(&self, token: &mut GcTraceToken) {
        let _ = token;
    }

    fn finalize(&self, token: &mut GcDropToken) {
        let _ = token;
    }
}

impl GcTarget for i8 {
    open spec fn objects(&self) -> Seq<usize> {
        Seq::empty()
    }

    open spec fn roots(&self) -> Seq<usize> {
        Seq::empty()
    }

    fn trace(&self, token: &mut GcTraceToken) {
        let _ = token;
    }

    fn finalize(&self, token: &mut GcDropToken) {
        let _ = token;
    }
}

impl GcTarget for u8 {
    open spec fn objects(&self) -> Seq<usize> {
        Seq::empty()
    }

    open spec fn roots(&self) -> Seq<usize> {
        Seq::empty()
    }

    fn trace(&self, token: &mut GcTraceToken) {
        let _ = token;
    }

    fn finalize(&self, token: &mut GcDropToken) {
        let _ = token;
    }
}

impl GcTarget for i16 {
    open spec fn objects(&self) -> Seq<usize> {
        Seq::empty()
    }

    open spec fn roots(&self) -> Seq<usize> {
        Seq::empty()
    }

    fn trace(&self, token: &mut GcTraceToken) {
        let _ = token;
    }

    fn finalize(&self, token: &mut GcDropToken) {
        let _ = token;
    }
}

impl GcTarget for u16 {
    open spec fn objects(&self) -> Seq<usize> {
        Seq::empty()
    }

    open spec fn roots(&self) -> Seq<usize> {
        Seq::empty()
    }

    fn trace(&self, token: &mut GcTraceToken) {
        let _ = token;
    }

    fn finalize(&self, token: &mut GcDropToken) {
        let _ = token;
    }
}

impl GcTarget for i32 {
    open spec fn objects(&self) -> Seq<usize> {
        Seq::empty()
    }

    open spec fn roots(&self) -> Seq<usize> {
        Seq::empty()
    }

    fn trace(&self, token: &mut GcTraceToken) {
        let _ = token;
    }

    fn finalize(&self, token: &mut GcDropToken) {
        let _ = token;
    }
}

impl GcTarget for u32 {
    open spec fn objects(&self) -> Seq<usize> {
        Seq::empty()
    }

    open spec fn roots(&self) -> Seq<usize> {
        Seq::empty()
    }

    fn trace(&self, token: &mut GcTraceToken) {
        let _ = token;
    }

    fn finalize(&self, token: &mut GcDropToken) {
        let _ = token;
    }
}

impl GcTarget for i64 {
    open spec fn objects(&self) -> Seq<usize> {
        Seq::empty()
    }

    open spec fn roots(&self) -> Seq<usize> {
        Seq::empty()
    }

    fn trace(&self, token: &mut GcTraceToken) {
        let _ = token;
    }

    fn finalize(&self, token: &mut GcDropToken) {
        let _ = token;
    }
}

impl GcTarget for u64 {
    open spec fn objects(&self) -> Seq<usize> {
        Seq::empty()
    }

    open spec fn roots(&self) -> Seq<usize> {
        Seq::empty()
    }

    fn trace(&self, token: &mut GcTraceToken) {
        let _ = token;
    }

    fn finalize(&self, token: &mut GcDropToken) {
        let _ = token;
    }
}

impl GcTarget for i128 {
    open spec fn objects(&self) -> Seq<usize> {
        Seq::empty()
    }

    open spec fn roots(&self) -> Seq<usize> {
        Seq::empty()
    }

    fn trace(&self, token: &mut GcTraceToken) {
        let _ = token;
    }

    fn finalize(&self, token: &mut GcDropToken) {
        let _ = token;
    }
}

impl GcTarget for u128 {
    open spec fn objects(&self) -> Seq<usize> {
        Seq::empty()
    }

    open spec fn roots(&self) -> Seq<usize> {
        Seq::empty()
    }

    fn trace(&self, token: &mut GcTraceToken) {
        let _ = token;
    }

    fn finalize(&self, token: &mut GcDropToken) {
        let _ = token;
    }
}

impl GcTarget for isize {
    open spec fn objects(&self) -> Seq<usize> {
        Seq::empty()
    }

    open spec fn roots(&self) -> Seq<usize> {
        Seq::empty()
    }

    fn trace(&self, token: &mut GcTraceToken) {
        let _ = token;
    }

    fn finalize(&self, token: &mut GcDropToken) {
        let _ = token;
    }
}

impl GcTarget for usize {
    open spec fn objects(&self) -> Seq<usize> {
        Seq::empty()
    }

    open spec fn roots(&self) -> Seq<usize> {
        Seq::empty()
    }

    fn trace(&self, token: &mut GcTraceToken) {
        let _ = token;
    }

    fn finalize(&self, token: &mut GcDropToken) {
        let _ = token;
    }
}

impl GcTarget for str {
    open spec fn objects(&self) -> Seq<usize> {
        Seq::empty()
    }

    open spec fn roots(&self) -> Seq<usize> {
        Seq::empty()
    }

    fn trace(&self, token: &mut GcTraceToken) {
        let _ = token;
    }

    fn finalize(&self, token: &mut GcDropToken) {
        let _ = token;
    }
}

impl GcTarget for String {
    open spec fn objects(&self) -> Seq<usize> {
        Seq::empty()
    }

    open spec fn roots(&self) -> Seq<usize> {
        Seq::empty()
    }

    fn trace(&self, token: &mut GcTraceToken) {
        let _ = token;
    }

    fn finalize(&self, token: &mut GcDropToken) {
        let _ = token;
    }
}

} // verus!
