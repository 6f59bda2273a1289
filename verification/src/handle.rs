//! The four handle types.
//!
//! A strong handle owns one unit of its header's root count, a weak handle one
//! unit of its weak count. A handle is only an address: the counters live in
//! the context, so every operation that acquires or releases a handle takes
//! the context as an argument. A handle cannot be copied, and the way to let
//! go of one is `drop`.
//!
//! The operations ask that the handle is one that a user can hold: that the
//! counter of its target exceeds what the payloads store
//! ([`GcHeap::owns`](crate::heap::GcHeap::owns)).

use vstd::prelude::*;
use std::marker::PhantomData;
use crate::context::GcContext;
use crate::target::GcTarget;

verus! {

/// A strong handle without the payload's type.
#[must_use]
pub struct GcRootThin {
    pub(crate) ptr: usize,
}

/// A strong handle: keeps the payload alive and gives access to it.
#[must_use]
pub struct GcRoot<T: ?Sized> {
    pub(crate) ptr: usize,
    pub(crate) marker: PhantomData<T>,
}

/// A weak handle without the payload's type.
#[must_use]
pub struct GcObjectThin {
    pub(crate) ptr: usize,
}

/// A weak handle: an edge of the managed graph. It does not keep the payload
/// alive by itself and can be upgraded while the payload lives.
#[must_use]
pub struct GcObject<T: ?Sized> {
    pub(crate) ptr: usize,
    pub(crate) marker: PhantomData<T>,
}

impl View for GcRootThin {
    type V = usize;

    /// The address of the header that the handle refers to.
    closed spec fn view(&self) -> usize {
        self.ptr
    }
}

impl<T: ?Sized> View for GcRoot<T> {
    type V = usize;

    /// The address of the header that the handle refers to.
    closed spec fn view(&self) -> usize {
        self.ptr
    }
}

impl View for GcObjectThin {
    type V = usize;

    /// The address of the header that the handle refers to.
    closed spec fn view(&self) -> usize {
        self.ptr
    }
}

impl<T: ?Sized> View for GcObject<T> {
    type V = usize;

    /// The address of the header that the handle refers to.
    closed spec fn view(&self) -> usize {
        self.ptr
    }
}

impl GcRootThin {
    /// The address of the header.
    pub fn as_ptr(&self) -> (r: usize)
        ensures
            r == self@,
    {
        self.ptr
    }

    /// The same handle with the erased payload type written out. The root
    /// count is not touched: the unit that `self` owned moves to the result.
    pub fn cast_fat(self) -> (r: GcRoot<dyn GcTarget>)
        ensures
            r@ == self@,
    {
        GcRoot { ptr: self.ptr, marker: PhantomData }
    }
}

impl<T: ?Sized> GcRoot<T> {
    /// What the handle's view is.
    pub(crate) proof fn lemma_view(&self)
        ensures
            self@ == self.ptr,
    {
    }

    /// The address of the header.
    pub fn as_ptr(&self) -> (r: usize)
        ensures
            r == self@,
    {
        self.ptr
    }

    /// Forgets the payload's type. The root count is not touched.
    pub fn cast_dyn(self) -> (r: GcRoot<dyn GcTarget>)
        ensures
            r@ == self@,
    {
        GcRoot { ptr: self.ptr, marker: PhantomData }
    }

    /// Keeps only the address. The root count is not touched.
    pub fn cast_thin(self) -> (r: GcRootThin)
        ensures
            r@ == self@,
    {
        GcRootThin { ptr: self.ptr }
    }
}

impl GcObjectThin {
    /// The address of the header.
    pub fn as_ptr(&self) -> (r: usize)
        ensures
            r == self@,
    {
        self.ptr
    }

    /// The same handle with the erased payload type written out. The weak
    /// count is not touched.
    pub fn cast_fat(self) -> (r: GcObject<dyn GcTarget>)
        ensures
            r@ == self@,
    {
        GcObject { ptr: self.ptr, marker: PhantomData }
    }
}

impl<T: ?Sized> GcObject<T> {
    /// The address of the header.
    pub fn as_ptr(&self) -> (r: usize)
        ensures
            r == self@,
    {
        self.ptr
    }

    /// Forgets the payload's type. The weak count is not touched.
    pub fn cast_dyn(self) -> (r: GcObject<dyn GcTarget>)
        ensures
            r@ == self@,
    {
        GcObject { ptr: self.ptr, marker: PhantomData }
    }

    /// Keeps only the address. The weak count is not touched.
    pub fn cast_thin(self) -> (r: GcObjectThin)
        ensures
            r@ == self@,
    {
        GcObjectThin { ptr: self.ptr }
    }
}

impl GcRootThin {
    /// A weak handle to the same object.
    pub fn downgrade<U: GcTarget>(&self, ctx: &mut GcContext<U>) -> (r: GcObjectThin)
        requires
            old(ctx).wf(),
            old(ctx)@.owns(true, self@),
            old(ctx)@.counter(false, self@) < usize::MAX,
        ensures
            final(ctx).wf(),
            final(ctx)@ == old(ctx)@.retain(false, self@),
            r@ == self@,
    {
        proof {
            old(ctx)@.lemma_owned(true, self@);
        }
        ctx.from_box(false, self.ptr);
        GcObjectThin { ptr: self.ptr }
    }

    /// One more strong handle to the same object.
    pub fn clone<U: GcTarget>(&self, ctx: &mut GcContext<U>) -> (r: GcRootThin)
        requires
            old(ctx).wf(),
            old(ctx)@.owns(true, self@),
            old(ctx)@.counter(true, self@) < usize::MAX,
        ensures
            final(ctx).wf(),
            final(ctx)@ == old(ctx)@.retain(true, self@),
            r@ == self@,
    {
        proof {
            old(ctx)@.lemma_owned(true, self@);
        }
        ctx.from_box(true, self.ptr);
        GcRootThin { ptr: self.ptr }
    }

    /// Releases the handle. If it was the last handle of either kind, the
    /// payload is destroyed before the call returns, and so is every payload
    /// that loses its last handle by that.
    pub fn drop<U: GcTarget>(self, ctx: &mut GcContext<U>)
        requires
            old(ctx).wf(),
            old(ctx)@.owns(true, self@),
        ensures
            final(ctx).wf(),
            final(ctx)@ == old(ctx)@.release(true, self@),
    {
        ctx.release(true, self.ptr);
    }

    /// The payload.
    pub fn deref<'a, U: GcTarget>(&self, ctx: &'a GcContext<U>) -> (r: &'a U)
        requires
            ctx.wf(),
            ctx@.owns(true, self@),
        ensures
            Some(*r) == ctx@.values[self@ as int],
    {
        proof {
            ctx@.lemma_owned(true, self@);
        }
        ctx.value(self.ptr)
    }
}

impl<T: ?Sized> GcRoot<T> {
    /// A weak handle to the same object.
    pub fn downgrade<U: GcTarget>(&self, ctx: &mut GcContext<U>) -> (r: GcObject<T>)
        requires
            old(ctx).wf(),
            old(ctx)@.owns(true, self@),
            old(ctx)@.counter(false, self@) < usize::MAX,
        ensures
            final(ctx).wf(),
            final(ctx)@ == old(ctx)@.retain(false, self@),
            r@ == self@,
    {
        proof {
            old(ctx)@.lemma_owned(true, self@);
        }
        ctx.from_box(false, self.ptr);
        GcObject { ptr: self.ptr, marker: PhantomData }
    }

    /// One more strong handle to the same object.
    pub fn clone<U: GcTarget>(&self, ctx: &mut GcContext<U>) -> (r: GcRoot<T>)
        requires
            old(ctx).wf(),
            old(ctx)@.owns(true, self@),
            old(ctx)@.counter(true, self@) < usize::MAX,
        ensures
            final(ctx).wf(),
            final(ctx)@ == old(ctx)@.retain(true, self@),
            r@ == self@,
    {
        proof {
            old(ctx)@.lemma_owned(true, self@);
        }
        ctx.from_box(true, self.ptr);
        GcRoot { ptr: self.ptr, marker: PhantomData }
    }

    /// Releases the handle. If it was the last handle of either kind, the
    /// payload is destroyed before the call returns, and so is every payload
    /// that loses its last handle by that.
    pub fn drop<U: GcTarget>(self, ctx: &mut GcContext<U>)
        requires
            old(ctx).wf(),
            old(ctx)@.owns(true, self@),
        ensures
            final(ctx).wf(),
            final(ctx)@ == old(ctx)@.release(true, self@),
    {
        ctx.release(true, self.ptr);
    }
}

impl<T: GcTarget> GcRoot<T> {
    /// The payload.
    pub fn deref<'a>(&self, ctx: &'a GcContext<T>) -> (r: &'a T)
        requires
            ctx.wf(),
            ctx@.owns(true, self@),
        ensures
            Some(*r) == ctx@.values[self@ as int],
    {
        proof {
            ctx@.lemma_owned(true, self@);
        }
        ctx.value(self.ptr)
    }

    /// Stores `value` as the payload and returns the payload that was there.
    /// The handles stored in `value` pass from the caller to the collector,
    /// those stored in the result from the collector to the caller: nothing
    /// is released.
    pub fn replace(&self, ctx: &mut GcContext<T>, value: T) -> (r: T)
        requires
            old(ctx).wf(),
            old(ctx)@.owns(true, self@),
            old(ctx)@.can_store(value),
        ensures
            final(ctx).wf(),
            final(ctx)@ == old(ctx)@.store(self@, value),
            Some(r) == old(ctx)@.values[self@ as int],
    {
        ctx.store(self.ptr, value)
    }
}

impl GcObjectThin {
    /// A strong handle to the same object, if its payload is alive. Once the
    /// payload has been destroyed the answer is `None`, for good.
    pub fn upgrade<U: GcTarget>(&self, ctx: &mut GcContext<U>) -> (r: Option<GcRootThin>)
        requires
            old(ctx).wf(),
            old(ctx)@.owns(false, self@),
            old(ctx)@.counter(true, self@) < usize::MAX,
        ensures
            final(ctx).wf(),
            r is Some <==> old(ctx)@.alive(self@),
            r matches Some(root) ==> root@ == self@,
            final(ctx)@ == if old(ctx)@.alive(self@) {
                old(ctx)@.retain(true, self@)
            } else {
                old(ctx)@
            },
    {
        if ctx.upgrade(self.ptr) {
            Some(GcRootThin { ptr: self.ptr })
        } else {
            None
        }
    }

    /// One more weak handle to the same object.
    pub fn clone<U: GcTarget>(&self, ctx: &mut GcContext<U>) -> (r: GcObjectThin)
        requires
            old(ctx).wf(),
            old(ctx)@.owns(false, self@),
            old(ctx)@.counter(false, self@) < usize::MAX,
        ensures
            final(ctx).wf(),
            final(ctx)@ == old(ctx)@.retain(false, self@),
            r@ == self@,
    {
        proof {
            old(ctx)@.lemma_owned(false, self@);
        }
        ctx.from_box(false, self.ptr);
        GcObjectThin { ptr: self.ptr }
    }

    /// Releases the handle. If it was the last handle of either kind to an
    /// object whose payload is alive, the payload is destroyed before the
    /// call returns, and so is every payload that loses its last handle by
    /// that.
    pub fn drop<U: GcTarget>(self, ctx: &mut GcContext<U>)
        requires
            old(ctx).wf(),
            old(ctx)@.owns(false, self@),
        ensures
            final(ctx).wf(),
            final(ctx)@ == old(ctx)@.release(false, self@),
    {
        ctx.release(false, self.ptr);
    }
}

impl<T: ?Sized> GcObject<T> {
    /// A strong handle to the same object, if its payload is alive. Once the
    /// payload has been destroyed the answer is `None`, for good.
    pub fn upgrade<U: GcTarget>(&self, ctx: &mut GcContext<U>) -> (r: Option<GcRoot<T>>)
        requires
            old(ctx).wf(),
            old(ctx)@.owns(false, self@),
            old(ctx)@.counter(true, self@) < usize::MAX,
        ensures
            final(ctx).wf(),
            r is Some <==> old(ctx)@.alive(self@),
            r matches Some(root) ==> root@ == self@,
            final(ctx)@ == if old(ctx)@.alive(self@) {
                old(ctx)@.retain(true, self@)
            } else {
                old(ctx)@
            },
    {
        if ctx.upgrade(self.ptr) {
            Some(GcRoot { ptr: self.ptr, marker: PhantomData })
        } else {
            None
        }
    }

    /// One more weak handle to the same object.
    pub fn clone<U: GcTarget>(&self, ctx: &mut GcContext<U>) -> (r: GcObject<T>)
        requires
            old(ctx).wf(),
            old(ctx)@.owns(false, self@),
            old(ctx)@.counter(false, self@) < usize::MAX,
        ensures
            final(ctx).wf(),
            final(ctx)@ == old(ctx)@.retain(false, self@),
            r@ == self@,
    {
        proof {
            old(ctx)@.lemma_owned(false, self@);
        }
        ctx.from_box(false, self.ptr);
        GcObject { ptr: self.ptr, marker: PhantomData }
    }

    /// Releases the handle. If it was the last handle of either kind to an
    /// object whose payload is alive, the payload is destroyed before the
    /// call returns, and so is every payload that loses its last handle by
    /// that.
    pub fn drop<U: GcTarget>(self, ctx: &mut GcContext<U>)
        requires
            old(ctx).wf(),
            old(ctx)@.owns(false, self@),
        ensures
            final(ctx).wf(),
            final(ctx)@ == old(ctx)@.release(false, self@),
    {
        ctx.release(false, self.ptr);
    }
}

} // verus!
