//! The protocol between the collector and the payloads it manages.

use vstd::prelude::*;
use crate::token::{GcDropToken, GcTraceToken};

verus! {

/// The handles of a value whose type does not say which ones it stores: some
/// sequence that depends on the value and on nothing else.
pub closed spec fn unspecified_handles<T: ?Sized>(value: &T, strong: bool) -> Seq<usize> {
    arbitrary::<spec_fn(&T, bool) -> Seq<usize>>()(value, strong)
}

/// A value that the collector can manage.
///
/// A payload owns handles to other managed objects: weak handles, which are
/// the edges that a sweep follows, and strong handles, which keep their
/// targets alive by counting alone. `objects` and `roots` name the targets of
/// the two kinds, each in the order in which the hooks report them.
///
/// The collector relies on both hooks: it is proved under the assumption that
/// every implementation reports exactly what `objects` and `roots` say. The
/// implementations in this crate are proved to do so.
pub trait GcTarget {
    /// The targets of the weak handles that `self` stores.
    open spec fn objects(&self) -> Seq<usize> {
        unspecified_handles(self, false)
    }

    /// The targets of the strong handles that `self` stores.
    open spec fn roots(&self) -> Seq<usize> {
        unspecified_handles(self, true)
    }

    /// Reports every weak handle stored in `self` to the token, once each,
    /// and no strong handle.
    fn trace(&self, token: &mut GcTraceToken)
        ensures
            final(token)@ == old(token)@.accept_all(self.objects()),
    ;

    /// Called once, when the collector destroys `self`: gives up every handle
    /// stored in `self`, so that the collector can release it.
    fn finalize(&self, token: &mut GcDropToken)
        ensures
            final(token)@.roots == old(token)@.roots + self.roots(),
            final(token)@.objects == old(token)@.objects + self.objects(),
    ;
}

} // verus!
