//! The per-object header: lifecycle state, the two counters and the links of
//! the intrusive registry.

use vstd::prelude::*;

verus! {

/// Lifecycle state of one header.
///
/// `Marked` and `Unmarked` exist only while a sweep runs: a header is
/// `Marked` once the sweep has found it reachable and `Unmarked` as long as it
/// has not. `Dropped` means that the payload has been destroyed and only the
/// header is left.
#[derive(Clone, Copy, PartialEq, Eq, Structural, Debug)]
pub enum GcState {
    Active,
    Dropped,
    Marked,
    Unmarked,
}

/// Whether the collector is idle or in the middle of a sweep.
#[derive(Clone, Copy, PartialEq, Eq, Structural, Debug)]
pub enum GcContextState {
    Normal,
    Gc,
}

/// Header metadata of one managed object.
///
/// `next` and `prev` are addresses of other headers. While the header is in
/// the registry both are set; during a sweep `prev` threads the detached list
/// and `next` threads the worklist of the trace.
#[derive(Clone, Copy, Debug)]
pub struct GcInfo {
    pub next: Option<usize>,
    pub prev: Option<usize>,
    pub state: GcState,
    pub root: usize,
    pub count: usize,
}

/// The part of a header that callers can observe.
pub struct GcCell {
    pub state: GcState,
    pub root: nat,
    pub count: nat,
}

impl GcCell {
    /// The root count (`strong`) or the weak count.
    pub open spec fn counter(self, strong: bool) -> nat {
        if strong {
            self.root
        } else {
            self.count
        }
    }

    /// The cell with one of its counters replaced.
    pub open spec fn with_counter(self, strong: bool, n: nat) -> GcCell {
        if strong {
            GcCell { root: n, ..self }
        } else {
            GcCell { count: n, ..self }
        }
    }
}

impl GcInfo {
    /// State and counters, without the links.
    pub open spec fn cell(self) -> GcCell {
        GcCell { state: self.state, root: self.root as nat, count: self.count as nat }
    }

    /// A header as allocation leaves it: active, unlinked, without handles.
    pub fn new() -> (r: GcInfo)
        ensures
            r == (GcInfo { next: None, prev: None, state: GcState::Active, root: 0, count: 0 }),
    {
        GcInfo { next: None, prev: None, state: GcState::Active, root: 0, count: 0 }
    }

    /// The payload behind a header in this state has not been destroyed.
    pub open spec fn spec_is_live(self) -> bool {
        self.state == GcState::Active || self.state == GcState::Marked
    }

    /// A weak handle may be upgraded exactly when the header is active or
    /// marked: never after the payload was destroyed, and never while a sweep
    /// still counts the header as unreachable.
    #[verifier::when_used_as_spec(spec_is_live)]
    pub fn is_live(self) -> (r: bool)
        ensures
            r == self.spec_is_live(),
    {
        match self.state {
            GcState::Active | GcState::Marked => true,
            GcState::Dropped | GcState::Unmarked => false,
        }
    }
}

/// A header together with its payload, as allocation makes it. The payload's
/// destructor is under the collector's control: it runs when the collector
/// empties the slot, not before.
pub struct GcBox<T> {
    pub info: GcInfo,
    pub value: Option<T>,
}

impl<T> GcBox<T> {
    /// A fresh header around `value`: active, unlinked, without handles.
    pub fn new(value: T) -> (r: Self)
        ensures
            r.info == (GcInfo {
                next: None,
                prev: None,
                state: GcState::Active,
                root: 0,
                count: 0,
            }),
            r.value == Some(value),
    {
        Self { info: GcInfo::new(), value: Some(value) }
    }
}

} // verus!
