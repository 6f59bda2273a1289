//! A scoped, single-threaded garbage collector.
//!
//! Managed objects live in an arena owned by a [`GcContext`]. Every object has
//! a header with two counters: the number of strong handles ([`GcRoot`]) and
//! the number of weak handles ([`GcObject`]) that refer to it. Reference
//! counting reclaims an object as soon as its last handle is released; a
//! mark-and-sweep pass ([`GcContext::gc`]) reclaims the cycles that counting
//! alone would leak. Edges between managed objects are weak handles stored in
//! the payloads and reported through [`GcTarget::trace`].
//!
//! # Handles
//!
//! A handle is an address into the arena and nothing else. It cannot be
//! copied. Every operation that acquires or releases one takes the context as
//! an argument and changes the counter there; the way to let go of a handle
//! is its `drop`. A payload that is destroyed hands the handles that it
//! stores back through [`GcTarget::finalize`], and the collector releases
//! them.
//!
//! Addresses are never used twice. A destroyed payload gives its storage
//! back; its header stays in the arena as a tombstone of a few words, so
//! that weak handles to it stay meaningful for as long as they exist.
//!
//! # What is proved
//!
//! A context stands for a [`GcHeap`](crate::heap::GcHeap): cells, payloads,
//! the registry as a sequence, and the list of the payloads destroyed so far.
//! Every operation states the heap that it leaves as a function of the heap
//! that it found. The module [`laws`] holds what follows for every heap and
//! every operation: the count laws, the confinement of the sweep's states,
//! eager reclamation of what has no handle left, what a sweep destroys and
//! what it keeps, and the cadence of the automatic sweep.
//!
//! The one assumption is on the payloads: that [`GcTarget::trace`] and
//! [`GcTarget::finalize`] report the handles that the payload stores.

pub mod header;
pub mod token;
pub mod slots;
pub mod target;
pub mod handle;
pub mod trace;
pub mod tuples;
pub mod counting;
pub mod heap;
pub mod graph;
pub mod registry;
pub mod context;
pub mod sweep;
pub mod reclaim;
pub mod laws;

pub use crate::context::GcContext;
pub use crate::handle::{GcObject, GcObjectThin, GcRoot, GcRootThin};
pub use crate::header::{GcInfo, GcState};
pub use crate::target::GcTarget;
pub use crate::token::{GcDropToken, GcTraceToken};
