//! Attachment control plane for a sharded, separated-storage database.
//!
//! For every tenant shard the control plane decides which page server owns
//! it (the attached location) and which hold warm secondary copies, then
//! drives the fleet toward that decision. The heart of the crate is the
//! reconciliation engine: the intent/observed data model, the placement
//! scheduler, and the reconciler state machine (including multi-phase live
//! migration) that converges observed state to intent while preserving the
//! generation-number invariant required for safe deletions on shared
//! object storage.
//!
//! All I/O (HTTP to page servers, the compute notification transport,
//! remote object storage) is performed by a driver outside this crate; the
//! types here expose the decisions as verified step functions and planners.

use vstd::prelude::*;

pub mod cancellation;
pub mod compute_hook;
pub mod deletion_queue;
pub mod ids;
pub mod location;
pub mod node;
pub mod reconciler;
pub mod scheduler;
pub mod service;
pub mod shard;
pub mod tenant_state;
pub mod timelines;
pub mod unreliable;

verus! {

/// Per-shard mutation counter. Any intent change bumps the sequence; a
/// reconciler carries the sequence it was spawned against as a watermark,
/// and results posted under an outdated watermark are discarded.
#[derive(Clone, Copy, PartialEq, Eq, Structural, Debug, Hash)]
pub struct Sequence(pub u64);

impl Sequence {
    pub fn initial() -> (r: Self)
        ensures
            r.0 == 0,
    {
        Sequence(0)
    }

    pub fn next(&self) -> (r: Sequence)
        requires
            self.0 < u64::MAX,
        ensures
            r.0 == self.0 + 1,
    {
        Sequence(self.0 + 1)
    }

    /// Advance a monotone counter: the new value may never be below the old.
    pub fn cnt_advance(&mut self, v: Sequence)
        requires
            old(self).0 <= v.0,
        ensures
            *final(self) == v,
    {
        *self = v;
    }

    pub fn cnt_value(&self) -> (r: Sequence)
        ensures
            r == *self,
    {
        *self
    }
}

/// How a tenant shard should be placed across the fleet.
#[derive(Clone, Copy, PartialEq, Eq, Structural, Debug)]
pub enum PlacementPolicy {
    /// Cheapest way to attach a tenant: just one page server, no secondary.
    Single,
    /// Production-ready way to attach a tenant: one attached page server
    /// and the given number of secondaries.
    Double(usize),
}

impl Default for PlacementPolicy {
    fn default() -> (r: Self)
        ensures
            r == PlacementPolicy::Double(1),
    {
        PlacementPolicy::Double(1)
    }
}

} // verus!
