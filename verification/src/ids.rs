//! Identifier types: tenants, timelines, nodes, shards, generations, LSNs.
//!
//! These are plain value types; the generation counter is the monotone
//! per-tenant-shard epoch that makes object-storage deletions safe.

use vstd::prelude::*;

verus! {

/// Identity of one page server in the registry.
#[derive(Clone, Copy, PartialEq, Eq, Structural, Debug, Hash)]
pub struct NodeId(pub u64);

/// Administrative unit owning data in object storage.
#[derive(Clone, Copy, PartialEq, Eq, Structural, Debug, Hash)]
pub struct TenantId(pub u128);

/// One timeline (branch) of a tenant.
#[derive(Clone, Copy, PartialEq, Eq, Structural, Debug, Hash)]
pub struct TimelineId(pub u128);

/// Index of a shard within a tenant's shard layout.
#[derive(Clone, Copy, PartialEq, Eq, Structural, Debug, Hash)]
pub struct ShardNumber(pub u8);

/// Number of shards a tenant's key space is split into.
#[derive(Clone, Copy, PartialEq, Eq, Structural, Debug, Hash)]
pub struct ShardCount(pub u8);

impl ShardNumber {
    /// True when this shard index addresses a shard under the given count.
    pub fn within_count(&self, rhs: ShardCount) -> (r: bool)
        ensures
            r == (self.0 < rhs.0),
    {
        self.0 < rhs.0
    }
}

/// Identity of one tenant shard: `(tenant, number, count)`.
/// The unsharded case is `(tenant, 0, 1)`.
#[derive(Clone, Copy, PartialEq, Eq, Structural, Debug, Hash)]
pub struct TenantShardId {
    pub tenant_id: TenantId,
    pub shard_number: ShardNumber,
    pub shard_count: ShardCount,
}

impl TenantShardId {
    /// The identity of the single shard of an unsharded tenant.
    pub fn unsharded(tenant_id: TenantId) -> (r: Self)
        ensures
            r.tenant_id == tenant_id,
            r.shard_number.0 == 0,
            r.shard_count.0 == 1,
    {
        TenantShardId { tenant_id, shard_number: ShardNumber(0), shard_count: ShardCount(1) }
    }
}

/// Log sequence number of a timeline's write-ahead log.
#[derive(Clone, Copy, PartialEq, Eq, Structural, Debug, Hash)]
pub struct Lsn(pub u64);

impl Lsn {
    /// The zero LSN marks an uninitialized position.
    pub fn is_valid(&self) -> (r: bool)
        ensures
            r == (self.0 != 0),
    {
        self.0 != 0
    }
}

/// Monotone per-tenant-shard epoch. A page server receives the generation
/// with every location configuration and stamps every object it writes;
/// an object written under generation `g` may be deleted only while `g`
/// is still the current generation for its shard.
#[derive(Clone, Copy, PartialEq, Eq, Structural, Debug, Hash)]
pub struct Generation(pub u32);

impl Generation {
    /// The generation a shard starts with, before its first attachment.
    pub fn none() -> (r: Self)
        ensures
            r.0 == 0,
    {
        Generation(0)
    }

    pub fn new(v: u32) -> (r: Self)
        ensures
            r.0 == v,
    {
        Generation(v)
    }

    /// The next epoch. Every promotion of a node to an attached state is
    /// preceded by exactly one `next`, so issued generations strictly increase.
    pub fn next(&self) -> (r: Self)
        requires
            self.0 < u32::MAX,
        ensures
            r.0 == self.0 + 1,
    {
        Generation(self.0 + 1)
    }

    pub fn number(&self) -> (r: u32)
        ensures
            r == self.0,
    {
        self.0
    }
}

} // verus!
