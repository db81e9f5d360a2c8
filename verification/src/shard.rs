//! Shard identities and the key-to-shard mapping.
//!
//! A key maps to a shard via a stable non-cryptographic 32-bit hash over
//! the key prefix, added to `block_number / stripe_size`, taken modulo the
//! shard count. The layout byte reserves room for future changes to the
//! mapping; all shards of one tenant share a layout.

use std::hash::Hasher;
use vstd::prelude::*;
use crate::ids::{NodeId, ShardCount, ShardNumber};

verus! {

/// Stripe size in number of pages.
#[derive(Clone, Copy, PartialEq, Eq, Structural, Debug)]
pub struct ShardStripeSize(pub u32);

/// Layout version: for future upgrades where the key-to-shard mapping
/// might change.
#[derive(Clone, Copy, PartialEq, Eq, Structural, Debug)]
pub struct ShardLayout(pub u8);

/// The only key-to-shard layout in use.
pub const LAYOUT_V1: u8 = 1;

/// Default stripe size in pages: 256 MiB divided by 8 kiB page size.
pub const DEFAULT_STRIPE_SIZE: u32 = 256 * 1024 / 8;

/// A key addressing one page of one relation of one tenant. The prefix
/// fields identify the relation; `field6` is the block number within it.
#[derive(Clone, Copy, PartialEq, Eq, Structural, Debug)]
pub struct Key {
    pub field1: u8,
    pub field2: u32,
    pub field3: u32,
    pub field4: u32,
    pub field5: u8,
    pub field6: u32,
}

/// What one member of a shard map needs to resolve a key to a shard and
/// then check whether that shard is itself.
#[derive(Clone, Copy, PartialEq, Eq, Structural, Debug)]
pub struct ShardIdentity {
    pub layout: ShardLayout,
    pub number: ShardNumber,
    pub count: ShardCount,
    pub stripe_size: ShardStripeSize,
}

impl ShardIdentity {
    /// Well-formed identities have a nonzero stripe size, so the
    /// key-to-shard division is defined.
    pub open spec fn wf(&self) -> bool {
        self.stripe_size.0 > 0
    }

    pub fn get_shard_number(&self, key: &Key) -> (r: ShardNumber)
        requires
            self.wf(),
        ensures
            r.0 == spec_key_to_shard_number(self.count, self.stripe_size, *key),
    {
        key_to_shard_number(self.count, self.stripe_size, key)
    }
}

impl Default for ShardIdentity {
    /// The default identity is to be the only shard for a tenant, i.e.
    /// the legacy pre-sharding case.
    fn default() -> (r: Self)
        ensures
            r == (ShardIdentity {
                layout: ShardLayout(LAYOUT_V1),
                number: ShardNumber(0),
                count: ShardCount(1),
                stripe_size: ShardStripeSize(DEFAULT_STRIPE_SIZE),
            }),
            r.wf(),
    {
        ShardIdentity {
            layout: ShardLayout(LAYOUT_V1),
            number: ShardNumber(0),
            count: ShardCount(1),
            stripe_size: ShardStripeSize(DEFAULT_STRIPE_SIZE),
        }
    }
}

/// The location of a shard: the logical identity of the page server
/// holding it, and the physical page service endpoint that compute
/// should use.
#[derive(PartialEq, Eq, Debug)]
pub struct ShardLocation {
    pub id: NodeId,
    pub page_service_host: String,
    pub page_service_port: u16,
}

impl Clone for ShardLocation {
    fn clone(&self) -> (r: Self)
        ensures
            r == *self,
    {
        ShardLocation {
            id: self.id,
            page_service_host: self.page_service_host.clone(),
            page_service_port: self.page_service_port,
        }
    }
}

/// Sufficient information to map any key to the page service which
/// should store it.
#[derive(Debug)]
pub struct ShardMap {
    pub layout: ShardLayout,
    pub count: ShardCount,
    pub stripe_size: ShardStripeSize,
    pub pageservers: Vec<Option<ShardLocation>>,
}

impl ShardMap {
    /// One location slot per shard, and a usable stripe size.
    pub open spec fn wf(&self) -> bool {
        &&& self.pageservers@.len() == self.count.0
        &&& self.stripe_size.0 > 0
    }

    pub fn get_location(&self, shard_number: ShardNumber) -> (r: &Option<ShardLocation>)
        requires
            self.wf(),
            shard_number.0 < self.count.0,
        ensures
            *r == self.pageservers@[shard_number.0 as int],
    {
        &self.pageservers[shard_number.0 as usize]
    }

    pub fn get_identity(&self, shard_number: ShardNumber) -> (r: ShardIdentity)
        requires
            self.wf(),
            shard_number.0 < self.count.0,
        ensures
            r == (ShardIdentity {
                layout: self.layout,
                number: shard_number,
                count: self.count,
                stripe_size: self.stripe_size,
            }),
            r.wf(),
    {
        ShardIdentity {
            layout: self.layout,
            number: shard_number,
            count: self.count,
            stripe_size: self.stripe_size,
        }
    }

    pub fn get_shard_number(&self, key: &Key) -> (r: ShardNumber)
        requires
            self.wf(),
        ensures
            r.0 == spec_key_to_shard_number(self.count, self.stripe_size, *key),
    {
        key_to_shard_number(self.count, self.stripe_size, key)
    }

    /// An empty map with the default layout and stripe size: one vacant
    /// location per shard.
    pub fn default_with_shards(shard_count: ShardCount) -> (r: Self)
        ensures
            r.wf(),
            r.layout == ShardLayout(LAYOUT_V1),
            r.count == shard_count,
            r.stripe_size == ShardStripeSize(DEFAULT_STRIPE_SIZE),
            forall|i: int| 0 <= i < r.pageservers@.len() ==> r.pageservers@[i] is None,
    {
        let n: usize = shard_count.0 as usize;
        let mut pageservers: Vec<Option<ShardLocation>> = Vec::new();
        let mut i: usize = 0;
        while i < n
            invariant
                i <= n,
                pageservers@.len() == i,
                forall|j: int| 0 <= j < i ==> pageservers@[j] is None,
            decreases n - i,
        {
            pageservers.push(None);
            i = i + 1;
        }
        ShardMap {
            layout: ShardLayout(LAYOUT_V1),
            count: shard_count,
            stripe_size: ShardStripeSize(DEFAULT_STRIPE_SIZE),
            pageservers,
        }
    }
}

/// The 32-bit hash of a key prefix used by the key-to-shard mapping.
/// Its value is fixed by the MurmurHash3 algorithm; the contracts treat
/// it as an unknown but deterministic function of the four fields.
pub uninterp spec fn key_prefix_hash(f1: u8, f2: u32, f3: u32, f4: u32) -> u32;

/// Relies on mur3::Hasher32 (32-bit MurmurHash3, seed 0) fed the prefix
/// fields as little-endian bytes: the result is a pure function of the
/// four fields.
#[verifier::external_body]
fn key_prefix_hash_exec(f1: u8, f2: u32, f3: u32, f4: u32) -> (r: u32)
    ensures
        r == key_prefix_hash(f1, f2, f3, f4),
{
    let mut hasher = mur3::Hasher32::with_seed(0);
    hasher.write(&[f1]);
    hasher.write(&f2.to_le_bytes());
    hasher.write(&f3.to_le_bytes());
    hasher.write(&f4.to_le_bytes());
    hasher.finish32()
}

/// The shard a key belongs to: the hash of the key prefix, plus the key's
/// stripe index, taken modulo the shard count. A count of zero is the
/// degenerate unsharded case.
pub open spec fn spec_key_to_shard_number(
    count: ShardCount,
    stripe_size: ShardStripeSize,
    key: Key,
) -> u8 {
    if count.0 == 0 {
        0u8
    } else {
        let hash = key_prefix_hash(key.field1, key.field2, key.field3, key.field4);
        ((hash + key.field6 / stripe_size.0) % (count.0 as int)) as u8
    }
}

/// Where a key is to be distributed across shards, select the shard.
/// This function does not account for keys that should be broadcast
/// across shards.
pub fn key_to_shard_number(
    count: ShardCount,
    stripe_size: ShardStripeSize,
    key: &Key,
) -> (r: ShardNumber)
    requires
        count.0 == 0 || stripe_size.0 > 0,
    ensures
        r.0 == spec_key_to_shard_number(count, stripe_size, *key),
        count.0 > 0 ==> r.0 < count.0,
{
    // Fast path for unsharded tenants
    if count.0 == 0 {
        return ShardNumber(0);
    }

    let hash: u32 = key_prefix_hash_exec(key.field1, key.field2, key.field3, key.field4);

    let blkno: u32 = key.field6;

    let stripe: u64 = hash as u64 + (blkno / stripe_size.0) as u64;

    let shard: u8 = (stripe % (count.0 as u64)) as u8;

    ShardNumber(shard)
}

} // verus!
