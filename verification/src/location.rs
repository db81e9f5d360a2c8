//! Location configurations: the state a page server should enter for a
//! tenant shard, and the constructors that derive a configuration from a
//! shard's intent and generation.

use vstd::prelude::*;
use crate::ids::Generation;
use crate::shard::ShardIdentity;

verus! {

/// The state a page server should enter for a shard.
#[derive(Clone, Copy, PartialEq, Eq, Structural, Debug)]
pub enum LocationConfigMode {
    /// No local state for the shard.
    Detached,
    /// Warm standby: keeps layers downloaded, serves no reads.
    Secondary,
    /// Sole attached location; may ingest WAL and serve reads.
    AttachedSingle,
    /// Attached alongside another attached location; transient, only
    /// during live migration.
    AttachedMulti,
    /// Attached but frozen: accepts no new writes. Origin side of a live
    /// migration.
    AttachedStale,
}

/// Options for a secondary location.
#[derive(Clone, Copy, PartialEq, Eq, Structural, Debug)]
pub struct LocationConfigSecondary {
    /// Keep the secondary warm by downloading new layers as they appear.
    pub warm: bool,
}

/// Per-tenant configuration carried opaquely to every location. The
/// control plane never reads it; it only forwards it with each
/// location-config call.
#[derive(Clone, Copy, PartialEq, Eq, Structural, Debug, Default)]
pub struct TenantConfig {
}

impl TenantConfig {
    pub fn new() -> (r: Self)
        ensures
            r == (TenantConfig {  }),
    {
        TenantConfig {  }
    }
}

/// The full body of a location-config call to one page server: mode,
/// generation, secondary options, tenant configuration and the shard
/// parameters the node needs to resolve keys.
#[derive(Clone, Copy, Debug)]
pub struct LocationConfig {
    pub mode: LocationConfigMode,
    pub generation: Option<u32>,
    pub secondary_conf: Option<LocationConfigSecondary>,
    pub tenant_conf: TenantConfig,
    pub shard_number: u8,
    pub shard_count: u8,
    pub shard_stripe_size: u32,
}

impl PartialEq for LocationConfig {
    fn eq(&self, other: &Self) -> (r: bool)
    {
        let secondary_eq: bool = match (&self.secondary_conf, &other.secondary_conf) {
            (None, None) => true,
            (Some(a), Some(b)) => a.warm == b.warm,
            _ => false,
        };
        self.mode == other.mode && self.generation == other.generation && secondary_eq
            && self.tenant_conf == other.tenant_conf && self.shard_number == other.shard_number
            && self.shard_count == other.shard_count
            && self.shard_stripe_size == other.shard_stripe_size
    }
}

impl Eq for LocationConfig {
}

impl vstd::std_specs::cmp::PartialEqSpecImpl for LocationConfig {
    open spec fn obeys_eq_spec() -> bool {
        true
    }

    open spec fn eq_spec(&self, other: &Self) -> bool {
        *self == *other
    }
}

/// The configuration an attached location must hold under the given
/// generation: sole attachment, no secondary options.
pub open spec fn spec_attached_conf(
    generation: Generation,
    shard: ShardIdentity,
    config: TenantConfig,
) -> LocationConfig {
    LocationConfig {
        mode: LocationConfigMode::AttachedSingle,
        generation: Some(generation.0),
        secondary_conf: None,
        tenant_conf: config,
        shard_number: shard.number.0,
        shard_count: shard.count.0,
        shard_stripe_size: shard.stripe_size.0,
    }
}

/// The configuration a secondary location must hold: warm standby, no
/// generation.
pub open spec fn spec_secondary_conf(shard: ShardIdentity, config: TenantConfig) -> LocationConfig {
    LocationConfig {
        mode: LocationConfigMode::Secondary,
        generation: None,
        secondary_conf: Some(LocationConfigSecondary { warm: true }),
        tenant_conf: config,
        shard_number: shard.number.0,
        shard_count: shard.count.0,
        shard_stripe_size: shard.stripe_size.0,
    }
}

/// The configuration of a node that must hold nothing for the shard.
pub open spec fn spec_detached_conf(shard: ShardIdentity, config: TenantConfig) -> LocationConfig {
    LocationConfig {
        mode: LocationConfigMode::Detached,
        generation: None,
        secondary_conf: None,
        tenant_conf: config,
        shard_number: shard.number.0,
        shard_count: shard.count.0,
        shard_stripe_size: shard.stripe_size.0,
    }
}

/// A location configuration with an explicit mode, generation and
/// secondary options.
pub open spec fn spec_build_conf(
    shard: ShardIdentity,
    config: TenantConfig,
    mode: LocationConfigMode,
    generation: Option<Generation>,
    secondary_conf: Option<LocationConfigSecondary>,
) -> LocationConfig {
    LocationConfig {
        mode,
        generation: match generation {
            Some(g) => Some(g.0),
            None => None,
        },
        secondary_conf,
        tenant_conf: config,
        shard_number: shard.number.0,
        shard_count: shard.count.0,
        shard_stripe_size: shard.stripe_size.0,
    }
}

pub fn attached_location_conf(
    generation: Generation,
    shard: &ShardIdentity,
    config: &TenantConfig,
) -> (r: LocationConfig)
    ensures
        r == spec_attached_conf(generation, *shard, *config),
{
    LocationConfig {
        mode: LocationConfigMode::AttachedSingle,
        generation: Some(generation.0),
        secondary_conf: None,
        tenant_conf: *config,
        shard_number: shard.number.0,
        shard_count: shard.count.0,
        shard_stripe_size: shard.stripe_size.0,
    }
}

pub fn secondary_location_conf(shard: &ShardIdentity, config: &TenantConfig) -> (r: LocationConfig)
    ensures
        r == spec_secondary_conf(*shard, *config),
{
    LocationConfig {
        mode: LocationConfigMode::Secondary,
        generation: None,
        secondary_conf: Some(LocationConfigSecondary { warm: true }),
        tenant_conf: *config,
        shard_number: shard.number.0,
        shard_count: shard.count.0,
        shard_stripe_size: shard.stripe_size.0,
    }
}

/// The configuration of a node that must drop its local state for the shard.
pub fn detached_location_conf(shard: &ShardIdentity, config: &TenantConfig) -> (r: LocationConfig)
    ensures
        r == spec_detached_conf(*shard, *config),
{
    LocationConfig {
        mode: LocationConfigMode::Detached,
        generation: None,
        secondary_conf: None,
        tenant_conf: *config,
        shard_number: shard.number.0,
        shard_count: shard.count.0,
        shard_stripe_size: shard.stripe_size.0,
    }
}

/// Build a location configuration with an explicit mode, generation and
/// secondary options; the remaining fields come from the shard identity
/// and tenant configuration.
pub fn build_location_config(
    shard: &ShardIdentity,
    config: &TenantConfig,
    mode: LocationConfigMode,
    generation: Option<Generation>,
    secondary_conf: Option<LocationConfigSecondary>,
) -> (r: LocationConfig)
    ensures
        r == spec_build_conf(*shard, *config, mode, generation, secondary_conf),
{
    let generation_number: Option<u32> = match generation {
        Some(g) => Some(g.0),
        None => None,
    };
    LocationConfig {
        mode,
        generation: generation_number,
        secondary_conf,
        tenant_conf: *config,
        shard_number: shard.number.0,
        shard_count: shard.count.0,
        shard_stripe_size: shard.stripe_size.0,
    }
}

} // verus!
