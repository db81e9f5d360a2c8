//! Compute hook: at most one notification per binding change.

use attachment_service::compute_hook::ComputeHook;
use attachment_service::ids::{NodeId, ShardCount, ShardNumber, TenantId, TenantShardId};

fn tsid(tenant: u128) -> TenantShardId {
    TenantShardId {
        tenant_id: TenantId(tenant),
        shard_number: ShardNumber(0),
        shard_count: ShardCount(1),
    }
}

#[test]
fn duplicate_notifications_are_coalesced() {
    let mut hook = ComputeHook::new();
    let req = hook.notify_plan(tsid(1), NodeId(1)).unwrap();
    assert_eq!(req.node_id, NodeId(1));
    assert_eq!(req.tenant_shard_id, tsid(1));
    // the same binding again: nothing to send
    assert!(hook.notify_plan(tsid(1), NodeId(1)).is_none());
    // a changed binding is sent, once
    let req = hook.notify_plan(tsid(1), NodeId(2)).unwrap();
    assert_eq!(req.node_id, NodeId(2));
    assert!(hook.notify_plan(tsid(1), NodeId(2)).is_none());
}

#[test]
fn shards_are_tracked_independently() {
    let mut hook = ComputeHook::new();
    assert!(hook.notify_plan(tsid(1), NodeId(1)).is_some());
    assert!(hook.notify_plan(tsid(2), NodeId(1)).is_some());
    assert!(hook.notify_plan(tsid(1), NodeId(1)).is_none());
    assert!(hook.notify_plan(tsid(2), NodeId(1)).is_none());
}

#[test]
fn should_notify_reflects_delivery_record() {
    let mut hook = ComputeHook::new();
    assert!(hook.should_notify(tsid(1), NodeId(1)));
    hook.record_notify(tsid(1), NodeId(1));
    assert!(!hook.should_notify(tsid(1), NodeId(1)));
    assert!(hook.should_notify(tsid(1), NodeId(2)));
}
