//! Service facade behavior: idempotence, errors, and the smaller RPCs.

use attachment_service::ids::{NodeId, ShardCount, ShardNumber, TenantId, TenantShardId};
use attachment_service::location::TenantConfig;
use attachment_service::node::{NodeAvailability, NodeSchedulingPolicy};
use attachment_service::service::{
    ApiError, AttachHookRequest, InspectRequest, NodeConfigureRequest, NodeRegisterRequest,
    Service, TenantCreateRequest, TenantShardMigrateRequest, ValidateRequest,
    ValidateRequestTenant,
};
use attachment_service::PlacementPolicy;
use attachment_service::Sequence;
use attachment_service::ids::Generation;
use attachment_service::tenant_state::ObservedState;

fn register(svc: &mut Service, id: u64) {
    svc.node_register(NodeRegisterRequest {
        node_id: NodeId(id),
        listen_http_addr: format!("ps{id}.local"),
        listen_http_port: 9898,
        listen_pg_addr: format!("ps{id}.local"),
        listen_pg_port: 5432,
    });
}

fn tsid(tenant: u128, number: u8, count: u8) -> TenantShardId {
    TenantShardId {
        tenant_id: TenantId(tenant),
        shard_number: ShardNumber(number),
        shard_count: ShardCount(count),
    }
}

fn create_req(tenant: u128, count: u8, policy: PlacementPolicy) -> TenantCreateRequest {
    TenantCreateRequest {
        tenant_id: TenantId(tenant),
        shard_count: ShardCount(count),
        shard_stripe_size: None,
        placement_policy: Some(policy),
        config: TenantConfig::new(),
    }
}

#[test]
fn node_register_is_idempotent() {
    let mut svc = Service::new();
    register(&mut svc, 1);
    register(&mut svc, 1);
    register(&mut svc, 1);
    assert_eq!(svc.nodes.len(), 1);
    assert_eq!(svc.nodes[0].id, NodeId(1));
    assert_eq!(svc.nodes[0].availability, NodeAvailability::Active);
    assert_eq!(svc.nodes[0].scheduling, NodeSchedulingPolicy::Active);
}

#[test]
fn tenant_create_is_idempotent() {
    let mut svc = Service::new();
    register(&mut svc, 1);
    register(&mut svc, 2);
    let (first, dirty1) = svc.tenant_create(&create_req(7, 2, PlacementPolicy::Double(1))).unwrap();
    assert_eq!(dirty1.len(), 2);
    let (second, dirty2) = svc.tenant_create(&create_req(7, 2, PlacementPolicy::Double(1))).unwrap();
    assert_eq!(first.shards, second.shards);
    assert_eq!(dirty2.len(), 0);
    assert_eq!(svc.tenants.len(), 2);
}

#[test]
fn tenant_create_balances_across_nodes() {
    let mut svc = Service::new();
    register(&mut svc, 1);
    register(&mut svc, 2);
    let (resp, _) = svc.tenant_create(&create_req(7, 2, PlacementPolicy::Single)).unwrap();
    // the scheduler is load-driven: the two shards land on the two nodes
    assert_eq!(resp.shards.len(), 2);
    assert_eq!(resp.shards[0].node_id, Some(NodeId(1)));
    assert_eq!(resp.shards[1].node_id, Some(NodeId(2)));
    assert_eq!(resp.shards[0].generation, 0);
}

#[test]
fn tenant_create_rejects_bad_requests() {
    let mut svc = Service::new();
    register(&mut svc, 1);
    assert_eq!(
        svc.tenant_create(&create_req(7, 0, PlacementPolicy::Single)).unwrap_err(),
        ApiError::BadRequest
    );
    let mut req = create_req(7, 1, PlacementPolicy::Single);
    req.shard_stripe_size = Some(0);
    assert_eq!(svc.tenant_create(&req).unwrap_err(), ApiError::BadRequest);
}

#[test]
fn tenant_create_without_nodes_conflicts() {
    let mut svc = Service::new();
    assert_eq!(
        svc.tenant_create(&create_req(7, 1, PlacementPolicy::Single)).unwrap_err(),
        ApiError::Conflict
    );
}

#[test]
fn double_policy_places_a_secondary() {
    let mut svc = Service::new();
    register(&mut svc, 1);
    register(&mut svc, 2);
    register(&mut svc, 3);
    svc.tenant_create(&create_req(7, 1, PlacementPolicy::Double(2))).unwrap();
    assert_eq!(svc.tenants[0].intent.attached, Some(NodeId(1)));
    assert_eq!(svc.tenants[0].intent.secondary, vec![NodeId(2), NodeId(3)]);
}

#[test]
fn secondary_deficit_is_tolerated() {
    let mut svc = Service::new();
    register(&mut svc, 1);
    // Double(1) with a single node: attached placed, no secondary
    svc.tenant_create(&create_req(7, 1, PlacementPolicy::Double(1))).unwrap();
    assert_eq!(svc.tenants[0].intent.attached, Some(NodeId(1)));
    assert_eq!(svc.tenants[0].intent.secondary.len(), 0);
}

#[test]
fn migrate_demotes_old_attachment_under_double() {
    let mut svc = Service::new();
    register(&mut svc, 1);
    register(&mut svc, 2);
    svc.tenant_create(&create_req(7, 1, PlacementPolicy::Double(1))).unwrap();
    assert_eq!(svc.tenants[0].intent.attached, Some(NodeId(1)));
    assert_eq!(svc.tenants[0].intent.secondary, vec![NodeId(2)]);
    let seq_before = svc.tenants[0].sequence;
    svc.tenant_shard_migrate(tsid(7, 0, 1), &TenantShardMigrateRequest {
        tenant_shard_id: tsid(7, 0, 1),
        node_id: NodeId(2),
    })
    .unwrap();
    assert_eq!(svc.tenants[0].intent.attached, Some(NodeId(2)));
    assert_eq!(svc.tenants[0].intent.secondary, vec![NodeId(1)]);
    assert_eq!(svc.tenants[0].sequence.0, seq_before.0 + 1);
}

#[test]
fn migrate_drops_old_attachment_under_single() {
    let mut svc = Service::new();
    register(&mut svc, 1);
    register(&mut svc, 2);
    svc.tenant_create(&create_req(7, 1, PlacementPolicy::Single)).unwrap();
    svc.tenant_shard_migrate(tsid(7, 0, 1), &TenantShardMigrateRequest {
        tenant_shard_id: tsid(7, 0, 1),
        node_id: NodeId(2),
    })
    .unwrap();
    assert_eq!(svc.tenants[0].intent.attached, Some(NodeId(2)));
    assert_eq!(svc.tenants[0].intent.secondary.len(), 0);
}

#[test]
fn migrate_unknown_targets_fail() {
    let mut svc = Service::new();
    register(&mut svc, 1);
    svc.tenant_create(&create_req(7, 1, PlacementPolicy::Single)).unwrap();
    assert_eq!(
        svc.tenant_shard_migrate(tsid(7, 0, 1), &TenantShardMigrateRequest {
            tenant_shard_id: tsid(7, 0, 1),
            node_id: NodeId(99),
        })
        .unwrap_err(),
        ApiError::NotFound
    );
    assert_eq!(
        svc.tenant_shard_migrate(tsid(8, 0, 1), &TenantShardMigrateRequest {
            tenant_shard_id: tsid(8, 0, 1),
            node_id: NodeId(1),
        })
        .unwrap_err(),
        ApiError::NotFound
    );
}

#[test]
fn locate_unknown_tenant_not_found() {
    let svc = Service::new();
    assert_eq!(svc.tenant_locate(TenantId(7)).unwrap_err(), ApiError::NotFound);
}

#[test]
fn timeline_targets_report_attached_nodes() {
    let mut svc = Service::new();
    register(&mut svc, 1);
    register(&mut svc, 2);
    svc.tenant_create(&create_req(7, 2, PlacementPolicy::Single)).unwrap();
    let targets = svc.tenant_targets(TenantId(7)).unwrap();
    assert_eq!(targets, vec![(tsid(7, 0, 2), NodeId(1)), (tsid(7, 1, 2), NodeId(2))]);
    assert_eq!(svc.tenant_targets(TenantId(9)).unwrap_err(), ApiError::NotFound);
}

#[test]
fn attach_hook_detach_clears_attachment() {
    let mut svc = Service::new();
    register(&mut svc, 1);
    let resp = svc
        .attach_hook(AttachHookRequest { tenant_shard_id: tsid(7, 0, 1), node_id: Some(NodeId(1)) })
        .unwrap();
    assert_eq!(resp.generation, Some(1));
    let resp = svc
        .attach_hook(AttachHookRequest { tenant_shard_id: tsid(7, 0, 1), node_id: None })
        .unwrap();
    assert_eq!(resp.generation, None);
    assert!(svc.inspect(&InspectRequest { tenant_shard_id: tsid(7, 0, 1) }).attachment.is_none());
    // the generation is not consumed by a detach
    let resp = svc
        .attach_hook(AttachHookRequest { tenant_shard_id: tsid(7, 0, 1), node_id: Some(NodeId(1)) })
        .unwrap();
    assert_eq!(resp.generation, Some(2));
}

#[test]
fn attach_hook_unknown_node_fails() {
    let mut svc = Service::new();
    assert_eq!(
        svc.attach_hook(AttachHookRequest {
            tenant_shard_id: tsid(7, 0, 1),
            node_id: Some(NodeId(5)),
        })
        .unwrap_err(),
        ApiError::NotFound
    );
}

#[test]
fn validate_unknown_shard_is_invalid() {
    let svc = Service::new();
    let resp = svc.validate(&ValidateRequest {
        tenants: vec![ValidateRequestTenant { id: tsid(7, 0, 1), generation: 1 }],
    });
    assert_eq!(resp.tenants[0].valid, false);
}

#[test]
fn validate_stays_false_once_superseded() {
    let mut svc = Service::new();
    register(&mut svc, 1);
    register(&mut svc, 2);
    svc.attach_hook(AttachHookRequest { tenant_shard_id: tsid(7, 0, 1), node_id: Some(NodeId(1)) })
        .unwrap();
    svc.attach_hook(AttachHookRequest { tenant_shard_id: tsid(7, 0, 1), node_id: Some(NodeId(2)) })
        .unwrap();
    // generation 1 is now stale; it stays invalid through further churn
    for round in 0..3 {
        let resp = svc.validate(&ValidateRequest {
            tenants: vec![ValidateRequestTenant { id: tsid(7, 0, 1), generation: 1 }],
        });
        assert_eq!(resp.tenants[0].valid, false, "round {round}");
        svc.attach_hook(AttachHookRequest {
            tenant_shard_id: tsid(7, 0, 1),
            node_id: Some(NodeId(1)),
        })
        .unwrap();
    }
}

#[test]
fn configure_unknown_node_fails() {
    let mut svc = Service::new();
    assert_eq!(
        svc.node_configure(&NodeConfigureRequest {
            node_id: NodeId(1),
            availability: Some(NodeAvailability::Offline),
            scheduling: None,
        })
        .unwrap_err(),
        ApiError::NotFound
    );
}

#[test]
fn configure_scheduling_pause_excludes_from_new_work() {
    let mut svc = Service::new();
    register(&mut svc, 1);
    register(&mut svc, 2);
    svc.node_configure(&NodeConfigureRequest {
        node_id: NodeId(1),
        availability: None,
        scheduling: Some(NodeSchedulingPolicy::Pause),
    })
    .unwrap();
    svc.tenant_create(&create_req(7, 1, PlacementPolicy::Single)).unwrap();
    assert_eq!(svc.tenants[0].intent.attached, Some(NodeId(2)));
}

#[test]
fn offline_reschedules_only_affected_shards() {
    let mut svc = Service::new();
    register(&mut svc, 1);
    register(&mut svc, 2);
    register(&mut svc, 3);
    svc.tenant_create(&create_req(7, 1, PlacementPolicy::Single)).unwrap();
    svc.tenant_create(&create_req(8, 1, PlacementPolicy::Single)).unwrap();
    // tenant 7 on node 1, tenant 8 on node 2
    assert_eq!(svc.tenants[0].intent.attached, Some(NodeId(1)));
    assert_eq!(svc.tenants[1].intent.attached, Some(NodeId(2)));
    let dirty = svc
        .node_configure(&NodeConfigureRequest {
            node_id: NodeId(1),
            availability: Some(NodeAvailability::Offline),
            scheduling: None,
        })
        .unwrap();
    assert_eq!(dirty, vec![tsid(7, 0, 1)]);
    assert_ne!(svc.tenants[0].intent.attached, Some(NodeId(1)));
    assert_eq!(svc.tenants[1].intent.attached, Some(NodeId(2)));
}

#[test]
fn sequence_counter_behaves() {
    let s = Sequence::initial();
    assert_eq!(s.0, 0);
    let s2 = s.next();
    assert_eq!(s2.0, 1);
    let mut c = Sequence(3);
    c.cnt_advance(Sequence(5));
    assert_eq!(c.cnt_value(), Sequence(5));
}

#[test]
fn default_policy_is_one_secondary() {
    assert_eq!(PlacementPolicy::default(), PlacementPolicy::Double(1));
}

#[test]
fn scheduler_is_deterministic() {
    // the same registry, load, policy and intent always give the same
    // placement: two services built identically place identically
    let mut a = Service::new();
    let mut b = Service::new();
    for id in [3u64, 1, 2] {
        register(&mut a, id);
        register(&mut b, id);
    }
    for tenant in [7u128, 8, 9] {
        a.tenant_create(&create_req(tenant, 2, PlacementPolicy::Double(1))).unwrap();
        b.tenant_create(&create_req(tenant, 2, PlacementPolicy::Double(1))).unwrap();
    }
    for (ta, tb) in a.tenants.iter().zip(b.tenants.iter()) {
        assert_eq!(ta.intent.attached, tb.intent.attached);
        assert_eq!(ta.intent.secondary, tb.intent.secondary);
    }
}

#[test]
fn re_attach_bumps_each_shard_once() {
    let mut svc = Service::new();
    register(&mut svc, 1);
    svc.tenant_create(&create_req(7, 1, PlacementPolicy::Single)).unwrap();
    // the shard presented twice is still answered (and bumped) once
    let resp = svc.re_attach(&attachment_service::service::ReAttachRequest {
        node_id: NodeId(1),
        shards: vec![tsid(7, 0, 1), tsid(7, 0, 1)],
    });
    assert_eq!(resp.tenants.len(), 1);
    assert_eq!(resp.tenants[0].generation, 1);
    assert_eq!(
        svc.inspect(&InspectRequest { tenant_shard_id: tsid(7, 0, 1) })
            .attachment
            .unwrap()
            .generation,
        1
    );
}

#[test]
fn stale_reconcile_result_is_discarded_but_generation_kept() {
    let mut svc = Service::new();
    register(&mut svc, 1);
    svc.tenant_create(&create_req(7, 1, PlacementPolicy::Single)).unwrap();
    let stale_seq = Sequence(0);
    let accepted = svc.apply_reconcile_result(
        tsid(7, 0, 1),
        stale_seq,
        Generation(5),
        ObservedState::empty(),
    );
    assert!(!accepted);
    // the issued generation is never forgotten
    assert_eq!(
        svc.inspect(&InspectRequest { tenant_shard_id: tsid(7, 0, 1) })
            .attachment
            .unwrap()
            .generation,
        5
    );
}
