//! The end-to-end scenarios: service mutations driving the reconciler
//! state machine, with the test acting as the fleet and the transport.

use attachment_service::compute_hook::ComputeHook;
use attachment_service::ids::{Lsn, NodeId, TenantId, TenantShardId, TimelineId};
use attachment_service::location::LocationConfigMode;
use attachment_service::node::NodeAvailability;
use attachment_service::reconciler::{ReconcileAction, ReconcileError, ReconcileEvent};
use attachment_service::service::{
    AttachHookRequest, NodeConfigureRequest, NodeRegisterRequest, Service, TenantCreateRequest,
    TenantShardMigrateRequest, ValidateRequest, ValidateRequestTenant,
};
use attachment_service::ids::ShardCount;
use attachment_service::PlacementPolicy;
use tokio_util::sync::CancellationToken;

fn register(svc: &mut Service, id: u64) {
    svc.node_register(NodeRegisterRequest {
        node_id: NodeId(id),
        listen_http_addr: format!("ps{id}.local"),
        listen_http_port: 9898,
        listen_pg_addr: format!("ps{id}.local"),
        listen_pg_port: 5432,
    });
}

fn shard0(tenant: u128) -> TenantShardId {
    TenantShardId {
        tenant_id: TenantId(tenant),
        shard_number: attachment_service::ids::ShardNumber(0),
        shard_count: ShardCount(1),
    }
}

/// Drive a reconcile to completion, answering every PUT and notification
/// with success and every LSN listing with the given table. Returns the
/// PUTs in order as (node, mode, generation).
fn run_reconcile(
    svc: &mut Service,
    tsid: TenantShardId,
    lsns: Vec<(TimelineId, Lsn)>,
) -> Vec<(u64, LocationConfigMode, Option<u32>)> {
    let (mut rec, seq) = svc.spawn_reconciler(tsid, CancellationToken::new()).unwrap();
    let mut puts: Vec<(u64, LocationConfigMode, Option<u32>)> = Vec::new();
    let mut action = rec.reconcile_start(false);
    loop {
        let event = match &action {
            ReconcileAction::Put { node, config, .. } => {
                puts.push((node.0, config.mode, config.generation));
                ReconcileEvent::PutOk
            }
            ReconcileAction::GetLsns { .. } => ReconcileEvent::Lsns { lsns: lsns.clone() },
            ReconcileAction::Notify { .. } => ReconcileEvent::NotifyOk,
            ReconcileAction::Finished { result } => {
                assert!(result.is_ok());
                break;
            }
        };
        action = rec.reconcile_step(event, false);
    }
    let gen = rec.generation;
    let observed = rec.observed;
    assert!(svc.apply_reconcile_result(tsid, seq, gen, observed));
    puts
}

#[test]
fn first_attach() {
    let mut svc = Service::new();
    register(&mut svc, 1);
    let (resp, dirty) = svc
        .tenant_create(&TenantCreateRequest {
            tenant_id: TenantId(7),
            shard_count: ShardCount(1),
            shard_stripe_size: None,
            placement_policy: Some(PlacementPolicy::Single),
            config: attachment_service::location::TenantConfig::new(),
        })
        .unwrap();
    assert_eq!(resp.shards.len(), 1);
    assert_eq!(resp.shards[0].node_id, Some(NodeId(1)));
    assert_eq!(dirty, vec![shard0(7)]);

    let puts = run_reconcile(&mut svc, shard0(7), Vec::new());
    // a single location-config PUT: AttachedSingle under generation 1
    assert_eq!(puts, vec![(1, LocationConfigMode::AttachedSingle, Some(1))]);

    let locate = svc.tenant_locate(TenantId(7)).unwrap();
    assert_eq!(locate.shards.len(), 1);
    assert_eq!(locate.shards[0].node_id, NodeId(1));
    assert_eq!(locate.shards[0].listen_pg_addr, "ps1.local");
}

#[test]
fn node_offline_triggers_migration() {
    let mut svc = Service::new();
    register(&mut svc, 1);
    register(&mut svc, 2);
    svc.tenant_create(&TenantCreateRequest {
        tenant_id: TenantId(7),
        shard_count: ShardCount(1),
        shard_stripe_size: None,
        placement_policy: Some(PlacementPolicy::Double(1)),
        config: attachment_service::location::TenantConfig::new(),
    })
    .unwrap();
    // converge: N1 attached (gen 1), N2 secondary
    let puts = run_reconcile(&mut svc, shard0(7), Vec::new());
    assert_eq!(
        puts,
        vec![
            (1, LocationConfigMode::AttachedSingle, Some(1)),
            (2, LocationConfigMode::Secondary, None),
        ]
    );

    // N1 goes offline: the scheduler promotes N2
    let dirty = svc
        .node_configure(&NodeConfigureRequest {
            node_id: NodeId(1),
            availability: Some(NodeAvailability::Offline),
            scheduling: None,
        })
        .unwrap();
    assert_eq!(dirty, vec![shard0(7)]);
    let inspect = svc
        .inspect(&attachment_service::service::InspectRequest { tenant_shard_id: shard0(7) })
        .attachment
        .unwrap();
    assert_eq!(inspect.node_id, NodeId(2));

    // general-case reconcile (origin offline, so no live migration):
    // generation 2 on N2, compute notified, stale N1 detached
    let (mut rec, seq) = svc.spawn_reconciler(shard0(7), CancellationToken::new()).unwrap();
    let mut hook = ComputeHook::new();
    let action = rec.reconcile_start(false);
    match &action {
        ReconcileAction::Put { node, config, .. } => {
            assert_eq!(node.0, 2);
            assert_eq!(config.mode, LocationConfigMode::AttachedSingle);
            assert_eq!(config.generation, Some(2));
        }
        other => panic!("unexpected action {other:?}"),
    }
    let action = rec.reconcile_step(ReconcileEvent::PutOk, false);
    match &action {
        ReconcileAction::Notify { node } => {
            let req = hook.notify_plan(shard0(7), *node).unwrap();
            assert_eq!(req.node_id, NodeId(2));
        }
        other => panic!("unexpected action {other:?}"),
    }
    let action = rec.reconcile_step(ReconcileEvent::NotifyOk, false);
    match &action {
        ReconcileAction::Put { node, config, .. } => {
            assert_eq!(node.0, 1);
            assert_eq!(config.mode, LocationConfigMode::Detached);
        }
        other => panic!("unexpected action {other:?}"),
    }
    let action = rec.reconcile_step(ReconcileEvent::PutOk, false);
    assert!(matches!(action, ReconcileAction::Finished { result: Ok(()) }));
    assert!(svc.apply_reconcile_result(shard0(7), seq, rec.generation, rec.observed));
}

#[test]
fn live_migration_ordered_sequence() {
    let mut svc = Service::new();
    register(&mut svc, 1);
    register(&mut svc, 2);
    svc.tenant_create(&TenantCreateRequest {
        tenant_id: TenantId(7),
        shard_count: ShardCount(1),
        shard_stripe_size: None,
        placement_policy: Some(PlacementPolicy::Double(1)),
        config: attachment_service::location::TenantConfig::new(),
    })
    .unwrap();
    run_reconcile(&mut svc, shard0(7), Vec::new());

    // migrate T/0 to N2
    let (_resp, dirty) = svc
        .tenant_shard_migrate(shard0(7), &TenantShardMigrateRequest {
            tenant_shard_id: shard0(7),
            node_id: NodeId(2),
        })
        .unwrap();
    assert_eq!(dirty, vec![shard0(7)]);

    let (mut rec, seq) = svc.spawn_reconciler(shard0(7), CancellationToken::new()).unwrap();
    let tl = TimelineId(11);

    // 1. freeze origin: AttachedStale on N1 under its observed generation
    let action = rec.reconcile_start(false);
    match &action {
        ReconcileAction::Put { node, config, timeout_secs } => {
            assert_eq!(node.0, 1);
            assert_eq!(config.mode, LocationConfigMode::AttachedStale);
            assert_eq!(config.generation, Some(1));
            assert_eq!(*timeout_secs, Some(10));
        }
        other => panic!("unexpected action {other:?}"),
    }
    // 2. baseline LSNs from the origin
    let action = rec.reconcile_step(ReconcileEvent::PutOk, false);
    assert!(matches!(&action, ReconcileAction::GetLsns { node } if node.0 == 1));
    // 3.+4. bump generation, attach destination in multi mode
    let action = rec.reconcile_step(
        ReconcileEvent::Lsns { lsns: vec![(tl, Lsn(100))] },
        false,
    );
    match &action {
        ReconcileAction::Put { node, config, .. } => {
            assert_eq!(node.0, 2);
            assert_eq!(config.mode, LocationConfigMode::AttachedMulti);
            assert_eq!(config.generation, Some(2));
        }
        other => panic!("unexpected action {other:?}"),
    }
    // 5. poll catch-up: once behind, then caught up
    let action = rec.reconcile_step(ReconcileEvent::PutOk, false);
    assert!(matches!(&action, ReconcileAction::GetLsns { node } if node.0 == 2));
    let action = rec.reconcile_step(
        ReconcileEvent::Lsns { lsns: vec![(tl, Lsn(50))] },
        false,
    );
    assert!(matches!(&action, ReconcileAction::GetLsns { node } if node.0 == 2));
    let action = rec.reconcile_step(
        ReconcileEvent::Lsns { lsns: vec![(tl, Lsn(100))] },
        false,
    );
    // 6. commit point: notify compute of N2
    assert!(matches!(&action, ReconcileAction::Notify { node } if node.0 == 2));
    // 7. downgrade origin to warm secondary
    let action = rec.reconcile_step(ReconcileEvent::NotifyOk, false);
    match &action {
        ReconcileAction::Put { node, config, .. } => {
            assert_eq!(node.0, 1);
            assert_eq!(config.mode, LocationConfigMode::Secondary);
            assert_eq!(config.generation, None);
            assert_eq!(config.secondary_conf.unwrap().warm, true);
        }
        other => panic!("unexpected action {other:?}"),
    }
    // 8. promote destination to AttachedSingle under the bumped generation
    let action = rec.reconcile_step(ReconcileEvent::PutOk, false);
    match &action {
        ReconcileAction::Put { node, config, .. } => {
            assert_eq!(node.0, 2);
            assert_eq!(config.mode, LocationConfigMode::AttachedSingle);
            assert_eq!(config.generation, Some(2));
        }
        other => panic!("unexpected action {other:?}"),
    }
    // nothing else differs: the origin is the (already-correct) secondary
    let action = rec.reconcile_step(ReconcileEvent::PutOk, false);
    assert!(matches!(action, ReconcileAction::Finished { result: Ok(()) }));
    assert!(svc.apply_reconcile_result(shard0(7), seq, rec.generation, rec.observed));
    let inspect = svc
        .inspect(&attachment_service::service::InspectRequest { tenant_shard_id: shard0(7) })
        .attachment
        .unwrap();
    assert_eq!(inspect.node_id, NodeId(2));
    assert_eq!(inspect.generation, 2);
}

#[test]
fn validate_rejects_stale() {
    let mut svc = Service::new();
    register(&mut svc, 1);
    register(&mut svc, 2);
    let g1 = svc
        .attach_hook(AttachHookRequest { tenant_shard_id: shard0(7), node_id: Some(NodeId(1)) })
        .unwrap()
        .generation
        .unwrap();
    assert_eq!(g1, 1);
    let g2 = svc
        .attach_hook(AttachHookRequest { tenant_shard_id: shard0(7), node_id: Some(NodeId(2)) })
        .unwrap()
        .generation
        .unwrap();
    assert_eq!(g2, 2);
    let resp = svc.validate(&ValidateRequest {
        tenants: vec![
            ValidateRequestTenant { id: shard0(7), generation: g1 },
            ValidateRequestTenant { id: shard0(7), generation: g2 },
        ],
    });
    assert_eq!(resp.tenants[0].valid, false);
    assert_eq!(resp.tenants[1].valid, true);
}

#[test]
fn re_attach_after_restart() {
    let mut svc = Service::new();
    register(&mut svc, 1);
    svc.tenant_create(&TenantCreateRequest {
        tenant_id: TenantId(7),
        shard_count: ShardCount(1),
        shard_stripe_size: None,
        placement_policy: Some(PlacementPolicy::Single),
        config: attachment_service::location::TenantConfig::new(),
    })
    .unwrap();
    run_reconcile(&mut svc, shard0(7), Vec::new());

    // N1 restarts and presents its shard: it is still the attached
    // location, so it gets the (freshly bumped) current generation
    let resp = svc.re_attach(&attachment_service::service::ReAttachRequest {
        node_id: NodeId(1),
        shards: vec![shard0(7)],
    });
    assert_eq!(resp.tenants.len(), 1);
    assert_eq!(resp.tenants[0].id, shard0(7));
    assert_eq!(resp.tenants[0].generation, 2);
    let inspect = svc
        .inspect(&attachment_service::service::InspectRequest { tenant_shard_id: shard0(7) })
        .attachment
        .unwrap();
    assert_eq!(inspect.generation, 2);

    // once the intent no longer includes the node, re-attach returns
    // nothing for it and the next reconciler detaches it
    register(&mut svc, 2);
    svc.tenant_shard_migrate(shard0(7), &TenantShardMigrateRequest {
        tenant_shard_id: shard0(7),
        node_id: NodeId(2),
    })
    .unwrap();
    let resp = svc.re_attach(&attachment_service::service::ReAttachRequest {
        node_id: NodeId(1),
        shards: vec![shard0(7)],
    });
    assert_eq!(resp.tenants.len(), 0);
}

#[test]
fn cancel_mid_migration() {
    let mut svc = Service::new();
    register(&mut svc, 1);
    register(&mut svc, 2);
    svc.tenant_create(&TenantCreateRequest {
        tenant_id: TenantId(7),
        shard_count: ShardCount(1),
        shard_stripe_size: None,
        placement_policy: Some(PlacementPolicy::Double(1)),
        config: attachment_service::location::TenantConfig::new(),
    })
    .unwrap();
    run_reconcile(&mut svc, shard0(7), Vec::new());
    svc.tenant_shard_migrate(shard0(7), &TenantShardMigrateRequest {
        tenant_shard_id: shard0(7),
        node_id: NodeId(2),
    })
    .unwrap();

    // run the migration through step 2 (destination attached in multi mode)
    let token = CancellationToken::new();
    let (mut rec, seq) = svc.spawn_reconciler(shard0(7), token.clone()).unwrap();
    let tl = TimelineId(11);
    let action = rec.reconcile_start(rec.poll_cancelled());
    assert!(matches!(&action, ReconcileAction::Put { node, .. } if node.0 == 1));
    let action = rec.reconcile_step(ReconcileEvent::PutOk, rec.poll_cancelled());
    assert!(matches!(&action, ReconcileAction::GetLsns { node } if node.0 == 1));
    let action = rec.reconcile_step(
        ReconcileEvent::Lsns { lsns: vec![(tl, Lsn(100))] },
        rec.poll_cancelled(),
    );
    assert!(matches!(&action, ReconcileAction::Put { node, .. } if node.0 == 2));
    let action = rec.reconcile_step(ReconcileEvent::PutOk, rec.poll_cancelled());
    assert!(matches!(&action, ReconcileAction::GetLsns { node } if node.0 == 2));

    // the destination goes offline: the service re-schedules (back to N1,
    // still active) and the stale reconciler is cancelled
    let dirty = svc
        .node_configure(&NodeConfigureRequest {
            node_id: NodeId(2),
            availability: Some(NodeAvailability::Offline),
            scheduling: None,
        })
        .unwrap();
    assert_eq!(dirty, vec![shard0(7)]);
    token.cancel();
    let action = rec.reconcile_step(
        ReconcileEvent::Lsns { lsns: vec![(tl, Lsn(100))] },
        rec.poll_cancelled(),
    );
    assert!(matches!(
        action,
        ReconcileAction::Finished { result: Err(ReconcileError::ShuttingDown) }
    ));

    // posting the cancelled run's result: its observed patches are stale
    // (the sequence moved on), but its generation bump is kept
    let accepted = svc.apply_reconcile_result(shard0(7), seq, rec.generation, rec.observed);
    assert!(!accepted);
    let inspect = svc
        .inspect(&attachment_service::service::InspectRequest { tenant_shard_id: shard0(7) })
        .attachment
        .unwrap();
    assert_eq!(inspect.node_id, NodeId(1));
    assert_eq!(inspect.generation, 2);

    // the replacement reconciler converges back to N1 under a fresh,
    // strictly higher generation
    let puts = run_reconcile(&mut svc, shard0(7), Vec::new());
    assert_eq!(puts[0], (1, LocationConfigMode::AttachedSingle, Some(3)));
    let inspect = svc
        .inspect(&attachment_service::service::InspectRequest { tenant_shard_id: shard0(7) })
        .attachment
        .unwrap();
    assert_eq!(inspect.node_id, NodeId(1));
    assert!(inspect.generation >= 3);
}

#[test]
fn attach_generations_strictly_increase_across_history() {
    // a history of attach, failover and migration: every generation
    // carried by an attach-promoting configuration is strictly larger
    // than the one before
    let mut svc = Service::new();
    register(&mut svc, 1);
    register(&mut svc, 2);
    svc.tenant_create(&TenantCreateRequest {
        tenant_id: TenantId(7),
        shard_count: ShardCount(1),
        shard_stripe_size: None,
        placement_policy: Some(PlacementPolicy::Double(1)),
        config: attachment_service::location::TenantConfig::new(),
    })
    .unwrap();
    let mut promoted: Vec<u32> = Vec::new();
    let mut record = |puts: &[(u64, LocationConfigMode, Option<u32>)]| {
        for (_, mode, generation) in puts {
            if matches!(mode, LocationConfigMode::AttachedSingle | LocationConfigMode::AttachedMulti)
            {
                if let Some(g) = generation {
                    if promoted.last() != Some(g) {
                        promoted.push(*g);
                    }
                }
            }
        }
    };
    let tl = TimelineId(11);
    let puts = run_reconcile(&mut svc, shard0(7), vec![(tl, Lsn(10))]);
    record(&puts);
    svc.tenant_shard_migrate(shard0(7), &TenantShardMigrateRequest {
        tenant_shard_id: shard0(7),
        node_id: NodeId(2),
    })
    .unwrap();
    let puts = run_reconcile(&mut svc, shard0(7), vec![(tl, Lsn(10))]);
    record(&puts);
    svc.node_configure(&NodeConfigureRequest {
        node_id: NodeId(2),
        availability: Some(NodeAvailability::Offline),
        scheduling: None,
    })
    .unwrap();
    let puts = run_reconcile(&mut svc, shard0(7), vec![(tl, Lsn(10))]);
    record(&puts);
    assert!(promoted.len() >= 3);
    for w in promoted.windows(2) {
        assert!(w[0] < w[1], "promoting generations {promoted:?} not strictly increasing");
    }
}
