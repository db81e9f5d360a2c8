//! Reconciler unit behavior: configuration builders, catch-up decisions,
//! failure and cancellation paths, and healing of stale locations.

use attachment_service::ids::{Generation, Lsn, NodeId, TenantId, TenantShardId, TimelineId};
use attachment_service::location::{
    attached_location_conf, build_location_config, detached_location_conf,
    secondary_location_conf, LocationConfig, LocationConfigMode, LocationConfigSecondary,
    TenantConfig,
};
use attachment_service::reconciler::{
    lsns_caught_up, ReconcileAction, ReconcileError, ReconcileEvent, Reconciler,
};
use attachment_service::shard::ShardIdentity;
use attachment_service::tenant_state::{IntentState, ObservedState, ObservedStateLocation};
use attachment_service::node::{Node, NodeAvailability, NodeSchedulingPolicy};
use tokio_util::sync::CancellationToken;

fn node(id: u64, availability: NodeAvailability) -> Node {
    Node {
        id: NodeId(id),
        listen_http_addr: format!("ps{id}.local"),
        listen_http_port: 9898,
        listen_pg_addr: format!("ps{id}.local"),
        listen_pg_port: 5432,
        availability,
        scheduling: NodeSchedulingPolicy::Active,
    }
}

fn tsid() -> TenantShardId {
    TenantShardId {
        tenant_id: TenantId(7),
        shard_number: attachment_service::ids::ShardNumber(0),
        shard_count: attachment_service::ids::ShardCount(1),
    }
}

fn observed(entries: Vec<(u64, Option<LocationConfig>)>) -> ObservedState {
    let mut o = ObservedState::empty();
    for (id, conf) in entries {
        o.insert(NodeId(id), ObservedStateLocation { conf });
    }
    o
}

fn reconciler(
    generation: u32,
    attached: Option<u64>,
    secondary: Vec<u64>,
    obs: ObservedState,
    pageservers: Vec<Node>,
) -> Reconciler {
    Reconciler::new(
        tsid(),
        ShardIdentity::default(),
        Generation(generation),
        IntentState {
            attached: attached.map(NodeId),
            secondary: secondary.into_iter().map(NodeId).collect(),
        },
        TenantConfig::new(),
        obs,
        pageservers,
        CancellationToken::new(),
    )
}

#[test]
fn location_conf_builders_are_exact() {
    let shard = ShardIdentity::default();
    let conf = TenantConfig::new();
    let attached = attached_location_conf(Generation(3), &shard, &conf);
    assert_eq!(attached.mode, LocationConfigMode::AttachedSingle);
    assert_eq!(attached.generation, Some(3));
    assert_eq!(attached.secondary_conf, None);
    assert_eq!(attached.shard_number, 0);
    assert_eq!(attached.shard_count, 1);
    assert_eq!(attached.shard_stripe_size, 32768);

    let secondary = secondary_location_conf(&shard, &conf);
    assert_eq!(secondary.mode, LocationConfigMode::Secondary);
    assert_eq!(secondary.generation, None);
    assert_eq!(secondary.secondary_conf, Some(LocationConfigSecondary { warm: true }));

    let detached = detached_location_conf(&shard, &conf);
    assert_eq!(detached.mode, LocationConfigMode::Detached);
    assert_eq!(detached.generation, None);
    assert_eq!(detached.secondary_conf, None);

    let stale = build_location_config(
        &shard,
        &conf,
        LocationConfigMode::AttachedStale,
        Some(Generation(5)),
        None,
    );
    assert_eq!(stale.mode, LocationConfigMode::AttachedStale);
    assert_eq!(stale.generation, Some(5));
}

#[test]
fn lsn_catch_up_decision() {
    let t1 = TimelineId(1);
    let t2 = TimelineId(2);
    let baseline = vec![(t1, Lsn(100)), (t2, Lsn(50))];
    // equal or ahead on every timeline: caught up
    assert!(lsns_caught_up(&baseline, &vec![(t1, Lsn(100)), (t2, Lsn(51))]));
    // behind on one timeline: not caught up
    assert!(!lsns_caught_up(&baseline, &vec![(t1, Lsn(99)), (t2, Lsn(51))]));
    // a missing timeline counts as not yet caught up
    assert!(!lsns_caught_up(&baseline, &vec![(t1, Lsn(100))]));
    // an empty baseline needs nothing
    assert!(lsns_caught_up(&Vec::new(), &Vec::new()));
}

#[test]
fn migration_selection_requires_active_origin() {
    let shard = ShardIdentity::default();
    let conf = TenantConfig::new();
    let single = attached_location_conf(Generation(1), &shard, &conf);
    let secondary = secondary_location_conf(&shard, &conf);

    // destination is a secondary, origin attached and active: migrate
    let rec = reconciler(
        1,
        Some(2),
        vec![],
        observed(vec![(1, Some(single)), (2, Some(secondary))]),
        vec![node(1, NodeAvailability::Active), node(2, NodeAvailability::Active)],
    );
    assert_eq!(rec.select_migration(), Some((NodeId(1), NodeId(2))));

    // origin offline: no live migration
    let rec = reconciler(
        1,
        Some(2),
        vec![],
        observed(vec![(1, Some(single)), (2, Some(secondary))]),
        vec![node(1, NodeAvailability::Offline), node(2, NodeAvailability::Active)],
    );
    assert_eq!(rec.select_migration(), None);

    // destination uncertain (a call in flight): no live migration
    let rec = reconciler(
        1,
        Some(2),
        vec![],
        observed(vec![(1, Some(single)), (2, None)]),
        vec![node(1, NodeAvailability::Active), node(2, NodeAvailability::Active)],
    );
    assert_eq!(rec.select_migration(), None);

    // destination unknown to observed state: migrate
    let rec = reconciler(
        1,
        Some(2),
        vec![],
        observed(vec![(1, Some(single))]),
        vec![node(1, NodeAvailability::Active), node(2, NodeAvailability::Active)],
    );
    assert_eq!(rec.select_migration(), Some((NodeId(1), NodeId(2))));
}

#[test]
fn put_failure_leaves_uncertainty_and_fails_the_run() {
    let mut rec = reconciler(0, Some(1), vec![], ObservedState::empty(), vec![node(
        1,
        NodeAvailability::Active,
    )]);
    let action = rec.reconcile_start(false);
    assert!(matches!(&action, ReconcileAction::Put { node, .. } if node.0 == 1));
    // the uncertainty window opened before the call
    assert!(matches!(rec.observed.get(NodeId(1)), Some(ObservedStateLocation { conf: None })));
    let action = rec.reconcile_step(ReconcileEvent::PutFailed, false);
    assert!(matches!(
        action,
        ReconcileAction::Finished { result: Err(ReconcileError::Remote) }
    ));
    // the entry stays uncertain, to be healed by the next run
    assert!(matches!(rec.observed.get(NodeId(1)), Some(ObservedStateLocation { conf: None })));
}

#[test]
fn cancellation_stops_before_any_call() {
    let mut rec = reconciler(0, Some(1), vec![], ObservedState::empty(), vec![node(
        1,
        NodeAvailability::Active,
    )]);
    let action = rec.reconcile_start(true);
    assert!(matches!(
        action,
        ReconcileAction::Finished { result: Err(ReconcileError::ShuttingDown) }
    ));
    assert!(rec.observed.get(NodeId(1)).is_none());
}

#[test]
fn notify_failure_on_general_attach_is_tolerated() {
    let mut rec = reconciler(0, Some(1), vec![], ObservedState::empty(), vec![node(
        1,
        NodeAvailability::Active,
    )]);
    let action = rec.reconcile_start(false);
    assert!(matches!(&action, ReconcileAction::Put { .. }));
    let action = rec.reconcile_step(ReconcileEvent::PutOk, false);
    assert!(matches!(&action, ReconcileAction::Notify { node } if node.0 == 1));
    // compute will re-resolve through other paths; the run still converges
    let action = rec.reconcile_step(ReconcileEvent::NotifyFailed, false);
    assert!(matches!(action, ReconcileAction::Finished { result: Ok(()) }));
}

#[test]
fn stale_location_is_detached_on_next_cycle() {
    // a node holds a leftover attachment the intent no longer references
    let shard = ShardIdentity::default();
    let conf = TenantConfig::new();
    let old_single = attached_location_conf(Generation(1), &shard, &conf);
    let cur_single = attached_location_conf(Generation(2), &shard, &conf);
    let mut rec = reconciler(
        2,
        Some(2),
        vec![],
        observed(vec![(1, Some(old_single)), (2, Some(cur_single))]),
        vec![node(1, NodeAvailability::Offline), node(2, NodeAvailability::Active)],
    );
    // the attachment is already as derived, so the only work is the detach
    let action = rec.reconcile_start(false);
    match &action {
        ReconcileAction::Put { node, config, .. } => {
            assert_eq!(node.0, 1);
            assert_eq!(config.mode, LocationConfigMode::Detached);
        }
        other => panic!("unexpected action {other:?}"),
    }
    let action = rec.reconcile_step(ReconcileEvent::PutOk, false);
    assert!(matches!(action, ReconcileAction::Finished { result: Ok(()) }));
    match rec.observed.get(NodeId(1)) {
        Some(loc) => assert_eq!(loc.conf.unwrap().mode, LocationConfigMode::Detached),
        None => panic!("expected a detached record"),
    }
}

#[test]
fn nothing_to_do_finishes_immediately() {
    let shard = ShardIdentity::default();
    let conf = TenantConfig::new();
    let single = attached_location_conf(Generation(1), &shard, &conf);
    let secondary = secondary_location_conf(&shard, &conf);
    let mut rec = reconciler(
        1,
        Some(1),
        vec![2],
        observed(vec![(1, Some(single)), (2, Some(secondary))]),
        vec![node(1, NodeAvailability::Active), node(2, NodeAvailability::Active)],
    );
    // destination of the intent is already attached: no migration, and
    // every observed configuration already matches the derivation
    let action = rec.reconcile_start(false);
    assert!(matches!(action, ReconcileAction::Finished { result: Ok(()) }));
    assert_eq!(rec.generation, Generation(1));
}
