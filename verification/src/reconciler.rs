//! The reconciler: a background task that drives one shard's observed
//! state to its intent, including the multi-phase live-migration protocol.
//!
//! The reconciler here is a verified state machine. Each call of
//! [`Reconciler::reconcile_start`] or [`Reconciler::reconcile_step`]
//! consumes the outcome of the previous outward call (an HTTP PUT of a
//! location config, an LSN listing, a compute notification) and returns
//! the next [`ReconcileAction`] for the driver to perform. The driver
//! performs I/O only; every decision, every configuration written and
//! every observed-state transition is made and proved here.
//!
//! Every location-config call follows the uncertainty protocol: the
//! observed entry for the node is set to unknown before the call is
//! issued, and set to the written configuration only once the call has
//! succeeded, so a crash between send and response never leaves the
//! controller believing a stale configuration is live.

use vstd::prelude::*;
use vstd::pervasive::unreached;
use tokio_util::sync::CancellationToken;
use crate::cancellation::token_is_cancelled;
use crate::ids::{Generation, Lsn, NodeId, TenantShardId, TimelineId};
use crate::location::{
    attached_location_conf, build_location_config, detached_location_conf, secondary_location_conf,
    spec_attached_conf, spec_build_conf, spec_detached_conf, spec_secondary_conf, LocationConfig,
    LocationConfigMode, TenantConfig,
};
use crate::node::{Node, NodeAvailability};
use crate::shard::ShardIdentity;
use crate::tenant_state::{
    obs_contains, obs_distinct, obs_lookup, IntentState, ObservedState, ObservedStateLocation,
};

verus! {

/// Why a reconcile ended without converging.
#[derive(Clone, Copy, PartialEq, Eq, Structural, Debug)]
pub enum ReconcileError {
    /// The cancellation token fired: the shard's intent changed under us
    /// or the service is shutting down.
    ShuttingDown,
    /// An outward call failed; the next reconcile will heal the `None`
    /// observed entries left behind.
    Remote,
}

/// What the driver must do next.
#[derive(Debug)]
pub enum ReconcileAction {
    /// PUT the location config to the node, with an optional server-side
    /// timeout in seconds; report `PutOk` on HTTP 2xx, else `PutFailed`.
    Put { node: NodeId, config: LocationConfig, timeout_secs: Option<u64> },
    /// List `(timeline, last_record_lsn)` on the node; report `Lsns` or
    /// `LsnsFailed`. The driver should pause briefly before repeating a
    /// listing that left the machine in the same phase.
    GetLsns { node: NodeId },
    /// Notify compute that the shard now lives on the node; report
    /// `NotifyOk` or `NotifyFailed`.
    Notify { node: NodeId },
    /// The reconcile is over.
    Finished { result: Result<(), ReconcileError> },
}

/// The outcome of the action the driver just performed.
#[derive(Debug)]
pub enum ReconcileEvent {
    PutOk,
    PutFailed,
    Lsns { lsns: Vec<(TimelineId, Lsn)> },
    LsnsFailed,
    NotifyOk,
    NotifyFailed,
}

/// Where the state machine stands: which outward call is in flight.
/// The apply queue and the baseline LSN snapshot live beside the phase
/// on the [`Reconciler`] itself.
#[derive(Clone, Copy, PartialEq, Eq, Structural, Debug)]
pub enum ReconcilePhase {
    /// Nothing issued yet.
    Start,
    /// Live migration: freezing the origin with `AttachedStale` under its
    /// last known generation.
    MigFreeze { origin: NodeId, dest: NodeId, stale_gen: Generation },
    /// Live migration: reading baseline LSNs from the frozen origin.
    MigBaseline { origin: NodeId, dest: NodeId },
    /// Live migration: attaching the destination in `AttachedMulti` under
    /// the freshly bumped generation.
    MigAttachDest { origin: NodeId, dest: NodeId },
    /// Live migration: polling the destination until every baseline
    /// timeline has caught up.
    MigCatchup { origin: NodeId, dest: NodeId },
    /// Live migration: switching the compute to the destination. This is
    /// the commit point.
    MigNotify { origin: NodeId, dest: NodeId },
    /// Live migration: downgrading the origin to a warm secondary.
    MigDowngrade { origin: NodeId, dest: NodeId },
    /// Live migration: promoting the destination to `AttachedSingle`.
    MigPromote { origin: NodeId, dest: NodeId },
    /// General case: attaching the intended node under a bumped generation.
    GenAttach { node: NodeId },
    /// General case: notifying compute of the new attachment (a failure
    /// here is tolerated; compute re-resolves through other paths).
    GenNotify { node: NodeId },
    /// General case: applying queued secondary and detach configurations
    /// one by one; the call for `queue[next]` is in flight.
    GenApplies,
    /// Converged: observed state matches intent.
    Done,
    /// Gave up: cancelled or an outward call failed.
    Failed,
}

/// Object with the lifetime of one background reconcile: an immutable
/// snapshot of the shard's state and registry from when the reconcile was
/// spawned, plus the machine's phase.
pub struct Reconciler {
    pub tenant_shard_id: TenantShardId,
    pub shard: ShardIdentity,
    /// May be bumped during the run; posted back with the result.
    pub generation: Generation,
    pub intent: IntentState,
    pub config: TenantConfig,
    pub observed: ObservedState,
    /// Registry snapshot; never re-read during the run (availability
    /// changes reach the reconciler as cancellation).
    pub pageservers: Vec<Node>,
    /// Cooperative cancellation, polled before every outward call.
    pub cancel: CancellationToken,
    pub phase: ReconcilePhase,
    /// In `GenApplies`: the secondary and detach configurations still to
    /// apply; `queue[next]` is in flight.
    pub queue: Vec<(NodeId, LocationConfig)>,
    pub next: usize,
    /// In the migration phases: `(timeline, last_record_lsn)` read from
    /// the frozen origin, which the destination must catch up to.
    pub baseline: Vec<(TimelineId, Lsn)>,
    /// Every generation under which an attach-promoting configuration
    /// (`AttachedSingle` on a general attach, `AttachedMulti` on a
    /// migration) was put on the wire by this run, in order.
    pub attach_gens: Ghost<Seq<u32>>,
    /// Whether, when this run began, no node other than a single origin
    /// showed an attached-mode configuration. Under this flag the
    /// migration phases preserve attachment exclusivity.
    pub entry_exclusive: Ghost<bool>,
}

/// The node's observed configuration shows `AttachedSingle`.
pub open spec fn obs_single(obs: ObservedState, n: NodeId) -> bool {
    match obs.spec_get(n) {
        Some(rec) => match rec.conf {
            Some(c) => c.mode == LocationConfigMode::AttachedSingle,
            None => false,
        },
        None => false,
    }
}

/// The node's observed configuration shows `AttachedMulti`.
pub open spec fn obs_multi(obs: ObservedState, n: NodeId) -> bool {
    match obs.spec_get(n) {
        Some(rec) => match rec.conf {
            Some(c) => c.mode == LocationConfigMode::AttachedMulti,
            None => false,
        },
        None => false,
    }
}

/// The node's observed record is present but uncertain (a call is in
/// flight or failed).
pub open spec fn obs_unknown(obs: ObservedState, n: NodeId) -> bool {
    obs.spec_get(n) == Some(ObservedStateLocation { conf: None::<LocationConfig> })
}

/// The node's observed record holds exactly this configuration.
pub open spec fn obs_is(obs: ObservedState, n: NodeId, c: LocationConfig) -> bool {
    obs.spec_get(n) == Some(ObservedStateLocation { conf: Some(c) })
}

/// The first node in the registry snapshot with this id.
pub open spec fn ps_lookup(ps: Seq<Node>, n: NodeId) -> Option<Node>
    decreases ps.len(),
{
    if ps.len() == 0 {
        None
    } else if ps[0].id == n {
        Some(ps[0])
    } else {
        ps_lookup(ps.drop_first(), n)
    }
}

/// Known to the registry snapshot and not offline. Live migration never
/// uses an offline or unknown node as its origin.
pub open spec fn ps_active(ps: Seq<Node>, n: NodeId) -> bool {
    match ps_lookup(ps, n) {
        Some(node) => node.availability != NodeAvailability::Offline,
        None => false,
    }
}

/// The first node in the observed table that shows `AttachedSingle` and
/// is not offline in the snapshot: the candidate origin of a live
/// migration.
pub open spec fn first_active_single(
    obs: Seq<(NodeId, ObservedStateLocation)>,
    ps: Seq<Node>,
) -> Option<NodeId>
    decreases obs.len(),
{
    if obs.len() == 0 {
        None
    } else if (match obs[0].1.conf {
        Some(c) => c.mode == LocationConfigMode::AttachedSingle,
        None => false,
    }) && ps_active(ps, obs[0].0) {
        Some(obs[0].0)
    } else {
        first_active_single(obs.drop_first(), ps)
    }
}

pub proof fn lemma_ps_lookup_first_match(ps: Seq<Node>, n: NodeId, i: int)
    requires
        0 <= i < ps.len(),
        ps[i].id == n,
        forall|j: int| 0 <= j < i ==> ps[j].id != n,
    ensures
        ps_lookup(ps, n) == Some(ps[i]),
    decreases i,
{
    if i > 0 {
        lemma_ps_lookup_first_match(ps.drop_first(), n, i - 1);
    }
}

proof fn lemma_ps_lookup_absent(ps: Seq<Node>, n: NodeId)
    requires
        forall|j: int| 0 <= j < ps.len() ==> ps[j].id != n,
    ensures
        ps_lookup(ps, n) is None,
    decreases ps.len(),
{
    if ps.len() > 0 {
        lemma_ps_lookup_absent(ps.drop_first(), n);
    }
}

/// Whether the registry snapshot knows the node and does not list it
/// offline.
pub fn ps_active_exec(ps: &Vec<Node>, n: NodeId) -> (r: bool)
    ensures
        r == ps_active(ps@, n),
{
    let mut i: usize = 0;
    while i < ps.len()
        invariant
            i <= ps@.len(),
            forall|j: int| 0 <= j < i ==> ps@[j].id != n,
        decreases ps@.len() - i,
    {
        if ps[i].id.0 == n.0 {
            proof {
                lemma_ps_lookup_first_match(ps@, n, i as int);
            }
            return match ps[i].availability {
                NodeAvailability::Offline => false,
                NodeAvailability::Active => true,
            };
        }
        i = i + 1;
    }
    proof {
        lemma_ps_lookup_absent(ps@, n);
    }
    false
}

/// A sequence of generation numbers that strictly increases.
pub open spec fn strictly_increasing(s: Seq<u32>) -> bool {
    forall|i: int, j: int| 0 <= i < j < s.len() ==> s[i] < s[j]
}

/// No node but the named one shows an attached-mode (`AttachedSingle` or
/// `AttachedMulti`) configuration.
pub open spec fn no_attach_except(obs: ObservedState, o: NodeId) -> bool {
    forall|n: NodeId| n != o ==> !obs_single(obs, n) && !obs_multi(obs, n)
}

/// No node at all shows `AttachedSingle`.
pub open spec fn no_single_at_all(obs: ObservedState) -> bool {
    forall|n: NodeId| !obs_single(obs, n)
}

/// No node but the named one shows `AttachedMulti`.
pub open spec fn no_multi_except(obs: ObservedState, d: NodeId) -> bool {
    forall|n: NodeId| n != d ==> !obs_multi(obs, n)
}

/// The node's observed configuration shows `AttachedStale`.
pub open spec fn obs_stale(obs: ObservedState, n: NodeId) -> bool {
    match obs.spec_get(n) {
        Some(rec) => match rec.conf {
            Some(c) => c.mode == LocationConfigMode::AttachedStale,
            None => false,
        },
        None => false,
    }
}

/// The observed state changed at exactly one node, whose record now holds
/// the given configuration (or uncertainty).
pub open spec fn obs_updated(
    pre: ObservedState,
    post: ObservedState,
    n: NodeId,
    c: Option<LocationConfig>,
) -> bool {
    &&& post.spec_get(n) == Some(ObservedStateLocation { conf: c })
    &&& (forall|m: NodeId| m != n ==> post.spec_get(m) == pre.spec_get(m))
    &&& (forall|m: NodeId|
        obs_contains(post.locations@, m) == (obs_contains(pre.locations@, m) || m == n))
    &&& post.wf()
}

/// The migration origin that the scan selects is observed as the sole
/// attachment: its (unique) record carries an `AttachedSingle` config.
proof fn lemma_first_active_single_is_single(s: Seq<(NodeId, ObservedStateLocation)>, ps: Seq<Node>)
    requires
        obs_distinct(s),
    ensures
        match first_active_single(s, ps) {
            Some(o) => match obs_lookup(s, o) {
                Some(rec) => match rec.conf {
                    Some(c) => c.mode == LocationConfigMode::AttachedSingle,
                    None => false,
                },
                None => false,
            },
            None => true,
        },
    decreases s.len(),
{
    if s.len() == 0 {
    } else {
        let head_matches = (match s[0].1.conf {
            Some(c) => c.mode == LocationConfigMode::AttachedSingle,
            None => false,
        }) && ps_active(ps, s[0].0);
        if head_matches {
        } else {
            assert(obs_distinct(s.drop_first()));
            lemma_first_active_single_is_single(s.drop_first(), ps);
            match first_active_single(s.drop_first(), ps) {
                Some(o) => {
                    lemma_obs_contains_index(s.drop_first(), o);
                    let j = choose|j: int|
                        0 <= j < s.drop_first().len() && s.drop_first()[j].0 == o;
                    assert(s[j + 1].0 == o);
                    assert(s[0].0 != o);
                },
                None => {},
            }
        }
    }
}

/// The observed state changed at exactly two nodes, in order: first
/// `n1`, then `n2`.
pub open spec fn obs_updated2(
    pre: ObservedState,
    post: ObservedState,
    n1: NodeId,
    c1: Option<LocationConfig>,
    n2: NodeId,
    c2: Option<LocationConfig>,
) -> bool {
    &&& post.spec_get(n2) == Some(ObservedStateLocation { conf: c2 })
    &&& (n1 != n2 ==> post.spec_get(n1) == Some(ObservedStateLocation { conf: c1 }))
    &&& (forall|m: NodeId| m != n1 && m != n2 ==> post.spec_get(m) == pre.spec_get(m))
    &&& (forall|m: NodeId|
        obs_contains(post.locations@, m) == (obs_contains(pre.locations@, m) || m == n1 || m
            == n2))
    &&& post.wf()
}

/// A run that gave up: the phase is `Failed`, nothing else moved, and the
/// driver received the error.
pub open spec fn failed_rel(
    pre: Reconciler,
    post: Reconciler,
    action: ReconcileAction,
    err: ReconcileError,
) -> bool {
    &&& post.phase == ReconcilePhase::Failed
    &&& post.observed == pre.observed
    &&& post.generation == pre.generation
    &&& post.attach_gens == pre.attach_gens
    &&& action == (ReconcileAction::Finished { result: Err::<(), ReconcileError>(err) })
}

/// The fields a reconcile never touches.
pub open spec fn frame_ok(pre: Reconciler, post: Reconciler) -> bool {
    &&& post.tenant_shard_id == pre.tenant_shard_id
    &&& post.shard == pre.shard
    &&& post.intent == pre.intent
    &&& post.config == pre.config
    &&& post.pageservers == pre.pageservers
}

/// The generation the origin of a migration is frozen under: its own
/// observed generation when known, else the run's current generation.
pub open spec fn spec_stale_gen(r: Reconciler, o: NodeId) -> Generation {
    match r.observed.spec_get(o) {
        Some(rec) => match rec.conf {
            Some(c) => match c.generation {
                Some(g) => Generation(g),
                None => r.generation,
            },
            None => r.generation,
        },
        None => r.generation,
    }
}

/// The general-case continuation, entered when no live migration applies
/// (directly from the start, or after a migration has promoted its
/// destination). `obs0` is the observed state at entry. Either the
/// intended attached node needs a fresh attachment under a bumped
/// generation, or the remaining differences are queued and applied, or
/// there is nothing to do.
pub open spec fn general_rel(
    pre: Reconciler,
    obs0: ObservedState,
    post: Reconciler,
    action: ReconcileAction,
) -> bool {
    let wanted = spec_attached_conf(pre.generation, pre.shard, pre.config);
    let sec = spec_secondary_conf(pre.shard, pre.config);
    let det = spec_detached_conf(pre.shard, pre.config);
    let needs_attach = match pre.intent.attached {
        Some(n) => !obs_is(obs0, n, wanted),
        None => false,
    };
    if needs_attach {
        let n = pre.intent.attached->0;
        &&& post.generation.0 == pre.generation.0 + 1
        &&& obs_updated(obs0, post.observed, n, None::<LocationConfig>)
        &&& post.phase == (ReconcilePhase::GenAttach { node: n })
        &&& post.attach_gens@ == pre.attach_gens@.push(post.generation.0)
        &&& action == (ReconcileAction::Put {
            node: n,
            config: spec_attached_conf(post.generation, pre.shard, pre.config),
            timeout_secs: None::<u64>,
        })
    } else {
        queue_rel(pre, obs0, post, action)
    }
}

/// The tail of the general case: what applying the queued differences
/// looks like from outside. `obs0` is the observed state when the queue
/// is built.
pub open spec fn queue_rel(
    pre: Reconciler,
    obs0: ObservedState,
    post: Reconciler,
    action: ReconcileAction,
) -> bool {
    let sec = spec_secondary_conf(pre.shard, pre.config);
    let det = spec_detached_conf(pre.shard, pre.config);
    let q = spec_build_changes(obs0, pre.intent, sec, det);
    &&& post.generation == pre.generation
    &&& post.attach_gens == pre.attach_gens
    &&& if q.len() == 0 {
        &&& post.phase == ReconcilePhase::Done
        &&& post.observed == obs0
        &&& action == (ReconcileAction::Finished { result: Ok::<(), ReconcileError>(()) })
    } else {
        &&& post.phase == ReconcilePhase::GenApplies
        &&& post.queue@ == q
        &&& post.next == 0
        &&& obs_updated(obs0, post.observed, q[0].0, None::<LocationConfig>)
        &&& action == (ReconcileAction::Put {
            node: q[0].0,
            config: q[0].1,
            timeout_secs: None::<u64>,
        })
    }
}

/// Which events a phase can receive: the outcome kind of the action the
/// phase issued.
pub open spec fn spec_expects(phase: ReconcilePhase, event: ReconcileEvent) -> bool {
    match phase {
        ReconcilePhase::Start => false,
        ReconcilePhase::Done => false,
        ReconcilePhase::Failed => false,
        ReconcilePhase::MigFreeze { .. } => event is PutOk || event is PutFailed,
        ReconcilePhase::MigAttachDest { .. } => event is PutOk || event is PutFailed,
        ReconcilePhase::MigDowngrade { .. } => event is PutOk || event is PutFailed,
        ReconcilePhase::MigPromote { .. } => event is PutOk || event is PutFailed,
        ReconcilePhase::GenAttach { .. } => event is PutOk || event is PutFailed,
        ReconcilePhase::GenApplies => event is PutOk || event is PutFailed,
        ReconcilePhase::MigBaseline { .. } => event is Lsns || event is LsnsFailed,
        ReconcilePhase::MigCatchup { .. } => event is Lsns || event is LsnsFailed,
        ReconcilePhase::MigNotify { .. } => event is NotifyOk || event is NotifyFailed,
        ReconcilePhase::GenNotify { .. } => event is NotifyOk || event is NotifyFailed,
    }
}

/// The last-record LSN the listing reports for a timeline.
pub open spec fn lsn_lookup(s: Seq<(TimelineId, Lsn)>, t: TimelineId) -> Option<Lsn>
    decreases s.len(),
{
    if s.len() == 0 {
        None
    } else if s[0].0 == t {
        Some(s[0].1)
    } else {
        lsn_lookup(s.drop_first(), t)
    }
}

/// Every baseline timeline exists in the latest listing and has reached
/// its baseline LSN. A missing timeline counts as not yet caught up.
pub open spec fn spec_caught_up(baseline: Seq<(TimelineId, Lsn)>, latest: Seq<(TimelineId, Lsn)>) -> bool {
    forall|i: int|
        0 <= i < baseline.len() ==> match lsn_lookup(latest, #[trigger] baseline[i].0) {
            Some(l) => l.0 >= baseline[i].1.0,
            None => false,
        }
}

proof fn lemma_lsn_lookup_first_match(s: Seq<(TimelineId, Lsn)>, t: TimelineId, i: int)
    requires
        0 <= i < s.len(),
        s[i].0 == t,
        forall|j: int| 0 <= j < i ==> s[j].0 != t,
    ensures
        lsn_lookup(s, t) == Some(s[i].1),
    decreases i,
{
    if i > 0 {
        lemma_lsn_lookup_first_match(s.drop_first(), t, i - 1);
    }
}

proof fn lemma_lsn_lookup_absent(s: Seq<(TimelineId, Lsn)>, t: TimelineId)
    requires
        forall|j: int| 0 <= j < s.len() ==> s[j].0 != t,
    ensures
        lsn_lookup(s, t) is None,
    decreases s.len(),
{
    if s.len() > 0 {
        lemma_lsn_lookup_absent(s.drop_first(), t);
    }
}

fn lsn_find(s: &Vec<(TimelineId, Lsn)>, t: TimelineId) -> (r: Option<Lsn>)
    ensures
        r == lsn_lookup(s@, t),
{
    let mut i: usize = 0;
    while i < s.len()
        invariant
            i <= s@.len(),
            forall|j: int| 0 <= j < i ==> s@[j].0 != t,
        decreases s@.len() - i,
    {
        if s[i].0.0 == t.0 {
            proof {
                lemma_lsn_lookup_first_match(s@, t, i as int);
            }
            return Some(s[i].1);
        }
        i = i + 1;
    }
    proof {
        lemma_lsn_lookup_absent(s@, t);
    }
    None
}

/// Whether the destination has caught up to every baseline timeline.
pub fn lsns_caught_up(baseline: &Vec<(TimelineId, Lsn)>, latest: &Vec<(TimelineId, Lsn)>) -> (r:
    bool)
    ensures
        r == spec_caught_up(baseline@, latest@),
{
    let mut i: usize = 0;
    while i < baseline.len()
        invariant
            i <= baseline@.len(),
            forall|j: int|
                0 <= j < i ==> match lsn_lookup(latest@, #[trigger] baseline@[j].0) {
                    Some(l) => l.0 >= baseline@[j].1.0,
                    None => false,
                },
        decreases baseline@.len() - i,
    {
        let behind: bool = match lsn_find(latest, baseline[i].0) {
            Some(l) => l.0 < baseline[i].1.0,
            None => true,
        };
        if behind {
            return false;
        }
        i = i + 1;
    }
    true
}

/// The secondary configurations still missing: one queued apply for each
/// intended secondary whose observed record differs from the derived
/// secondary configuration.
pub open spec fn spec_sec_changes(
    obs: ObservedState,
    secondary: Seq<NodeId>,
    sec_conf: LocationConfig,
) -> Seq<(NodeId, LocationConfig)>
    decreases secondary.len(),
{
    if secondary.len() == 0 {
        Seq::<(NodeId, LocationConfig)>::empty()
    } else {
        spec_sec_changes(obs, secondary.drop_last(), sec_conf) + (if obs_is(
            obs,
            secondary.last(),
            sec_conf,
        ) {
            Seq::<(NodeId, LocationConfig)>::empty()
        } else {
            seq![(secondary.last(), sec_conf)]
        })
    }
}

/// One queued detach for every observed node the intent no longer
/// references.
pub open spec fn spec_detach_changes(
    entries: Seq<(NodeId, ObservedStateLocation)>,
    referenced: Seq<NodeId>,
    det_conf: LocationConfig,
) -> Seq<(NodeId, LocationConfig)>
    decreases entries.len(),
{
    if entries.len() == 0 {
        Seq::<(NodeId, LocationConfig)>::empty()
    } else {
        spec_detach_changes(entries.drop_last(), referenced, det_conf) + (if referenced.contains(
            entries.last().0,
        ) {
            Seq::<(NodeId, LocationConfig)>::empty()
        } else {
            seq![(entries.last().0, det_conf)]
        })
    }
}

/// The whole general-case apply queue: missing secondaries first, then
/// detaches of unreferenced nodes.
pub open spec fn spec_build_changes(
    obs: ObservedState,
    intent: IntentState,
    sec_conf: LocationConfig,
    det_conf: LocationConfig,
) -> Seq<(NodeId, LocationConfig)> {
    spec_sec_changes(obs, intent.secondary@, sec_conf) + spec_detach_changes(
        obs.locations@,
        intent.spec_all_pageservers(),
        det_conf,
    )
}

/// The attached node, when there is one, is among the nodes the intent
/// references.
pub proof fn lemma_attached_referenced(intent: IntentState)
    requires
        intent.attached is Some,
    ensures
        intent.spec_all_pageservers().contains(intent.attached->0),
{
    assert(intent.spec_all_pageservers()[0] == intent.attached->0);
}

/// Every intended secondary is among the nodes the intent references.
pub proof fn lemma_secondary_referenced(intent: IntentState, s: NodeId)
    requires
        intent.secondary@.contains(s),
    ensures
        intent.spec_all_pageservers().contains(s),
{
    let x = choose|x: int| 0 <= x < intent.secondary@.len() && intent.secondary@[x] == s;
    match intent.attached {
        Some(_) => {
            assert(intent.spec_all_pageservers()[x + 1] == s);
        },
        None => {
            assert(intent.spec_all_pageservers()[x] == s);
        },
    }
}

/// A record exists for the node exactly when some entry carries its key.
proof fn lemma_obs_contains_index(s: Seq<(NodeId, ObservedStateLocation)>, n: NodeId)
    ensures
        obs_contains(s, n) == exists|j: int| 0 <= j < s.len() && s[j].0 == n,
    decreases s.len(),
{
    if s.len() == 0 {
    } else if s[0].0 == n {
        assert(s[0].0 == n);
    } else {
        lemma_obs_contains_index(s.drop_first(), n);
        if obs_contains(s, n) {
            let j = choose|j: int| 0 <= j < s.drop_first().len() && s.drop_first()[j] == s.drop_first()[j] && s.drop_first()[j].0 == n;
            assert(s[j + 1].0 == n);
        }
        if exists|j: int| 0 <= j < s.len() && s[j].0 == n {
            let j = choose|j: int| 0 <= j < s.len() && s[j].0 == n;
            assert(s.drop_first()[j - 1].0 == n);
        }
    }
}

proof fn lemma_sec_changes_props(
    obs: ObservedState,
    secondary: Seq<NodeId>,
    sec_conf: LocationConfig,
)
    ensures
        forall|i: int|
            0 <= i < spec_sec_changes(obs, secondary, sec_conf).len() ==> (
            #[trigger] spec_sec_changes(obs, secondary, sec_conf)[i]).1 == sec_conf
                && secondary.contains(spec_sec_changes(obs, secondary, sec_conf)[i].0),
        forall|k: int|
            0 <= k < secondary.len() && !obs_is(obs, #[trigger] secondary[k], sec_conf)
                ==> spec_sec_changes(obs, secondary, sec_conf).contains(
                (secondary[k], sec_conf),
            ),
        (forall|i: int, j: int| 0 <= i < j < secondary.len() ==> secondary[i] != secondary[j])
            ==> (forall|i: int, j: int|
            0 <= i < j < spec_sec_changes(obs, secondary, sec_conf).len()
                ==> spec_sec_changes(obs, secondary, sec_conf)[i].0 != spec_sec_changes(
                obs,
                secondary,
                sec_conf,
            )[j].0),
    decreases secondary.len(),
{
    if secondary.len() == 0 {
    } else {
        lemma_sec_changes_props(obs, secondary.drop_last(), sec_conf);
        let q = spec_sec_changes(obs, secondary, sec_conf);
        let qd = spec_sec_changes(obs, secondary.drop_last(), sec_conf);
        assert forall|i: int| 0 <= i < q.len() implies (#[trigger] q[i]).1 == sec_conf
            && secondary.contains(q[i].0) by {
            if i < qd.len() {
                assert(q[i] == qd[i]);
                let m = qd[i].0;
                assert(secondary.drop_last().contains(m));
                let x = choose|x: int|
                    0 <= x < secondary.drop_last().len() && secondary.drop_last()[x] == m;
                assert(secondary[x] == m);
            } else {
                assert(q[i] == (secondary.last(), sec_conf));
                assert(secondary[secondary.len() - 1] == secondary.last());
            }
        }
        assert forall|k: int|
            0 <= k < secondary.len() && !obs_is(obs, #[trigger] secondary[k], sec_conf) implies q
            .contains((secondary[k], sec_conf)) by {
            if k < secondary.len() - 1 {
                assert(secondary.drop_last()[k] == secondary[k]);
                assert(qd.contains((secondary[k], sec_conf)));
                let x = choose|x: int| 0 <= x < qd.len() && qd[x] == (secondary[k], sec_conf);
                assert(q[x] == (secondary[k], sec_conf));
            } else {
                assert(secondary[k] == secondary.last());
                assert(q[q.len() - 1] == (secondary.last(), sec_conf));
            }
        }
        if forall|i: int, j: int| 0 <= i < j < secondary.len() ==> secondary[i] != secondary[j] {
            assert(forall|i: int, j: int|
                0 <= i < j < secondary.drop_last().len() ==> secondary.drop_last()[i]
                    != secondary.drop_last()[j]);
            assert forall|i: int, j: int| 0 <= i < j < q.len() implies q[i].0 != q[j].0 by {
                if j < qd.len() {
                } else if j == qd.len() && q.len() > qd.len() {
                    assert(q[j] == (secondary.last(), sec_conf));
                    assert(q[i] == qd[i]);
                    assert(secondary.drop_last().contains(qd[i].0));
                    let x = choose|x: int|
                        0 <= x < secondary.drop_last().len() && secondary.drop_last()[x]
                            == qd[i].0;
                    assert(secondary[x] == qd[i].0);
                    assert(secondary[x] != secondary[secondary.len() - 1]);
                }
            }
        }
    }
}

proof fn lemma_detach_changes_props(
    entries: Seq<(NodeId, ObservedStateLocation)>,
    referenced: Seq<NodeId>,
    det_conf: LocationConfig,
)
    ensures
        forall|i: int|
            0 <= i < spec_detach_changes(entries, referenced, det_conf).len() ==> (
            #[trigger] spec_detach_changes(entries, referenced, det_conf)[i]).1 == det_conf
                && !referenced.contains(spec_detach_changes(entries, referenced, det_conf)[i].0)
                && (exists|j: int|
                0 <= j < entries.len() && entries[j].0 == spec_detach_changes(
                    entries,
                    referenced,
                    det_conf,
                )[i].0),
        forall|j: int|
            0 <= j < entries.len() && !referenced.contains(#[trigger] entries[j].0)
                ==> spec_detach_changes(entries, referenced, det_conf).contains(
                (entries[j].0, det_conf),
            ),
        (forall|i: int, j: int| 0 <= i < j < entries.len() ==> entries[i].0 != entries[j].0) ==> (
        forall|i: int, j: int|
            0 <= i < j < spec_detach_changes(entries, referenced, det_conf).len()
                ==> spec_detach_changes(entries, referenced, det_conf)[i].0 != spec_detach_changes(
                entries,
                referenced,
                det_conf,
            )[j].0),
    decreases entries.len(),
{
    if entries.len() == 0 {
    } else {
        lemma_detach_changes_props(entries.drop_last(), referenced, det_conf);
        let q = spec_detach_changes(entries, referenced, det_conf);
        let qd = spec_detach_changes(entries.drop_last(), referenced, det_conf);
        assert forall|i: int| 0 <= i < q.len() implies (#[trigger] q[i]).1 == det_conf
            && !referenced.contains(q[i].0) && (exists|j: int|
            0 <= j < entries.len() && entries[j].0 == q[i].0) by {
            if i < qd.len() {
                assert(q[i] == qd[i]);
                let j = choose|j: int|
                    0 <= j < entries.drop_last().len() && entries.drop_last()[j].0 == qd[i].0;
                assert(entries[j].0 == q[i].0);
            } else {
                assert(q[i] == (entries.last().0, det_conf));
                assert(entries[entries.len() - 1].0 == q[i].0);
            }
        }
        assert forall|j: int|
            0 <= j < entries.len() && !referenced.contains(#[trigger] entries[j].0) implies q
            .contains((entries[j].0, det_conf)) by {
            if j < entries.len() - 1 {
                assert(entries.drop_last()[j] == entries[j]);
                assert(qd.contains((entries[j].0, det_conf)));
                let x = choose|x: int| 0 <= x < qd.len() && qd[x] == (entries[j].0, det_conf);
                assert(q[x] == (entries[j].0, det_conf));
            } else {
                assert(q[q.len() - 1] == (entries.last().0, det_conf));
            }
        }
        if forall|i: int, j: int| 0 <= i < j < entries.len() ==> entries[i].0 != entries[j].0 {
            assert(forall|i: int, j: int|
                0 <= i < j < entries.drop_last().len() ==> entries.drop_last()[i].0
                    != entries.drop_last()[j].0);
            assert forall|i: int, j: int| 0 <= i < j < q.len() implies q[i].0 != q[j].0 by {
                if j < qd.len() {
                } else if j == qd.len() && q.len() > qd.len() {
                    assert(q[j] == (entries.last().0, det_conf));
                    assert(q[i] == qd[i]);
                    let x = choose|x: int|
                        0 <= x < entries.drop_last().len() && entries.drop_last()[x].0 == qd[i].0;
                    assert(entries[x].0 == qd[i].0);
                    assert(entries[x].0 != entries[entries.len() - 1].0);
                }
            }
        }
    }
}

impl Reconciler {
    /// The configurations this run derives from its snapshot.
    pub open spec fn wanted_attached(&self) -> LocationConfig {
        spec_attached_conf(self.generation, self.shard, self.config)
    }

    pub open spec fn wanted_secondary(&self) -> LocationConfig {
        spec_secondary_conf(self.shard, self.config)
    }

    pub open spec fn wanted_detached(&self) -> LocationConfig {
        spec_detached_conf(self.shard, self.config)
    }

    /// The live-migration special case triggers when the intended
    /// attached node is currently a secondary (or unknown to observed
    /// state) while some other node still shows the sole attachment and
    /// is reachable.
    pub open spec fn spec_select_migration(&self) -> Option<(NodeId, NodeId)> {
        match self.intent.attached {
            None => None,
            Some(d) => {
                let dest_ok = match self.observed.spec_get(d) {
                    None => true,
                    Some(rec) => match rec.conf {
                        Some(c) => c.mode == LocationConfigMode::Secondary,
                        None => false,
                    },
                };
                if !dest_ok {
                    None
                } else {
                    match first_active_single(self.observed.locations@, self.pageservers@) {
                        None => None,
                        Some(o) => Some((o, d)),
                    }
                }
            },
        }
    }

    /// The live-migration decision, mirroring [`Self::spec_select_migration`].
    pub fn select_migration(&self) -> (r: Option<(NodeId, NodeId)>)
        requires
            self.observed.wf(),
        ensures
            r == self.spec_select_migration(),
    {
        let d: NodeId = match &self.intent.attached {
            Some(d) => *d,
            None => {
                return None;
            },
        };
        let dest_ok: bool = match self.observed.get(d) {
            None => true,
            Some(rec) => match &rec.conf {
                Some(c) => match c.mode {
                    LocationConfigMode::Secondary => true,
                    _ => false,
                },
                None => false,
            },
        };
        proof {
            assert(self.intent.attached == Some(d));
            assert(dest_ok == (match self.observed.spec_get(d) {
                None => true,
                Some(rec) => match rec.conf {
                    Some(c) => c.mode == LocationConfigMode::Secondary,
                    None => false,
                },
            }));
        }
        if !dest_ok {
            return None;
        }
        let s = &self.observed.locations;
        proof {
            assert(s@.subrange(0, s@.len() as int) =~= s@);
        }
        let mut i: usize = 0;
        while i < s.len()
            invariant
                i <= s@.len(),
                self.intent.attached == Some(d),
                match self.observed.spec_get(d) {
                    None => true,
                    Some(rec) => match rec.conf {
                        Some(c) => c.mode == LocationConfigMode::Secondary,
                        None => false,
                    },
                },
                s == &self.observed.locations,
                first_active_single(s@, self.pageservers@) == first_active_single(
                    s@.subrange(i as int, s@.len() as int),
                    self.pageservers@,
                ),
            decreases s@.len() - i,
        {
            proof {
                assert(s@.subrange(i as int, s@.len() as int)[0] == s@[i as int]);
                assert(s@.subrange(i as int, s@.len() as int).drop_first() =~= s@.subrange(
                    i + 1,
                    s@.len() as int,
                ));
            }
            let is_single: bool = match &s[i].1.conf {
                Some(c) => match c.mode {
                    LocationConfigMode::AttachedSingle => true,
                    _ => false,
                },
                None => false,
            };
            if is_single && ps_active_exec(&self.pageservers, s[i].0) {
                proof {
                    let sub = s@.subrange(i as int, s@.len() as int);
                    assert(first_active_single(sub, self.pageservers@) == Some(sub[0].0));
                    assert(first_active_single(s@, self.pageservers@) == Some(s@[i as int].0));
                }
                return Some((s[i].0, d));
            }
            i = i + 1;
        }
        proof {
            assert(s@.subrange(s@.len() as int, s@.len() as int) =~= Seq::<(
                NodeId,
                ObservedStateLocation,
            )>::empty());
        }
        None
    }

    /// The attached intent, if any, is observed exactly as derived.
    pub open spec fn attached_ok(&self) -> bool {
        match self.intent.attached {
            Some(n) => obs_is(self.observed, n, self.wanted_attached()),
            None => true,
        }
    }

    /// One queued change: a missing secondary or a detach of a node the
    /// intent no longer references.
    pub open spec fn entry_ok(&self, e: (NodeId, LocationConfig)) -> bool {
        ||| (e.1 == self.wanted_secondary() && self.intent.secondary@.contains(e.0))
        ||| (e.1 == self.wanted_detached() && !self.intent.spec_all_pageservers().contains(e.0))
    }

    /// The apply queue this run would build from its current observed
    /// state.
    pub open spec fn spec_changes(&self) -> Seq<(NodeId, LocationConfig)> {
        spec_build_changes(self.observed, self.intent, self.wanted_secondary(), self.wanted_detached())
    }

    /// Everything the queue construction guarantees: entries are
    /// well-shaped, their nodes pairwise distinct, and the queue covers
    /// every missing secondary and every unreferenced observed node.
    pub proof fn lemma_changes_props(&self)
        requires
            self.intent.wf(),
            self.observed.wf(),
        ensures
            forall|i: int| 0 <= i < self.spec_changes().len() ==> self.entry_ok(
                #[trigger] self.spec_changes()[i],
            ),
            forall|i: int, j: int|
                0 <= i < j < self.spec_changes().len() ==> self.spec_changes()[i].0
                    != self.spec_changes()[j].0,
            forall|k: int|
                0 <= k < self.intent.secondary@.len() ==> obs_is(
                    self.observed,
                    #[trigger] self.intent.secondary@[k],
                    self.wanted_secondary(),
                ) || self.spec_changes().contains(
                    (self.intent.secondary@[k], self.wanted_secondary()),
                ),
            forall|n: NodeId|
                obs_contains(self.observed.locations@, n)
                    && !self.intent.spec_all_pageservers().contains(n) ==> self.spec_changes()
                    .contains((n, self.wanted_detached())),
    {
        let sec = self.wanted_secondary();
        let det = self.wanted_detached();
        let referenced = self.intent.spec_all_pageservers();
        let qs = spec_sec_changes(self.observed, self.intent.secondary@, sec);
        let qd = spec_detach_changes(self.observed.locations@, referenced, det);
        let q = self.spec_changes();
        assert(q == qs + qd);
        lemma_sec_changes_props(self.observed, self.intent.secondary@, sec);
        lemma_detach_changes_props(self.observed.locations@, referenced, det);
        // every secondary node is referenced by the intent
        assert forall|m: NodeId| self.intent.secondary@.contains(m) implies referenced.contains(
            m,
        ) by {
            let x = choose|x: int|
                0 <= x < self.intent.secondary@.len() && self.intent.secondary@[x] == m;
            match self.intent.attached {
                Some(_) => {
                    assert(referenced[x + 1] == m);
                },
                None => {
                    assert(referenced[x] == m);
                },
            }
        }
        // shape
        assert forall|i: int| 0 <= i < q.len() implies self.entry_ok(#[trigger] q[i]) by {
            if i < qs.len() {
                assert(q[i] == qs[i]);
            } else {
                assert(q[i] == qd[i - qs.len()]);
            }
        }
        // distinct nodes: within each part by the part lemmas; across parts
        // because secondaries are referenced and detach targets are not
        assert forall|i: int, j: int| 0 <= i < j < q.len() implies q[i].0 != q[j].0 by {
            if i < qs.len() && j < qs.len() {
            } else if i >= qs.len() && j >= qs.len() {
                assert(q[i] == qd[i - qs.len()]);
                assert(q[j] == qd[j - qs.len()]);
            } else {
                assert(q[i] == qs[i]);
                assert(q[j] == qd[j - qs.len()]);
                assert(self.intent.secondary@.contains(qs[i].0));
                assert(!referenced.contains(qd[j - qs.len()].0));
            }
        }
        // completeness for secondaries, lifted through the concatenation
        assert forall|k: int|
            0 <= k < self.intent.secondary@.len() && !obs_is(
                self.observed,
                #[trigger] self.intent.secondary@[k],
                sec,
            ) implies q.contains((self.intent.secondary@[k], sec)) by {
            let x = choose|x: int|
                0 <= x < qs.len() && qs[x] == (self.intent.secondary@[k], sec);
            assert(q[x] == (self.intent.secondary@[k], sec));
        }
        // completeness for detaches
        assert forall|n: NodeId|
            obs_contains(self.observed.locations@, n) && !referenced.contains(
                n,
            ) implies q.contains((n, det)) by {
            lemma_obs_contains_index(self.observed.locations@, n);
            let j = choose|j: int|
                0 <= j < self.observed.locations@.len() && self.observed.locations@[j].0 == n;
            assert(qd.contains((n, det)));
            let x = choose|x: int| 0 <= x < qd.len() && qd[x] == (n, det);
            assert(q[qs.len() + x] == (n, det));
        }
    }

    /// Build the general-case apply queue: configure missing secondaries,
    /// then detach every observed node the intent no longer references.
    fn build_changes(&self) -> (r: Vec<(NodeId, LocationConfig)>)
        requires
            self.observed.wf(),
        ensures
            r@ == self.spec_changes(),
    {
        let sec_conf: LocationConfig = secondary_location_conf(&self.shard, &self.config);
        let det_conf: LocationConfig = detached_location_conf(&self.shard, &self.config);
        let mut r: Vec<(NodeId, LocationConfig)> = Vec::new();
        let mut i: usize = 0;
        while i < self.intent.secondary.len()
            invariant
                i <= self.intent.secondary@.len(),
                self.observed.wf(),
                sec_conf == self.wanted_secondary(),
                r@ == spec_sec_changes(
                    self.observed,
                    self.intent.secondary@.take(i as int),
                    sec_conf,
                ),
            decreases self.intent.secondary@.len() - i,
        {
            let s: NodeId = self.intent.secondary[i];
            let already: bool = match self.observed.get(s) {
                Some(rec) => match &rec.conf {
                    Some(c) => *c == sec_conf,
                    None => false,
                },
                None => false,
            };
            proof {
                assert(self.intent.secondary@.take(i + 1).drop_last() =~= self.intent.secondary@
                    .take(i as int));
                assert(self.intent.secondary@.take(i + 1).last() == s);
                assert(already == obs_is(self.observed, s, sec_conf));
            }
            if !already {
                r.push((s, sec_conf));
            }
            proof {
                assert(r@ =~= spec_sec_changes(
                    self.observed,
                    self.intent.secondary@.take(i + 1),
                    sec_conf,
                ));
            }
            i = i + 1;
        }
        proof {
            assert(self.intent.secondary@.take(self.intent.secondary@.len() as int)
                =~= self.intent.secondary@);
        }
        let mut j: usize = 0;
        while j < self.observed.locations.len()
            invariant
                j <= self.observed.locations@.len(),
                self.observed.wf(),
                sec_conf == self.wanted_secondary(),
                det_conf == self.wanted_detached(),
                r@ == spec_sec_changes(self.observed, self.intent.secondary@, sec_conf)
                    + spec_detach_changes(
                    self.observed.locations@.take(j as int),
                    self.intent.spec_all_pageservers(),
                    det_conf,
                ),
            decreases self.observed.locations@.len() - j,
        {
            let n: NodeId = self.observed.locations[j].0;
            proof {
                assert(self.observed.locations@.take(j + 1).drop_last() =~= self.observed
                    .locations@.take(j as int));
                assert(self.observed.locations@.take(j + 1).last() == self.observed.locations@[j as int]);
            }
            if !self.intent.references(n) {
                r.push((n, det_conf));
            }
            proof {
                assert(r@ =~= spec_sec_changes(self.observed, self.intent.secondary@, sec_conf)
                    + spec_detach_changes(
                    self.observed.locations@.take(j + 1),
                    self.intent.spec_all_pageservers(),
                    det_conf,
                ));
            }
            j = j + 1;
        }
        proof {
            assert(self.observed.locations@.take(self.observed.locations@.len() as int)
                =~= self.observed.locations@);
        }
        r
    }

    /// Snapshot well-formedness, carried through the whole run.
    pub open spec fn wf(&self) -> bool {
        &&& self.intent.wf()
        &&& self.observed.wf()
        &&& self.shard.wf()
    }

    /// The attach-promoting generations put on the wire so far strictly
    /// increase and never exceed the current generation.
    pub open spec fn gens_wf(&self) -> bool {
        &&& strictly_increasing(self.attach_gens@)
        &&& (forall|i: int|
            0 <= i < self.attach_gens@.len() ==> #[trigger] self.attach_gens@[i]
                <= self.generation.0)
    }

    /// The standing obligations of the general-case apply loop.
    pub open spec fn gen_applies_inv(&self) -> bool {
        &&& (self.next as int) < self.queue@.len()
        &&& self.attached_ok()
        &&& (forall|i: int| 0 <= i < self.queue@.len() ==> self.entry_ok(#[trigger] self.queue@[i]))
        &&& (forall|i: int, j: int|
            0 <= i < j < self.queue@.len() ==> self.queue@[i].0 != self.queue@[j].0)
        &&& obs_unknown(self.observed, self.queue@[self.next as int].0)
        &&& (forall|k: int|
            0 <= k < self.intent.secondary@.len() ==> obs_is(
                self.observed,
                #[trigger] self.intent.secondary@[k],
                self.wanted_secondary(),
            ) || exists|i: int|
                self.next <= i < self.queue@.len() && self.queue@[i] == (
                self.intent.secondary@[k],
                self.wanted_secondary(),
                ))
        &&& (forall|n: NodeId|
            obs_contains(self.observed.locations@, n)
                && !self.intent.spec_all_pageservers().contains(n) ==> obs_is(
                self.observed,
                n,
                self.wanted_detached(),
            ) || exists|i: int|
                self.next <= i < self.queue@.len() && self.queue@[i] == (
                n,
                self.wanted_detached(),
                ))
    }

    /// What each phase guarantees of the machine's own bookkeeping.
    pub open spec fn phase_inv(&self) -> bool {
        match self.phase {
            ReconcilePhase::Start => true,
            ReconcilePhase::MigFreeze { origin, dest, .. } => self.intent.attached == Some(dest)
                && origin != dest,
            ReconcilePhase::MigBaseline { origin, dest } => self.intent.attached == Some(dest)
                && origin != dest,
            ReconcilePhase::MigAttachDest { origin, dest } => self.intent.attached == Some(dest)
                && origin != dest,
            ReconcilePhase::MigCatchup { origin, dest } => self.intent.attached == Some(dest)
                && origin != dest,
            ReconcilePhase::MigNotify { origin, dest } => self.intent.attached == Some(dest)
                && origin != dest,
            ReconcilePhase::MigDowngrade { origin, dest } => self.intent.attached == Some(dest)
                && origin != dest,
            ReconcilePhase::MigPromote { origin, dest } => self.intent.attached == Some(dest)
                && origin != dest,
            ReconcilePhase::GenAttach { node } => self.intent.attached == Some(node)
                && obs_unknown(self.observed, node),
            ReconcilePhase::GenNotify { node } => self.intent.attached == Some(node)
                && self.attached_ok(),
            ReconcilePhase::GenApplies => self.gen_applies_inv(),
            ReconcilePhase::Done => self.observed_matches_intent(),
            ReconcilePhase::Failed => true,
        }
    }

    /// Attachment exclusivity through a live migration: provided no node
    /// but the origin showed an attached-mode configuration when the run
    /// began, the phases keep the fleet free of a second attachment. The
    /// origin is frozen before the destination is ever attached; the
    /// destination holds `AttachedMulti` only while the origin is stale
    /// (or mid-downgrade), and becomes `AttachedSingle` only after the
    /// origin has been made a secondary.
    pub open spec fn mig_layout(&self) -> bool {
        match self.phase {
            ReconcilePhase::MigFreeze { origin, .. } => no_attach_except(self.observed, origin)
                && obs_unknown(self.observed, origin),
            ReconcilePhase::MigBaseline { origin, .. } => no_attach_except(self.observed, origin)
                && obs_stale(self.observed, origin),
            ReconcilePhase::MigAttachDest { origin, dest } => no_single_at_all(self.observed)
                && no_multi_except(self.observed, dest) && obs_stale(self.observed, origin)
                && obs_unknown(self.observed, dest),
            ReconcilePhase::MigCatchup { origin, dest } => no_single_at_all(self.observed)
                && no_multi_except(self.observed, dest) && obs_stale(self.observed, origin)
                && obs_multi(self.observed, dest),
            ReconcilePhase::MigNotify { origin, dest } => no_single_at_all(self.observed)
                && no_multi_except(self.observed, dest) && obs_stale(self.observed, origin)
                && obs_multi(self.observed, dest),
            ReconcilePhase::MigDowngrade { origin, dest } => no_single_at_all(self.observed)
                && no_multi_except(self.observed, dest) && obs_unknown(self.observed, origin)
                && obs_multi(self.observed, dest),
            ReconcilePhase::MigPromote { dest, .. } => no_single_at_all(self.observed)
                && no_multi_except(self.observed, dest) && obs_unknown(self.observed, dest),
            _ => true,
        }
    }

    /// The machine's whole invariant.
    pub open spec fn inv(&self) -> bool {
        &&& self.wf()
        &&& self.gens_wf()
        &&& self.phase_inv()
        &&& (self.entry_exclusive@ ==> self.mig_layout())
    }

    /// Quiescence: every location the intent calls for is observed with
    /// exactly its derived configuration, and every other observed node
    /// is detached.
    pub open spec fn observed_matches_intent(&self) -> bool {
        &&& (match self.intent.attached {
            Some(n) => obs_is(self.observed, n, self.wanted_attached()),
            None => true,
        })
        &&& (forall|i: int|
            0 <= i < self.intent.secondary@.len() ==> obs_is(
                self.observed,
                #[trigger] self.intent.secondary@[i],
                self.wanted_secondary(),
            ))
        &&& (forall|n: NodeId|
            obs_contains(self.observed.locations@, n)
                && !self.intent.spec_all_pageservers().contains(n) ==> obs_is(
                self.observed,
                n,
                self.wanted_detached(),
            ))
    }
}

impl Reconciler {
    /// A reconciler over a freshly taken snapshot.
    pub fn new(
        tenant_shard_id: TenantShardId,
        shard: ShardIdentity,
        generation: Generation,
        intent: IntentState,
        config: TenantConfig,
        observed: ObservedState,
        pageservers: Vec<Node>,
        cancel: CancellationToken,
    ) -> (r: Reconciler)
        requires
            intent.wf(),
            observed.wf(),
            shard.wf(),
        ensures
            r.inv(),
            r.phase == ReconcilePhase::Start,
            r.tenant_shard_id == tenant_shard_id,
            r.shard == shard,
            r.generation == generation,
            r.intent == intent,
            r.config == config,
            r.observed == observed,
            r.pageservers == pageservers,
            r.attach_gens@ == Seq::<u32>::empty(),
            !r.entry_exclusive@,
    {
        Reconciler {
            tenant_shard_id,
            shard,
            generation,
            intent,
            config,
            observed,
            pageservers,
            cancel,
            phase: ReconcilePhase::Start,
            queue: Vec::new(),
            next: 0,
            baseline: Vec::new(),
            attach_gens: Ghost(Seq::empty()),
            entry_exclusive: Ghost(false),
        }
    }

    /// Poll the cancellation token. The result is environment-driven;
    /// feed it to the next start or step call.
    pub fn poll_cancelled(&self) -> bool {
        token_is_cancelled(&self.cancel)
    }

    /// Open the uncertainty window for a node: a call is about to go out.
    fn begin_apply(&mut self, n: NodeId)
        requires
            old(self).observed.wf(),
        ensures
            obs_updated(old(self).observed, final(self).observed, n, None::<LocationConfig>),
            *final(self) == (Reconciler { observed: final(self).observed, ..*old(self) }),
    {
        self.observed.insert(n, ObservedStateLocation { conf: None });
    }

    /// Close the uncertainty window: the call returned 2xx carrying this
    /// configuration.
    fn complete_apply(&mut self, n: NodeId, c: LocationConfig)
        requires
            old(self).observed.wf(),
        ensures
            obs_updated(old(self).observed, final(self).observed, n, Some(c)),
            *final(self) == (Reconciler { observed: final(self).observed, ..*old(self) }),
    {
        self.observed.insert(n, ObservedStateLocation { conf: Some(c) });
    }

    /// Enter the general case: attach if the intended attachment is not
    /// observed as derived, else queue and start the remaining applies.
    #[verifier::rlimit(100)]
    fn general_next(&mut self) -> (r: ReconcileAction)
        requires
            old(self).intent.wf(),
            old(self).observed.wf(),
            old(self).shard.wf(),
            old(self).gens_wf(),
            old(self).generation.0 < u32::MAX,
        ensures
            final(self).inv(),
            frame_ok(*old(self), *final(self)),
            final(self).cancel == old(self).cancel,
            final(self).entry_exclusive == old(self).entry_exclusive,
            final(self).generation.0 >= old(self).generation.0,
            general_rel(*old(self), old(self).observed, *final(self), r),
            (r matches ReconcileAction::Finished { result } && result is Ok) ==> final(self).observed_matches_intent(),
    {
        let needs_attach: bool = match &self.intent.attached {
            Some(n) => {
                let wanted = attached_location_conf(self.generation, &self.shard, &self.config);
                match self.observed.get(*n) {
                    Some(rec) => match &rec.conf {
                        Some(c) => !(*c == wanted),
                        None => true,
                    },
                    None => true,
                }
            },
            None => false,
        };
        if needs_attach {
            let n: NodeId = match &self.intent.attached {
                Some(n) => *n,
                None => NodeId(0),
            };
            self.generation = self.generation.next();
            let wanted = attached_location_conf(self.generation, &self.shard, &self.config);
            proof {
                self.attach_gens@ = self.attach_gens@.push(self.generation.0);
            }
            self.begin_apply(n);
            self.phase = ReconcilePhase::GenAttach { node: n };
            return ReconcileAction::Put { node: n, config: wanted, timeout_secs: None };
        }
        self.enter_applies()
    }

    /// Build the apply queue from the current observed state and start
    /// working through it (or finish, if nothing differs).
    #[verifier::rlimit(100)]
    fn enter_applies(&mut self) -> (r: ReconcileAction)
        requires
            old(self).intent.wf(),
            old(self).observed.wf(),
            old(self).shard.wf(),
            old(self).gens_wf(),
            old(self).attached_ok(),
        ensures
            final(self).inv(),
            frame_ok(*old(self), *final(self)),
            final(self).cancel == old(self).cancel,
            final(self).entry_exclusive == old(self).entry_exclusive,
            final(self).generation == old(self).generation,
            queue_rel(*old(self), old(self).observed, *final(self), r),
            (r matches ReconcileAction::Finished { result } && result is Ok) ==> final(self).observed_matches_intent(),
    {
        let changes: Vec<(NodeId, LocationConfig)> = self.build_changes();
        proof {
            self.lemma_changes_props();
        }
        if changes.len() == 0 {
            self.phase = ReconcilePhase::Done;
            proof {
                let ghost q = self.spec_changes();
                assert forall|k: int| 0 <= k < self.intent.secondary@.len() implies obs_is(
                    self.observed,
                    #[trigger] self.intent.secondary@[k],
                    self.wanted_secondary(),
                ) by {
                    if !obs_is(self.observed, self.intent.secondary@[k], self.wanted_secondary()) {
                        assert(q.contains(
                            (self.intent.secondary@[k], self.wanted_secondary()),
                        ));
                    }
                }
                assert forall|n2: NodeId|
                    obs_contains(self.observed.locations@, n2)
                        && !self.intent.spec_all_pageservers().contains(n2) implies obs_is(
                    self.observed,
                    n2,
                    self.wanted_detached(),
                ) by {
                    assert(q.contains((n2, self.wanted_detached())));
                }
            }
            return ReconcileAction::Finished { result: Ok(()) };
        }
        let node: NodeId = changes[0].0;
        let config: LocationConfig = changes[0].1;
        let ghost pre_obs = self.observed;
        self.begin_apply(node);
        self.queue = changes;
        self.next = 0;
        self.phase = ReconcilePhase::GenApplies;
        proof {
            let q = self.queue@;
            assert(self.entry_ok(q[0]));
            // the attached node, if correct before, is untouched: the first
            // queue entry is a secondary or an unreferenced node
            match self.intent.attached {
                Some(a) => {
                    assert(self.intent.spec_all_pageservers()[0] == a);
                    assert(self.intent.spec_all_pageservers().contains(a));
                    assert(q[0].0 != a);
                },
                None => {},
            }
            assert forall|k: int| 0 <= k < self.intent.secondary@.len() implies obs_is(
                self.observed,
                #[trigger] self.intent.secondary@[k],
                self.wanted_secondary(),
            ) || exists|i: int|
                self.next <= i < q.len() && q[i] == (
                self.intent.secondary@[k],
                self.wanted_secondary(),
                ) by {
                let s = self.intent.secondary@[k];
                if !obs_is(pre_obs, s, self.wanted_secondary()) {
                    assert(q.contains((s, self.wanted_secondary())));
                    let i = choose|i: int|
                        0 <= i < q.len() && q[i] == (s, self.wanted_secondary());
                    assert(self.next <= i < q.len());
                } else {
                    if s == q[0].0 {
                        // the first entry carries this node, and it is a
                        // secondary, so the entry is its secondary config
                        assert(self.intent.spec_all_pageservers().contains(s)) by {
                            let x = choose|x: int|
                                0 <= x < self.intent.secondary@.len()
                                    && self.intent.secondary@[x] == s;
                            match self.intent.attached {
                                Some(_) => {
                                    assert(self.intent.spec_all_pageservers()[x + 1] == s);
                                },
                                None => {
                                    assert(self.intent.spec_all_pageservers()[x] == s);
                                },
                            }
                        }
                        assert(q[0] == (s, self.wanted_secondary()));
                    }
                }
            }
            assert forall|n2: NodeId|
                obs_contains(self.observed.locations@, n2)
                    && !self.intent.spec_all_pageservers().contains(n2) implies obs_is(
                self.observed,
                n2,
                self.wanted_detached(),
            ) || exists|i: int|
                self.next <= i < q.len() && q[i] == (n2, self.wanted_detached()) by {
                if obs_contains(pre_obs.locations@, n2) {
                    assert(q.contains((n2, self.wanted_detached())));
                    let i = choose|i: int|
                        0 <= i < q.len() && q[i] == (n2, self.wanted_detached());
                    assert(self.next <= i < q.len());
                } else {
                    // the only new key is the first queue entry's node,
                    // and an unreferenced node's entry is a detach
                    assert(n2 == q[0].0);
                    if self.intent.secondary@.contains(n2) {
                        let x = choose|x: int|
                            0 <= x < self.intent.secondary@.len() && self.intent.secondary@[x]
                                == n2;
                        match self.intent.attached {
                            Some(_) => {
                                assert(self.intent.spec_all_pageservers()[x + 1] == n2);
                            },
                            None => {
                                assert(self.intent.spec_all_pageservers()[x] == n2);
                            },
                        }
                        assert(false);
                    }
                    assert(q[0].1 == self.wanted_detached());
                    assert(q[0] == (n2, self.wanted_detached()));
                }
            }
        }
        ReconcileAction::Put { node, config, timeout_secs: None }
    }

    /// Begin the reconcile: handle the live-migration special case, else
    /// fall through to the general case. `cancelled` is the token's state
    /// as the driver last polled it.
    pub fn reconcile_start(&mut self, cancelled: bool) -> (r: ReconcileAction)
        requires
            old(self).inv(),
            old(self).phase == ReconcilePhase::Start,
            old(self).generation.0 < u32::MAX,
        ensures
            final(self).inv(),
            frame_ok(*old(self), *final(self)),
            final(self).generation.0 >= old(self).generation.0,
            (r matches ReconcileAction::Finished { result } && result is Ok) ==> final(self).observed_matches_intent(),
            cancelled ==> failed_rel(
                *old(self),
                *final(self),
                r,
                ReconcileError::ShuttingDown,
            ),
            !cancelled ==> match old(self).spec_select_migration() {
                Some(od) => {
                    &&& final(self).phase == (ReconcilePhase::MigFreeze {
                        origin: od.0,
                        dest: od.1,
                        stale_gen: spec_stale_gen(*old(self), od.0),
                    })
                    &&& obs_updated(
                        old(self).observed,
                        final(self).observed,
                        od.0,
                        None::<LocationConfig>,
                    )
                    &&& final(self).generation == old(self).generation
                    &&& final(self).attach_gens == old(self).attach_gens
                    &&& final(self).entry_exclusive@ == no_attach_except(old(self).observed, od.0)
                    &&& r == (ReconcileAction::Put {
                        node: od.0,
                        config: spec_build_conf(
                            old(self).shard,
                            old(self).config,
                            LocationConfigMode::AttachedStale,
                            Some(spec_stale_gen(*old(self), od.0)),
                            None::<crate::location::LocationConfigSecondary>,
                        ),
                        timeout_secs: Some(10u64),
                    })
                },
                None => general_rel(*old(self), old(self).observed, *final(self), r),
            },
    {
        if cancelled {
            self.phase = ReconcilePhase::Failed;
            return ReconcileAction::Finished { result: Err(ReconcileError::ShuttingDown) };
        }
        match self.select_migration() {
            Some((origin, dest)) => {
                let stale_gen: Generation = match self.observed.get(origin) {
                    Some(rec) => match &rec.conf {
                        Some(c) => match c.generation {
                            Some(g) => Generation(g),
                            None => self.generation,
                        },
                        None => self.generation,
                    },
                    None => self.generation,
                };
                let stale_conf: LocationConfig = build_location_config(
                    &self.shard,
                    &self.config,
                    LocationConfigMode::AttachedStale,
                    Some(stale_gen),
                    None,
                );
                proof {
                    self.entry_exclusive@ = no_attach_except(self.observed, origin);
                }
                self.begin_apply(origin);
                self.phase = ReconcilePhase::MigFreeze { origin, dest, stale_gen };
                proof {
                    assert(self.intent.attached == Some(dest));
                    lemma_first_active_single_is_single(
                        old(self).observed.locations@,
                        self.pageservers@,
                    );
                    assert(origin != dest);
                    if self.entry_exclusive@ {
                        assert(no_attach_except(old(self).observed, origin));
                        assert forall|n: NodeId| n != origin implies !obs_single(self.observed, n)
                            && !obs_multi(self.observed, n) by {
                            assert(!obs_single(old(self).observed, n) && !obs_multi(
                                old(self).observed,
                                n,
                            ));
                            assert(self.observed.spec_get(n) == old(self).observed.spec_get(n));
                        }
                    }
                }
                ReconcileAction::Put { node: origin, config: stale_conf, timeout_secs: Some(10) }
            },
            None => self.general_next(),
        }
    }

    /// After `complete_apply` of `queue[i]` and `begin_apply` of
    /// `queue[i+1]`, the apply loop's obligations hold again.
    #[verifier::rlimit(100)]
    proof fn lemma_apply_step_continue(&self, pre: Reconciler, mid_obs: ObservedState, i: int)
        requires
            pre.inv(),
            pre.phase == ReconcilePhase::GenApplies,
            i == pre.next,
            i + 1 < pre.queue@.len(),
            self.queue@ == pre.queue@,
            self.next == i + 1,
            self.intent == pre.intent,
            self.shard == pre.shard,
            self.config == pre.config,
            self.generation == pre.generation,
            obs_updated(pre.observed, mid_obs, pre.queue@[i].0, Some(pre.queue@[i].1)),
            obs_updated(
                mid_obs,
                self.observed,
                pre.queue@[i + 1].0,
                None::<LocationConfig>,
            ),
            self.phase == ReconcilePhase::GenApplies,
        ensures
            self.gen_applies_inv(),
    {
        let q = self.queue@;
        let sec = self.wanted_secondary();
        let det = self.wanted_detached();
        let node = q[i].0;
        let nxt = q[i + 1].0;
        assert(pre.gen_applies_inv());
        assert(sec == pre.wanted_secondary());
        assert(det == pre.wanted_detached());
        assert(self.wanted_attached() == pre.wanted_attached());
        assert forall|x: int| 0 <= x < q.len() implies self.entry_ok(#[trigger] q[x]) by {
            assert(pre.entry_ok(q[x]));
        }
        assert(node != nxt);
        match self.intent.attached {
            Some(a) => {
                lemma_attached_referenced(self.intent);
                assert(self.entry_ok(q[i]));
                assert(node != a);
                assert(nxt != a);
                assert(self.observed.spec_get(a) == pre.observed.spec_get(a));
                assert(obs_is(pre.observed, a, pre.wanted_attached()));
                assert(obs_is(self.observed, a, self.wanted_attached()));
            },
            None => {},
        }
        assert forall|k: int| 0 <= k < self.intent.secondary@.len() implies obs_is(
            self.observed,
            #[trigger] self.intent.secondary@[k],
            self.wanted_secondary(),
        ) || (exists|x: int|
            self.next <= x < q.len() && q[x] == (self.intent.secondary@[k], self.wanted_secondary())) by {
            let s = self.intent.secondary@[k];
            assert(pre.intent.secondary@[k] == s);
            lemma_secondary_referenced(self.intent, s);
            if s == nxt {
                assert(self.entry_ok(q[i + 1]));
                assert(q[i + 1] == (s, sec));
                assert(self.next <= i + 1 < q.len());
            } else if s == node {
                assert(self.entry_ok(q[i]));
                assert(q[i].1 == sec);
                assert(mid_obs.spec_get(s) == Some(ObservedStateLocation { conf: Some(sec) }));
                assert(self.observed.spec_get(s) == mid_obs.spec_get(s));
                assert(obs_is(self.observed, s, sec));
            } else {
                assert(self.observed.spec_get(s) == pre.observed.spec_get(s));
                if obs_is(pre.observed, s, sec) {
                    assert(obs_is(self.observed, s, sec));
                } else {
                    let x = choose|x: int| pre.next <= x < q.len() && q[x] == (s, sec);
                    assert(q[x].0 == s);
                    assert(x != i);
                    assert(self.next <= x < q.len());
                }
            }
        }
        assert forall|n: NodeId|
            obs_contains(self.observed.locations@, n) && !self.intent.spec_all_pageservers()
                .contains(n) implies obs_is(self.observed, n, self.wanted_detached()) || (
        exists|x: int| self.next <= x < q.len() && q[x] == (n, self.wanted_detached())) by {
            if n == nxt {
                assert(self.entry_ok(q[i + 1]));
                if self.intent.secondary@.contains(n) {
                    lemma_secondary_referenced(self.intent, n);
                    assert(false);
                }
                assert(q[i + 1] == (n, det));
                assert(self.next <= i + 1 < q.len());
            } else if n == node {
                assert(self.entry_ok(q[i]));
                if self.intent.secondary@.contains(n) {
                    lemma_secondary_referenced(self.intent, n);
                    assert(false);
                }
                assert(q[i].1 == det);
                assert(mid_obs.spec_get(n) == Some(ObservedStateLocation { conf: Some(det) }));
                assert(self.observed.spec_get(n) == mid_obs.spec_get(n));
                assert(obs_is(self.observed, n, det));
            } else {
                assert(obs_contains(mid_obs.locations@, n));
                assert(obs_contains(pre.observed.locations@, n));
                assert(self.observed.spec_get(n) == pre.observed.spec_get(n));
                if obs_is(pre.observed, n, det) {
                    assert(obs_is(self.observed, n, det));
                } else {
                    let x = choose|x: int| pre.next <= x < q.len() && q[x] == (n, det);
                    assert(q[x].0 == n);
                    assert(x != i);
                    assert(self.next <= x < q.len());
                }
            }
        }
    }

    /// After the final queued apply succeeds, observed state matches the
    /// intent exactly.
    #[verifier::rlimit(100)]
    proof fn lemma_apply_step_done(&self, pre: Reconciler, i: int)
        requires
            pre.inv(),
            pre.phase == ReconcilePhase::GenApplies,
            i == pre.next,
            i + 1 == pre.queue@.len(),
            self.queue@ == pre.queue@,
            self.intent == pre.intent,
            self.shard == pre.shard,
            self.config == pre.config,
            self.generation == pre.generation,
            obs_updated(pre.observed, self.observed, pre.queue@[i].0, Some(pre.queue@[i].1)),
        ensures
            self.observed_matches_intent(),
    {
        let q = self.queue@;
        let sec = self.wanted_secondary();
        let det = self.wanted_detached();
        let node = q[i].0;
        assert(pre.gen_applies_inv());
        assert(sec == pre.wanted_secondary());
        assert(det == pre.wanted_detached());
        assert(self.wanted_attached() == pre.wanted_attached());
        assert(pre.entry_ok(q[i]));
        assert(self.entry_ok(q[i]));
        match self.intent.attached {
            Some(a) => {
                lemma_attached_referenced(self.intent);
                assert(node != a);
                assert(self.observed.spec_get(a) == pre.observed.spec_get(a));
                assert(obs_is(pre.observed, a, pre.wanted_attached()));
                assert(obs_is(self.observed, a, self.wanted_attached()));
            },
            None => {},
        }
        assert forall|k: int| 0 <= k < self.intent.secondary@.len() implies obs_is(
            self.observed,
            #[trigger] self.intent.secondary@[k],
            self.wanted_secondary(),
        ) by {
            let s = self.intent.secondary@[k];
            assert(pre.intent.secondary@[k] == s);
            lemma_secondary_referenced(self.intent, s);
            if s == node {
                assert(q[i].1 == sec);
                assert(obs_is(self.observed, s, sec));
            } else {
                assert(self.observed.spec_get(s) == pre.observed.spec_get(s));
                if obs_is(pre.observed, s, sec) {
                    assert(obs_is(self.observed, s, sec));
                } else {
                    let x = choose|x: int| pre.next <= x < q.len() && q[x] == (s, sec);
                    assert(q[x].0 == s);
                    assert(x == i);
                    assert(false);
                }
            }
        }
        assert forall|n: NodeId|
            obs_contains(self.observed.locations@, n) && !self.intent.spec_all_pageservers()
                .contains(n) implies obs_is(self.observed, n, self.wanted_detached()) by {
            if n == node {
                if self.intent.secondary@.contains(n) {
                    lemma_secondary_referenced(self.intent, n);
                    assert(false);
                }
                assert(q[i].1 == det);
                assert(obs_is(self.observed, n, det));
            } else {
                assert(obs_contains(pre.observed.locations@, n));
                assert(self.observed.spec_get(n) == pre.observed.spec_get(n));
                if obs_is(pre.observed, n, det) {
                    assert(obs_is(self.observed, n, det));
                } else {
                    let x = choose|x: int| pre.next <= x < q.len() && q[x] == (n, det);
                    assert(q[x].0 == n);
                    assert(x == i);
                    assert(false);
                }
            }
        }
    }

    /// A single observed-state change keeps every other node's attachment
    /// classification.
    proof fn lemma_step_excl(&self, pre: Reconciler, changed: NodeId)
        requires
            forall|m: NodeId|
                m != changed ==> self.observed.spec_get(m) == pre.observed.spec_get(m),
        ensures
            forall|n: NodeId|
                n != changed && !obs_single(pre.observed, n) ==> !obs_single(self.observed, n),
            forall|n: NodeId|
                n != changed && !obs_multi(pre.observed, n) ==> !obs_multi(self.observed, n),
            forall|n: NodeId|
                n != changed && obs_stale(pre.observed, n) ==> obs_stale(self.observed, n),
            forall|n: NodeId|
                n != changed && obs_multi(pre.observed, n) ==> obs_multi(self.observed, n),
            forall|n: NodeId|
                n != changed && obs_unknown(pre.observed, n) ==> obs_unknown(self.observed, n),
    {
        assert forall|n: NodeId| n != changed implies self.observed.spec_get(n)
            == pre.observed.spec_get(n) by {}
    }

    /// Two successive observed-state changes keep every other node's
    /// attachment classification.
    proof fn lemma_step_excl2(&self, pre: Reconciler, mid: Reconciler, a: NodeId, b: NodeId)
        requires
            forall|m: NodeId| m != a ==> mid.observed.spec_get(m) == pre.observed.spec_get(m),
            forall|m: NodeId| m != b ==> self.observed.spec_get(m) == mid.observed.spec_get(m),
        ensures
            forall|n: NodeId|
                n != a && n != b && !obs_single(pre.observed, n) ==> !obs_single(
                    self.observed,
                    n,
                ),
            forall|n: NodeId|
                n != a && n != b && !obs_multi(pre.observed, n) ==> !obs_multi(self.observed, n),
            forall|n: NodeId|
                n != a && n != b && obs_multi(pre.observed, n) ==> obs_multi(self.observed, n),
    {
        assert forall|n: NodeId| n != a && n != b implies self.observed.spec_get(n)
            == pre.observed.spec_get(n) by {}
    }

    /// One turn of the general apply loop: record the completed call,
    /// then start the next one or finish.
    #[verifier::rlimit(100)]
    fn apply_step(&mut self) -> (r: ReconcileAction)
        requires
            old(self).inv(),
            old(self).phase == ReconcilePhase::GenApplies,
        ensures
            final(self).inv(),
            frame_ok(*old(self), *final(self)),
            final(self).cancel == old(self).cancel,
            final(self).entry_exclusive == old(self).entry_exclusive,
            final(self).generation == old(self).generation,
            final(self).attach_gens == old(self).attach_gens,
            final(self).queue@ == old(self).queue@,
            ({
                let q = old(self).queue@;
                let i = old(self).next as int;
                if i + 1 < q.len() {
                    &&& obs_updated2(
                        old(self).observed,
                        final(self).observed,
                        q[i].0,
                        Some(q[i].1),
                        q[i + 1].0,
                        None::<LocationConfig>,
                    )
                    &&& final(self).phase == ReconcilePhase::GenApplies
                    &&& final(self).next == old(self).next + 1
                    &&& r == (ReconcileAction::Put {
                        node: q[i + 1].0,
                        config: q[i + 1].1,
                        timeout_secs: None::<u64>,
                    })
                } else {
                    &&& obs_updated(old(self).observed, final(self).observed, q[i].0, Some(q[i].1))
                    &&& final(self).phase == ReconcilePhase::Done
                    &&& r == (ReconcileAction::Finished { result: Ok::<(), ReconcileError>(()) })
                }
            }),
            (r matches ReconcileAction::Finished { result } && result is Ok) ==> final(self).observed_matches_intent(),
    {
        let idx: usize = self.next;
        proof {
            assert(old(self).gen_applies_inv());
            assert((idx as int) < self.queue@.len());
        }
        let node: NodeId = self.queue[idx].0;
        let conf: LocationConfig = self.queue[idx].1;
        self.complete_apply(node, conf);
        let ghost mid_obs = self.observed;
        proof {
            // the completed node's entry shape decides its new record
            assert(self.queue@ == old(self).queue@);
            assert((idx as int) < self.queue@.len());
            assert(self.entry_ok(self.queue@[idx as int]));
        }
        let qlen: usize = self.queue.len();
        proof {
            assert(idx < qlen);
        }
        if idx + 1 < qlen {
            let nxt_node: NodeId = self.queue[idx + 1].0;
            let nxt_conf: LocationConfig = self.queue[idx + 1].1;
            self.begin_apply(nxt_node);
            self.next = idx + 1;
            proof {
                self.lemma_apply_step_continue(*old(self), mid_obs, idx as int);
            }
            ReconcileAction::Put { node: nxt_node, config: nxt_conf, timeout_secs: None }
        } else {
            self.phase = ReconcilePhase::Done;
            proof {
                self.lemma_apply_step_done(*old(self), idx as int);
            }
            ReconcileAction::Finished { result: Ok(()) }
        }
    }

    /// Consume the outcome of the last action and produce the next one.
    /// `cancelled` is the token's state as the driver last polled it;
    /// when it is set the run stops before issuing anything further.
    #[verifier::rlimit(100)]
    pub fn reconcile_step(&mut self, event: ReconcileEvent, cancelled: bool) -> (r: ReconcileAction)
        requires
            old(self).inv(),
            spec_expects(old(self).phase, event),
            old(self).generation.0 < u32::MAX,
        ensures
            final(self).inv(),
            frame_ok(*old(self), *final(self)),
            final(self).cancel == old(self).cancel,
            final(self).entry_exclusive == old(self).entry_exclusive,
            final(self).generation.0 >= old(self).generation.0,
            (r matches ReconcileAction::Finished { result } && result is Ok) ==> final(self).observed_matches_intent(),
            cancelled ==> failed_rel(*old(self), *final(self), r, ReconcileError::ShuttingDown),
            !cancelled ==> match old(self).phase {
                ReconcilePhase::Start => false,
                ReconcilePhase::Done => false,
                ReconcilePhase::Failed => false,
                ReconcilePhase::MigFreeze { origin, dest, stale_gen } => match event {
                    ReconcileEvent::PutOk => {
                        &&& obs_updated(
                            old(self).observed,
                            final(self).observed,
                            origin,
                            Some(
                                spec_build_conf(
                                    old(self).shard,
                                    old(self).config,
                                    LocationConfigMode::AttachedStale,
                                    Some(stale_gen),
                                    None::<crate::location::LocationConfigSecondary>,
                                ),
                            ),
                        )
                        &&& final(self).phase == (ReconcilePhase::MigBaseline { origin, dest })
                        &&& final(self).generation == old(self).generation
                        &&& final(self).attach_gens == old(self).attach_gens
                        &&& r == (ReconcileAction::GetLsns { node: origin })
                    },
                    ReconcileEvent::PutFailed => failed_rel(
                        *old(self),
                        *final(self),
                        r,
                        ReconcileError::Remote,
                    ),
                    _ => false,
                },
                ReconcilePhase::MigBaseline { origin, dest } => match event {
                    ReconcileEvent::Lsns { lsns } => {
                        &&& final(self).generation.0 == old(self).generation.0 + 1
                        &&& final(self).baseline == lsns
                        &&& obs_updated(
                            old(self).observed,
                            final(self).observed,
                            dest,
                            None::<LocationConfig>,
                        )
                        &&& final(self).phase == (ReconcilePhase::MigAttachDest { origin, dest })
                        &&& final(self).attach_gens@ == old(self).attach_gens@.push(
                            final(self).generation.0,
                        )
                        &&& r == (ReconcileAction::Put {
                            node: dest,
                            config: spec_build_conf(
                                old(self).shard,
                                old(self).config,
                                LocationConfigMode::AttachedMulti,
                                Some(final(self).generation),
                                None::<crate::location::LocationConfigSecondary>,
                            ),
                            timeout_secs: None::<u64>,
                        })
                    },
                    ReconcileEvent::LsnsFailed => failed_rel(
                        *old(self),
                        *final(self),
                        r,
                        ReconcileError::Remote,
                    ),
                    _ => false,
                },
                ReconcilePhase::MigAttachDest { origin, dest } => match event {
                    ReconcileEvent::PutOk => {
                        &&& obs_updated(
                            old(self).observed,
                            final(self).observed,
                            dest,
                            Some(
                                spec_build_conf(
                                    old(self).shard,
                                    old(self).config,
                                    LocationConfigMode::AttachedMulti,
                                    Some(old(self).generation),
                                    None::<crate::location::LocationConfigSecondary>,
                                ),
                            ),
                        )
                        &&& final(self).phase == (ReconcilePhase::MigCatchup { origin, dest })
                        &&& final(self).generation == old(self).generation
                        &&& final(self).attach_gens == old(self).attach_gens
                        &&& r == (ReconcileAction::GetLsns { node: dest })
                    },
                    ReconcileEvent::PutFailed => failed_rel(
                        *old(self),
                        *final(self),
                        r,
                        ReconcileError::Remote,
                    ),
                    _ => false,
                },
                ReconcilePhase::MigCatchup { origin, dest } => match event {
                    ReconcileEvent::Lsns { lsns } => if spec_caught_up(
                        old(self).baseline@,
                        lsns@,
                    ) {
                        &&& *final(self) == (Reconciler {
                            phase: ReconcilePhase::MigNotify { origin, dest },
                            ..*old(self)
                        })
                        &&& r == (ReconcileAction::Notify { node: dest })
                    } else {
                        &&& *final(self) == *old(self)
                        &&& r == (ReconcileAction::GetLsns { node: dest })
                    },
                    ReconcileEvent::LsnsFailed => {
                        &&& *final(self) == *old(self)
                        &&& r == (ReconcileAction::GetLsns { node: dest })
                    },
                    _ => false,
                },
                ReconcilePhase::MigNotify { origin, dest } => match event {
                    ReconcileEvent::NotifyOk => {
                        &&& obs_updated(
                            old(self).observed,
                            final(self).observed,
                            origin,
                            None::<LocationConfig>,
                        )
                        &&& final(self).phase == (ReconcilePhase::MigDowngrade { origin, dest })
                        &&& final(self).generation == old(self).generation
                        &&& final(self).attach_gens == old(self).attach_gens
                        &&& r == (ReconcileAction::Put {
                            node: origin,
                            config: spec_secondary_conf(old(self).shard, old(self).config),
                            timeout_secs: None::<u64>,
                        })
                    },
                    ReconcileEvent::NotifyFailed => failed_rel(
                        *old(self),
                        *final(self),
                        r,
                        ReconcileError::Remote,
                    ),
                    _ => false,
                },
                ReconcilePhase::MigDowngrade { origin, dest } => match event {
                    ReconcileEvent::PutOk => {
                        &&& obs_updated2(
                            old(self).observed,
                            final(self).observed,
                            origin,
                            Some(spec_secondary_conf(old(self).shard, old(self).config)),
                            dest,
                            None::<LocationConfig>,
                        )
                        &&& final(self).phase == (ReconcilePhase::MigPromote { origin, dest })
                        &&& final(self).generation == old(self).generation
                        &&& final(self).attach_gens == old(self).attach_gens
                        &&& r == (ReconcileAction::Put {
                            node: dest,
                            config: spec_attached_conf(
                                old(self).generation,
                                old(self).shard,
                                old(self).config,
                            ),
                            timeout_secs: None::<u64>,
                        })
                    },
                    ReconcileEvent::PutFailed => failed_rel(
                        *old(self),
                        *final(self),
                        r,
                        ReconcileError::Remote,
                    ),
                    _ => false,
                },
                ReconcilePhase::MigPromote { origin, dest } => match event {
                    ReconcileEvent::PutOk => exists|obs_mid: ObservedState|
                        {
                            &&& obs_updated(
                                old(self).observed,
                                obs_mid,
                                dest,
                                Some(
                                    spec_attached_conf(
                                        old(self).generation,
                                        old(self).shard,
                                        old(self).config,
                                    ),
                                ),
                            )
                            &&& general_rel(*old(self), obs_mid, *final(self), r)
                        },
                    ReconcileEvent::PutFailed => failed_rel(
                        *old(self),
                        *final(self),
                        r,
                        ReconcileError::Remote,
                    ),
                    _ => false,
                },
                ReconcilePhase::GenAttach { node } => match event {
                    ReconcileEvent::PutOk => {
                        &&& obs_updated(
                            old(self).observed,
                            final(self).observed,
                            node,
                            Some(
                                spec_attached_conf(
                                    old(self).generation,
                                    old(self).shard,
                                    old(self).config,
                                ),
                            ),
                        )
                        &&& final(self).phase == (ReconcilePhase::GenNotify { node })
                        &&& final(self).generation == old(self).generation
                        &&& final(self).attach_gens == old(self).attach_gens
                        &&& r == (ReconcileAction::Notify { node })
                    },
                    ReconcileEvent::PutFailed => failed_rel(
                        *old(self),
                        *final(self),
                        r,
                        ReconcileError::Remote,
                    ),
                    _ => false,
                },
                ReconcilePhase::GenNotify { node } => match event {
                    ReconcileEvent::NotifyOk => queue_rel(
                        *old(self),
                        old(self).observed,
                        *final(self),
                        r,
                    ),
                    ReconcileEvent::NotifyFailed => queue_rel(
                        *old(self),
                        old(self).observed,
                        *final(self),
                        r,
                    ),
                    _ => false,
                },
                ReconcilePhase::GenApplies => match event {
                    ReconcileEvent::PutOk => {
                        let q = old(self).queue@;
                        let i = old(self).next as int;
                        &&& final(self).queue@ == q
                        &&& final(self).generation == old(self).generation
                        &&& final(self).attach_gens == old(self).attach_gens
                        &&& if i + 1 < q.len() {
                            &&& obs_updated2(
                                old(self).observed,
                                final(self).observed,
                                q[i].0,
                                Some(q[i].1),
                                q[i + 1].0,
                                None::<LocationConfig>,
                            )
                            &&& final(self).phase == ReconcilePhase::GenApplies
                            &&& final(self).next == old(self).next + 1
                            &&& r == (ReconcileAction::Put {
                                node: q[i + 1].0,
                                config: q[i + 1].1,
                                timeout_secs: None::<u64>,
                            })
                        } else {
                            &&& obs_updated(
                                old(self).observed,
                                final(self).observed,
                                q[i].0,
                                Some(q[i].1),
                            )
                            &&& final(self).phase == ReconcilePhase::Done
                            &&& r == (ReconcileAction::Finished {
                                result: Ok::<(), ReconcileError>(()),
                            })
                        }
                    },
                    ReconcileEvent::PutFailed => failed_rel(
                        *old(self),
                        *final(self),
                        r,
                        ReconcileError::Remote,
                    ),
                    _ => false,
                },
            },
    {
        if cancelled {
            self.phase = ReconcilePhase::Failed;
            return ReconcileAction::Finished { result: Err(ReconcileError::ShuttingDown) };
        }
        let ph: ReconcilePhase = self.phase;
        match ph {
            ReconcilePhase::Start => unreached(),
            ReconcilePhase::Done => unreached(),
            ReconcilePhase::Failed => unreached(),
            ReconcilePhase::MigFreeze { origin, dest, stale_gen } => match event {
                ReconcileEvent::PutOk => {
                    let stale_conf: LocationConfig = build_location_config(
                        &self.shard,
                        &self.config,
                        LocationConfigMode::AttachedStale,
                        Some(stale_gen),
                        None,
                    );
                    self.complete_apply(origin, stale_conf);
                    self.phase = ReconcilePhase::MigBaseline { origin, dest };
                    proof {
                        self.lemma_step_excl(*old(self), origin);
                    }
                    ReconcileAction::GetLsns { node: origin }
                },
                ReconcileEvent::PutFailed => {
                    self.phase = ReconcilePhase::Failed;
                    ReconcileAction::Finished { result: Err(ReconcileError::Remote) }
                },
                _ => unreached(),
            },
            ReconcilePhase::MigBaseline { origin, dest } => match event {
                ReconcileEvent::Lsns { lsns } => {
                    self.baseline = lsns;
                    self.generation = self.generation.next();
                    proof {
                        self.attach_gens@ = self.attach_gens@.push(self.generation.0);
                    }
                    let multi_conf: LocationConfig = build_location_config(
                        &self.shard,
                        &self.config,
                        LocationConfigMode::AttachedMulti,
                        Some(self.generation),
                        None,
                    );
                    self.begin_apply(dest);
                    self.phase = ReconcilePhase::MigAttachDest { origin, dest };
                    proof {
                        self.lemma_step_excl(*old(self), dest);
                    }
                    ReconcileAction::Put { node: dest, config: multi_conf, timeout_secs: None }
                },
                ReconcileEvent::LsnsFailed => {
                    self.phase = ReconcilePhase::Failed;
                    ReconcileAction::Finished { result: Err(ReconcileError::Remote) }
                },
                _ => unreached(),
            },
            ReconcilePhase::MigAttachDest { origin, dest } => match event {
                ReconcileEvent::PutOk => {
                    let multi_conf: LocationConfig = build_location_config(
                        &self.shard,
                        &self.config,
                        LocationConfigMode::AttachedMulti,
                        Some(self.generation),
                        None,
                    );
                    self.complete_apply(dest, multi_conf);
                    self.phase = ReconcilePhase::MigCatchup { origin, dest };
                    proof {
                        self.lemma_step_excl(*old(self), dest);
                    }
                    ReconcileAction::GetLsns { node: dest }
                },
                ReconcileEvent::PutFailed => {
                    self.phase = ReconcilePhase::Failed;
                    ReconcileAction::Finished { result: Err(ReconcileError::Remote) }
                },
                _ => unreached(),
            },
            ReconcilePhase::MigCatchup { origin, dest } => match event {
                ReconcileEvent::Lsns { lsns } => {
                    if lsns_caught_up(&self.baseline, &lsns) {
                        self.phase = ReconcilePhase::MigNotify { origin, dest };
                        ReconcileAction::Notify { node: dest }
                    } else {
                        ReconcileAction::GetLsns { node: dest }
                    }
                },
                ReconcileEvent::LsnsFailed => {
                    ReconcileAction::GetLsns { node: dest }
                },
                _ => unreached(),
            },
            ReconcilePhase::MigNotify { origin, dest } => match event {
                ReconcileEvent::NotifyOk => {
                    let sec_conf: LocationConfig = secondary_location_conf(
                        &self.shard,
                        &self.config,
                    );
                    self.begin_apply(origin);
                    self.phase = ReconcilePhase::MigDowngrade { origin, dest };
                    proof {
                        self.lemma_step_excl(*old(self), origin);
                    }
                    ReconcileAction::Put { node: origin, config: sec_conf, timeout_secs: None }
                },
                ReconcileEvent::NotifyFailed => {
                    self.phase = ReconcilePhase::Failed;
                    ReconcileAction::Finished { result: Err(ReconcileError::Remote) }
                },
                _ => unreached(),
            },
            ReconcilePhase::MigDowngrade { origin, dest } => match event {
                ReconcileEvent::PutOk => {
                    let sec_conf: LocationConfig = secondary_location_conf(
                        &self.shard,
                        &self.config,
                    );
                    self.complete_apply(origin, sec_conf);
                    let ghost mid = *self;
                    let single_conf: LocationConfig = attached_location_conf(
                        self.generation,
                        &self.shard,
                        &self.config,
                    );
                    self.begin_apply(dest);
                    self.phase = ReconcilePhase::MigPromote { origin, dest };
                    proof {
                        self.lemma_step_excl2(*old(self), mid, origin, dest);
                    }
                    ReconcileAction::Put { node: dest, config: single_conf, timeout_secs: None }
                },
                ReconcileEvent::PutFailed => {
                    self.phase = ReconcilePhase::Failed;
                    ReconcileAction::Finished { result: Err(ReconcileError::Remote) }
                },
                _ => unreached(),
            },
            ReconcilePhase::MigPromote { origin, dest } => match event {
                ReconcileEvent::PutOk => {
                    let single_conf: LocationConfig = attached_location_conf(
                        self.generation,
                        &self.shard,
                        &self.config,
                    );
                    self.complete_apply(dest, single_conf);
                    let ghost mid_obs = self.observed;
                    let ghost pre2 = *self;
                    let act = self.general_next();
                    proof {
                        assert(general_rel(pre2, mid_obs, *self, act));
                        assert(general_rel(*old(self), mid_obs, *self, act));
                    }
                    act
                },
                ReconcileEvent::PutFailed => {
                    self.phase = ReconcilePhase::Failed;
                    ReconcileAction::Finished { result: Err(ReconcileError::Remote) }
                },
                _ => unreached(),
            },
            ReconcilePhase::GenAttach { node } => match event {
                ReconcileEvent::PutOk => {
                    let wanted: LocationConfig = attached_location_conf(
                        self.generation,
                        &self.shard,
                        &self.config,
                    );
                    self.complete_apply(node, wanted);
                    self.phase = ReconcilePhase::GenNotify { node };
                    ReconcileAction::Notify { node }
                },
                ReconcileEvent::PutFailed => {
                    self.phase = ReconcilePhase::Failed;
                    ReconcileAction::Finished { result: Err(ReconcileError::Remote) }
                },
                _ => unreached(),
            },
            ReconcilePhase::GenNotify { node } => match event {
                ReconcileEvent::NotifyOk => self.enter_applies(),
                ReconcileEvent::NotifyFailed => self.enter_applies(),
                _ => unreached(),
            },
            ReconcilePhase::GenApplies => match event {
                ReconcileEvent::PutOk => self.apply_step(),
                ReconcileEvent::PutFailed => {
                    self.phase = ReconcilePhase::Failed;
                    ReconcileAction::Finished { result: Err(ReconcileError::Remote) }
                },
                _ => unreached(),
            },
        }
    }
}

/// Convergence: when a reconcile run has finished successfully, the
/// observed state equals the configuration derived from the intent and
/// the (possibly bumped) generation — the attached node holds the derived
/// attached configuration, every intended secondary holds the derived
/// secondary configuration, and every other observed node is detached.
pub proof fn lemma_quiescent_observed_matches_intent(r: &Reconciler)
    requires
        r.inv(),
        r.phase == ReconcilePhase::Done,
    ensures
        r.observed_matches_intent(),
{
}

/// Generation monotonicity on the wire: within a run, the generations
/// carried by attach-promoting configurations (`AttachedSingle` on a
/// general attach, `AttachedMulti` on a migration) strictly increase and
/// never exceed the run's current generation. Every such emission follows
/// its own bump, so across runs the per-shard order continues as long as
/// the posted generation is carried forward.
pub proof fn lemma_attach_generations_strictly_increase(r: &Reconciler)
    requires
        r.inv(),
    ensures
        strictly_increasing(r.attach_gens@),
        forall|i: int| 0 <= i < r.attach_gens@.len() ==> #[trigger] r.attach_gens@[i]
            <= r.generation.0,
{
}

/// Attachment exclusivity through a live migration, over the controller's
/// observed state: provided no node but the origin showed an attached-mode
/// configuration when the run began, then in every migration phase no two
/// nodes show `AttachedSingle` (indeed none does until the final
/// promotion), and an `AttachedMulti` appears only on the destination —
/// while the origin is stale or already mid-downgrade — never beside
/// another attached location.
pub proof fn lemma_migration_exclusivity(r: &Reconciler)
    requires
        r.inv(),
        r.entry_exclusive@,
        r.phase matches ReconcilePhase::MigFreeze { .. } || r.phase
            matches ReconcilePhase::MigBaseline { .. } || r.phase
            matches ReconcilePhase::MigAttachDest { .. } || r.phase
            matches ReconcilePhase::MigCatchup { .. } || r.phase
            matches ReconcilePhase::MigNotify { .. } || r.phase
            matches ReconcilePhase::MigDowngrade { .. } || r.phase
            matches ReconcilePhase::MigPromote { .. },
    ensures
        forall|a: NodeId, b: NodeId|
            a != b ==> !(obs_single(r.observed, a) && obs_single(r.observed, b)),
        forall|a: NodeId, b: NodeId|
            a != b ==> !(obs_multi(r.observed, a) && obs_multi(r.observed, b)),
        forall|n: NodeId| obs_multi(r.observed, n) ==> !obs_single(r.observed, n),
        (match r.phase {
            ReconcilePhase::MigCatchup { origin, dest } => obs_multi(r.observed, dest)
                && obs_stale(r.observed, origin),
            ReconcilePhase::MigNotify { origin, dest } => obs_multi(r.observed, dest)
                && obs_stale(r.observed, origin),
            _ => true,
        }),
{
    match r.phase {
        ReconcilePhase::MigFreeze { origin, .. } => {
            assert forall|a: NodeId| obs_single(r.observed, a) implies a == origin by {}
            assert forall|a: NodeId| obs_multi(r.observed, a) implies a == origin by {}
        },
        ReconcilePhase::MigBaseline { origin, .. } => {
            assert forall|a: NodeId| obs_single(r.observed, a) implies a == origin by {}
            assert forall|a: NodeId| obs_multi(r.observed, a) implies a == origin by {}
        },
        ReconcilePhase::MigAttachDest { dest, .. } => {
            assert forall|a: NodeId| obs_multi(r.observed, a) implies a == dest by {}
        },
        ReconcilePhase::MigCatchup { dest, .. } => {
            assert forall|a: NodeId| obs_multi(r.observed, a) implies a == dest by {}
        },
        ReconcilePhase::MigNotify { dest, .. } => {
            assert forall|a: NodeId| obs_multi(r.observed, a) implies a == dest by {}
        },
        ReconcilePhase::MigDowngrade { dest, .. } => {
            assert forall|a: NodeId| obs_multi(r.observed, a) implies a == dest by {}
        },
        ReconcilePhase::MigPromote { dest, .. } => {
            assert forall|a: NodeId| obs_multi(r.observed, a) implies a == dest by {}
        },
        _ => {},
    }
}

} // verus!
