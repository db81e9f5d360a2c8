//! Service facade: dispatches the external RPCs — tenant create, migrate,
//! node register and configure, attach-hook, re-attach, validate, inspect —
//! onto the data model, and hands out reconciler snapshots for the shards
//! each mutation dirtied. Transport and task spawning live with the
//! driver; every decision and state change is made here.

use vstd::prelude::*;
use tokio_util::sync::CancellationToken;
use crate::ids::{Generation, NodeId, ShardCount, ShardNumber, TenantId, TenantShardId};
use crate::location::TenantConfig;
use crate::node::{Node, NodeAvailability, NodeSchedulingPolicy};
use crate::reconciler::Reconciler;
use crate::scheduler::{eligible_ids, lemma_eligible_ids_nodup, remove_id, remove_id_exec, schedule};
use crate::scheduler::lemma_remove_id_contains;
use crate::scheduler::lemma_remove_id_nodup;
use crate::shard::{ShardIdentity, ShardLayout, ShardStripeSize, DEFAULT_STRIPE_SIZE, LAYOUT_V1};
use crate::tenant_state::{IntentState, ObservedState, TenantShardState};
use crate::PlacementPolicy;
use crate::Sequence;

verus! {

/// Surface-level error kinds of the external API.
#[derive(Clone, Copy, PartialEq, Eq, Structural, Debug)]
pub enum ApiError {
    /// Malformed input, id mismatch, or an empty creation request.
    BadRequest,
    /// Unknown tenant, shard or node.
    NotFound,
    /// The request cannot converge right now (for instance no schedulable
    /// node, or a shard without an attached location).
    Conflict,
    /// Cooperative shutdown.
    ShuttingDown,
    /// Unexpected invariant failure.
    Internal,
}

pub struct AttachHookRequest {
    pub tenant_shard_id: TenantShardId,
    /// `Some`: attach to this node under a fresh generation. `None`:
    /// clear the attachment.
    pub node_id: Option<NodeId>,
}

#[derive(Clone, Copy, PartialEq, Eq, Structural, Debug)]
pub struct AttachHookResponse {
    /// The freshly issued generation, when a node was attached.
    pub generation: Option<u32>,
}

pub struct InspectRequest {
    pub tenant_shard_id: TenantShardId,
}

#[derive(Clone, Copy, PartialEq, Eq, Structural, Debug)]
pub struct InspectAttachment {
    pub generation: u32,
    pub node_id: NodeId,
}

#[derive(Clone, Copy, PartialEq, Eq, Structural, Debug)]
pub struct InspectResponse {
    /// The current generation and attached node, when the shard exists
    /// and is attached.
    pub attachment: Option<InspectAttachment>,
}

pub struct NodeRegisterRequest {
    pub node_id: NodeId,
    pub listen_http_addr: String,
    pub listen_http_port: u16,
    pub listen_pg_addr: String,
    pub listen_pg_port: u16,
}

pub struct NodeConfigureRequest {
    pub node_id: NodeId,
    pub availability: Option<NodeAvailability>,
    pub scheduling: Option<NodeSchedulingPolicy>,
}

pub struct TenantCreateRequest {
    pub tenant_id: TenantId,
    pub shard_count: ShardCount,
    pub shard_stripe_size: Option<u32>,
    pub placement_policy: Option<PlacementPolicy>,
    pub config: TenantConfig,
}

#[derive(Clone, Copy, PartialEq, Eq, Structural, Debug)]
pub struct TenantCreateResponseShard {
    pub shard_id: TenantShardId,
    pub node_id: Option<NodeId>,
    pub generation: u32,
}

#[derive(Debug)]
pub struct TenantCreateResponse {
    pub shards: Vec<TenantCreateResponseShard>,
}

#[derive(Debug)]
pub struct TenantLocateResponseShard {
    pub shard_id: TenantShardId,
    pub node_id: NodeId,
    pub listen_http_addr: String,
    pub listen_http_port: u16,
    pub listen_pg_addr: String,
    pub listen_pg_port: u16,
}

#[derive(Debug)]
pub struct TenantLocateResponse {
    pub shards: Vec<TenantLocateResponseShard>,
}

pub struct TenantShardMigrateRequest {
    pub tenant_shard_id: TenantShardId,
    pub node_id: NodeId,
}

#[derive(Clone, Copy, PartialEq, Eq, Structural, Debug)]
pub struct TenantShardMigrateResponse {
}

pub struct ReAttachRequest {
    pub node_id: NodeId,
    /// The shards the restarted node believes it holds.
    pub shards: Vec<TenantShardId>,
}

#[derive(Clone, Copy, PartialEq, Eq, Structural, Debug)]
pub struct ReAttachResponseTenant {
    pub id: TenantShardId,
    pub generation: u32,
}

#[derive(Debug)]
pub struct ReAttachResponse {
    pub tenants: Vec<ReAttachResponseTenant>,
}

#[derive(Clone, Copy, PartialEq, Eq, Structural, Debug)]
pub struct ValidateRequestTenant {
    pub id: TenantShardId,
    pub generation: u32,
}

pub struct ValidateRequest {
    pub tenants: Vec<ValidateRequestTenant>,
}

#[derive(Clone, Copy, PartialEq, Eq, Structural, Debug)]
pub struct ValidateResponseTenant {
    pub id: TenantShardId,
    pub valid: bool,
}

#[derive(Debug)]
pub struct ValidateResponse {
    pub tenants: Vec<ValidateResponseTenant>,
}

/// Some registered node carries this id.
pub open spec fn reg_contains(nodes: Seq<Node>, n: NodeId) -> bool {
    exists|j: int| 0 <= j < nodes.len() && nodes[j].id == n
}

/// The (unique, under well-formedness) shard record with this id.
pub open spec fn spec_tenant_lookup(
    tenants: Seq<TenantShardState>,
    id: TenantShardId,
) -> Option<TenantShardState>
    decreases tenants.len(),
{
    if tenants.len() == 0 {
        None
    } else if tenants[0].tenant_shard_id == id {
        Some(tenants[0])
    } else {
        spec_tenant_lookup(tenants.drop_first(), id)
    }
}

/// The shard's current generation, when it exists.
pub open spec fn spec_tenant_gen(tenants: Seq<TenantShardState>, id: TenantShardId) -> Option<u32> {
    match spec_tenant_lookup(tenants, id) {
        Some(t) => Some(t.generation.0),
        None => None,
    }
}

/// What `validate` answers for one presented `(shard, generation)` pair:
/// valid exactly when the shard is known and the generation is current.
pub open spec fn spec_valid(tenants: Seq<TenantShardState>, id: TenantShardId, g: u32) -> bool {
    spec_tenant_gen(tenants, id) == Some(g)
}

pub proof fn lemma_tenant_lookup_first_match(
    tenants: Seq<TenantShardState>,
    id: TenantShardId,
    i: int,
)
    requires
        0 <= i < tenants.len(),
        tenants[i].tenant_shard_id == id,
        forall|j: int| 0 <= j < i ==> tenants[j].tenant_shard_id != id,
    ensures
        spec_tenant_lookup(tenants, id) == Some(tenants[i]),
    decreases i,
{
    if i > 0 {
        lemma_tenant_lookup_first_match(tenants.drop_first(), id, i - 1);
    }
}

pub proof fn lemma_tenant_lookup_absent(tenants: Seq<TenantShardState>, id: TenantShardId)
    requires
        forall|j: int| 0 <= j < tenants.len() ==> tenants[j].tenant_shard_id != id,
    ensures
        spec_tenant_lookup(tenants, id) is None,
    decreases tenants.len(),
{
    if tenants.len() > 0 {
        lemma_tenant_lookup_absent(tenants.drop_first(), id);
    }
}

/// The attachment control plane's whole state: the node registry and the
/// per-shard records. A single active controller owns this value; the
/// driver serializes calls into it.
pub struct Service {
    pub nodes: Vec<Node>,
    pub tenants: Vec<TenantShardState>,
}

impl Service {
    /// Registry ids and shard ids are unique; every shard record is
    /// well-formed; every node an intent references is registered.
    pub open spec fn wf(&self) -> bool {
        &&& (forall|i: int, j: int|
            0 <= i < j < self.nodes@.len() ==> self.nodes@[i].id != self.nodes@[j].id)
        &&& (forall|i: int, j: int|
            0 <= i < j < self.tenants@.len() ==> self.tenants@[i].tenant_shard_id
                != self.tenants@[j].tenant_shard_id)
        &&& (forall|i: int| 0 <= i < self.tenants@.len() ==> (#[trigger] self.tenants@[i]).wf())
        &&& (forall|i: int, n: NodeId|
            0 <= i < self.tenants@.len() && (#[trigger] self.tenants@[i].intent.spec_all_pageservers().contains(
                n,
            )) ==> reg_contains(self.nodes@, n))
    }

    /// Every shard's generation and sequence leave room for one more
    /// increment: the machine-size precondition of the mutating calls.
    pub open spec fn counters_ok(&self) -> bool {
        forall|i: int|
            0 <= i < self.tenants@.len() ==> (#[trigger] self.tenants@[i]).generation.0 < u32::MAX
                && self.tenants@[i].sequence.0 < u64::MAX
    }

    pub fn new() -> (r: Self)
        ensures
            r.wf(),
            r.counters_ok(),
            r.nodes@ == Seq::<Node>::empty(),
            r.tenants@ == Seq::<TenantShardState>::empty(),
    {
        Service { nodes: Vec::new(), tenants: Vec::new() }
    }

    /// The position of a node in the registry.
    fn find_node_index(&self, n: NodeId) -> (r: Option<usize>)
        ensures
            match r {
                Some(k) => k < self.nodes@.len() && self.nodes@[k as int].id == n,
                None => !reg_contains(self.nodes@, n),
            },
    {
        let mut i: usize = 0;
        while i < self.nodes.len()
            invariant
                i <= self.nodes@.len(),
                forall|j: int| 0 <= j < i ==> self.nodes@[j].id != n,
            decreases self.nodes@.len() - i,
        {
            if self.nodes[i].id.0 == n.0 {
                return Some(i);
            }
            i = i + 1;
        }
        proof {
            if reg_contains(self.nodes@, n) {
                let j = choose|j: int| 0 <= j < self.nodes@.len() && self.nodes@[j].id == n;
                assert(false);
            }
        }
        None
    }

    /// The position of a shard record.
    fn find_tenant_index(&self, id: TenantShardId) -> (r: Option<usize>)
        ensures
            match r {
                Some(k) => k < self.tenants@.len() && self.tenants@[k as int].tenant_shard_id == id
                    && (forall|j: int| 0 <= j < k ==> self.tenants@[j].tenant_shard_id != id)
                    && spec_tenant_lookup(self.tenants@, id) == Some(self.tenants@[k as int]),
                None => spec_tenant_lookup(self.tenants@, id) is None,
            },
    {
        let mut i: usize = 0;
        while i < self.tenants.len()
            invariant
                i <= self.tenants@.len(),
                forall|j: int| 0 <= j < i ==> self.tenants@[j].tenant_shard_id != id,
            decreases self.tenants@.len() - i,
        {
            let t = &self.tenants[i];
            if t.tenant_shard_id.tenant_id.0 == id.tenant_id.0 && t.tenant_shard_id.shard_number.0
                == id.shard_number.0 && t.tenant_shard_id.shard_count.0 == id.shard_count.0 {
                proof {
                    assert(self.tenants@[i as int].tenant_shard_id == id);
                    lemma_tenant_lookup_first_match(self.tenants@, id, i as int);
                }
                return Some(i);
            }
            i = i + 1;
        }
        proof {
            lemma_tenant_lookup_absent(self.tenants@, id);
        }
        None
    }

    /// Register a page server. Idempotent on the node id: re-registering
    /// a known node changes nothing.
    pub fn node_register(&mut self, req: NodeRegisterRequest)
        requires
            old(self).wf(),
        ensures
            final(self).wf(),
            final(self).tenants == old(self).tenants,
            tenants_gen_monotone(old(self).tenants@, final(self).tenants@),
            reg_contains(old(self).nodes@, req.node_id) ==> final(self).nodes == old(self).nodes,
            !reg_contains(old(self).nodes@, req.node_id) ==> final(self).nodes@ == old(self).nodes@.push(
                Node {
                    id: req.node_id,
                    listen_http_addr: req.listen_http_addr,
                    listen_http_port: req.listen_http_port,
                    listen_pg_addr: req.listen_pg_addr,
                    listen_pg_port: req.listen_pg_port,
                    availability: NodeAvailability::Active,
                    scheduling: NodeSchedulingPolicy::Active,
                },
            ),
            old(self).counters_ok() ==> final(self).counters_ok(),
    {
        match self.find_node_index(req.node_id) {
            Some(_) => {
                proof {
                    assert(reg_contains(self.nodes@, req.node_id)) by {
                        let k = choose|k: int|
                            0 <= k < self.nodes@.len() && self.nodes@[k].id == req.node_id;
                    }
                }
            },
            None => {
                let node = Node {
                    id: req.node_id,
                    listen_http_addr: req.listen_http_addr,
                    listen_http_port: req.listen_http_port,
                    listen_pg_addr: req.listen_pg_addr,
                    listen_pg_port: req.listen_pg_port,
                    availability: NodeAvailability::Active,
                    scheduling: NodeSchedulingPolicy::Active,
                };
                self.nodes.push(node);
                proof {
                    assert forall|i: int, j: int|
                        0 <= i < j < self.nodes@.len() implies self.nodes@[i].id
                        != self.nodes@[j].id by {
                        if j == self.nodes@.len() - 1 {
                            assert(!reg_contains(old(self).nodes@, req.node_id));
                            if old(self).nodes@[i].id == req.node_id {
                                assert(reg_contains(old(self).nodes@, req.node_id));
                            }
                        }
                    }
                    assert forall|i: int, n: NodeId|
                        0 <= i < self.tenants@.len() && (
                        #[trigger] self.tenants@[i].intent.spec_all_pageservers().contains(
                            n,
                        )) implies reg_contains(self.nodes@, n) by {
                        assert(reg_contains(old(self).nodes@, n));
                        let j = choose|j: int|
                            0 <= j < old(self).nodes@.len() && old(self).nodes@[j].id == n;
                        assert(self.nodes@[j].id == n);
                    }
                }
            },
        }
    }

    /// Answer, for each presented `(shard, generation)` pair, whether that
    /// generation is still current. A `false` answer forbids the deletion
    /// the page server had enqueued under it.
    pub fn validate(&self, req: &ValidateRequest) -> (r: ValidateResponse)
        ensures
            r.tenants@.len() == req.tenants@.len(),
            forall|i: int|
                0 <= i < req.tenants@.len() ==> (#[trigger] r.tenants@[i]) == (
                ValidateResponseTenant {
                    id: req.tenants@[i].id,
                    valid: spec_valid(
                        self.tenants@,
                        req.tenants@[i].id,
                        req.tenants@[i].generation,
                    ),
                }),
    {
        let mut out: Vec<ValidateResponseTenant> = Vec::new();
        let mut i: usize = 0;
        while i < req.tenants.len()
            invariant
                i <= req.tenants@.len(),
                out@.len() == i,
                forall|j: int|
                    0 <= j < i ==> (#[trigger] out@[j]) == (ValidateResponseTenant {
                        id: req.tenants@[j].id,
                        valid: spec_valid(
                            self.tenants@,
                            req.tenants@[j].id,
                            req.tenants@[j].generation,
                        ),
                    }),
            decreases req.tenants@.len() - i,
        {
            let item: ValidateRequestTenant = req.tenants[i];
            let valid: bool = match self.find_tenant_index(item.id) {
                Some(k) => self.tenants[k].generation.0 == item.generation,
                None => false,
            };
            out.push(ValidateResponseTenant { id: item.id, valid });
            i = i + 1;
        }
        ValidateResponse { tenants: out }
    }

    /// Debug view: the current generation and attached node of a shard.
    pub fn inspect(&self, req: &InspectRequest) -> (r: InspectResponse)
        ensures
            r.attachment == (match spec_tenant_lookup(self.tenants@, req.tenant_shard_id) {
                Some(t) => match t.intent.attached {
                    Some(n) => Some(InspectAttachment { generation: t.generation.0, node_id: n }),
                    None => None::<InspectAttachment>,
                },
                None => None::<InspectAttachment>,
            }),
    {
        match self.find_tenant_index(req.tenant_shard_id) {
            Some(k) => match &self.tenants[k].intent.attached {
                Some(n) => InspectResponse {
                    attachment: Some(
                        InspectAttachment {
                            generation: self.tenants[k].generation.0,
                            node_id: *n,
                        },
                    ),
                },
                None => InspectResponse { attachment: None },
            },
            None => InspectResponse { attachment: None },
        }
    }
}

/// Whether a list of shard ids mentions one.
pub fn contains_tsid(v: &Vec<TenantShardId>, id: TenantShardId) -> (r: bool)
    ensures
        r == v@.contains(id),
{
    let mut i: usize = 0;
    while i < v.len()
        invariant
            i <= v@.len(),
            forall|j: int| 0 <= j < i ==> v@[j] != id,
        decreases v@.len() - i,
    {
        let t = v[i];
        if t.tenant_id.0 == id.tenant_id.0 && t.shard_number.0 == id.shard_number.0
            && t.shard_count.0 == id.shard_count.0 {
            proof {
                assert(v@[i as int] == id);
            }
            return true;
        }
        i = i + 1;
    }
    proof {
        if v@.contains(id) {
            let j = choose|j: int| 0 <= j < v@.len() && v@[j] == id;
            assert(false);
        }
    }
    false
}

/// Copy a registry snapshot.
fn clone_nodes(v: &Vec<Node>) -> (r: Vec<Node>)
    ensures
        r@ == v@,
{
    let mut r: Vec<Node> = Vec::new();
    let mut i: usize = 0;
    while i < v.len()
        invariant
            i <= v@.len(),
            r@.len() == i,
            forall|j: int| 0 <= j < i ==> r@[j] == v@[j],
        decreases v@.len() - i,
    {
        r.push(v[i].clone());
        i = i + 1;
    }
    proof {
        assert(r@ =~= v@);
    }
    r
}

/// How `attach_hook` patches an existing shard record when a node is
/// given: a fresh generation, the attachment moved, the node taken out of
/// the secondaries, the sequence bumped, everything else kept.
pub open spec fn attach_patch(pre: TenantShardState, post: TenantShardState, n: NodeId) -> bool {
    &&& post.tenant_shard_id == pre.tenant_shard_id
    &&& post.shard == pre.shard
    &&& post.tenant_conf == pre.tenant_conf
    &&& post.policy == pre.policy
    &&& post.generation.0 == pre.generation.0 + 1
    &&& post.intent.attached == Some(n)
    &&& post.intent.secondary@ == remove_id(pre.intent.secondary@, n)
    &&& post.observed.locations@ == pre.observed.locations@
    &&& post.sequence.0 == pre.sequence.0 + 1
}

/// How `attach_hook` patches a shard when the attachment is cleared.
pub open spec fn detach_patch(pre: TenantShardState, post: TenantShardState) -> bool {
    &&& post.tenant_shard_id == pre.tenant_shard_id
    &&& post.shard == pre.shard
    &&& post.tenant_conf == pre.tenant_conf
    &&& post.policy == pre.policy
    &&& post.generation == pre.generation
    &&& post.intent.attached is None
    &&& post.intent.secondary@ == pre.intent.secondary@
    &&& post.observed.locations@ == pre.observed.locations@
    &&& post.sequence.0 == pre.sequence.0 + 1
}

/// The shard record `attach_hook` creates for an unknown shard it is
/// asked to attach.
pub open spec fn fresh_attached_shard(
    id: TenantShardId,
    n: NodeId,
    t: TenantShardState,
) -> bool {
    &&& t.tenant_shard_id == id
    &&& t.shard == (ShardIdentity {
        layout: ShardLayout(LAYOUT_V1),
        number: id.shard_number,
        count: id.shard_count,
        stripe_size: ShardStripeSize(DEFAULT_STRIPE_SIZE),
    })
    &&& t.policy == PlacementPolicy::Double(1)
    &&& t.generation.0 == 1
    &&& t.intent.attached == Some(n)
    &&& t.intent.secondary@ == Seq::<NodeId>::empty()
    &&& t.observed.locations@ == Seq::<(NodeId, crate::tenant_state::ObservedStateLocation)>::empty()
    &&& t.sequence.0 == 1
}

/// What `re_attach` answers: for every shard (in record order) that the
/// node presented and that the controller still considers attached to it,
/// the freshly bumped — that is, current — generation.
pub open spec fn spec_re_attach_resp(
    tenants: Seq<TenantShardState>,
    node: NodeId,
    shards: Seq<TenantShardId>,
) -> Seq<ReAttachResponseTenant>
    decreases tenants.len(),
{
    if tenants.len() == 0 {
        Seq::<ReAttachResponseTenant>::empty()
    } else {
        spec_re_attach_resp(tenants.drop_last(), node, shards) + (if tenants.last().intent.attached
            == Some(node) && shards.contains(tenants.last().tenant_shard_id) {
            seq![
                ReAttachResponseTenant {
                    id: tenants.last().tenant_shard_id,
                    generation: (tenants.last().generation.0 + 1) as u32,
                },
            ]
        } else {
            Seq::<ReAttachResponseTenant>::empty()
        })
    }
}

impl Service {
    /// Acquire a generation for an attachment (test-harness path of the
    /// real control plane): bump the shard's generation and move its
    /// intent to the given node, creating the shard record if the
    /// controller has never seen it. With no node, clear the attachment.
    /// Fails only when the named node is not registered.
    pub fn attach_hook(&mut self, req: AttachHookRequest) -> (r: Result<AttachHookResponse, ApiError>)
        requires
            old(self).wf(),
            old(self).counters_ok(),
        ensures
            final(self).wf(),
            final(self).nodes == old(self).nodes,
            tenants_gen_monotone(old(self).tenants@, final(self).tenants@),
            match r {
                Err(e) => e == ApiError::NotFound && *final(self) == *old(self) && (
                match req.node_id {
                    Some(n) => !reg_contains(old(self).nodes@, n),
                    None => false,
                }),
                Ok(resp) => match req.node_id {
                    Some(n) => {
                        &&& reg_contains(old(self).nodes@, n)
                        &&& (match spec_tenant_lookup(old(self).tenants@, req.tenant_shard_id) {
                            Some(_) => {
                                &&& final(self).tenants@.len() == old(self).tenants@.len()
                                &&& (forall|j: int|
                                    0 <= j < old(self).tenants@.len() && old(self).tenants@[j].tenant_shard_id != req.tenant_shard_id ==> final(self).tenants@[j] == old(self).tenants@[j])
                                &&& (forall|j: int|
                                    0 <= j < old(self).tenants@.len() && old(self).tenants@[j].tenant_shard_id == req.tenant_shard_id
                                        ==> attach_patch(
                                        old(self).tenants@[j],
                                        final(self).tenants@[j],
                                        n,
                                    ))
                                &&& resp.generation == Some(
                                    (spec_tenant_gen(old(self).tenants@, req.tenant_shard_id)->0
                                        + 1) as u32,
                                )
                            },
                            None => {
                                &&& final(self).tenants@.len() == old(self).tenants@.len() + 1
                                &&& (forall|j: int|
                                    0 <= j < old(self).tenants@.len() ==> final(self).tenants@[j]
                                        == old(self).tenants@[j])
                                &&& fresh_attached_shard(
                                    req.tenant_shard_id,
                                    n,
                                    final(self).tenants@.last(),
                                )
                                &&& resp.generation == Some(1u32)
                            },
                        })
                    },
                    None => {
                        &&& resp.generation is None
                        &&& (match spec_tenant_lookup(old(self).tenants@, req.tenant_shard_id) {
                            Some(_) => {
                                &&& final(self).tenants@.len() == old(self).tenants@.len()
                                &&& (forall|j: int|
                                    0 <= j < old(self).tenants@.len() && old(self).tenants@[j].tenant_shard_id != req.tenant_shard_id ==> final(self).tenants@[j] == old(self).tenants@[j])
                                &&& (forall|j: int|
                                    0 <= j < old(self).tenants@.len() && old(self).tenants@[j].tenant_shard_id == req.tenant_shard_id
                                        ==> detach_patch(
                                        old(self).tenants@[j],
                                        final(self).tenants@[j],
                                    ))
                            },
                            None => *final(self) == *old(self),
                        })
                    },
                },
            },
    {
        match req.node_id {
            Some(n) => {
                if self.find_node_index(n).is_none() {
                    return Err(ApiError::NotFound);
                }
                proof {
                    assert(reg_contains(self.nodes@, n));
                }
                match self.find_tenant_index(req.tenant_shard_id) {
                    Some(k) => {
                        let pre_gen: Generation = self.tenants[k].generation;
                        let new_secondary: Vec<NodeId> = remove_id_exec(
                            &self.tenants[k].intent.secondary,
                            n,
                        );
                        let observed: ObservedState = self.tenants[k].observed.clone();
                        let patched = TenantShardState {
                            tenant_shard_id: self.tenants[k].tenant_shard_id,
                            shard: self.tenants[k].shard,
                            tenant_conf: self.tenants[k].tenant_conf,
                            policy: self.tenants[k].policy,
                            generation: self.tenants[k].generation.next(),
                            intent: IntentState { attached: Some(n), secondary: new_secondary },
                            observed,
                            sequence: self.tenants[k].sequence.next(),
                        };
                        self.tenants[k] = patched;
                        proof {
                            self.lemma_attach_patch_wf(*old(self), k as int, n);
                    assert forall|j2: int|
                        0 <= j2 < old(self).tenants@.len() implies (
                    #[trigger] self.tenants@[j2]).tenant_shard_id == old(
                        self,
                    ).tenants@[j2].tenant_shard_id && self.tenants@[j2].generation.0 >= old(
                        self,
                    ).tenants@[j2].generation.0 by {
                        if j2 != k as int {
                            assert(self.tenants@[j2] == old(self).tenants@[j2]);
                        }
                    }
                    lemma_gen_monotone_pointwise(old(self).tenants@, self.tenants@);
                        }
                        Ok(AttachHookResponse { generation: Some(pre_gen.0 + 1) })
                    },
                    None => {
                        let fresh = TenantShardState {
                            tenant_shard_id: req.tenant_shard_id,
                            shard: ShardIdentity {
                                layout: ShardLayout(LAYOUT_V1),
                                number: req.tenant_shard_id.shard_number,
                                count: req.tenant_shard_id.shard_count,
                                stripe_size: ShardStripeSize(DEFAULT_STRIPE_SIZE),
                            },
                            tenant_conf: TenantConfig {  },
                            policy: PlacementPolicy::Double(1),
                            generation: Generation(1),
                            intent: IntentState { attached: Some(n), secondary: Vec::new() },
                            observed: ObservedState::empty(),
                            sequence: Sequence(1),
                        };
                        self.tenants.push(fresh);
                        proof {
                            self.lemma_fresh_shard_wf(*old(self), req.tenant_shard_id, n);
                            lemma_gen_monotone_pointwise(old(self).tenants@, self.tenants@);
                        }
                        Ok(AttachHookResponse { generation: Some(1) })
                    },
                }
            },
            None => {
                match self.find_tenant_index(req.tenant_shard_id) {
                    Some(k) => {
                        let new_secondary: Vec<NodeId> = crate::tenant_state::copy_vec(
                            &self.tenants[k].intent.secondary,
                        );
                        let observed: ObservedState = self.tenants[k].observed.clone();
                        let patched = TenantShardState {
                            tenant_shard_id: self.tenants[k].tenant_shard_id,
                            shard: self.tenants[k].shard,
                            tenant_conf: self.tenants[k].tenant_conf,
                            policy: self.tenants[k].policy,
                            generation: self.tenants[k].generation,
                            intent: IntentState { attached: None, secondary: new_secondary },
                            observed,
                            sequence: self.tenants[k].sequence.next(),
                        };
                        self.tenants[k] = patched;
                        proof {
                            self.lemma_detach_patch_wf(*old(self), k as int);
                    assert forall|j2: int|
                        0 <= j2 < old(self).tenants@.len() implies (
                    #[trigger] self.tenants@[j2]).tenant_shard_id == old(
                        self,
                    ).tenants@[j2].tenant_shard_id && self.tenants@[j2].generation.0 >= old(
                        self,
                    ).tenants@[j2].generation.0 by {
                        if j2 != k as int {
                            assert(self.tenants@[j2] == old(self).tenants@[j2]);
                        }
                    }
                    lemma_gen_monotone_pointwise(old(self).tenants@, self.tenants@);
                        }
                        Ok(AttachHookResponse { generation: None })
                    },
                    None => Ok(AttachHookResponse { generation: None }),
                }
            },
        }
    }

    /// Replacing one shard record with an attach-patched one keeps the
    /// service invariant.
    proof fn lemma_attach_patch_wf(&self, pre: Service, k: int, n: NodeId)
        requires
            pre.wf(),
            0 <= k < pre.tenants@.len(),
            self.nodes@ == pre.nodes@,
            self.tenants@.len() == pre.tenants@.len(),
            forall|j: int| 0 <= j < pre.tenants@.len() && j != k ==> self.tenants@[j]
                == pre.tenants@[j],
            attach_patch(pre.tenants@[k], self.tenants@[k], n),
            reg_contains(pre.nodes@, n),
        ensures
            self.wf(),
    {
        crate::scheduler::lemma_remove_id_nodup(pre.tenants@[k].intent.secondary@, n);
        assert forall|i: int| 0 <= i < self.tenants@.len() implies (
        #[trigger] self.tenants@[i]).wf() by {
            if i == k {
                let t = self.tenants@[k];
                assert(pre.tenants@[k].wf());
                assert forall|a: int, b: int|
                    0 <= a < b < t.intent.secondary@.len() implies t.intent.secondary@[a]
                    != t.intent.secondary@[b] by {}
                if t.intent.secondary@.contains(n) {
                    lemma_remove_id_contains(pre.tenants@[k].intent.secondary@, n, n);
                }
            } else {
                assert(pre.tenants@[i].wf());
            }
        }
        assert forall|i: int, m: NodeId|
            0 <= i < self.tenants@.len() && (
            #[trigger] self.tenants@[i].intent.spec_all_pageservers().contains(
                m,
            )) implies reg_contains(self.nodes@, m) by {
            if i == k {
                let t = self.tenants@[k];
                let all = t.intent.spec_all_pageservers();
                let x = choose|x: int| 0 <= x < all.len() && all[x] == m;
                if x == 0 {
                    assert(m == n);
                } else {
                    assert(t.intent.secondary@[x - 1] == m);
                    lemma_remove_id_contains(pre.tenants@[k].intent.secondary@, n, m);
                    assert(pre.tenants@[k].intent.secondary@.contains(m));
                    crate::reconciler::lemma_secondary_referenced(
                        pre.tenants@[k].intent,
                        m,
                    );
                    assert(pre.tenants@[k].intent.spec_all_pageservers().contains(m));
                }
            } else {
                assert(pre.tenants@[i].intent.spec_all_pageservers().contains(m));
            }
        }
    }

    /// Appending the fresh shard record keeps the service invariant.
    proof fn lemma_fresh_shard_wf(&self, pre: Service, id: TenantShardId, n: NodeId)
        requires
            pre.wf(),
            spec_tenant_lookup(pre.tenants@, id) is None,
            self.nodes@ == pre.nodes@,
            self.tenants@.len() == pre.tenants@.len() + 1,
            forall|j: int| 0 <= j < pre.tenants@.len() ==> self.tenants@[j] == pre.tenants@[j],
            fresh_attached_shard(id, n, self.tenants@.last()),
            reg_contains(pre.nodes@, n),
        ensures
            self.wf(),
    {
        let t = self.tenants@.last();
        assert(t.wf());
        assert forall|i: int, j: int|
            0 <= i < j < self.tenants@.len() implies self.tenants@[i].tenant_shard_id
            != self.tenants@[j].tenant_shard_id by {
            if j == self.tenants@.len() - 1 {
                if pre.tenants@[i].tenant_shard_id == id {
                    lemma_tenant_lookup_first_match_any(pre.tenants@, id, i);
                }
            }
        }
        assert forall|i: int, m: NodeId|
            0 <= i < self.tenants@.len() && (
            #[trigger] self.tenants@[i].intent.spec_all_pageservers().contains(
                m,
            )) implies reg_contains(self.nodes@, m) by {
            if i == self.tenants@.len() - 1 {
                let all = t.intent.spec_all_pageservers();
                let x = choose|x: int| 0 <= x < all.len() && all[x] == m;
                assert(m == n);
            } else {
                assert(pre.tenants@[i].intent.spec_all_pageservers().contains(m));
            }
        }
    }

    /// Replacing one shard record with a detach-patched one keeps the
    /// service invariant.
    proof fn lemma_detach_patch_wf(&self, pre: Service, k: int)
        requires
            pre.wf(),
            0 <= k < pre.tenants@.len(),
            self.nodes@ == pre.nodes@,
            self.tenants@.len() == pre.tenants@.len(),
            forall|j: int| 0 <= j < pre.tenants@.len() && j != k ==> self.tenants@[j]
                == pre.tenants@[j],
            detach_patch(pre.tenants@[k], self.tenants@[k]),
        ensures
            self.wf(),
    {
        assert forall|i: int| 0 <= i < self.tenants@.len() implies (
        #[trigger] self.tenants@[i]).wf() by {
            if i == k {
                assert(pre.tenants@[k].wf());
            } else {
                assert(pre.tenants@[i].wf());
            }
        }
        assert forall|i: int, m: NodeId|
            0 <= i < self.tenants@.len() && (
            #[trigger] self.tenants@[i].intent.spec_all_pageservers().contains(
                m,
            )) implies reg_contains(self.nodes@, m) by {
            if i == k {
                let t = self.tenants@[k];
                let all = t.intent.spec_all_pageservers();
                let x = choose|x: int| 0 <= x < all.len() && all[x] == m;
                assert(pre.tenants@[k].intent.secondary@[x] == m);
                crate::reconciler::lemma_secondary_referenced(pre.tenants@[k].intent, m);
                assert(pre.tenants@[k].intent.spec_all_pageservers().contains(m));
            } else {
                assert(pre.tenants@[i].intent.spec_all_pageservers().contains(m));
            }
        }
    }
}

/// A shard record with only its generation advanced by one.
pub open spec fn gen_bump_patch(pre: TenantShardState, post: TenantShardState) -> bool {
    &&& post.tenant_shard_id == pre.tenant_shard_id
    &&& post.shard == pre.shard
    &&& post.tenant_conf == pre.tenant_conf
    &&& post.policy == pre.policy
    &&& post.generation.0 == pre.generation.0 + 1
    &&& post.intent.attached == pre.intent.attached
    &&& post.intent.secondary@ == pre.intent.secondary@
    &&& post.observed.locations@ == pre.observed.locations@
    &&& post.sequence == pre.sequence
}

/// How `tenant_shard_migrate` patches a shard: attachment moved to the
/// requested node, the node taken out of the secondaries, the previous
/// attached node demoted to a secondary when the policy keeps
/// secondaries, and the sequence bumped.
pub open spec fn migrate_patch(pre: TenantShardState, post: TenantShardState, n: NodeId) -> bool {
    let removed = remove_id(pre.intent.secondary@, n);
    &&& post.tenant_shard_id == pre.tenant_shard_id
    &&& post.shard == pre.shard
    &&& post.tenant_conf == pre.tenant_conf
    &&& post.policy == pre.policy
    &&& post.generation == pre.generation
    &&& post.intent.attached == Some(n)
    &&& post.intent.secondary@ == (match pre.intent.attached {
        Some(o) => if o != n && (pre.policy matches PlacementPolicy::Double(_)) {
            removed.push(o)
        } else {
            removed
        },
        None => removed,
    })
    &&& post.observed.locations@ == pre.observed.locations@
    &&& post.sequence.0 == pre.sequence.0 + 1
}

/// What `tenant_locate` and timeline creation see of one tenant: each of
/// its shards with the node its intent attaches it to. `None` when some
/// shard has no attached location.
pub open spec fn spec_tenant_targets(
    tenants: Seq<TenantShardState>,
    tid: TenantId,
) -> Option<Seq<(TenantShardId, NodeId)>>
    decreases tenants.len(),
{
    if tenants.len() == 0 {
        Some(Seq::<(TenantShardId, NodeId)>::empty())
    } else {
        match spec_tenant_targets(tenants.drop_last(), tid) {
            None => None,
            Some(acc) => if tenants.last().tenant_shard_id.tenant_id == tid {
                match tenants.last().intent.attached {
                    Some(n) => Some(acc.push((tenants.last().tenant_shard_id, n))),
                    None => None,
                }
            } else {
                Some(acc)
            },
        }
    }
}

/// Once a tenant's targets are undefined on a prefix, they stay undefined.
proof fn lemma_targets_none_persists(tenants: Seq<TenantShardState>, tid: TenantId, j: int)
    requires
        0 <= j <= tenants.len(),
        spec_tenant_targets(tenants.take(j), tid) is None,
    ensures
        spec_tenant_targets(tenants, tid) is None,
    decreases tenants.len() - j,
{
    if j == tenants.len() {
        assert(tenants.take(j) =~= tenants);
    } else {
        assert(tenants.take(j + 1).drop_last() =~= tenants.take(j));
        lemma_targets_none_persists(tenants, tid, j + 1);
    }
}

/// Whether any shard record belongs to the tenant.
pub open spec fn spec_has_tenant(tenants: Seq<TenantShardState>, tid: TenantId) -> bool {
    exists|i: int| 0 <= i < tenants.len() && tenants[i].tenant_shard_id.tenant_id == tid
}

impl Service {
    /// A page server restarted and presents the shards it believes it
    /// holds. For each one the controller still considers attached to the
    /// node, issue (bump) and return the current generation; a shard
    /// missing from the response tells the node to detach it.
    pub fn re_attach(&mut self, req: &ReAttachRequest) -> (r: ReAttachResponse)
        requires
            old(self).wf(),
            old(self).counters_ok(),
        ensures
            final(self).wf(),
            final(self).nodes == old(self).nodes,
            final(self).tenants@.len() == old(self).tenants@.len(),
            tenants_gen_monotone(old(self).tenants@, final(self).tenants@),
            forall|j: int|
                0 <= j < old(self).tenants@.len() && !(old(self).tenants@[j].intent.attached
                    == Some(req.node_id) && req.shards@.contains(
                    old(self).tenants@[j].tenant_shard_id,
                )) ==> final(self).tenants@[j] == old(self).tenants@[j],
            forall|j: int|
                0 <= j < old(self).tenants@.len() && (old(self).tenants@[j].intent.attached
                    == Some(req.node_id) && req.shards@.contains(
                    old(self).tenants@[j].tenant_shard_id,
                )) ==> gen_bump_patch(old(self).tenants@[j], final(self).tenants@[j]),
            r.tenants@ == spec_re_attach_resp(old(self).tenants@, req.node_id, req.shards@),
    {
        let ghost t0 = self.tenants@;
        let mut out: Vec<ReAttachResponseTenant> = Vec::new();
        let mut i: usize = 0;
        while i < self.tenants.len()
            invariant
                i <= t0.len(),
                self.nodes == old(self).nodes,
                old(self).wf(),
                old(self).counters_ok(),
                t0 == old(self).tenants@,
                self.tenants@.len() == t0.len(),
                forall|j: int| i <= j < t0.len() ==> self.tenants@[j] == t0[j],
                forall|j: int|
                    0 <= j < i && !(t0[j].intent.attached == Some(req.node_id)
                        && req.shards@.contains(t0[j].tenant_shard_id)) ==> self.tenants@[j]
                        == t0[j],
                forall|j: int|
                    0 <= j < i && (t0[j].intent.attached == Some(req.node_id)
                        && req.shards@.contains(t0[j].tenant_shard_id)) ==> gen_bump_patch(
                        t0[j],
                        self.tenants@[j],
                    ),
                out@ == spec_re_attach_resp(t0.take(i as int), req.node_id, req.shards@),
            decreases t0.len() - i,
        {
            proof {
                assert(t0.take(i + 1).drop_last() =~= t0.take(i as int));
                assert(t0.take(i + 1).last() == t0[i as int]);
            }
            let attached_here: bool = match &self.tenants[i].intent.attached {
                Some(a) => a.0 == req.node_id.0,
                None => false,
            };
            let presented: bool = contains_tsid(&req.shards, self.tenants[i].tenant_shard_id);
            if attached_here && presented {
                let new_secondary: Vec<NodeId> = crate::tenant_state::copy_vec(
                    &self.tenants[i].intent.secondary,
                );
                let observed: ObservedState = self.tenants[i].observed.clone();
                let attached: Option<NodeId> = self.tenants[i].intent.attached;
                let patched = TenantShardState {
                    tenant_shard_id: self.tenants[i].tenant_shard_id,
                    shard: self.tenants[i].shard,
                    tenant_conf: self.tenants[i].tenant_conf,
                    policy: self.tenants[i].policy,
                    generation: self.tenants[i].generation.next(),
                    intent: IntentState { attached, secondary: new_secondary },
                    observed,
                    sequence: self.tenants[i].sequence,
                };
                let gen_number: u32 = patched.generation.0;
                let id: TenantShardId = patched.tenant_shard_id;
                self.tenants[i] = patched;
                out.push(ReAttachResponseTenant { id, generation: gen_number });
                proof {
                    assert(out@ =~= spec_re_attach_resp(t0.take(i + 1), req.node_id, req.shards@));
                }
            } else {
                proof {
                    assert(out@ =~= spec_re_attach_resp(t0.take(i + 1), req.node_id, req.shards@));
                }
            }
            i = i + 1;
        }
        proof {
            assert(t0.take(t0.len() as int) =~= t0);
            assert forall|x: int| 0 <= x < self.tenants@.len() implies (
            #[trigger] self.tenants@[x]).wf() by {
                assert(t0[x].wf());
            }
            assert forall|x: int, y: int|
                0 <= x < y < self.tenants@.len() implies self.tenants@[x].tenant_shard_id
                != self.tenants@[y].tenant_shard_id by {
                assert(self.tenants@[x].tenant_shard_id == t0[x].tenant_shard_id);
                assert(self.tenants@[y].tenant_shard_id == t0[y].tenant_shard_id);
            }
            assert forall|x: int, m: NodeId|
                0 <= x < self.tenants@.len() && (
                #[trigger] self.tenants@[x].intent.spec_all_pageservers().contains(
                    m,
                )) implies reg_contains(self.nodes@, m) by {
                if t0[x].intent.attached == Some(req.node_id) && req.shards@.contains(
                    t0[x].tenant_shard_id,
                ) {
                    assert(self.tenants@[x].intent.attached == t0[x].intent.attached);
                    assert(self.tenants@[x].intent.secondary@ == t0[x].intent.secondary@);
                    assert(self.tenants@[x].intent.spec_all_pageservers() =~= t0[
                        x
                    ].intent.spec_all_pageservers());
                    assert(t0[x].intent.spec_all_pageservers().contains(m));
                } else {
                    assert(t0[x].intent.spec_all_pageservers().contains(m));
                }
            }
            assert forall|j2: int|
                0 <= j2 < t0.len() implies (#[trigger] self.tenants@[j2]).tenant_shard_id
                == t0[j2].tenant_shard_id && self.tenants@[j2].generation.0
                >= t0[j2].generation.0 by {
                if !(t0[j2].intent.attached == Some(req.node_id) && req.shards@.contains(
                    t0[j2].tenant_shard_id,
                )) {
                    assert(self.tenants@[j2] == t0[j2]);
                }
            }
            lemma_gen_monotone_pointwise(t0, self.tenants@);
        }
        ReAttachResponse { tenants: out }
    }

    /// Move a shard's attachment to the requested node: the previous
    /// attached node becomes a secondary when the policy keeps
    /// secondaries, the target leaves the secondary set, and a reconcile
    /// becomes due. Fails when the node or the shard is unknown.
    pub fn tenant_shard_migrate(
        &mut self,
        tenant_shard_id: TenantShardId,
        req: &TenantShardMigrateRequest,
    ) -> (r: Result<(TenantShardMigrateResponse, Vec<TenantShardId>), ApiError>)
        requires
            old(self).wf(),
            old(self).counters_ok(),
        ensures
            final(self).wf(),
            final(self).nodes == old(self).nodes,
            tenants_gen_monotone(old(self).tenants@, final(self).tenants@),
            match r {
                Err(e) => *final(self) == *old(self) && (e == ApiError::NotFound) && (
                !reg_contains(old(self).nodes@, req.node_id) || spec_tenant_lookup(
                    old(self).tenants@,
                    tenant_shard_id,
                ) is None),
                Ok(pair) => {
                    &&& reg_contains(old(self).nodes@, req.node_id)
                    &&& spec_tenant_lookup(old(self).tenants@, tenant_shard_id) is Some
                    &&& final(self).tenants@.len() == old(self).tenants@.len()
                    &&& (forall|j: int|
                        0 <= j < old(self).tenants@.len() && old(self).tenants@[j].tenant_shard_id
                            != tenant_shard_id ==> final(self).tenants@[j] == old(self).tenants@[j])
                    &&& (forall|j: int|
                        0 <= j < old(self).tenants@.len() && old(self).tenants@[j].tenant_shard_id
                            == tenant_shard_id ==> migrate_patch(
                            old(self).tenants@[j],
                            final(self).tenants@[j],
                            req.node_id,
                        ))
                    &&& pair.1@ == seq![tenant_shard_id]
                },
            },
    {
        if self.find_node_index(req.node_id).is_none() {
            return Err(ApiError::NotFound);
        }
        proof {
            assert(reg_contains(self.nodes@, req.node_id));
        }
        match self.find_tenant_index(tenant_shard_id) {
            None => Err(ApiError::NotFound),
            Some(k) => {
                let n: NodeId = req.node_id;
                let removed: Vec<NodeId> = remove_id_exec(&self.tenants[k].intent.secondary, n);
                let keep_old: bool = match (&self.tenants[k].intent.attached, &self.tenants[k].policy) {
                    (Some(o), PlacementPolicy::Double(_)) => o.0 != n.0,
                    _ => false,
                };
                let new_secondary: Vec<NodeId> = if keep_old {
                    let mut s = removed;
                    let o: NodeId = match &self.tenants[k].intent.attached {
                        Some(o) => *o,
                        None => NodeId(0),
                    };
                    s.push(o);
                    s
                } else {
                    removed
                };
                let observed: ObservedState = self.tenants[k].observed.clone();
                let patched = TenantShardState {
                    tenant_shard_id: self.tenants[k].tenant_shard_id,
                    shard: self.tenants[k].shard,
                    tenant_conf: self.tenants[k].tenant_conf,
                    policy: self.tenants[k].policy,
                    generation: self.tenants[k].generation,
                    intent: IntentState { attached: Some(n), secondary: new_secondary },
                    observed,
                    sequence: self.tenants[k].sequence.next(),
                };
                self.tenants[k] = patched;
                proof {
                    self.lemma_migrate_patch_wf(*old(self), k as int, n);
            assert forall|j2: int|
                0 <= j2 < old(self).tenants@.len() implies (
            #[trigger] self.tenants@[j2]).tenant_shard_id == old(
                self,
            ).tenants@[j2].tenant_shard_id && self.tenants@[j2].generation.0 >= old(
                self,
            ).tenants@[j2].generation.0 by {
                if j2 != k as int {
                    assert(self.tenants@[j2] == old(self).tenants@[j2]);
                }
            }
            lemma_gen_monotone_pointwise(old(self).tenants@, self.tenants@);
                }
                let mut dirty: Vec<TenantShardId> = Vec::new();
                dirty.push(tenant_shard_id);
                proof {
                    assert(dirty@ =~= seq![tenant_shard_id]);
                }
                Ok((TenantShardMigrateResponse {  }, dirty))
            },
        }
    }

    /// Replacing one shard record with a migrate-patched one keeps the
    /// service invariant.
    proof fn lemma_migrate_patch_wf(&self, pre: Service, k: int, n: NodeId)
        requires
            pre.wf(),
            0 <= k < pre.tenants@.len(),
            self.nodes@ == pre.nodes@,
            self.tenants@.len() == pre.tenants@.len(),
            forall|j: int| 0 <= j < pre.tenants@.len() && j != k ==> self.tenants@[j]
                == pre.tenants@[j],
            migrate_patch(pre.tenants@[k], self.tenants@[k], n),
            reg_contains(pre.nodes@, n),
        ensures
            self.wf(),
    {
        let pre_t = pre.tenants@[k];
        let t = self.tenants@[k];
        let removed = remove_id(pre_t.intent.secondary@, n);
        lemma_remove_id_nodup(pre_t.intent.secondary@, n);
        assert(pre_t.wf());
        assert forall|m: NodeId| removed.contains(m) implies pre_t.intent.secondary@.contains(m)
            && m != n by {
            lemma_remove_id_contains(pre_t.intent.secondary@, n, m);
        }
        // the demoted node, when pushed, is distinct from everything in
        // `removed`: it was the attachment, never a secondary
        match pre_t.intent.attached {
            Some(o) => {
                if removed.contains(o) {
                    assert(pre_t.intent.secondary@.contains(o));
                }
            },
            None => {},
        }
        assert forall|i: int| 0 <= i < self.tenants@.len() implies (
        #[trigger] self.tenants@[i]).wf() by {
            if i == k {
                assert forall|a: int, b: int|
                    0 <= a < b < t.intent.secondary@.len() implies t.intent.secondary@[a]
                    != t.intent.secondary@[b] by {
                    if b == t.intent.secondary@.len() - 1 && t.intent.secondary@.len()
                        > removed.len() {
                        assert(removed.contains(t.intent.secondary@[a])) by {
                            assert(removed[a] == t.intent.secondary@[a]);
                        }
                    }
                }
                if t.intent.secondary@.contains(n) {
                    let x = choose|x: int|
                        0 <= x < t.intent.secondary@.len() && t.intent.secondary@[x] == n;
                    if x < removed.len() {
                        assert(removed.contains(n)) by {
                            assert(removed[x] == n);
                        }
                    }
                }
            } else {
                assert(pre.tenants@[i].wf());
            }
        }
        assert forall|i: int, m: NodeId|
            0 <= i < self.tenants@.len() && (
            #[trigger] self.tenants@[i].intent.spec_all_pageservers().contains(
                m,
            )) implies reg_contains(self.nodes@, m) by {
            if i == k {
                let all = t.intent.spec_all_pageservers();
                let x = choose|x: int| 0 <= x < all.len() && all[x] == m;
                if x == 0 {
                    assert(m == n);
                } else {
                    let sx = x - 1;
                    assert(t.intent.secondary@[sx] == m);
                    if sx < removed.len() {
                        assert(removed.contains(m)) by {
                            assert(removed[sx] == m);
                        }
                        crate::reconciler::lemma_secondary_referenced(pre_t.intent, m);
                        assert(pre_t.intent.spec_all_pageservers().contains(m));
                    } else {
                        // the demoted previous attachment
                        crate::reconciler::lemma_attached_referenced(pre_t.intent);
                        assert(pre_t.intent.spec_all_pageservers().contains(m));
                    }
                }
            } else {
                assert(pre.tenants@[i].intent.spec_all_pageservers().contains(m));
            }
        }
    }

    /// Where each shard of a tenant lives, with the addresses compute and
    /// forwarding need. Fails when the tenant is unknown, or when some
    /// shard has no attached location yet.
    pub fn tenant_locate(&self, tenant_id: TenantId) -> (r: Result<TenantLocateResponse, ApiError>)
        requires
            self.wf(),
        ensures
            match r {
                Err(e) => (e == ApiError::NotFound && !spec_has_tenant(self.tenants@, tenant_id))
                    || (e == ApiError::Conflict && spec_tenant_targets(
                    self.tenants@,
                    tenant_id,
                ) is None),
                Ok(resp) => {
                    &&& spec_has_tenant(self.tenants@, tenant_id)
                    &&& spec_tenant_targets(self.tenants@, tenant_id) matches Some(targets)
                        && resp.shards@.len() == targets.len() && (forall|j: int|
                        0 <= j < targets.len() ==> {
                            &&& (#[trigger] resp.shards@[j]).shard_id == targets[j].0
                            &&& resp.shards@[j].node_id == targets[j].1
                            &&& (match crate::reconciler::ps_lookup(self.nodes@, targets[j].1) {
                                Some(node) => resp.shards@[j].listen_http_addr@
                                    == node.listen_http_addr@ && resp.shards@[j].listen_http_port
                                    == node.listen_http_port && resp.shards@[j].listen_pg_addr@
                                    == node.listen_pg_addr@ && resp.shards@[j].listen_pg_port
                                    == node.listen_pg_port,
                                None => false,
                            })
                        })
                },
            },
    {
        let targets: Vec<(TenantShardId, NodeId)> = match self.tenant_targets(tenant_id) {
            Ok(t) => t,
            Err(e) => {
                return Err(e);
            },
        };
        let mut shards: Vec<TenantLocateResponseShard> = Vec::new();
        let ghost tg = spec_tenant_targets(self.tenants@, tenant_id)->0;
        let mut i: usize = 0;
        while i < targets.len()
            invariant
                i <= targets@.len(),
                self.wf(),
                targets@ == tg,
                spec_tenant_targets(self.tenants@, tenant_id) == Some(tg),
                forall|x: int|
                    0 <= x < tg.len() ==> reg_contains(self.nodes@, #[trigger] tg[x].1),
                shards@.len() == i,
                forall|j: int|
                    0 <= j < i ==> {
                        &&& (#[trigger] shards@[j]).shard_id == tg[j].0
                        &&& shards@[j].node_id == tg[j].1
                        &&& (match crate::reconciler::ps_lookup(self.nodes@, tg[j].1) {
                            Some(node) => shards@[j].listen_http_addr@ == node.listen_http_addr@
                                && shards@[j].listen_http_port == node.listen_http_port
                                && shards@[j].listen_pg_addr@ == node.listen_pg_addr@
                                && shards@[j].listen_pg_port == node.listen_pg_port,
                            None => false,
                        })
                    },
            decreases targets@.len() - i,
        {
            let node_id: NodeId = targets[i].1;
            let node: &Node = match self.find_node_ref(node_id) {
                Some(nd) => nd,
                None => {
                    proof {
                        assert(reg_contains(self.nodes@, tg[i as int].1));
                    }
                    vstd::pervasive::unreached()
                },
            };
            shards.push(
                TenantLocateResponseShard {
                    shard_id: targets[i].0,
                    node_id,
                    listen_http_addr: node.listen_http_addr.clone(),
                    listen_http_port: node.listen_http_port,
                    listen_pg_addr: node.listen_pg_addr.clone(),
                    listen_pg_port: node.listen_pg_port,
                },
            );
            proof {
                assert((#[trigger] shards@[i as int]).shard_id == tg[i as int].0);
                assert(crate::reconciler::ps_lookup(self.nodes@, tg[i as int].1) == Some(*node));
            }
            i = i + 1;
        }
        Ok(TenantLocateResponse { shards })
    }

    /// The first registered node with this id, with its whole record.
    fn find_node_ref(&self, n: NodeId) -> (r: Option<&Node>)
        ensures
            match r {
                Some(node) => crate::reconciler::ps_lookup(self.nodes@, n) == Some(*node),
                None => !reg_contains(self.nodes@, n),
            },
    {
        let mut i: usize = 0;
        while i < self.nodes.len()
            invariant
                i <= self.nodes@.len(),
                forall|j: int| 0 <= j < i ==> self.nodes@[j].id != n,
            decreases self.nodes@.len() - i,
        {
            if self.nodes[i].id.0 == n.0 {
                proof {
                    crate::reconciler::lemma_ps_lookup_first_match(self.nodes@, n, i as int);
                }
                return Some(&self.nodes[i]);
            }
            i = i + 1;
        }
        proof {
            if reg_contains(self.nodes@, n) {
                let j = choose|j: int| 0 <= j < self.nodes@.len() && self.nodes@[j].id == n;
                assert(false);
            }
        }
        None
    }

    /// The attached node of every shard of a tenant, in record order:
    /// where a timeline-creation call must be forwarded. Fails when the
    /// tenant is unknown or some shard has no attached location.
    pub fn tenant_targets(&self, tenant_id: TenantId) -> (r: Result<
        Vec<(TenantShardId, NodeId)>,
        ApiError,
    >)
        requires
            self.wf(),
        ensures
            match r {
                Err(e) => (e == ApiError::NotFound && !spec_has_tenant(self.tenants@, tenant_id))
                    || (e == ApiError::Conflict && spec_tenant_targets(
                    self.tenants@,
                    tenant_id,
                ) is None),
                Ok(targets) => {
                    &&& spec_has_tenant(self.tenants@, tenant_id)
                    &&& spec_tenant_targets(self.tenants@, tenant_id) == Some(targets@)
                    &&& (forall|x: int|
                        0 <= x < targets@.len() ==> reg_contains(
                            self.nodes@,
                            #[trigger] targets@[x].1,
                        ))
                },
            },
    {
        let mut found: bool = false;
        let mut out: Vec<(TenantShardId, NodeId)> = Vec::new();
        let mut i: usize = 0;
        while i < self.tenants.len()
            invariant
                i <= self.tenants@.len(),
                self.wf(),
                found == exists|j: int|
                    0 <= j < i && self.tenants@[j].tenant_shard_id.tenant_id == tenant_id,
                spec_tenant_targets(self.tenants@.take(i as int), tenant_id) == Some(out@),
                forall|x: int|
                    0 <= x < out@.len() ==> reg_contains(self.nodes@, #[trigger] out@[x].1),
            decreases self.tenants@.len() - i,
        {
            proof {
                assert(self.tenants@.take(i + 1).drop_last() =~= self.tenants@.take(i as int));
                assert(self.tenants@.take(i + 1).last() == self.tenants@[i as int]);
            }
            let t = &self.tenants[i];
            if t.tenant_shard_id.tenant_id.0 == tenant_id.0 {
                proof {
                    assert(self.tenants@[i as int].tenant_shard_id.tenant_id == tenant_id);
                }
                found = true;
                match &t.intent.attached {
                    Some(n) => {
                        out.push((t.tenant_shard_id, *n));
                        proof {
                            crate::reconciler::lemma_attached_referenced(
                                self.tenants@[i as int].intent,
                            );
                            assert(self.tenants@[i as int].intent.spec_all_pageservers().contains(
                                self.tenants@[i as int].intent.attached->0,
                            ));
                            assert(spec_tenant_targets(self.tenants@.take(i + 1), tenant_id)
                                =~= Some(out@));
                        }
                    },
                    None => {
                        proof {
                            lemma_targets_none_persists(self.tenants@, tenant_id, i + 1);
                        }
                        return Err(ApiError::Conflict);
                    },
                }
            } else {
                proof {
                    assert(spec_tenant_targets(self.tenants@.take(i + 1), tenant_id) == Some(
                        out@,
                    ));
                }
            }
            i = i + 1;
        }
        proof {
            assert(self.tenants@.take(self.tenants@.len() as int) =~= self.tenants@);
        }
        if !found {
            return Err(ApiError::NotFound);
        }
        Ok(out)
    }

    /// A snapshot of one shard for a background reconcile, with the
    /// sequence watermark the result must present. The registry snapshot
    /// and the shard's state are copies; availability changes reach the
    /// running reconciler only as cancellation.
    pub fn spawn_reconciler(
        &self,
        tenant_shard_id: TenantShardId,
        cancel: CancellationToken,
    ) -> (r: Result<(Reconciler, Sequence), ApiError>)
        requires
            self.wf(),
        ensures
            match r {
                Err(e) => e == ApiError::NotFound && spec_tenant_lookup(
                    self.tenants@,
                    tenant_shard_id,
                ) is None,
                Ok(pair) => spec_tenant_lookup(self.tenants@, tenant_shard_id) matches Some(t) && {
                    &&& pair.0.inv()
                    &&& pair.0.phase == crate::reconciler::ReconcilePhase::Start
                    &&& pair.0.tenant_shard_id == t.tenant_shard_id
                    &&& pair.0.shard == t.shard
                    &&& pair.0.generation == t.generation
                    &&& pair.0.intent.attached == t.intent.attached
                    &&& pair.0.intent.secondary@ == t.intent.secondary@
                    &&& pair.0.config == t.tenant_conf
                    &&& pair.0.observed.locations@ == t.observed.locations@
                    &&& pair.0.pageservers@ == self.nodes@
                    &&& pair.1 == t.sequence
                },
            },
    {
        match self.find_tenant_index(tenant_shard_id) {
            None => Err(ApiError::NotFound),
            Some(k) => {
                let t = &self.tenants[k];
                proof {
                    assert(self.tenants@[k as int].wf());
                }
                let rec = Reconciler::new(
                    t.tenant_shard_id,
                    t.shard,
                    t.generation,
                    t.intent.clone(),
                    t.tenant_conf,
                    t.observed.clone(),
                    clone_nodes(&self.nodes),
                    cancel,
                );
                Ok((rec, t.sequence))
            },
        }
    }

    /// Post a reconcile's results back under its sequence watermark. The
    /// driver posts them whether the run converged, failed or was
    /// cancelled, so observed state stays truthful. The generation is
    /// always merged upward — an issued generation must never be
    /// forgotten, even when the run was superseded, or a stale writer
    /// could pass validation. The observed-state patches are adopted only
    /// under the current sequence; from an outdated sequence they are
    /// discarded, since a newer reconciler supersedes them.
    pub fn apply_reconcile_result(
        &mut self,
        tenant_shard_id: TenantShardId,
        sequence: Sequence,
        generation: Generation,
        observed: ObservedState,
    ) -> (accepted: bool)
        requires
            old(self).wf(),
            observed.wf(),
        ensures
            final(self).wf(),
            final(self).nodes == old(self).nodes,
            final(self).tenants@.len() == old(self).tenants@.len(),
            tenants_gen_monotone(old(self).tenants@, final(self).tenants@),
            accepted == (match spec_tenant_lookup(old(self).tenants@, tenant_shard_id) {
                Some(t) => t.sequence == sequence,
                None => false,
            }),
            spec_tenant_lookup(old(self).tenants@, tenant_shard_id) is None ==> *final(self)
                == *old(self),
            forall|j: int|
                0 <= j < old(self).tenants@.len() && old(self).tenants@[j].tenant_shard_id
                    != tenant_shard_id ==> final(self).tenants@[j] == old(self).tenants@[j],
            spec_tenant_lookup(old(self).tenants@, tenant_shard_id) is Some ==> (forall|j: int|
                0 <= j < old(self).tenants@.len() && old(self).tenants@[j].tenant_shard_id
                    == tenant_shard_id ==> {
                    let pre = old(self).tenants@[j];
                    let post = final(self).tenants@[j];
                    &&& post.tenant_shard_id == pre.tenant_shard_id
                    &&& post.shard == pre.shard
                    &&& post.tenant_conf == pre.tenant_conf
                    &&& post.policy == pre.policy
                    &&& post.generation.0 == (if generation.0 > pre.generation.0 {
                        generation.0
                    } else {
                        pre.generation.0
                    })
                    &&& post.intent.attached == pre.intent.attached
                    &&& post.intent.secondary@ == pre.intent.secondary@
                    &&& post.observed.locations@ == (if accepted {
                        observed.locations@
                    } else {
                        pre.observed.locations@
                    })
                    &&& post.sequence == pre.sequence
                }),
    {
        match self.find_tenant_index(tenant_shard_id) {
            None => false,
            Some(k) => {
                let accepted: bool = self.tenants[k].sequence.0 == sequence.0;
                let new_gen: Generation = if generation.0 > self.tenants[k].generation.0 {
                    generation
                } else {
                    self.tenants[k].generation
                };
                let new_secondary: Vec<NodeId> = crate::tenant_state::copy_vec(
                    &self.tenants[k].intent.secondary,
                );
                let new_observed: ObservedState = if accepted {
                    observed
                } else {
                    self.tenants[k].observed.clone()
                };
                let attached: Option<NodeId> = self.tenants[k].intent.attached;
                let patched = TenantShardState {
                    tenant_shard_id: self.tenants[k].tenant_shard_id,
                    shard: self.tenants[k].shard,
                    tenant_conf: self.tenants[k].tenant_conf,
                    policy: self.tenants[k].policy,
                    generation: new_gen,
                    intent: IntentState { attached, secondary: new_secondary },
                    observed: new_observed,
                    sequence: self.tenants[k].sequence,
                };
                self.tenants[k] = patched;
                proof {
                    assert forall|x: int| 0 <= x < self.tenants@.len() implies (
                    #[trigger] self.tenants@[x]).wf() by {
                        assert(old(self).tenants@[x].wf());
                    }
                    assert forall|x: int, m: NodeId|
                        0 <= x < self.tenants@.len() && (
                        #[trigger] self.tenants@[x].intent.spec_all_pageservers().contains(
                            m,
                        )) implies reg_contains(self.nodes@, m) by {
                        if x == k {
                            assert(self.tenants@[x].intent.spec_all_pageservers() =~= old(self).tenants@[x].intent.spec_all_pageservers());
                        }
                        assert(old(self).tenants@[x].intent.spec_all_pageservers().contains(m));
                    }
                    assert forall|j2: int|
                        0 <= j2 < old(self).tenants@.len() implies (
                    #[trigger] self.tenants@[j2]).tenant_shard_id == old(
                        self,
                    ).tenants@[j2].tenant_shard_id && self.tenants@[j2].generation.0 >= old(
                        self,
                    ).tenants@[j2].generation.0 by {
                        if j2 != k as int {
                            assert(self.tenants@[j2] == old(self).tenants@[j2]);
                        }
                    }
                    lemma_gen_monotone_pointwise(old(self).tenants@, self.tenants@);
                }
                accepted
            },
        }
    }
}

/// The locations reported for a tenant: each of its shard records, in
/// order, with the intended attached node and the current generation.
pub open spec fn spec_describe(
    tenants: Seq<TenantShardState>,
    tid: TenantId,
) -> Seq<TenantCreateResponseShard>
    decreases tenants.len(),
{
    if tenants.len() == 0 {
        Seq::<TenantCreateResponseShard>::empty()
    } else {
        spec_describe(tenants.drop_last(), tid) + (if tenants.last().tenant_shard_id.tenant_id
            == tid {
            seq![
                TenantCreateResponseShard {
                    shard_id: tenants.last().tenant_shard_id,
                    node_id: tenants.last().intent.attached,
                    generation: tenants.last().generation.0,
                },
            ]
        } else {
            Seq::<TenantCreateResponseShard>::empty()
        })
    }
}

/// The node record after a configure call: availability and scheduling
/// replaced where the request gives them, everything else kept.
pub open spec fn node_patch(pre: Node, post: Node, req_avail: Option<NodeAvailability>, req_sched: Option<NodeSchedulingPolicy>) -> bool {
    &&& post.id == pre.id
    &&& post.listen_http_addr == pre.listen_http_addr
    &&& post.listen_http_port == pre.listen_http_port
    &&& post.listen_pg_addr == pre.listen_pg_addr
    &&& post.listen_pg_port == pre.listen_pg_port
    &&& post.availability == (match req_avail {
        Some(a) => a,
        None => pre.availability,
    })
    &&& post.scheduling == (match req_sched {
        Some(s) => s,
        None => pre.scheduling,
    })
}

/// A shard record rescheduled away from an offline node: the intent is a
/// fresh well-formed placement on schedulable nodes (so never the node
/// that just went offline), the sequence is bumped, everything else kept.
pub open spec fn resched_patch(pre: TenantShardState, post: TenantShardState, nodes: Seq<Node>, avoided: NodeId) -> bool {
    &&& post.tenant_shard_id == pre.tenant_shard_id
    &&& post.shard == pre.shard
    &&& post.tenant_conf == pre.tenant_conf
    &&& post.policy == pre.policy
    &&& post.generation == pre.generation
    &&& post.observed.locations@ == pre.observed.locations@
    &&& post.sequence.0 == pre.sequence.0 + 1
    &&& post.intent.wf()
    &&& post.intent.attached is Some
    &&& eligible_ids(nodes).contains(post.intent.attached->0)
    &&& (forall|s: NodeId| post.intent.secondary@.contains(s) ==> eligible_ids(nodes).contains(s))
    &&& !post.intent.spec_all_pageservers().contains(avoided)
}

/// An id that appears among the schedulable nodes names a registered,
/// schedulable node; an offline node is never among them.
pub proof fn lemma_eligible_registered(nodes: Seq<Node>, m: NodeId)
    requires
        forall|i: int, j: int| 0 <= i < j < nodes.len() ==> nodes[i].id != nodes[j].id,
        eligible_ids(nodes).contains(m),
    ensures
        reg_contains(nodes, m),
        forall|k: int|
            0 <= k < nodes.len() && nodes[k].id == m ==> nodes[k].spec_may_schedule(),
{
    lemma_eligible_ids_nodup(nodes);
    let i = choose|i: int|
        0 <= i < nodes.len() && nodes[i].id == m && nodes[i].spec_may_schedule();
    assert(reg_contains(nodes, m));
    assert forall|k: int|
        0 <= k < nodes.len() && nodes[k].id == m implies nodes[k].spec_may_schedule() by {
        if k != i {
            assert(nodes[k].id != nodes[i].id);
        }
    }
}

impl Service {
    /// The locations of a tenant's shards, as `tenant_create` reports
    /// them.
    fn describe_tenant(&self, tid: TenantId) -> (r: Vec<TenantCreateResponseShard>)
        ensures
            r@ == spec_describe(self.tenants@, tid),
    {
        let mut out: Vec<TenantCreateResponseShard> = Vec::new();
        let mut i: usize = 0;
        while i < self.tenants.len()
            invariant
                i <= self.tenants@.len(),
                out@ == spec_describe(self.tenants@.take(i as int), tid),
            decreases self.tenants@.len() - i,
        {
            proof {
                assert(self.tenants@.take(i + 1).drop_last() =~= self.tenants@.take(i as int));
                assert(self.tenants@.take(i + 1).last() == self.tenants@[i as int]);
            }
            let t = &self.tenants[i];
            if t.tenant_shard_id.tenant_id.0 == tid.0 {
                proof {
                    assert(self.tenants@[i as int].tenant_shard_id.tenant_id == tid);
                }
                out.push(
                    TenantCreateResponseShard {
                        shard_id: t.tenant_shard_id,
                        node_id: t.intent.attached,
                        generation: t.generation.0,
                    },
                );
                proof {
                    assert(out@ =~= spec_describe(self.tenants@.take(i + 1), tid));
                }
            } else {
                proof {
                    assert(out@ =~= spec_describe(self.tenants@.take(i + 1), tid));
                }
            }
            i = i + 1;
        }
        proof {
            assert(self.tenants@.take(self.tenants@.len() as int) =~= self.tenants@);
        }
        out
    }

    /// Whether any shard record belongs to the tenant.
    fn has_tenant(&self, tid: TenantId) -> (r: bool)
        ensures
            r == spec_has_tenant(self.tenants@, tid),
    {
        let mut i: usize = 0;
        while i < self.tenants.len()
            invariant
                i <= self.tenants@.len(),
                forall|j: int| 0 <= j < i ==> self.tenants@[j].tenant_shard_id.tenant_id != tid,
            decreases self.tenants@.len() - i,
        {
            if self.tenants[i].tenant_shard_id.tenant_id.0 == tid.0 {
                proof {
                    assert(self.tenants@[i as int].tenant_shard_id.tenant_id == tid);
                }
                return true;
            }
            i = i + 1;
        }
        proof {
            if spec_has_tenant(self.tenants@, tid) {
                let j = choose|j: int|
                    0 <= j < self.tenants@.len() && self.tenants@[j].tenant_shard_id.tenant_id
                        == tid;
                assert(false);
            }
        }
        false
    }

    /// Create a tenant: allocate one shard record per requested shard,
    /// place each with the scheduler, and report the locations. Idempotent
    /// on the tenant id: a tenant that already exists is left untouched
    /// and its current locations are returned. Fails on a zero shard
    /// count or stripe size, or when no node can hold an attachment.
    #[verifier::rlimit(100)]
    pub fn tenant_create(&mut self, req: &TenantCreateRequest) -> (r: Result<
        (TenantCreateResponse, Vec<TenantShardId>),
        ApiError,
    >)
        requires
            old(self).wf(),
        ensures
            final(self).wf(),
            final(self).nodes == old(self).nodes,
            tenants_gen_monotone(old(self).tenants@, final(self).tenants@),
            r is Err <==> (req.shard_count.0 == 0 || req.shard_stripe_size == Some(0u32) || (
            !spec_has_tenant(old(self).tenants@, req.tenant_id) && eligible_ids(
                old(self).nodes@,
            ).len() == 0)),
            match r {
                Err(e) => *final(self) == *old(self) && ((e == ApiError::BadRequest && (
                req.shard_count.0 == 0 || req.shard_stripe_size == Some(0u32))) || (e
                    == ApiError::Conflict && req.shard_count.0 > 0 && req.shard_stripe_size
                    != Some(0u32) && !spec_has_tenant(old(self).tenants@, req.tenant_id)
                    && eligible_ids(old(self).nodes@).len() == 0)),
                Ok(pair) => {
                    &&& (spec_has_tenant(old(self).tenants@, req.tenant_id) ==> final(self).tenants
                        == old(self).tenants && pair.1@ == Seq::<TenantShardId>::empty())
                    &&& (!spec_has_tenant(old(self).tenants@, req.tenant_id) ==> {
                        let count = req.shard_count.0 as int;
                        let policy = (match req.placement_policy {
                            Some(p) => p,
                            None => PlacementPolicy::Double(1),
                        });
                        let stripe = (match req.shard_stripe_size {
                            Some(s) => s,
                            None => DEFAULT_STRIPE_SIZE,
                        });
                        &&& req.shard_count.0 > 0
                        &&& final(self).tenants@.len() == old(self).tenants@.len() + count
                        &&& (forall|j: int|
                            0 <= j < old(self).tenants@.len() ==> final(self).tenants@[j] == old(self).tenants@[j])
                        &&& (forall|k: int|
                            0 <= k < count ==> {
                                let t =
                                    #[trigger] final(self).tenants@[old(self).tenants@.len() + k];
                                &&& t.tenant_shard_id == (TenantShardId {
                                    tenant_id: req.tenant_id,
                                    shard_number: ShardNumber(k as u8),
                                    shard_count: req.shard_count,
                                })
                                &&& t.shard == (ShardIdentity {
                                    layout: ShardLayout(LAYOUT_V1),
                                    number: ShardNumber(k as u8),
                                    count: req.shard_count,
                                    stripe_size: ShardStripeSize(stripe),
                                })
                                &&& t.tenant_conf == req.config
                                &&& t.policy == policy
                                &&& t.generation.0 == 0
                                &&& t.sequence.0 == 1
                                &&& t.observed.locations@ == Seq::<
                                    (NodeId, crate::tenant_state::ObservedStateLocation),
                                >::empty()
                                &&& t.intent.wf()
                                &&& t.intent.attached is Some
                                &&& eligible_ids(old(self).nodes@).contains(t.intent.attached->0)
                                &&& (forall|s: NodeId|
                                    t.intent.secondary@.contains(s) ==> eligible_ids(
                                        old(self).nodes@,
                                    ).contains(s))
                            })
                        // each placement is exactly the scheduler's choice
                        // against the records as they stood when the shard
                        // was placed: the result is a function of the
                        // inputs alone
                        &&& (forall|k: int|
                            0 <= k < count ==> (crate::scheduler::spec_schedule(
                                old(self).nodes@,
                                final(self).tenants@.take(old(self).tenants@.len() + k),
                                policy,
                                None::<NodeId>,
                            ) matches Some(p) && (#[trigger] final(self).tenants@[old(self).tenants@.len() + k]).intent.attached == Some(p.0)
                                && final(self).tenants@[old(self).tenants@.len() + k].intent.secondary@ == p.1))
                        &&& pair.1@.len() == count
                        &&& (forall|k: int|
                            0 <= k < count ==> #[trigger] pair.1@[k] == (TenantShardId {
                                tenant_id: req.tenant_id,
                                shard_number: ShardNumber(k as u8),
                                shard_count: req.shard_count,
                            }))
                    })
                    &&& pair.0.shards@ == spec_describe(final(self).tenants@, req.tenant_id)
                },
            },
    {
        if req.shard_count.0 == 0 {
            return Err(ApiError::BadRequest);
        }
        let stripe: u32 = match req.shard_stripe_size {
            Some(s) => s,
            None => DEFAULT_STRIPE_SIZE,
        };
        if stripe == 0 {
            return Err(ApiError::BadRequest);
        }
        if self.has_tenant(req.tenant_id) {
            let shards = self.describe_tenant(req.tenant_id);
            return Ok((TenantCreateResponse { shards }, Vec::new()));
        }
        let elig: Vec<NodeId> = crate::scheduler::eligible_ids_exec(&self.nodes);
        if elig.len() == 0 {
            return Err(ApiError::Conflict);
        }
        let policy: PlacementPolicy = match req.placement_policy {
            Some(p) => p,
            None => PlacementPolicy::Double(1),
        };
        let count: u8 = req.shard_count.0;
        let ghost n0 = old(self).tenants@.len() as int;
        let mut dirty: Vec<TenantShardId> = Vec::new();
        let mut k: u8 = 0;
        while k < count
            invariant
                k <= count,
                self.nodes == old(self).nodes,
                old(self).wf(),
                !spec_has_tenant(old(self).tenants@, req.tenant_id),
                eligible_ids(self.nodes@).len() > 0,
                self.tenants@.len() == n0 + k,
                n0 == old(self).tenants@.len(),
                forall|j: int| 0 <= j < n0 ==> self.tenants@[j] == old(self).tenants@[j],
                forall|x: int|
                    0 <= x < k ==> {
                        let t = #[trigger] self.tenants@[n0 + x];
                        &&& t.tenant_shard_id == (TenantShardId {
                            tenant_id: req.tenant_id,
                            shard_number: ShardNumber(x as u8),
                            shard_count: req.shard_count,
                        })
                        &&& t.shard == (ShardIdentity {
                            layout: ShardLayout(LAYOUT_V1),
                            number: ShardNumber(x as u8),
                            count: req.shard_count,
                            stripe_size: ShardStripeSize(stripe),
                        })
                        &&& t.shard.wf()
                        &&& t.tenant_conf == req.config
                        &&& t.policy == policy
                        &&& t.generation.0 == 0
                        &&& t.sequence.0 == 1
                        &&& t.observed.locations@ == Seq::<
                            (NodeId, crate::tenant_state::ObservedStateLocation),
                        >::empty()
                        &&& t.observed.wf()
                        &&& t.intent.wf()
                        &&& t.intent.attached is Some
                        &&& eligible_ids(self.nodes@).contains(t.intent.attached->0)
                        &&& (forall|s: NodeId|
                            t.intent.secondary@.contains(s) ==> eligible_ids(
                                self.nodes@,
                            ).contains(s))
                    },
                forall|x: int|
                    0 <= x < k ==> (crate::scheduler::spec_schedule(
                        self.nodes@,
                        self.tenants@.take(n0 + x),
                        policy,
                        None::<NodeId>,
                    ) matches Some(p) && (#[trigger] self.tenants@[n0 + x]).intent.attached
                        == Some(p.0) && self.tenants@[n0 + x].intent.secondary@ == p.1),
                dirty@.len() == k,
                forall|x: int|
                    0 <= x < k ==> #[trigger] dirty@[x] == (TenantShardId {
                        tenant_id: req.tenant_id,
                        shard_number: ShardNumber(x as u8),
                        shard_count: req.shard_count,
                    }),
                stripe > 0,
            decreases count - k,
        {
            let tsid = TenantShardId {
                tenant_id: req.tenant_id,
                shard_number: ShardNumber(k),
                shard_count: req.shard_count,
            };
            let ghost tprev = self.tenants@;
            let intent: IntentState = match schedule(&self.nodes, &self.tenants, policy, None) {
                Ok(x) => x,
                Err(_) => {
                    proof {
                        assert(eligible_ids(self.nodes@).len() > 0);
                    }
                    vstd::pervasive::unreached()
                },
            };
            let fresh = TenantShardState {
                tenant_shard_id: tsid,
                shard: ShardIdentity {
                    layout: ShardLayout(LAYOUT_V1),
                    number: ShardNumber(k),
                    count: req.shard_count,
                    stripe_size: ShardStripeSize(stripe),
                },
                tenant_conf: req.config,
                policy,
                generation: Generation(0),
                intent,
                observed: ObservedState::empty(),
                sequence: Sequence(1),
            };
            self.tenants.push(fresh);
            dirty.push(tsid);
            proof {
                // appending touches no prefix the earlier placements were
                // computed against
                assert forall|x: int| 0 <= x <= k as int implies #[trigger] self.tenants@.take(
                    n0 + x,
                ) =~= tprev.take(n0 + x) by {}
                assert(tprev.take(n0 + k as int) =~= tprev);
            }
            k = k + 1;
        }
        proof {
            let n0i = old(self).tenants@.len() as int;
            assert forall|x: int|
                n0i <= x < self.tenants@.len() implies {
                let t = #[trigger] self.tenants@[x];
                &&& t.tenant_shard_id.tenant_id == req.tenant_id
                &&& t.tenant_shard_id.shard_number.0 == x - n0i
                &&& t.shard.wf()
                &&& t.shard.number == t.tenant_shard_id.shard_number
                &&& t.shard.count == t.tenant_shard_id.shard_count
                &&& t.observed.wf()
                &&& t.intent.wf()
                &&& eligible_ids(self.nodes@).contains(t.intent.attached->0)
                &&& t.intent.attached is Some
                &&& (forall|s: NodeId|
                    t.intent.secondary@.contains(s) ==> eligible_ids(self.nodes@).contains(s))
            } by {
                let y = x - n0i;
                assert(self.tenants@[n0i + y] == self.tenants@[x]);
            }
            self.lemma_create_batch_wf(*old(self), req.tenant_id);
            lemma_gen_monotone_pointwise(old(self).tenants@, self.tenants@);
        }
        let shards = self.describe_tenant(req.tenant_id);
        Ok((TenantCreateResponse { shards }, dirty))
    }

    /// A batch of freshly created, freshly scheduled shard records keeps
    /// the service invariant.
    proof fn lemma_create_batch_wf(&self, pre: Service, tid: TenantId)
        requires
            pre.wf(),
            !spec_has_tenant(pre.tenants@, tid),
            self.nodes@ == pre.nodes@,
            self.tenants@.len() >= pre.tenants@.len(),
            forall|j: int| 0 <= j < pre.tenants@.len() ==> self.tenants@[j] == pre.tenants@[j],
            forall|x: int|
                pre.tenants@.len() <= x < self.tenants@.len() ==> {
                    let t = #[trigger] self.tenants@[x];
                    &&& t.tenant_shard_id.tenant_id == tid
                    &&& t.tenant_shard_id.shard_number.0 == x - pre.tenants@.len()
                    &&& t.shard.wf()
                    &&& t.shard.number == t.tenant_shard_id.shard_number
                    &&& t.shard.count == t.tenant_shard_id.shard_count
                    &&& t.observed.wf()
                    &&& t.intent.wf()
                    &&& eligible_ids(self.nodes@).contains(t.intent.attached->0)
                    &&& t.intent.attached is Some
                    &&& (forall|s: NodeId|
                        t.intent.secondary@.contains(s) ==> eligible_ids(self.nodes@).contains(s))
                },
        ensures
            self.wf(),
    {
        let n0 = pre.tenants@.len() as int;
        assert forall|i: int, j: int|
            0 <= i < j < self.tenants@.len() implies self.tenants@[i].tenant_shard_id
            != self.tenants@[j].tenant_shard_id by {
            if i < n0 && j >= n0 {
                if pre.tenants@[i].tenant_shard_id.tenant_id == tid {
                    assert(spec_has_tenant(pre.tenants@, tid));
                }
            } else if i >= n0 {
                assert(self.tenants@[i].tenant_shard_id.shard_number.0 == i - n0);
                assert(self.tenants@[j].tenant_shard_id.shard_number.0 == j - n0);
            }
        }
        assert forall|i: int| 0 <= i < self.tenants@.len() implies (
        #[trigger] self.tenants@[i]).wf() by {
            if i < n0 {
                assert(pre.tenants@[i].wf());
            }
        }
        assert forall|i: int, m: NodeId|
            0 <= i < self.tenants@.len() && (
            #[trigger] self.tenants@[i].intent.spec_all_pageservers().contains(
                m,
            )) implies reg_contains(self.nodes@, m) by {
            if i < n0 {
                assert(pre.tenants@[i].intent.spec_all_pageservers().contains(m));
            } else {
                let t = self.tenants@[i];
                let all = t.intent.spec_all_pageservers();
                let x = choose|x: int| 0 <= x < all.len() && all[x] == m;
                if x == 0 {
                    lemma_eligible_registered(self.nodes@, m);
                } else {
                    assert(t.intent.secondary@[x - 1] == m);
                    assert(t.intent.secondary@.contains(m));
                    lemma_eligible_registered(self.nodes@, m);
                }
            }
        }
    }

    /// Update a node's availability and scheduling status. Transitioning
    /// a node to offline re-schedules every shard whose intent references
    /// it: each such shard gets a fresh placement on the remaining
    /// schedulable nodes (where one exists), a bumped sequence, and a
    /// place on the returned dirty list.
    #[verifier::rlimit(100)]
    pub fn node_configure(&mut self, req: &NodeConfigureRequest) -> (r: Result<
        Vec<TenantShardId>,
        ApiError,
    >)
        requires
            old(self).wf(),
            old(self).counters_ok(),
        ensures
            final(self).wf(),
            tenants_gen_monotone(old(self).tenants@, final(self).tenants@),
            match r {
                Err(e) => *final(self) == *old(self) && e == ApiError::NotFound && !reg_contains(
                    old(self).nodes@,
                    req.node_id,
                ),
                Ok(dirty) => {
                    &&& reg_contains(old(self).nodes@, req.node_id)
                    &&& final(self).nodes@.len() == old(self).nodes@.len()
                    &&& (forall|j: int|
                        0 <= j < old(self).nodes@.len() && old(self).nodes@[j].id != req.node_id
                            ==> final(self).nodes@[j] == old(self).nodes@[j])
                    &&& (forall|j: int|
                        0 <= j < old(self).nodes@.len() && old(self).nodes@[j].id == req.node_id
                            ==> node_patch(
                            old(self).nodes@[j],
                            final(self).nodes@[j],
                            req.availability,
                            req.scheduling,
                        ))
                    &&& final(self).tenants@.len() == old(self).tenants@.len()
                    &&& (req.availability != Some(NodeAvailability::Offline) ==> final(self).tenants == old(self).tenants && dirty@ == Seq::<TenantShardId>::empty())
                    &&& (req.availability == Some(NodeAvailability::Offline) ==> {
                        &&& (forall|j: int|
                            0 <= j < old(self).tenants@.len() && !(
                            #[trigger] old(self).tenants@[j].intent.spec_all_pageservers().contains(
                                req.node_id,
                            )) ==> final(self).tenants@[j] == old(self).tenants@[j])
                        &&& (forall|j: int|
                            0 <= j < old(self).tenants@.len() && (
                            #[trigger] old(self).tenants@[j].intent.spec_all_pageservers().contains(
                                req.node_id,
                            )) ==> (if eligible_ids(final(self).nodes@).len() > 0 {
                                resched_patch(
                                    old(self).tenants@[j],
                                    final(self).tenants@[j],
                                    final(self).nodes@,
                                    req.node_id,
                                )
                            } else {
                                final(self).tenants@[j] == old(self).tenants@[j]
                            }))
                        &&& (forall|id: TenantShardId|
                            #[trigger] dirty@.contains(id) <==> exists|j: int|
                                0 <= j < old(self).tenants@.len() && old(self).tenants@[j].tenant_shard_id == id && final(self).tenants@[j].sequence.0 == old(self).tenants@[j].sequence.0 + 1)
                    })
                },
            },
    {
        let k: usize = match self.find_node_index(req.node_id) {
            Some(k) => k,
            None => {
                return Err(ApiError::NotFound);
            },
        };
        proof {
            assert(reg_contains(self.nodes@, req.node_id)) by {
                assert(self.nodes@[k as int].id == req.node_id);
            }
        }
        let availability: NodeAvailability = match req.availability {
            Some(a) => a,
            None => self.nodes[k].availability,
        };
        let scheduling: NodeSchedulingPolicy = match req.scheduling {
            Some(s) => s,
            None => self.nodes[k].scheduling,
        };
        let patched_node = Node {
            id: self.nodes[k].id,
            listen_http_addr: self.nodes[k].listen_http_addr.clone(),
            listen_http_port: self.nodes[k].listen_http_port,
            listen_pg_addr: self.nodes[k].listen_pg_addr.clone(),
            listen_pg_port: self.nodes[k].listen_pg_port,
            availability,
            scheduling,
        };
        self.nodes[k] = patched_node;
        proof {
            assert forall|i: int, j: int|
                0 <= i < j < self.nodes@.len() implies self.nodes@[i].id != self.nodes@[j].id by {
                assert(self.nodes@[i].id == old(self).nodes@[i].id);
                assert(self.nodes@[j].id == old(self).nodes@[j].id);
            }
            assert forall|m: NodeId|
                reg_contains(self.nodes@, m) == reg_contains(old(self).nodes@, m) by {
                if reg_contains(self.nodes@, m) {
                    let j = choose|j: int| 0 <= j < self.nodes@.len() && self.nodes@[j].id == m;
                    assert(old(self).nodes@[j].id == m);
                }
                if reg_contains(old(self).nodes@, m) {
                    let j = choose|j: int|
                        0 <= j < old(self).nodes@.len() && old(self).nodes@[j].id == m;
                    assert(self.nodes@[j].id == m);
                }
            }
        }
        let offline: bool = match req.availability {
            Some(NodeAvailability::Offline) => true,
            _ => false,
        };
        if !offline {
            proof {
                assert forall|i: int, m: NodeId|
                    0 <= i < self.tenants@.len() && (
                    #[trigger] self.tenants@[i].intent.spec_all_pageservers().contains(
                        m,
                    )) implies reg_contains(self.nodes@, m) by {
                    assert(reg_contains(old(self).nodes@, m));
                }
                lemma_gen_monotone_pointwise(old(self).tenants@, self.tenants@);
            }
            return Ok(Vec::new());
        }
        let ghost nodes1 = self.nodes;
        let ghost t0 = self.tenants@;
        let mut dirty: Vec<TenantShardId> = Vec::new();
        let mut i: usize = 0;
        while i < self.tenants.len()
            invariant
                i <= t0.len(),
                self.nodes == nodes1,
                nodes1@.len() == old(self).nodes@.len(),
                (k as int) < nodes1@.len(),
                nodes1@[k as int].id == req.node_id,
                nodes1@[k as int].availability == NodeAvailability::Offline,
                forall|a: int, b: int|
                    0 <= a < b < nodes1@.len() ==> nodes1@[a].id != nodes1@[b].id,
                forall|m: NodeId| reg_contains(nodes1@, m) == reg_contains(old(self).nodes@, m),
                t0 == old(self).tenants@,
                old(self).wf(),
                old(self).counters_ok(),
                self.tenants@.len() == t0.len(),
                forall|j: int| i <= j < t0.len() ==> self.tenants@[j] == t0[j],
                forall|j: int|
                    0 <= j < i && !(#[trigger] t0[j].intent.spec_all_pageservers().contains(
                        req.node_id,
                    )) ==> self.tenants@[j] == t0[j],
                forall|j: int|
                    0 <= j < i && (#[trigger] t0[j].intent.spec_all_pageservers().contains(
                        req.node_id,
                    )) ==> (if eligible_ids(nodes1@).len() > 0 {
                        resched_patch(t0[j], self.tenants@[j], nodes1@, req.node_id)
                    } else {
                        self.tenants@[j] == t0[j]
                    }),
                forall|j: int|
                    0 <= j < i ==> (#[trigger] self.tenants@[j]).tenant_shard_id
                        == t0[j].tenant_shard_id,
                forall|id: TenantShardId|
                    #[trigger] dirty@.contains(id) <==> exists|j: int|
                        0 <= j < i && t0[j].tenant_shard_id == id && self.tenants@[j].sequence.0
                            == t0[j].sequence.0 + 1,
                forall|j: int| 0 <= j < i ==> (#[trigger] self.tenants@[j]).wf(),
                forall|j: int, m: NodeId|
                    0 <= j < i && (#[trigger] self.tenants@[j].intent.spec_all_pageservers().contains(
                        m,
                    )) ==> reg_contains(nodes1@, m),
            decreases t0.len() - i,
        {
            let ghost pre_dirty = dirty@;
            let affected: bool = self.tenants[i].intent.references(req.node_id);
            if affected {
                let policy: PlacementPolicy = self.tenants[i].policy;
                let current: Option<NodeId> = self.tenants[i].intent.attached;
                match schedule(&self.nodes, &self.tenants, policy, current) {
                    Ok(intent) => {
                        let observed: ObservedState = self.tenants[i].observed.clone();
                        let id: TenantShardId = self.tenants[i].tenant_shard_id;
                        let patched = TenantShardState {
                            tenant_shard_id: id,
                            shard: self.tenants[i].shard,
                            tenant_conf: self.tenants[i].tenant_conf,
                            policy,
                            generation: self.tenants[i].generation,
                            intent,
                            observed,
                            sequence: self.tenants[i].sequence.next(),
                        };
                        self.tenants[i] = patched;
                        dirty.push(id);
                        proof {
                            let t = self.tenants@[i as int];
                            assert(eligible_ids(nodes1@).contains(t.intent.attached->0));
                            lemma_eligible_registered(nodes1@, t.intent.attached->0);
                            assert forall|s: NodeId|
                                t.intent.secondary@.contains(s) implies reg_contains(
                                nodes1@,
                                s,
                            ) by {
                                lemma_eligible_registered(nodes1@, s);
                            }
                            // the offline node is not schedulable, so the
                            // fresh intent avoids it
                            assert(!eligible_ids(nodes1@).contains(req.node_id)) by {
                                if eligible_ids(nodes1@).contains(req.node_id) {
                                    lemma_eligible_registered(nodes1@, req.node_id);
                                    assert(nodes1@[k as int].id == req.node_id);
                                    assert(nodes1@[k as int].spec_may_schedule());
                                }
                            }
                            assert(!t.intent.spec_all_pageservers().contains(req.node_id)) by {
                                if t.intent.spec_all_pageservers().contains(req.node_id) {
                                    let x = choose|x: int|
                                        0 <= x < t.intent.spec_all_pageservers().len()
                                            && t.intent.spec_all_pageservers()[x] == req.node_id;
                                    if x == 0 {
                                    } else {
                                        assert(t.intent.secondary@[x - 1] == req.node_id);
                                        assert(t.intent.secondary@.contains(req.node_id));
                                    }
                                }
                            }
                            assert(resched_patch(t0[i as int], t, nodes1@, req.node_id));
                            assert forall|m: NodeId|
                                t.intent.spec_all_pageservers().contains(m) implies reg_contains(
                                nodes1@,
                                m,
                            ) by {
                                let x = choose|x: int|
                                    0 <= x < t.intent.spec_all_pageservers().len()
                                        && t.intent.spec_all_pageservers()[x] == m;
                                if x == 0 {
                                } else {
                                    assert(t.intent.secondary@[x - 1] == m);
                                    assert(t.intent.secondary@.contains(m));
                                }
                            }
                            assert forall|id2: TenantShardId| #[trigger]
                                dirty@.contains(id2) implies exists|j: int|
                                0 <= j < i + 1 && t0[j].tenant_shard_id == id2
                                    && self.tenants@[j].sequence.0 == t0[j].sequence.0 + 1 by {
                                let x = choose|x: int| 0 <= x < dirty@.len() && dirty@[x] == id2;
                                if x < pre_dirty.len() {
                                    assert(pre_dirty.contains(id2)) by {
                                        assert(pre_dirty[x] == id2);
                                    }
                                } else {
                                    assert(id2 == t0[i as int].tenant_shard_id);
                                    assert(self.tenants@[i as int].sequence.0 == t0[
                                        i as int
                                    ].sequence.0 + 1);
                                }
                            }
                            assert forall|id2: TenantShardId|
                                (exists|j: int|
                                    0 <= j < i + 1 && t0[j].tenant_shard_id == id2
                                        && self.tenants@[j].sequence.0 == t0[j].sequence.0
                                        + 1) implies #[trigger] dirty@.contains(id2) by {
                                let j = choose|j: int|
                                    0 <= j < i + 1 && t0[j].tenant_shard_id == id2
                                        && self.tenants@[j].sequence.0 == t0[j].sequence.0 + 1;
                                if j < i {
                                    assert(pre_dirty.contains(id2));
                                    let x = choose|x: int|
                                        0 <= x < pre_dirty.len() && pre_dirty[x] == id2;
                                    assert(dirty@[x] == id2);
                                } else {
                                    assert(dirty@[dirty@.len() - 1] == id2);
                                }
                            }
                        }
                    },
                    Err(_) => {
                        proof {
                            // the scheduler fails only with no schedulable
                            // node at all, so leaving the shard in place is
                            // the contract's no-eligible-node case
                            assert(eligible_ids(nodes1@).len() == 0);
                            assert forall|id2: TenantShardId| #[trigger]
                                dirty@.contains(id2) implies exists|j: int|
                                0 <= j < i + 1 && t0[j].tenant_shard_id == id2
                                    && self.tenants@[j].sequence.0 == t0[j].sequence.0 + 1 by {
                                let j = choose|j: int|
                                    0 <= j < i && t0[j].tenant_shard_id == id2
                                        && self.tenants@[j].sequence.0 == t0[j].sequence.0 + 1;
                            }
                            assert forall|id2: TenantShardId|
                                (exists|j: int|
                                    0 <= j < i + 1 && t0[j].tenant_shard_id == id2
                                        && self.tenants@[j].sequence.0 == t0[j].sequence.0
                                        + 1) implies #[trigger] dirty@.contains(id2) by {
                                let j = choose|j: int|
                                    0 <= j < i + 1 && t0[j].tenant_shard_id == id2
                                        && self.tenants@[j].sequence.0 == t0[j].sequence.0 + 1;
                                if j == i {
                                    assert(self.tenants@[j] == t0[j]);
                                    assert(false);
                                }
                            }
                        }
                    },
                }
            } else {
                proof {
                    assert forall|id2: TenantShardId| #[trigger]
                        dirty@.contains(id2) implies exists|j: int|
                        0 <= j < i + 1 && t0[j].tenant_shard_id == id2
                            && self.tenants@[j].sequence.0 == t0[j].sequence.0 + 1 by {
                        let j = choose|j: int|
                            0 <= j < i && t0[j].tenant_shard_id == id2
                                && self.tenants@[j].sequence.0 == t0[j].sequence.0 + 1;
                    }
                    assert forall|id2: TenantShardId|
                        (exists|j: int|
                            0 <= j < i + 1 && t0[j].tenant_shard_id == id2
                                && self.tenants@[j].sequence.0 == t0[j].sequence.0
                                + 1) implies #[trigger] dirty@.contains(id2) by {
                        let j = choose|j: int|
                            0 <= j < i + 1 && t0[j].tenant_shard_id == id2
                                && self.tenants@[j].sequence.0 == t0[j].sequence.0 + 1;
                        if j == i {
                            assert(self.tenants@[j] == t0[j]);
                            assert(false);
                        }
                    }
                }
            }
            i = i + 1;
        }
        proof {
            assert forall|x: int, y: int|
                0 <= x < y < self.tenants@.len() implies self.tenants@[x].tenant_shard_id
                != self.tenants@[y].tenant_shard_id by {
                assert(self.tenants@[x].tenant_shard_id == t0[x].tenant_shard_id);
                assert(self.tenants@[y].tenant_shard_id == t0[y].tenant_shard_id);
            }
            assert forall|j2: int|
                0 <= j2 < t0.len() implies (#[trigger] self.tenants@[j2]).tenant_shard_id
                == t0[j2].tenant_shard_id && self.tenants@[j2].generation.0
                >= t0[j2].generation.0 by {
                if !(t0[j2].intent.spec_all_pageservers().contains(req.node_id)) {
                    assert(self.tenants@[j2] == t0[j2]);
                }
            }
            lemma_gen_monotone_pointwise(t0, self.tenants@);
        }
        Ok(dirty)
    }
}

/// Any shard record with the looked-up id makes the lookup succeed.
proof fn lemma_tenant_lookup_first_match_any(
    tenants: Seq<TenantShardState>,
    id: TenantShardId,
    i: int,
)
    requires
        0 <= i < tenants.len(),
        tenants[i].tenant_shard_id == id,
    ensures
        spec_tenant_lookup(tenants, id) is Some,
    decreases i,
{
    if tenants[0].tenant_shard_id == id {
    } else {
        lemma_tenant_lookup_first_match_any(tenants.drop_first(), id, i - 1);
    }
}

/// `validate` answers `true` exactly when the presented generation is the
/// shard's current generation: this is the whole meaning of its answer,
/// as fixed by `spec_valid`, which the contract of [`Service::validate`]
/// pins every response item to.
pub proof fn lemma_validate_matches_current(
    tenants: Seq<TenantShardState>,
    id: TenantShardId,
    g: u32,
)
    ensures
        spec_valid(tenants, id, g) <==> spec_tenant_gen(tenants, id) == Some(g),
{
}

/// `validate` is monotone: once it answers `false` for a generation the
/// controller has issued (one at or below the current generation), no
/// later state answers `true` for it. The premise holds of every history
/// of calls: each mutating operation ensures
/// [`tenants_gen_monotone`] between its old and new state, and the
/// relation composes by [`lemma_gen_monotone_trans`].
pub proof fn lemma_validate_monotone(
    pre: Seq<TenantShardState>,
    post: Seq<TenantShardState>,
    id: TenantShardId,
    g: u32,
)
    requires
        tenants_gen_monotone(pre, post),
        spec_tenant_gen(pre, id) matches Some(c0) && g <= c0,
        !spec_valid(pre, id, g),
    ensures
        !spec_valid(post, id, g),
{
    assert(spec_tenant_gen(pre, id) matches Some(c0) && (spec_tenant_gen(post, id) matches Some(
        c1,
    ) && c0 <= c1));
}

/// Generations never move backward between two service states: every
/// shard the earlier state knows is still known, under the same or a
/// larger generation. Every mutating operation of [`Service`] ensures
/// this relation between its old and new state, so it holds of any
/// machine-checked history by [`lemma_gen_monotone_trans`].
pub open spec fn tenants_gen_monotone(
    pre: Seq<TenantShardState>,
    post: Seq<TenantShardState>,
) -> bool {
    forall|id: TenantShardId|
        (#[trigger] spec_tenant_gen(pre, id)) matches Some(c0) ==> (spec_tenant_gen(post, id)
            matches Some(c1) && c0 <= c1)
}

/// Record-by-record preservation gives the lookup-level relation: when a
/// state keeps every record's id in place and never lowers a generation
/// (appending new records freely), generations are monotone.
pub proof fn lemma_gen_monotone_pointwise(pre: Seq<TenantShardState>, post: Seq<TenantShardState>)
    requires
        pre.len() <= post.len(),
        forall|j: int|
            0 <= j < pre.len() ==> (#[trigger] post[j]).tenant_shard_id == pre[j].tenant_shard_id
                && post[j].generation.0 >= pre[j].generation.0,
    ensures
        tenants_gen_monotone(pre, post),
    decreases pre.len(),
{
    if pre.len() == 0 {
    } else {
        assert forall|j: int|
            0 <= j < pre.drop_first().len() implies (
        #[trigger] post.drop_first()[j]).tenant_shard_id == pre.drop_first()[j].tenant_shard_id
            && post.drop_first()[j].generation.0 >= pre.drop_first()[j].generation.0 by {
            assert(post[j + 1].tenant_shard_id == pre[j + 1].tenant_shard_id);
            assert(post[j + 1].generation.0 >= pre[j + 1].generation.0);
        }
        lemma_gen_monotone_pointwise(pre.drop_first(), post.drop_first());
        assert forall|id: TenantShardId| true implies ((#[trigger] spec_tenant_gen(pre, id))
            matches Some(c0) ==> (spec_tenant_gen(post, id) matches Some(c1) && c0 <= c1)) by {
            assert(post[0].tenant_shard_id == pre[0].tenant_shard_id);
            if pre[0].tenant_shard_id == id {
            } else {
                assert(spec_tenant_gen(pre.drop_first(), id) == spec_tenant_gen(pre, id));
                assert(spec_tenant_gen(post.drop_first(), id) == spec_tenant_gen(post, id));
            }
        }
    }
}

/// Generation monotonicity composes across a history of operations.
pub proof fn lemma_gen_monotone_trans(
    a: Seq<TenantShardState>,
    b: Seq<TenantShardState>,
    c: Seq<TenantShardState>,
)
    requires
        tenants_gen_monotone(a, b),
        tenants_gen_monotone(b, c),
    ensures
        tenants_gen_monotone(a, c),
{
    assert forall|id: TenantShardId| true implies ((#[trigger] spec_tenant_gen(a, id))
        matches Some(c0) ==> (spec_tenant_gen(c, id) matches Some(c2) && c0 <= c2)) by {
        if spec_tenant_gen(a, id) is Some {
            assert(spec_tenant_gen(a, id) matches Some(x0) && (spec_tenant_gen(b, id)
                matches Some(x1) && x0 <= x1));
        }
    }
}

/// No operation of the service lowers a shard's generation: every patch a
/// mutating call applies to a shard record — attach, detach, re-attach
/// bump, migrate, reschedule — keeps the generation or raises it (and
/// [`Service::apply_reconcile_result`] merges a posted generation upward
/// by construction). The ops state the composed form of this as
/// `tenants_gen_monotone` in their contracts; this is the record-level
/// fact behind it.
pub proof fn lemma_ops_never_lower_generation(
    pre: TenantShardState,
    post: TenantShardState,
    n: NodeId,
    nodes: Seq<Node>,
    avoided: NodeId,
)
    requires
        attach_patch(pre, post, n) || detach_patch(pre, post) || gen_bump_patch(pre, post)
            || migrate_patch(pre, post, n) || resched_patch(pre, post, nodes, avoided),
    ensures
        post.generation.0 >= pre.generation.0,
{
}

/// Registering a node twice is the same as registering it once: after the
/// first call the id is present, and [`Service::node_register`] leaves a
/// registry that already carries the id untouched.
pub proof fn lemma_node_register_idempotent(pre: Seq<Node>, mid: Seq<Node>, node: Node)
    requires
        mid == if reg_contains(pre, node.id) {
            pre
        } else {
            pre.push(node)
        },
    ensures
        reg_contains(mid, node.id),
{
    if reg_contains(pre, node.id) {
        let j = choose|j: int| 0 <= j < pre.len() && pre[j].id == node.id;
        assert(mid[j].id == node.id);
    } else {
        assert(mid[mid.len() - 1].id == node.id);
    }
}

/// Creating a tenant twice returns the same locations as creating it
/// once: the first call leaves the tenant present, the second call (by
/// the contract of [`Service::tenant_create`]) changes nothing and
/// reports the locations read from the same, unchanged records.
pub proof fn lemma_tenant_create_idempotent(
    tenants: Seq<TenantShardState>,
    tid: TenantId,
    first: Seq<TenantCreateResponseShard>,
    second: Seq<TenantCreateResponseShard>,
)
    requires
        spec_has_tenant(tenants, tid),
        first == spec_describe(tenants, tid),
        second == spec_describe(tenants, tid),
    ensures
        first == second,
{
}

} // verus!
