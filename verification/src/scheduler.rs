//! Placement scheduler: a pure, deterministic function from the node
//! registry, the load already placed on each node, the placement policy
//! and the current intent to a new intent.
//!
//! A node's load score is the number of shards attached to it, tie-broken
//! by its number of secondaries and finally by its id, so the choice is a
//! total order and the result is a function of the inputs alone.

use vstd::prelude::*;
use crate::ids::NodeId;
use crate::node::Node;
use crate::tenant_state::{copy_vec, IntentState, TenantShardState};
use crate::PlacementPolicy;

verus! {

/// No eligible node was available to hold the attached location.
#[derive(Clone, Copy, PartialEq, Eq, Structural, Debug)]
pub struct ScheduleError;

/// Pairwise-distinct node ids.
pub open spec fn nodup(s: Seq<NodeId>) -> bool {
    forall|i: int, j: int| 0 <= i < j < s.len() ==> s[i] != s[j]
}

/// How many shards intend to be attached to the node.
pub open spec fn count_attached(tenants: Seq<TenantShardState>, n: NodeId) -> nat
    decreases tenants.len(),
{
    if tenants.len() == 0 {
        0nat
    } else {
        count_attached(tenants.drop_last(), n) + (if tenants.last().intent.attached == Some(n) {
            1nat
        } else {
            0nat
        })
    }
}

/// How many shards intend a secondary on the node.
pub open spec fn count_secondary(tenants: Seq<TenantShardState>, n: NodeId) -> nat
    decreases tenants.len(),
{
    if tenants.len() == 0 {
        0nat
    } else {
        count_secondary(tenants.drop_last(), n) + (if tenants.last().intent.secondary@.contains(
            n,
        ) {
            1nat
        } else {
            0nat
        })
    }
}

/// Strict load order: fewer attachments first, then fewer secondaries,
/// then the smaller node id. A total order on distinct node ids.
pub open spec fn score_lt(tenants: Seq<TenantShardState>, a: NodeId, b: NodeId) -> bool {
    let ca = count_attached(tenants, a);
    let cb = count_attached(tenants, b);
    let sa = count_secondary(tenants, a);
    let sb = count_secondary(tenants, b);
    ca < cb || (ca == cb && (sa < sb || (sa == sb && a.0 < b.0)))
}

/// The ids of the nodes the scheduler may use: available and accepting
/// shards, in registry order.
pub open spec fn eligible_ids(nodes: Seq<Node>) -> Seq<NodeId>
    decreases nodes.len(),
{
    if nodes.len() == 0 {
        Seq::<NodeId>::empty()
    } else {
        eligible_ids(nodes.drop_last()) + (if nodes.last().spec_may_schedule() {
            seq![nodes.last().id]
        } else {
            Seq::<NodeId>::empty()
        })
    }
}

/// The least-loaded candidate (first on ties, but candidates are distinct).
pub open spec fn spec_best(tenants: Seq<TenantShardState>, cands: Seq<NodeId>) -> NodeId
    recommends
        cands.len() > 0,
    decreases cands.len(),
{
    if cands.len() <= 1 {
        cands[0]
    } else {
        let prev = spec_best(tenants, cands.drop_last());
        if score_lt(tenants, cands.last(), prev) {
            cands.last()
        } else {
            prev
        }
    }
}

/// The candidates with one node taken out.
pub open spec fn remove_id(s: Seq<NodeId>, n: NodeId) -> Seq<NodeId>
    decreases s.len(),
{
    if s.len() == 0 {
        Seq::<NodeId>::empty()
    } else {
        remove_id(s.drop_last(), n) + (if s.last() == n {
            Seq::<NodeId>::empty()
        } else {
            seq![s.last()]
        })
    }
}

/// The `k` least-loaded candidates, least first, fewer if the candidates
/// run out.
pub open spec fn spec_pick_secondaries(
    tenants: Seq<TenantShardState>,
    cands: Seq<NodeId>,
    k: nat,
) -> Seq<NodeId>
    decreases k,
{
    if k == 0 || cands.len() == 0 {
        Seq::<NodeId>::empty()
    } else {
        let b = spec_best(tenants, cands);
        seq![b] + spec_pick_secondaries(tenants, remove_id(cands, b), (k - 1) as nat)
    }
}

/// How many secondaries the policy asks for.
pub open spec fn spec_secondary_count(policy: PlacementPolicy) -> nat {
    match policy {
        PlacementPolicy::Single => 0nat,
        PlacementPolicy::Double(k) => k as nat,
    }
}

/// The scheduler's whole decision: keep the attached node if it is still
/// eligible, otherwise the least-loaded eligible node; then the k
/// least-loaded remaining nodes as secondaries. `None` when no node can
/// hold the attachment.
pub open spec fn spec_schedule(
    nodes: Seq<Node>,
    tenants: Seq<TenantShardState>,
    policy: PlacementPolicy,
    current_attached: Option<NodeId>,
) -> Option<(NodeId, Seq<NodeId>)> {
    let elig = eligible_ids(nodes);
    let attached = if current_attached is Some && elig.contains(current_attached->0) {
        Some(current_attached->0)
    } else if elig.len() > 0 {
        Some(spec_best(tenants, elig))
    } else {
        None
    };
    match attached {
        None => None,
        Some(a) => Some(
            (a, spec_pick_secondaries(tenants, remove_id(elig, a), spec_secondary_count(policy))),
        ),
    }
}

pub proof fn lemma_spec_best_contains(tenants: Seq<TenantShardState>, cands: Seq<NodeId>)
    requires
        cands.len() > 0,
    ensures
        cands.contains(spec_best(tenants, cands)),
    decreases cands.len(),
{
    if cands.len() <= 1 {
        assert(cands[0] == spec_best(tenants, cands));
    } else {
        lemma_spec_best_contains(tenants, cands.drop_last());
        let prev = spec_best(tenants, cands.drop_last());
        if score_lt(tenants, cands.last(), prev) {
            assert(cands[cands.len() - 1] == cands.last());
        } else {
            let i = choose|i: int|
                0 <= i < cands.drop_last().len() && cands.drop_last()[i] == prev;
            assert(cands[i] == prev);
        }
    }
}

pub proof fn lemma_remove_id_contains(s: Seq<NodeId>, n: NodeId, m: NodeId)
    ensures
        remove_id(s, n).contains(m) == (s.contains(m) && m != n),
    decreases s.len(),
{
    if s.len() == 0 {
    } else {
        lemma_remove_id_contains(s.drop_last(), n, m);
        let r = remove_id(s, n);
        let rd = remove_id(s.drop_last(), n);
        if s.last() == n {
            assert(r =~= rd);
            if s.contains(m) && m != n {
                let i = choose|i: int| 0 <= i < s.len() && s[i] == m;
                assert(s.drop_last()[i] == m);
            }
            if rd.contains(m) {
                let i = choose|i: int| 0 <= i < rd.len() && rd[i] == m;
                assert(s.drop_last().contains(m));
                let j = choose|j: int| 0 <= j < s.drop_last().len() && s.drop_last()[j] == m;
                assert(s[j] == m);
            }
        } else {
            assert(r =~= rd.push(s.last()));
            if r.contains(m) {
                let i = choose|i: int| 0 <= i < r.len() && r[i] == m;
                if i < rd.len() {
                    assert(rd[i] == m);
                } else {
                    assert(m == s.last());
                    assert(s[s.len() - 1] == m);
                }
            }
            if s.contains(m) && m != n {
                let i = choose|i: int| 0 <= i < s.len() && s[i] == m;
                if i < s.len() - 1 {
                    assert(s.drop_last()[i] == m);
                    let j = choose|j: int| 0 <= j < rd.len() && rd[j] == m;
                    assert(r[j] == m);
                } else {
                    assert(r[r.len() - 1] == m);
                }
            }
        }
    }
}

pub proof fn lemma_remove_id_nodup(s: Seq<NodeId>, n: NodeId)
    requires
        nodup(s),
    ensures
        nodup(remove_id(s, n)),
        s.contains(n) ==> remove_id(s, n).len() == s.len() - 1,
        !s.contains(n) ==> remove_id(s, n).len() == s.len(),
    decreases s.len(),
{
    if s.len() == 0 {
    } else {
        assert(nodup(s.drop_last()));
        lemma_remove_id_nodup(s.drop_last(), n);
        let r = remove_id(s, n);
        let rd = remove_id(s.drop_last(), n);
        if s.last() == n {
            assert(r =~= rd);
            assert forall|j: int| 0 <= j < s.drop_last().len() implies s.drop_last()[j] != n by {
                assert(s[j] == s.drop_last()[j]);
                assert(s[j] != s[s.len() - 1]);
            }
            lemma_seq_not_contains(s.drop_last(), n);
            assert(s.contains(n)) by {
                assert(s[s.len() - 1] == n);
            }
        } else {
            assert(r =~= rd.push(s.last()));
            assert(!rd.contains(s.last())) by {
                lemma_remove_id_contains(s.drop_last(), n, s.last());
                if s.drop_last().contains(s.last()) {
                    let i = choose|i: int|
                        0 <= i < s.drop_last().len() && s.drop_last()[i] == s.last();
                    assert(s[i] == s[s.len() - 1]);
                }
            }
            assert forall|i: int, j: int| 0 <= i < j < r.len() implies r[i] != r[j] by {
                if j < rd.len() {
                } else {
                    assert(r[j] == s.last());
                    assert(rd.contains(r[i])) by {
                        assert(rd[i] == r[i]);
                    }
                }
            }
            if s.contains(n) {
                let i = choose|i: int| 0 <= i < s.len() && s[i] == n;
                assert(s.drop_last()[i] == n);
            }
            if s.drop_last().contains(n) {
                let i = choose|i: int| 0 <= i < s.drop_last().len() && s.drop_last()[i] == n;
                assert(s[i] == n);
            }
        }
    }
}

proof fn lemma_seq_not_contains(s: Seq<NodeId>, n: NodeId)
    requires
        forall|j: int| 0 <= j < s.len() ==> s[j] != n,
    ensures
        !s.contains(n),
{
}

/// The chosen secondaries are distinct candidates, as many as the policy
/// asks for or as the candidates allow.
pub proof fn lemma_pick_secondaries_props(
    tenants: Seq<TenantShardState>,
    cands: Seq<NodeId>,
    k: nat,
)
    requires
        nodup(cands),
    ensures
        nodup(spec_pick_secondaries(tenants, cands, k)),
        forall|m: NodeId| spec_pick_secondaries(tenants, cands, k).contains(m) ==> cands.contains(m),
        spec_pick_secondaries(tenants, cands, k).len() == if k <= cands.len() {
            k
        } else {
            cands.len()
        },
    decreases k,
{
    if k == 0 || cands.len() == 0 {
    } else {
        let b = spec_best(tenants, cands);
        lemma_spec_best_contains(tenants, cands);
        lemma_remove_id_nodup(cands, b);
        let rest = remove_id(cands, b);
        lemma_pick_secondaries_props(tenants, rest, (k - 1) as nat);
        let picked = spec_pick_secondaries(tenants, cands, k);
        let picked_rest = spec_pick_secondaries(tenants, rest, (k - 1) as nat);
        assert(picked =~= seq![b] + picked_rest);
        assert forall|m: NodeId| picked.contains(m) implies cands.contains(m) by {
            let i = choose|i: int| 0 <= i < picked.len() && picked[i] == m;
            if i == 0 {
            } else {
                assert(picked_rest[i - 1] == m);
                assert(picked_rest.contains(m));
                lemma_remove_id_contains(cands, b, m);
            }
        }
        assert forall|i: int, j: int| 0 <= i < j < picked.len() implies picked[i] != picked[j] by {
            if i == 0 {
                assert(picked[j] == picked_rest[j - 1]);
                assert(picked_rest.contains(picked[j]));
                lemma_remove_id_contains(cands, b, picked[j]);
            } else {
                assert(picked[i] == picked_rest[i - 1]);
                assert(picked[j] == picked_rest[j - 1]);
            }
        }
    }
}

/// Whether a vector of node ids contains one.
pub fn contains_node(v: &Vec<NodeId>, n: NodeId) -> (r: bool)
    ensures
        r == v@.contains(n),
{
    let mut i: usize = 0;
    while i < v.len()
        invariant
            i <= v@.len(),
            forall|j: int| 0 <= j < i ==> v@[j] != n,
        decreases v@.len() - i,
    {
        if v[i].0 == n.0 {
            assert(v@[i as int] == n);
            return true;
        }
        i = i + 1;
    }
    proof {
        if v@.contains(n) {
            let j = choose|j: int| 0 <= j < v@.len() && v@[j] == n;
            assert(false);
        }
    }
    false
}

fn count_attached_exec(tenants: &Vec<TenantShardState>, n: NodeId) -> (r: usize)
    ensures
        r == count_attached(tenants@, n),
{
    let mut acc: usize = 0;
    let mut i: usize = 0;
    while i < tenants.len()
        invariant
            i <= tenants@.len(),
            acc == count_attached(tenants@.take(i as int), n),
            acc <= i,
        decreases tenants@.len() - i,
    {
        let hit: bool = match &tenants[i].intent.attached {
            Some(a) => a.0 == n.0,
            None => false,
        };
        proof {
            assert(tenants@.take(i + 1).drop_last() =~= tenants@.take(i as int));
            assert(tenants@.take(i + 1).last() == tenants@[i as int]);
        }
        if hit {
            acc = acc + 1;
        }
        i = i + 1;
    }
    proof {
        assert(tenants@.take(tenants@.len() as int) =~= tenants@);
    }
    acc
}

fn count_secondary_exec(tenants: &Vec<TenantShardState>, n: NodeId) -> (r: usize)
    ensures
        r == count_secondary(tenants@, n),
{
    let mut acc: usize = 0;
    let mut i: usize = 0;
    while i < tenants.len()
        invariant
            i <= tenants@.len(),
            acc == count_secondary(tenants@.take(i as int), n),
            acc <= i,
        decreases tenants@.len() - i,
    {
        let hit: bool = contains_node(&tenants[i].intent.secondary, n);
        proof {
            assert(tenants@.take(i + 1).drop_last() =~= tenants@.take(i as int));
            assert(tenants@.take(i + 1).last() == tenants@[i as int]);
        }
        if hit {
            acc = acc + 1;
        }
        i = i + 1;
    }
    proof {
        assert(tenants@.take(tenants@.len() as int) =~= tenants@);
    }
    acc
}

fn score_lt_exec(tenants: &Vec<TenantShardState>, a: NodeId, b: NodeId) -> (r: bool)
    ensures
        r == score_lt(tenants@, a, b),
{
    let ca: usize = count_attached_exec(tenants, a);
    let cb: usize = count_attached_exec(tenants, b);
    if ca < cb {
        return true;
    }
    if ca > cb {
        return false;
    }
    let sa: usize = count_secondary_exec(tenants, a);
    let sb: usize = count_secondary_exec(tenants, b);
    if sa < sb {
        return true;
    }
    if sa > sb {
        return false;
    }
    a.0 < b.0
}

/// The ids of the schedulable nodes, in registry order.
pub fn eligible_ids_exec(nodes: &Vec<Node>) -> (r: Vec<NodeId>)
    ensures
        r@ == eligible_ids(nodes@),
{
    let mut r: Vec<NodeId> = Vec::new();
    let mut i: usize = 0;
    while i < nodes.len()
        invariant
            i <= nodes@.len(),
            r@ == eligible_ids(nodes@.take(i as int)),
        decreases nodes@.len() - i,
    {
        proof {
            assert(nodes@.take(i + 1).drop_last() =~= nodes@.take(i as int));
            assert(nodes@.take(i + 1).last() == nodes@[i as int]);
        }
        if nodes[i].may_schedule() {
            r.push(nodes[i].id);
            proof {
                assert(r@ =~= eligible_ids(nodes@.take(i + 1)));
            }
        } else {
            proof {
                assert(r@ =~= eligible_ids(nodes@.take(i + 1)));
            }
        }
        i = i + 1;
    }
    proof {
        assert(nodes@.take(nodes@.len() as int) =~= nodes@);
    }
    r
}

/// Eligible ids are drawn from the registry, so distinct registry ids
/// give distinct eligible ids.
pub proof fn lemma_eligible_ids_nodup(nodes: Seq<Node>)
    requires
        forall|i: int, j: int| 0 <= i < j < nodes.len() ==> nodes[i].id != nodes[j].id,
    ensures
        nodup(eligible_ids(nodes)),
        forall|m: NodeId|
            #[trigger] eligible_ids(nodes).contains(m) ==> exists|i: int|
                0 <= i < nodes.len() && nodes[i].id == m && nodes[i].spec_may_schedule(),
    decreases nodes.len(),
{
    if nodes.len() == 0 {
    } else {
        assert(forall|i: int, j: int|
            0 <= i < j < nodes.drop_last().len() ==> nodes.drop_last()[i].id
                != nodes.drop_last()[j].id);
        lemma_eligible_ids_nodup(nodes.drop_last());
        let e = eligible_ids(nodes);
        let ed = eligible_ids(nodes.drop_last());
        if nodes.last().spec_may_schedule() {
            assert(e =~= ed.push(nodes.last().id));
            assert forall|m: NodeId| #[trigger] e.contains(m) implies exists|i: int|
                0 <= i < nodes.len() && nodes[i].id == m && nodes[i].spec_may_schedule() by {
                let i = choose|i: int| 0 <= i < e.len() && e[i] == m;
                if i < ed.len() {
                    assert(ed.contains(m)) by {
                        assert(ed[i] == m);
                    }
                    let j = choose|j: int|
                        0 <= j < nodes.drop_last().len() && nodes.drop_last()[j].id == m
                            && nodes.drop_last()[j].spec_may_schedule();
                    assert(nodes[j].id == m && nodes[j].spec_may_schedule());
                } else {
                    assert(m == nodes.last().id);
                    assert(nodes[nodes.len() - 1].id == m);
                }
            }
            assert forall|i: int, j: int| 0 <= i < j < e.len() implies e[i] != e[j] by {
                if j == e.len() - 1 {
                    assert(ed.contains(e[i])) by {
                        assert(ed[i] == e[i]);
                    }
                    let x = choose|x: int|
                        0 <= x < nodes.drop_last().len() && nodes.drop_last()[x].id == e[i]
                            && nodes.drop_last()[x].spec_may_schedule();
                    assert(nodes[x].id == e[i]);
                    assert(nodes[x].id != nodes[nodes.len() - 1].id);
                }
            }
        } else {
            assert(e =~= ed);
            assert forall|m: NodeId| #[trigger] e.contains(m) implies exists|i: int|
                0 <= i < nodes.len() && nodes[i].id == m && nodes[i].spec_may_schedule() by {
                let j = choose|j: int|
                    0 <= j < nodes.drop_last().len() && nodes.drop_last()[j].id == m
                        && nodes.drop_last()[j].spec_may_schedule();
                assert(nodes[j].id == m && nodes[j].spec_may_schedule());
            }
        }
    }
}

fn best_exec(tenants: &Vec<TenantShardState>, cands: &Vec<NodeId>) -> (r: NodeId)
    requires
        cands@.len() > 0,
    ensures
        r == spec_best(tenants@, cands@),
{
    let mut best: NodeId = cands[0];
    let mut i: usize = 1;
    proof {
        assert(cands@.take(1).len() == 1);
        assert(cands@.take(1)[0] == cands@[0]);
    }
    while i < cands.len()
        invariant
            1 <= i <= cands@.len(),
            best == spec_best(tenants@, cands@.take(i as int)),
        decreases cands@.len() - i,
    {
        proof {
            assert(cands@.take(i + 1).drop_last() =~= cands@.take(i as int));
            assert(cands@.take(i + 1).last() == cands@[i as int]);
        }
        if score_lt_exec(tenants, cands[i], best) {
            best = cands[i];
        }
        i = i + 1;
    }
    proof {
        assert(cands@.take(cands@.len() as int) =~= cands@);
    }
    best
}

pub fn remove_id_exec(cands: &Vec<NodeId>, n: NodeId) -> (r: Vec<NodeId>)
    ensures
        r@ == remove_id(cands@, n),
{
    let mut r: Vec<NodeId> = Vec::new();
    let mut i: usize = 0;
    while i < cands.len()
        invariant
            i <= cands@.len(),
            r@ == remove_id(cands@.take(i as int), n),
        decreases cands@.len() - i,
    {
        proof {
            assert(cands@.take(i + 1).drop_last() =~= cands@.take(i as int));
            assert(cands@.take(i + 1).last() == cands@[i as int]);
        }
        if cands[i].0 != n.0 {
            r.push(cands[i]);
            proof {
                assert(r@ =~= remove_id(cands@.take(i + 1), n));
            }
        } else {
            proof {
                assert(r@ =~= remove_id(cands@.take(i + 1), n));
            }
        }
        i = i + 1;
    }
    proof {
        assert(cands@.take(cands@.len() as int) =~= cands@);
    }
    r
}

fn pick_secondaries_exec(
    tenants: &Vec<TenantShardState>,
    cands: Vec<NodeId>,
    k: usize,
) -> (r: Vec<NodeId>)
    ensures
        r@ == spec_pick_secondaries(tenants@, cands@, k as nat),
{
    let ghost cands0 = cands@;
    let mut picked: Vec<NodeId> = Vec::new();
    let mut remaining: Vec<NodeId> = cands;
    let mut rounds: usize = 0;
    while rounds < k && remaining.len() > 0
        invariant
            rounds <= k,
            spec_pick_secondaries(tenants@, cands0, k as nat) == picked@
                + spec_pick_secondaries(tenants@, remaining@, (k - rounds) as nat),
        decreases k - rounds,
    {
        let b: NodeId = best_exec(tenants, &remaining);
        picked.push(b);
        remaining = remove_id_exec(&remaining, b);
        rounds = rounds + 1;
    }
    proof {
        assert(spec_pick_secondaries(tenants@, remaining@, (k - rounds) as nat)
            =~= Seq::<NodeId>::empty());
        assert(picked@ =~= picked@ + spec_pick_secondaries(
            tenants@,
            remaining@,
            (k - rounds) as nat,
        ));
    }
    picked
}

/// Compute a fresh intent for one shard. Pure: the result is a function
/// of the registry, the load on it, the policy and the current attached
/// node and of nothing else. Fails only when no eligible node exists to
/// hold the attachment.
pub fn schedule(
    nodes: &Vec<Node>,
    tenants: &Vec<TenantShardState>,
    policy: PlacementPolicy,
    current_attached: Option<NodeId>,
) -> (r: Result<IntentState, ScheduleError>)
    requires
        forall|i: int, j: int| 0 <= i < j < nodes@.len() ==> nodes@[i].id != nodes@[j].id,
    ensures
        match r {
            Ok(intent) => {
                &&& spec_schedule(nodes@, tenants@, policy, current_attached) matches Some(p)
                    && intent.attached == Some(p.0) && intent.secondary@ == p.1
                &&& intent.wf()
                &&& intent.attached is Some
                &&& eligible_ids(nodes@).contains(intent.attached->0)
                &&& (forall|s: NodeId|
                    intent.secondary@.contains(s) ==> eligible_ids(nodes@).contains(s))
                &&& intent.secondary@.len() == if spec_secondary_count(policy) + 1 <= eligible_ids(
                    nodes@,
                ).len() {
                    spec_secondary_count(policy)
                } else if eligible_ids(nodes@).len() > 0 {
                    (eligible_ids(nodes@).len() - 1) as nat
                } else {
                    0nat
                }
            },
            Err(_) => spec_schedule(nodes@, tenants@, policy, current_attached) is None,
        },
{
    let elig: Vec<NodeId> = eligible_ids_exec(nodes);
    proof {
        lemma_eligible_ids_nodup(nodes@);
    }
    let keep: bool = match &current_attached {
        Some(a) => contains_node(&elig, *a),
        None => false,
    };
    let attached: NodeId = if keep {
        match &current_attached {
            Some(a) => *a,
            None => NodeId(0),
        }
    } else {
        if elig.len() == 0 {
            return Err(ScheduleError);
        }
        proof {
            lemma_spec_best_contains(tenants@, elig@);
        }
        best_exec(tenants, &elig)
    };
    proof {
        assert(elig@.contains(attached));
    }
    let k: usize = match policy {
        PlacementPolicy::Single => 0,
        PlacementPolicy::Double(n) => n,
    };
    let cands: Vec<NodeId> = remove_id_exec(&elig, attached);
    proof {
        lemma_remove_id_nodup(elig@, attached);
    }
    let secondary: Vec<NodeId> = pick_secondaries_exec(tenants, cands, k);
    proof {
        lemma_pick_secondaries_props(tenants@, remove_id(elig@, attached), k as nat);
        assert forall|m: NodeId| secondary@.contains(m) implies m != attached && elig@.contains(
            m,
        ) by {
            lemma_remove_id_contains(elig@, attached, m);
        }
        if secondary@.contains(attached) {
            assert(false);
        }
    }
    Ok(IntentState { attached: Some(attached), secondary })
}

/// The scheduler is a pure function of its inputs: the same registry,
/// load, policy and current attachment always yield the same intent.
/// This is immediate from the contract of `schedule`, which pins its
/// result to `spec_schedule` of the inputs alone.
pub proof fn lemma_scheduler_deterministic(
    nodes: Seq<Node>,
    tenants: Seq<TenantShardState>,
    policy: PlacementPolicy,
    current_attached: Option<NodeId>,
    r1: Option<(NodeId, Seq<NodeId>)>,
    r2: Option<(NodeId, Seq<NodeId>)>,
)
    requires
        r1 == spec_schedule(nodes, tenants, policy, current_attached),
        r2 == spec_schedule(nodes, tenants, policy, current_attached),
    ensures
        r1 == r2,
{
}

} // verus!
