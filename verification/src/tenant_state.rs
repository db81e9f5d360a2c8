//! Per-shard state: the controller's intent (desired placement), its
//! observed knowledge of what each node currently holds, and the record
//! that ties them to a generation, a placement policy and a mutation
//! sequence.

use vstd::prelude::*;
use crate::ids::{Generation, NodeId, TenantShardId};
use crate::location::LocationConfig;
use crate::shard::ShardIdentity;
use crate::location::TenantConfig;
use crate::PlacementPolicy;
use crate::Sequence;

verus! {

/// Copy a vector of plain values element by element.
pub fn copy_vec<T: Copy>(v: &Vec<T>) -> (r: Vec<T>)
    ensures
        r@ == v@,
{
    let mut r: Vec<T> = Vec::new();
    let mut i: usize = 0;
    while i < v.len()
        invariant
            i <= v@.len(),
            r@ == v@.take(i as int),
        decreases v@.len() - i,
    {
        r.push(v[i]);
        proof {
            assert(r@ =~= v@.take(i + 1));
        }
        i = i + 1;
    }
    proof {
        assert(r@ =~= v@);
    }
    r
}

/// The controller's desired placement for a shard.
#[derive(Debug)]
pub struct IntentState {
    /// The node that should hold the attached location, if any.
    pub attached: Option<NodeId>,
    /// The nodes that should hold warm secondary locations.
    pub secondary: Vec<NodeId>,
}

impl IntentState {
    /// The attached node is never also a secondary, and secondaries are
    /// pairwise distinct.
    pub open spec fn wf(&self) -> bool {
        &&& (match self.attached {
            Some(a) => !self.secondary@.contains(a),
            None => true,
        })
        &&& (forall|i: int, j: int|
            0 <= i < j < self.secondary@.len() ==> self.secondary@[i] != self.secondary@[j])
    }

    /// Every node referenced by this intent, attached first.
    pub open spec fn spec_all_pageservers(&self) -> Seq<NodeId> {
        match self.attached {
            Some(a) => seq![a] + self.secondary@,
            None => self.secondary@,
        }
    }

    pub fn empty() -> (r: Self)
        ensures
            r.attached is None,
            r.secondary@ == Seq::<NodeId>::empty(),
            r.wf(),
    {
        IntentState { attached: None, secondary: Vec::new() }
    }

    pub fn all_pageservers(&self) -> (r: Vec<NodeId>)
        ensures
            r@ == self.spec_all_pageservers(),
    {
        let mut r: Vec<NodeId> = Vec::new();
        match &self.attached {
            Some(a) => { r.push(*a); },
            None => {},
        }
        let mut i: usize = 0;
        while i < self.secondary.len()
            invariant
                i <= self.secondary@.len(),
                r@ == self.spec_all_pageservers().take(
                    (match self.attached {
                        Some(_) => i + 1,
                        None => i as int,
                    }) as int,
                ),
            decreases self.secondary@.len() - i,
        {
            r.push(self.secondary[i]);
            i = i + 1;
            proof {
                assert(r@ =~= self.spec_all_pageservers().take(
                    (match self.attached {
                        Some(_) => i + 1,
                        None => i as int,
                    }) as int,
                ));
            }
        }
        proof {
            assert(r@ =~= self.spec_all_pageservers());
        }
        r
    }

    /// Whether a node is referenced by this intent.
    pub fn references(&self, node: NodeId) -> (r: bool)
        ensures
            r == self.spec_all_pageservers().contains(node),
    {
        let is_attached: bool = match &self.attached {
            Some(a) => a.0 == node.0,
            None => false,
        };
        if is_attached {
            proof {
                assert(self.spec_all_pageservers()[0] == node);
            }
            return true;
        }
        let mut i: usize = 0;
        while i < self.secondary.len()
            invariant
                i <= self.secondary@.len(),
                forall|j: int| 0 <= j < i ==> self.secondary@[j] != node,
            decreases self.secondary@.len() - i,
        {
            if self.secondary[i].0 == node.0 {
                proof {
                    assert(self.secondary@.contains(node));
                    let s = self.spec_all_pageservers();
                    let k = choose|k: int| 0 <= k < self.secondary@.len() && self.secondary@[k]
                        == node;
                    match self.attached {
                        Some(_) => { assert(s[k + 1] == node); },
                        None => { assert(s[k] == node); },
                    }
                }
                return true;
            }
            i = i + 1;
        }
        proof {
            let s = self.spec_all_pageservers();
            assert forall|j: int| 0 <= j < s.len() implies s[j] != node by {
                match self.attached {
                    Some(a) => {
                        if j > 0 {
                            assert(s[j] == self.secondary@[j - 1]);
                        }
                    },
                    None => {
                        assert(s[j] == self.secondary@[j]);
                    },
                }
            }
            if s.contains(node) {
                let j = choose|j: int| 0 <= j < s.len() && s[j] == node;
                assert(false);
            }
        }
        false
    }
}

impl Clone for IntentState {
    fn clone(&self) -> (r: Self)
        ensures
            r.attached == self.attached,
            r.secondary@ == self.secondary@,
    {
        IntentState { attached: self.attached, secondary: copy_vec(&self.secondary) }
    }
}

/// The last configuration the controller believes one node holds for a
/// shard. `conf` of `None` means "uncertain, possibly in flight": a call
/// was sent whose outcome the controller does not know.
#[derive(Debug, Clone, Copy)]
pub struct ObservedStateLocation {
    pub conf: Option<LocationConfig>,
}

/// What the lookup of a node in observed state yields: nothing recorded,
/// or a location record whose `conf` may itself be unknown.
pub open spec fn obs_lookup(
    s: Seq<(NodeId, ObservedStateLocation)>,
    n: NodeId,
) -> Option<ObservedStateLocation>
    decreases s.len(),
{
    if s.len() == 0 {
        None
    } else if s[0].0 == n {
        Some(s[0].1)
    } else {
        obs_lookup(s.drop_first(), n)
    }
}

/// Whether observed state has any record for a node.
pub open spec fn obs_contains(s: Seq<(NodeId, ObservedStateLocation)>, n: NodeId) -> bool {
    obs_lookup(s, n) is Some
}

/// Distinct keys in an observed-state table.
pub open spec fn obs_distinct(s: Seq<(NodeId, ObservedStateLocation)>) -> bool {
    forall|i: int, j: int| 0 <= i < j < s.len() ==> s[i].0 != s[j].0
}

pub proof fn lemma_obs_lookup_first_match(
    s: Seq<(NodeId, ObservedStateLocation)>,
    n: NodeId,
    i: int,
)
    requires
        0 <= i < s.len(),
        s[i].0 == n,
        forall|j: int| 0 <= j < i ==> s[j].0 != n,
    ensures
        obs_lookup(s, n) == Some(s[i].1),
    decreases i,
{
    if i == 0 {
    } else {
        lemma_obs_lookup_first_match(s.drop_first(), n, i - 1);
    }
}

pub proof fn lemma_obs_lookup_absent(s: Seq<(NodeId, ObservedStateLocation)>, n: NodeId)
    requires
        forall|j: int| 0 <= j < s.len() ==> s[j].0 != n,
    ensures
        obs_lookup(s, n) is None,
    decreases s.len(),
{
    if s.len() > 0 {
        lemma_obs_lookup_absent(s.drop_first(), n);
    }
}

/// Appending a record for a fresh key leaves other lookups unchanged.
pub proof fn lemma_obs_lookup_push(
    s: Seq<(NodeId, ObservedStateLocation)>,
    n: NodeId,
    loc: ObservedStateLocation,
    m: NodeId,
)
    ensures
        m == n && obs_lookup(s, n) is None ==> obs_lookup(s.push((n, loc)), m) == Some(loc),
        m != n ==> obs_lookup(s.push((n, loc)), m) == obs_lookup(s, m),
        obs_lookup(s, m) is Some ==> obs_lookup(s.push((n, loc)), m) == obs_lookup(s, m),
    decreases s.len(),
{
    let t = s.push((n, loc));
    if s.len() == 0 {
        assert(t[0] == (n, loc));
        assert(t.drop_first() =~= Seq::<(NodeId, ObservedStateLocation)>::empty());
        if m != n {
            assert(obs_lookup(t, m) == obs_lookup(t.drop_first(), m));
            assert(obs_lookup(t.drop_first(), m) is None);
        }
    } else {
        assert(t[0] == s[0]);
        assert(t.drop_first() =~= s.drop_first().push((n, loc)));
        lemma_obs_lookup_push(s.drop_first(), n, loc, m);
        if s[0].0 == m {
            assert(obs_lookup(t, m) == Some(t[0].1));
        } else {
            assert(obs_lookup(t, m) == obs_lookup(t.drop_first(), m));
            assert(obs_lookup(s, m) == obs_lookup(s.drop_first(), m));
        }
    }
}

/// Updating the record at an index changes exactly that key's lookup.
pub proof fn lemma_obs_lookup_update(
    s: Seq<(NodeId, ObservedStateLocation)>,
    i: int,
    loc: ObservedStateLocation,
    m: NodeId,
)
    requires
        0 <= i < s.len(),
        obs_distinct(s),
    ensures
        m == s[i].0 ==> obs_lookup(s.update(i, (s[i].0, loc)), m) == Some(loc),
        m != s[i].0 ==> obs_lookup(s.update(i, (s[i].0, loc)), m) == obs_lookup(s, m),
    decreases i,
{
    let t = s.update(i, (s[i].0, loc));
    if i == 0 {
        if m != s[0].0 {
            assert(t.drop_first() =~= s.drop_first());
        }
    } else {
        assert(t.drop_first() =~= s.drop_first().update(i - 1, (s[i].0, loc)));
        lemma_obs_lookup_update(s.drop_first(), i - 1, loc, m);
        if m == s[i].0 {
            assert(s[0].0 != m);
        }
    }
}

/// The controller's best knowledge of what each node holds for one shard.
#[derive(Debug)]
pub struct ObservedState {
    pub locations: Vec<(NodeId, ObservedStateLocation)>,
}

impl Clone for ObservedState {
    fn clone(&self) -> (r: Self)
        ensures
            r.locations@ == self.locations@,
    {
        ObservedState { locations: copy_vec(&self.locations) }
    }
}

impl ObservedState {
    pub open spec fn wf(&self) -> bool {
        obs_distinct(self.locations@)
    }

    pub open spec fn spec_get(&self, n: NodeId) -> Option<ObservedStateLocation> {
        obs_lookup(self.locations@, n)
    }

    pub fn empty() -> (r: Self)
        ensures
            r.wf(),
            r.locations@ == Seq::<(NodeId, ObservedStateLocation)>::empty(),
    {
        ObservedState { locations: Vec::new() }
    }

    /// The position of the record for a node, if one exists.
    fn find_index(&self, n: NodeId) -> (r: Option<usize>)
        ensures
            match r {
                Some(k) => k < self.locations@.len() && self.locations@[k as int].0 == n && (
                forall|j: int| 0 <= j < k ==> self.locations@[j].0 != n),
                None => forall|j: int| 0 <= j < self.locations@.len() ==> self.locations@[j].0 != n,
            },
    {
        let mut i: usize = 0;
        while i < self.locations.len()
            invariant
                i <= self.locations@.len(),
                forall|j: int| 0 <= j < i ==> self.locations@[j].0 != n,
            decreases self.locations@.len() - i,
        {
            if self.locations[i].0.0 == n.0 {
                return Some(i);
            }
            i = i + 1;
        }
        None
    }

    pub fn get(&self, n: NodeId) -> (r: Option<&ObservedStateLocation>)
        requires
            self.wf(),
        ensures
            match r {
                Some(l) => self.spec_get(n) == Some(*l),
                None => self.spec_get(n) is None,
            },
    {
        match self.find_index(n) {
            Some(k) => {
                proof {
                    lemma_obs_lookup_first_match(self.locations@, n, k as int);
                }
                Some(&self.locations[k].1)
            },
            None => {
                proof {
                    lemma_obs_lookup_absent(self.locations@, n);
                }
                None
            },
        }
    }

    /// Record what the controller now believes the node holds, replacing
    /// any earlier record for the same node.
    pub fn insert(&mut self, n: NodeId, loc: ObservedStateLocation)
        requires
            old(self).wf(),
        ensures
            final(self).wf(),
            final(self).spec_get(n) == Some(loc),
            forall|m: NodeId| m != n ==> final(self).spec_get(m) == old(self).spec_get(m),
            forall|m: NodeId|
                obs_contains(final(self).locations@, m) == (obs_contains(old(self).locations@, m)
                    || m == n),
    {
        let ghost s0 = self.locations@;
        match self.find_index(n) {
            Some(k) => {
                self.locations[k] = (n, loc);
                proof {
                    assert(s0[k as int].0 == n);
                    assert(self.locations@ =~= s0.update(k as int, (s0[k as int].0, loc)));
                    assert forall|m: NodeId|
                        obs_lookup(self.locations@, m) == if m == n {
                            Some(loc)
                        } else {
                            obs_lookup(s0, m)
                        } by {
                        lemma_obs_lookup_update(s0, k as int, loc, m);
                    }
                    assert(obs_distinct(self.locations@));
                    lemma_obs_lookup_first_match(s0, n, k as int);
                }
            },
            None => {
                proof {
                    lemma_obs_lookup_absent(s0, n);
                }
                self.locations.push((n, loc));
                proof {
                    assert(self.locations@ =~= s0.push((n, loc)));
                    assert forall|m: NodeId|
                        obs_lookup(self.locations@, m) == if m == n {
                            Some(loc)
                        } else {
                            obs_lookup(s0, m)
                        } by {
                        lemma_obs_lookup_push(s0, n, loc, m);
                    }
                    assert forall|i2: int, j2: int|
                        0 <= i2 < j2 < self.locations@.len() implies self.locations@[i2].0
                        != self.locations@[j2].0 by {
                        if j2 == self.locations@.len() - 1 {
                            assert(s0[i2].0 != n);
                        }
                    }
                }
            },
        }
    }
}

/// The central record for one tenant shard.
#[derive(Debug)]
pub struct TenantShardState {
    pub tenant_shard_id: TenantShardId,
    pub shard: ShardIdentity,
    pub tenant_conf: TenantConfig,
    pub policy: PlacementPolicy,
    /// Current generation: bumped before every change that promotes a
    /// node to an attached state.
    pub generation: Generation,
    pub intent: IntentState,
    pub observed: ObservedState,
    /// Increments on any intent change; reconcile results carry the
    /// sequence they ran against, and stale results are discarded.
    pub sequence: Sequence,
}

impl TenantShardState {
    pub open spec fn wf(&self) -> bool {
        &&& self.intent.wf()
        &&& self.observed.wf()
        &&& self.shard.wf()
        &&& self.shard.number == self.tenant_shard_id.shard_number
        &&& self.shard.count == self.tenant_shard_id.shard_count
    }
}

} // verus!
