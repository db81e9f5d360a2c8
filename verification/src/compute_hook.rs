//! Compute hook: tells compute where a tenant shard currently lives, with
//! at-most-once-per-change semantics. The hook records the last binding it
//! delivered for each shard and suppresses a notification that would
//! repeat it; the transport itself lives with the driver.

use vstd::prelude::*;
use crate::ids::{NodeId, TenantShardId};

verus! {

/// One notification: the shard now lives on the node.
#[derive(Clone, Copy, PartialEq, Eq, Structural, Debug)]
pub struct ComputeHookNotifyRequest {
    pub tenant_shard_id: TenantShardId,
    pub node_id: NodeId,
}

/// The last binding delivered for a shard, if any.
pub open spec fn hook_lookup(s: Seq<(TenantShardId, NodeId)>, t: TenantShardId) -> Option<NodeId>
    decreases s.len(),
{
    if s.len() == 0 {
        None
    } else if s[0].0 == t {
        Some(s[0].1)
    } else {
        hook_lookup(s.drop_first(), t)
    }
}

/// Distinct shard keys.
pub open spec fn hook_distinct(s: Seq<(TenantShardId, NodeId)>) -> bool {
    forall|i: int, j: int| 0 <= i < j < s.len() ==> s[i].0 != s[j].0
}

proof fn lemma_hook_lookup_first_match(s: Seq<(TenantShardId, NodeId)>, t: TenantShardId, i: int)
    requires
        0 <= i < s.len(),
        s[i].0 == t,
        forall|j: int| 0 <= j < i ==> s[j].0 != t,
    ensures
        hook_lookup(s, t) == Some(s[i].1),
    decreases i,
{
    if i > 0 {
        lemma_hook_lookup_first_match(s.drop_first(), t, i - 1);
    }
}

proof fn lemma_hook_lookup_absent(s: Seq<(TenantShardId, NodeId)>, t: TenantShardId)
    requires
        forall|j: int| 0 <= j < s.len() ==> s[j].0 != t,
    ensures
        hook_lookup(s, t) is None,
    decreases s.len(),
{
    if s.len() > 0 {
        lemma_hook_lookup_absent(s.drop_first(), t);
    }
}

proof fn lemma_hook_lookup_push(
    s: Seq<(TenantShardId, NodeId)>,
    t: TenantShardId,
    n: NodeId,
    m: TenantShardId,
)
    ensures
        m == t && hook_lookup(s, t) is None ==> hook_lookup(s.push((t, n)), m) == Some(n),
        m != t ==> hook_lookup(s.push((t, n)), m) == hook_lookup(s, m),
    decreases s.len(),
{
    let u = s.push((t, n));
    if s.len() == 0 {
        assert(u[0] == (t, n));
        assert(u.drop_first() =~= Seq::<(TenantShardId, NodeId)>::empty());
        if m != t {
            assert(hook_lookup(u, m) == hook_lookup(u.drop_first(), m));
        }
    } else {
        assert(u[0] == s[0]);
        assert(u.drop_first() =~= s.drop_first().push((t, n)));
        lemma_hook_lookup_push(s.drop_first(), t, n, m);
        if s[0].0 == m {
            assert(hook_lookup(u, m) == Some(u[0].1));
        } else {
            assert(hook_lookup(u, m) == hook_lookup(u.drop_first(), m));
            assert(hook_lookup(s, m) == hook_lookup(s.drop_first(), m));
        }
    }
}

proof fn lemma_hook_lookup_update(
    s: Seq<(TenantShardId, NodeId)>,
    i: int,
    n: NodeId,
    m: TenantShardId,
)
    requires
        0 <= i < s.len(),
        hook_distinct(s),
    ensures
        m == s[i].0 ==> hook_lookup(s.update(i, (s[i].0, n)), m) == Some(n),
        m != s[i].0 ==> hook_lookup(s.update(i, (s[i].0, n)), m) == hook_lookup(s, m),
    decreases i,
{
    let u = s.update(i, (s[i].0, n));
    if i == 0 {
        if m != s[0].0 {
            assert(u.drop_first() =~= s.drop_first());
        }
    } else {
        assert(u.drop_first() =~= s.drop_first().update(i - 1, (s[i].0, n)));
        lemma_hook_lookup_update(s.drop_first(), i - 1, n, m);
        if m == s[i].0 {
            assert(s[0].0 != m);
        }
    }
}

/// At-most-once notifier of `(tenant shard -> node)` bindings.
#[derive(Debug)]
pub struct ComputeHook {
    /// The last binding successfully delivered, per shard.
    pub sent: Vec<(TenantShardId, NodeId)>,
}

impl ComputeHook {
    pub open spec fn wf(&self) -> bool {
        hook_distinct(self.sent@)
    }

    pub open spec fn spec_last_sent(&self, t: TenantShardId) -> Option<NodeId> {
        hook_lookup(self.sent@, t)
    }

    pub fn new() -> (r: Self)
        ensures
            r.wf(),
            r.sent@ == Seq::<(TenantShardId, NodeId)>::empty(),
    {
        ComputeHook { sent: Vec::new() }
    }

    fn find_index(&self, t: TenantShardId) -> (r: Option<usize>)
        ensures
            match r {
                Some(k) => k < self.sent@.len() && self.sent@[k as int].0 == t && (forall|j: int|
                    0 <= j < k ==> self.sent@[j].0 != t),
                None => forall|j: int| 0 <= j < self.sent@.len() ==> self.sent@[j].0 != t,
            },
    {
        let mut i: usize = 0;
        while i < self.sent.len()
            invariant
                i <= self.sent@.len(),
                forall|j: int| 0 <= j < i ==> self.sent@[j].0 != t,
            decreases self.sent@.len() - i,
        {
            if self.sent[i].0 == t {
                return Some(i);
            }
            i = i + 1;
        }
        None
    }

    /// Whether notifying this binding would say anything new: consecutive
    /// notifications of an unchanged binding are coalesced away.
    pub fn should_notify(&self, t: TenantShardId, node: NodeId) -> (r: bool)
        requires
            self.wf(),
        ensures
            r == (self.spec_last_sent(t) != Some(node)),
    {
        match self.find_index(t) {
            Some(k) => {
                proof {
                    lemma_hook_lookup_first_match(self.sent@, t, k as int);
                }
                !(self.sent[k].1 == node)
            },
            None => {
                proof {
                    lemma_hook_lookup_absent(self.sent@, t);
                }
                true
            },
        }
    }

    /// Record a binding as delivered, once the transport has confirmed it.
    pub fn record_notify(&mut self, t: TenantShardId, node: NodeId)
        requires
            old(self).wf(),
        ensures
            final(self).wf(),
            final(self).spec_last_sent(t) == Some(node),
            forall|m: TenantShardId|
                m != t ==> final(self).spec_last_sent(m) == old(self).spec_last_sent(m),
    {
        let ghost s0 = self.sent@;
        match self.find_index(t) {
            Some(k) => {
                self.sent[k] = (t, node);
                proof {
                    assert(s0[k as int].0 == t);
                    assert(self.sent@ =~= s0.update(k as int, (s0[k as int].0, node)));
                    assert forall|m: TenantShardId|
                        hook_lookup(self.sent@, m) == if m == t {
                            Some(node)
                        } else {
                            hook_lookup(s0, m)
                        } by {
                        lemma_hook_lookup_update(s0, k as int, node, m);
                    }
                    assert(hook_distinct(self.sent@));
                }
            },
            None => {
                proof {
                    lemma_hook_lookup_absent(s0, t);
                }
                self.sent.push((t, node));
                proof {
                    assert(self.sent@ =~= s0.push((t, node)));
                    assert forall|m: TenantShardId|
                        hook_lookup(self.sent@, m) == if m == t {
                            Some(node)
                        } else {
                            hook_lookup(s0, m)
                        } by {
                        lemma_hook_lookup_push(s0, t, node, m);
                    }
                    assert forall|i2: int, j2: int|
                        0 <= i2 < j2 < self.sent@.len() implies self.sent@[i2].0
                        != self.sent@[j2].0 by {
                        if j2 == self.sent@.len() - 1 {
                            assert(s0[i2].0 != t);
                        }
                    }
                }
            },
        }
    }

    /// Decide and record in one step: the request to send, if compute
    /// must be told. A caller that sends the returned request and then
    /// calls again with the same binding gets nothing: at most one
    /// notification per change.
    pub fn notify_plan(&mut self, t: TenantShardId, node: NodeId) -> (r: Option<
        ComputeHookNotifyRequest,
    >)
        requires
            old(self).wf(),
        ensures
            final(self).wf(),
            old(self).spec_last_sent(t) == Some(node) ==> r is None && *final(self) == *old(self),
            old(self).spec_last_sent(t) != Some(node) ==> r == Some(
                ComputeHookNotifyRequest { tenant_shard_id: t, node_id: node },
            ) && final(self).spec_last_sent(t) == Some(node),
            forall|m: TenantShardId|
                m != t ==> final(self).spec_last_sent(m) == old(self).spec_last_sent(m),
    {
        if self.should_notify(t, node) {
            self.record_notify(t, node);
            Some(ComputeHookNotifyRequest { tenant_shard_id: t, node_id: node })
        } else {
            None
        }
    }
}

} // verus!
