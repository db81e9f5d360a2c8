//! Page-server nodes as the control plane knows them: listen addresses,
//! availability and scheduling status. Only nodes that are both available
//! and schedulable are eligible for new work.

use vstd::prelude::*;
use crate::ids::NodeId;

verus! {

/// Whether the control plane can currently reach the node.
#[derive(Clone, Copy, PartialEq, Eq, Structural, Debug)]
pub enum NodeAvailability {
    Active,
    Offline,
}

/// Whether the node accepts new shards from the scheduler.
#[derive(Clone, Copy, PartialEq, Eq, Structural, Debug)]
pub enum NodeSchedulingPolicy {
    Active,
    Filling,
    Pause,
    Draining,
}

/// One page server in the registry.
#[derive(Debug)]
pub struct Node {
    pub id: NodeId,
    pub listen_http_addr: String,
    pub listen_http_port: u16,
    pub listen_pg_addr: String,
    pub listen_pg_port: u16,
    pub availability: NodeAvailability,
    pub scheduling: NodeSchedulingPolicy,
}

impl Node {
    /// Only nodes that are reachable and accepting shards may receive
    /// new locations from the scheduler.
    pub open spec fn spec_may_schedule(&self) -> bool {
        self.availability == NodeAvailability::Active && self.scheduling
            == NodeSchedulingPolicy::Active
    }

    pub fn may_schedule(&self) -> (r: bool)
        ensures
            r == self.spec_may_schedule(),
    {
        match self.availability {
            NodeAvailability::Active => match self.scheduling {
                NodeSchedulingPolicy::Active => true,
                _ => false,
            },
            NodeAvailability::Offline => false,
        }
    }
}

impl Clone for Node {
    fn clone(&self) -> (r: Self)
        ensures
            r == *self,
    {
        Node {
            id: self.id,
            listen_http_addr: self.listen_http_addr.clone(),
            listen_http_port: self.listen_http_port,
            listen_pg_addr: self.listen_pg_addr.clone(),
            listen_pg_port: self.listen_pg_port,
            availability: self.availability,
            scheduling: self.scheduling,
        }
    }
}

} // verus!
