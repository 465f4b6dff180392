//! Per-node update history, kept across restarts.
use std::collections::HashMap;
use vstd::prelude::*;
use crate::node_id::{NodeID, key_of};

verus! {

broadcast use vstd::std_specs::hash::group_hash_axioms;

/// What is remembered of one node's updates. `update_received` is when the update was last
/// handed out (seconds since the Unix epoch), while it is unconfirmed.
#[derive(Debug, Clone, Copy, PartialEq, Eq, Default)]
pub struct NodeState {
    pub update_received: Option<i64>,
    pub update_attempts: u32,
}

/// The uplink a node was first seen with, and when.
#[derive(Debug, Clone, Copy, PartialEq, Eq)]
pub struct LinkInfo {
    pub uplink: NodeID,
    pub since: i64,
}

/// Both maps are keyed by `NodeID::key`.
#[derive(Debug)]
pub struct PersistentState {
    pub node_state: HashMap<u64, NodeState>,
    pub link_history: HashMap<u64, LinkInfo>,
}

/// The node states after an update was handed to the node keyed `k` at `now`: the time is
/// noted unless an earlier delivery is still unconfirmed; the attempt counter is left alone.
pub open spec fn recorded(st: Map<u64, NodeState>, k: u64, now: i64) -> Map<u64, NodeState> {
    if st.contains_key(k) {
        if st[k].update_received is None {
            st.insert(k, NodeState { update_received: Some(now), update_attempts: st[k].update_attempts })
        } else {
            st
        }
    } else {
        st.insert(k, NodeState { update_received: Some(now), update_attempts: 0 })
    }
}

/// A node handed the update twice keeps the time of the first delivery, and deliveries never
/// raise its attempt counter.
pub proof fn lemma_second_delivery_changes_nothing(st: Map<u64, NodeState>, k: u64, t1: i64, t2: i64)
    ensures
        recorded(recorded(st, k, t1), k, t2) == recorded(st, k, t1),
        recorded(st, k, t1).contains_key(k),
        recorded(st, k, t1)[k].update_received is Some,
        recorded(st, k, t1)[k].update_attempts == if st.contains_key(k) {
            st[k].update_attempts
        } else {
            0
        },
{
}

impl PersistentState {
    pub fn new() -> (r: PersistentState)
        ensures
            r.node_state@ == Map::<u64, NodeState>::empty(),
            r.link_history@ == Map::<u64, LinkInfo>::empty(),
    {
        PersistentState { node_state: HashMap::new(), link_history: HashMap::new() }
    }

    /// Notes that the update was handed to `name` at `now`.
    pub fn update_node_at(&mut self, name: &NodeID, now: i64)
        ensures
            final(self).node_state@ == recorded(old(self).node_state@, key_of(name@) as u64, now),
            final(self).link_history@ == old(self).link_history@,
    {
        let k = name.key();
        match self.node_state.get(&k) {
            Some(s) => {
                if s.update_received.is_none() {
                    let attempts = s.update_attempts;
                    self.node_state.insert(k, NodeState { update_received: Some(now), update_attempts: attempts });
                }
            },
            None => {
                self.node_state.insert(k, NodeState { update_received: Some(now), update_attempts: 0 });
            },
        }
    }

    /// Notes that the update was handed to `name` now.
    pub fn update_node(&mut self, name: &NodeID)
        ensures
            exists|t: i64| final(self).node_state@ == #[trigger] recorded(old(self).node_state@, key_of(name@) as u64, t),
            final(self).link_history@ == old(self).link_history@,
    {
        let t = crate::clock::now();
        self.update_node_at(name, t);
    }
}

impl Default for PersistentState {
    fn default() -> (r: PersistentState)
        ensures
            r.node_state@ == Map::<u64, NodeState>::empty(),
            r.link_history@ == Map::<u64, LinkInfo>::empty(),
    {
        PersistentState::new()
    }
}

} // verus!
