//! Read-only views of a site's classification: the diagnostic dump and the status counts.
use std::collections::HashMap;
use vstd::prelude::*;
use crate::graph::{Graph, UpdatePolicy};
use crate::meshinfo::Node;
use crate::node_id::{NodeID, key_of};
use crate::persistence::{NodeState, PersistentState};

verus! {

broadcast use vstd::std_specs::hash::group_hash_axioms;

/// The list of the dump a node is shown in.
#[derive(Debug, Clone, Copy, PartialEq, Eq, Structural)]
pub enum DumpBucket {
    Updated,
    Pending,
    Failed,
    Scheduled,
    Broken,
}

/// One node as the dump shows it.
#[derive(Debug, Clone)]
pub struct NodeInfo {
    pub id: NodeID,
    pub hostname: String,
    pub update_fail_count: u32,
    pub updated_at: Option<i64>,
}

#[derive(Debug, Clone, Copy, Default)]
pub struct NodeCounts {
    pub updated: u32,
    pub pending: u32,
    pub failed: u32,
    pub scheduled: u32,
    pub broken: u32,
}

/// A site's nodes sorted by their classification.
#[derive(Debug)]
pub struct SiteDump {
    pub counts: NodeCounts,
    pub updated: Vec<NodeInfo>,
    pub pending: Vec<NodeInfo>,
    pub failed: Vec<NodeInfo>,
    pub scheduled: Vec<NodeInfo>,
    pub broken: Vec<NodeInfo>,
}

/// A Ready node that has failed before is listed as failed, one that has not as scheduled.
pub open spec fn bucket_of(p: UpdatePolicy, fails: u32) -> DumpBucket {
    match p {
        UpdatePolicy::Finished => DumpBucket::Updated,
        UpdatePolicy::Pending => DumpBucket::Pending,
        UpdatePolicy::Broken => DumpBucket::Broken,
        UpdatePolicy::Ready => if fails > 0 { DumpBucket::Failed } else { DumpBucket::Scheduled },
    }
}

pub open spec fn fail_count(st: Map<u64, NodeState>, n: Node) -> u32 {
    let k = key_of(n.node_id@) as u64;
    if st.contains_key(k) { st[k].update_attempts } else { 0 }
}

pub open spec fn updated_at(st: Map<u64, NodeState>, n: Node) -> Option<i64> {
    let k = key_of(n.node_id@) as u64;
    if st.contains_key(k) { st[k].update_received } else { None }
}

pub open spec fn describes(info: NodeInfo, n: Node, st: Map<u64, NodeState>) -> bool {
    &&& info.id@ == n.node_id@
    &&& info.hostname@ == n.hostname@
    &&& info.update_fail_count == fail_count(st, n)
    &&& info.updated_at == updated_at(st, n)
}

/// The indices below `k` of the nodes that go to bucket `b`, in order.
pub open spec fn members(g: Graph, st: Map<u64, NodeState>, b: DumpBucket, k: int) -> Seq<int>
    decreases k,
{
    if k <= 0 {
        Seq::empty()
    } else {
        let prev = members(g, st, b, k - 1);
        if bucket_of(g.update_policy@[k - 1], fail_count(st, g.nodes@[k - 1].node)) == b {
            prev.push(k - 1)
        } else {
            prev
        }
    }
}

/// The dump's list for bucket `b`.
pub open spec fn listed(d: SiteDump, b: DumpBucket) -> Seq<NodeInfo> {
    match b {
        DumpBucket::Updated => d.updated@,
        DumpBucket::Pending => d.pending@,
        DumpBucket::Failed => d.failed@,
        DumpBucket::Scheduled => d.scheduled@,
        DumpBucket::Broken => d.broken@,
    }
}

/// The list shows exactly the nodes of bucket `b`, in the graph's order.
pub open spec fn lists_bucket(l: Seq<NodeInfo>, g: Graph, st: Map<u64, NodeState>, b: DumpBucket) -> bool {
    let m = members(g, st, b, g.nodes@.len() as int);
    &&& l.len() == m.len()
    &&& forall|k: int| 0 <= k < l.len() ==> describes(#[trigger] l[k], g.nodes@[m[k]].node, st)
}

pub open spec fn capped(n: nat) -> u32 {
    if n <= u32::MAX { n as u32 } else { u32::MAX }
}

fn describe(n: &Node, st: &HashMap<u64, NodeState>) -> (r: NodeInfo)
    ensures
        describes(r, *n, st@),
{
    let (update_fail_count, updated_at) = match st.get(&n.node_id.key()) {
        Some(s) => (s.update_attempts, s.update_received),
        None => (0, None),
    };
    NodeInfo { id: n.node_id, hostname: n.hostname.clone(), update_fail_count, updated_at }
}

fn fail_count_exec(n: &Node, st: &HashMap<u64, NodeState>) -> (r: u32)
    ensures
        r == fail_count(st@, *n),
{
    match st.get(&n.node_id.key()) {
        Some(s) => s.update_attempts,
        None => 0,
    }
}

fn bucket_exec(p: UpdatePolicy, fails: u32) -> (r: DumpBucket)
    ensures
        r == bucket_of(p, fails),
{
    match p {
        UpdatePolicy::Finished => DumpBucket::Updated,
        UpdatePolicy::Pending => DumpBucket::Pending,
        UpdatePolicy::Broken => DumpBucket::Broken,
        UpdatePolicy::Ready => if fails > 0 { DumpBucket::Failed } else { DumpBucket::Scheduled },
    }
}

fn bucket_list(graph: &Graph, st: &HashMap<u64, NodeState>, b: DumpBucket) -> (r: Vec<NodeInfo>)
    requires
        graph.wf(),
    ensures
        lists_bucket(r@, *graph, st@, b),
{
    let mut r: Vec<NodeInfo> = Vec::new();
    let mut i: usize = 0;
    let ghost mut m: Seq<int> = Seq::empty();
    while i < graph.nodes.len()
        invariant
            graph.wf(),
            i <= graph.nodes@.len(),
            m == members(*graph, st@, b, i as int),
            r@.len() == m.len(),
            forall|k: int| 0 <= k < r@.len() ==> 0 <= #[trigger] m[k] < i,
            forall|k: int| 0 <= k < r@.len() ==> describes(#[trigger] r@[k], graph.nodes@[m[k]].node, st@),
        decreases graph.nodes@.len() - i,
    {
        let node = &graph.nodes[i].node;
        let fails = fail_count_exec(node, st);
        let ghost m0 = members(*graph, st@, b, i as int);
        let ghost r0 = r@;
        let hit = bucket_exec(graph.update_policy[i], fails) == b;
        if hit {
            r.push(describe(node, st));
        }
        proof {
            let m1 = members(*graph, st@, b, i + 1);
            assert(m1 == if hit { m0.push(i as int) } else { m0 });
            assert forall|k: int| 0 <= k < r@.len() implies 0 <= #[trigger] m1[k] < i + 1
                && describes(r@[k], graph.nodes@[m1[k]].node, st@) by {
                if k < r0.len() {
                    assert(r@[k] == r0[k]);
                    assert(m1[k] == m0[k]);
                }
            }
            m = m1;
        }
        i += 1;
    }
    r
}

/// The dump of one site.
pub fn generate(graph: &Graph, persistent: &PersistentState) -> (d: SiteDump)
    requires
        graph.wf(),
    ensures
        forall|b: DumpBucket| lists_bucket(#[trigger] listed(d, b), *graph, persistent.node_state@, b),
        d.counts.updated == capped(d.updated@.len()),
        d.counts.pending == capped(d.pending@.len()),
        d.counts.failed == capped(d.failed@.len()),
        d.counts.scheduled == capped(d.scheduled@.len()),
        d.counts.broken == capped(d.broken@.len()),
{
    let st = &persistent.node_state;
    let updated = bucket_list(graph, st, DumpBucket::Updated);
    let pending = bucket_list(graph, st, DumpBucket::Pending);
    let failed = bucket_list(graph, st, DumpBucket::Failed);
    let scheduled = bucket_list(graph, st, DumpBucket::Scheduled);
    let broken = bucket_list(graph, st, DumpBucket::Broken);
    let counts = NodeCounts {
        updated: capped_len(updated.len()),
        pending: capped_len(pending.len()),
        failed: capped_len(failed.len()),
        scheduled: capped_len(scheduled.len()),
        broken: capped_len(broken.len()),
    };
    SiteDump { counts, updated, pending, failed, scheduled, broken }
}

fn capped_len(n: usize) -> (r: u32)
    ensures
        r == capped(n as nat),
{
    if n <= u32::MAX as usize { n as u32 } else { u32::MAX }
}

/// How many of `p` hold `q`.
pub open spec fn count_policy(p: Seq<UpdatePolicy>, q: UpdatePolicy) -> nat
    decreases p.len(),
{
    if p.len() == 0 {
        0
    } else {
        count_policy(p.drop_last(), q) + if p.last() == q { 1nat } else { 0nat }
    }
}

/// The site's status: nodes that are Finished, Ready, Pending, and all nodes.
pub fn status_counts(graph: &Graph) -> (r: (usize, usize, usize, usize))
    ensures
        r.0 == count_policy(graph.update_policy@, UpdatePolicy::Finished),
        r.1 == count_policy(graph.update_policy@, UpdatePolicy::Ready),
        r.2 == count_policy(graph.update_policy@, UpdatePolicy::Pending),
        r.3 == graph.nodes@.len(),
{
    let p = &graph.update_policy;
    let mut migrated: usize = 0;
    let mut cleared: usize = 0;
    let mut pending: usize = 0;
    let mut i: usize = 0;
    while i < p.len()
        invariant
            i <= p@.len(),
            migrated == count_policy(p@.subrange(0, i as int), UpdatePolicy::Finished),
            cleared == count_policy(p@.subrange(0, i as int), UpdatePolicy::Ready),
            pending == count_policy(p@.subrange(0, i as int), UpdatePolicy::Pending),
            migrated + cleared + pending <= i,
        decreases p@.len() - i,
    {
        assert(p@.subrange(0, i + 1).drop_last() =~= p@.subrange(0, i as int));
        match p[i] {
            UpdatePolicy::Finished => migrated += 1,
            UpdatePolicy::Ready => cleared += 1,
            UpdatePolicy::Pending => pending += 1,
            UpdatePolicy::Broken => {},
        }
        i += 1;
    }
    assert(p@.subrange(0, i as int) =~= p@);
    (migrated, cleared, pending, graph.nodes.len())
}

} // verus!
