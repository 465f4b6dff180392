//! The policy graph: the mesh as a forest of uplinks, and for each router whether it may
//! take the update now.
use std::collections::HashMap;
use vstd::prelude::*;
use vstd::set_lib::*;
use crate::config::SiteConfig;
use crate::mac::{MacAddr, is_mac_text};
use crate::meshinfo::{MeshInfo, Node, same_node};
use crate::node_id::{NodeID, key_of, lemma_key_injective, parse_node_id};
use crate::persistence::{LinkInfo, NodeState, PersistentState};

verus! {

broadcast use vstd::std_specs::hash::group_hash_axioms;

#[derive(Debug, Clone, Copy, PartialEq, Eq, Structural)]
pub enum UpdatePolicy {
    /// Waiting for routers behind it to update first.
    Pending,
    /// May take the update now.
    Ready,
    /// Confirmed on the latest release, or assumed so after staying away past the timeout.
    Finished,
    /// Failed to update too often; no longer holds anything back, still served on request.
    Broken,
}

/// One router of the graph. `uplink` and `downlinks` are indices into `Graph::nodes`.
#[derive(Debug)]
pub struct NodeContainer {
    pub node: Node,
    pub uplink: Option<usize>,
    pub downlinks: Vec<usize>,
}

/// The graph built from one sample. Every vector runs parallel to `nodes`.
#[derive(Debug)]
pub struct Graph {
    pub nodes: Vec<NodeContainer>,
    pub ip_addrs: HashMap<u128, usize>,
    pub depths: Vec<usize>,
    pub max_depth: usize,
    pub deepest_node: Option<usize>,
    pub update_policy: Vec<UpdatePolicy>,
}

// ---- Intake ----

pub open spec fn max_age_seconds(cfg: SiteConfig) -> int {
    cfg.node_max_age_days * 86400
}

/// Not seen for longer than the site's maximum age.
pub open spec fn is_stale(n: Node, cfg: SiteConfig, now: int) -> bool {
    now - n.last_seen > max_age_seconds(cfg)
}

/// The nodes of a sample that a graph takes in, in their order.
pub open spec fn fresh_nodes(nodes: Seq<Node>, cfg: SiteConfig, now: int) -> Seq<Node>
    decreases nodes.len(),
{
    if nodes.len() == 0 {
        Seq::empty()
    } else if is_stale(nodes.last(), cfg, now) {
        fresh_nodes(nodes.drop_last(), cfg, now)
    } else {
        fresh_nodes(nodes.drop_last(), cfg, now).push(nodes.last())
    }
}

pub open spec fn same_nodes(a: Seq<Node>, b: Seq<Node>) -> bool {
    a.len() == b.len() && forall|i: int| 0 <= i < a.len() ==> same_node(#[trigger] a[i], b[i])
}

// ---- Links ----

/// The identifier a node's uplink is sought under. A next hop spelled as a MAC address
/// (some firmware writes the uplink's MAC there) is replaced by the node's gateway, if it
/// has one; without a next hop, the uplink remembered for the node is used.
pub open spec fn uplink_target(n: Node, history: Map<u64, LinkInfo>) -> Option<Seq<u8>> {
    match n.gateway_nexthop {
        Some(h) => if is_mac_text(h@) {
            match n.gateway {
                Some(g) => parse_node_id(g@),
                None => None,
            }
        } else {
            parse_node_id(h@)
        },
        None => {
            let k = key_of(n.node_id@) as u64;
            if history.contains_key(k) {
                Some(history[k].uplink@)
            } else {
                None
            }
        },
    }
}

/// `j` is the last node with identifier `t`: a later node replaces an earlier one.
pub open spec fn is_last_with_id(nodes: Seq<Node>, t: Seq<u8>, j: int) -> bool {
    &&& 0 <= j < nodes.len()
    &&& nodes[j].node_id@ == t
    &&& forall|k: int| j < k < nodes.len() ==> (#[trigger] nodes[k]).node_id@ != t
}

pub open spec fn last_with_id(nodes: Seq<Node>, t: Seq<u8>) -> Option<int> {
    if exists|j: int| is_last_with_id(nodes, t, j) {
        Some(choose|j: int| is_last_with_id(nodes, t, j))
    } else {
        None
    }
}

/// For each node, the node its uplink identifier resolves to in this sample.
pub open spec fn candidate_links(nodes: Seq<Node>, history: Map<u64, LinkInfo>) -> Seq<Option<int>> {
    Seq::new(
        nodes.len(),
        |i: int|
            match uplink_target(nodes[i], history) {
                Some(t) => last_with_id(nodes, t),
                None => None,
            },
    )
}

/// Following `up` from `i` reaches a node without uplink within `fuel` nodes.
pub open spec fn reaches_root(up: Seq<Option<int>>, i: int, fuel: nat) -> bool
    decreases fuel,
{
    fuel > 0 && match up[i] {
        None => true,
        Some(u) => reaches_root(up, u, (fuel - 1) as nat),
    }
}

/// The uplinks that the graph keeps: a node whose uplinks lead into a cycle loses its uplink.
pub open spec fn kept_links(up: Seq<Option<int>>) -> Seq<Option<int>> {
    Seq::new(up.len(), |i: int| if reaches_root(up, i, up.len()) { up[i] } else { None })
}

pub open spec fn opt_int(o: Option<usize>) -> Option<int> {
    match o {
        Some(u) => Some(u as int),
        None => None,
    }
}

pub open spec fn as_links(v: Seq<Option<usize>>) -> Seq<Option<int>> {
    Seq::new(v.len(), |i: int| opt_int(v[i]))
}

// ---- Timeouts ----

/// The attempt counter after one more failure; it stops at its largest value.
pub open spec fn bumped(a: u32) -> u32 {
    if a < u32::MAX { (a + 1) as u32 } else { a }
}

/// What the update timeout does to one node's state, and the policy it fixes for the node,
/// if any.
pub open spec fn timeout_step(
    n: Node,
    s: NodeState,
    timeout: u64,
    threshold: u64,
    latest: Seq<char>,
    now: int,
) -> (NodeState, Option<UpdatePolicy>) {
    match s.update_received {
        Some(t) => if now - t > timeout {
            if n.is_online {
                if n.firmware.release@ != latest {
                    let a = bumped(s.update_attempts);
                    (
                        NodeState { update_received: None, update_attempts: a },
                        Some(if a >= threshold { UpdatePolicy::Broken } else { UpdatePolicy::Ready }),
                    )
                } else {
                    (s, None)
                }
            } else {
                (s, Some(UpdatePolicy::Finished))
            }
        } else {
            (s, None)
        },
        None => (s, if s.update_attempts >= threshold { Some(UpdatePolicy::Broken) } else { None }),
    }
}

/// The node states after the timeouts of the first `k` nodes were applied in order.
pub open spec fn states_after(
    nodes: Seq<Node>,
    st: Map<u64, NodeState>,
    timeout: u64,
    threshold: u64,
    latest: Seq<char>,
    now: int,
    k: int,
) -> Map<u64, NodeState>
    decreases k,
{
    if k <= 0 {
        st
    } else {
        let prev = states_after(nodes, st, timeout, threshold, latest, now, k - 1);
        let key = key_of(nodes[k - 1].node_id@) as u64;
        if prev.contains_key(key) {
            prev.insert(key, timeout_step(nodes[k - 1], prev[key], timeout, threshold, latest, now).0)
        } else {
            prev
        }
    }
}

/// The policy that the timeouts fix for node `i`, if any.
pub open spec fn preliminary(
    nodes: Seq<Node>,
    st: Map<u64, NodeState>,
    timeout: u64,
    threshold: u64,
    latest: Seq<char>,
    now: int,
    i: int,
) -> Option<UpdatePolicy> {
    let prev = states_after(nodes, st, timeout, threshold, latest, now, i);
    let key = key_of(nodes[i].node_id@) as u64;
    if prev.contains_key(key) {
        timeout_step(nodes[i], prev[key], timeout, threshold, latest, now).1
    } else {
        None
    }
}

// ---- Classification ----

/// A downlink holds its uplink back: it is neither done nor given up on, still runs an old
/// release, and is expected to update (its autoupdater is on, or the site does not
/// ignore routers whose autoupdater is off).
pub open spec fn blocks(d: Node, pd: Option<UpdatePolicy>, cfg: SiteConfig) -> bool {
    &&& pd != Some(UpdatePolicy::Finished)
    &&& pd != Some(UpdatePolicy::Broken)
    &&& d.firmware.release@ != cfg.latest_version@
    &&& (d.autoupdater.enabled || !cfg.ignore_autoupdate_off)
}

pub open spec fn policy_of(n: Node, pn: Option<UpdatePolicy>, blocked: bool, cfg: SiteConfig) -> UpdatePolicy {
    match pn {
        Some(p) => p,
        None => if n.firmware.release@ == cfg.latest_version@ {
            UpdatePolicy::Finished
        } else if blocked {
            UpdatePolicy::Pending
        } else {
            UpdatePolicy::Ready
        },
    }
}

// ---- Building ----

fn fresh_nodes_of(info: &MeshInfo, cfg: &SiteConfig, now: i64) -> (r: Vec<Node>)
    ensures
        same_nodes(r@, fresh_nodes(info.nodes@, *cfg, now as int)),
{
    let mut r: Vec<Node> = Vec::new();
    let mut i: usize = 0;
    let max_age: i128 = (cfg.node_max_age_days as i128) * 86400;
    while i < info.nodes.len()
        invariant
            i <= info.nodes@.len(),
            max_age == max_age_seconds(*cfg),
            same_nodes(r@, fresh_nodes(info.nodes@.subrange(0, i as int), *cfg, now as int)),
        decreases info.nodes@.len() - i,
    {
        let n = &info.nodes[i];
        assert(info.nodes@.subrange(0, i + 1).drop_last() =~= info.nodes@.subrange(0, i as int));
        if !((now as i128) - (n.last_seen as i128) > max_age) {
            r.push(n.duplicate());
        }
        i += 1;
    }
    assert(info.nodes@.subrange(0, i as int) =~= info.nodes@);
    r
}

/// Maps each identifier's key to the last node that has it.
fn id_index(nodes: &Vec<Node>) -> (m: HashMap<u64, usize>)
    ensures
        forall|k: u64| #[trigger] m@.contains_key(k) <==> exists|j: int| 0 <= j < nodes@.len() && key_of(nodes@[j].node_id@) == k,
        forall|k: u64| #[trigger] m@.contains_key(k) ==> {
            &&& m@[k] < nodes@.len()
            &&& key_of(nodes@[m@[k] as int].node_id@) == k
            &&& forall|j: int| m@[k] < j < nodes@.len() ==> key_of((#[trigger] nodes@[j]).node_id@) != k
        },
{
    let mut m: HashMap<u64, usize> = HashMap::new();
    let mut i: usize = 0;
    while i < nodes.len()
        invariant
            i <= nodes@.len(),
            forall|k: u64| #[trigger] m@.contains_key(k) <==> exists|j: int| 0 <= j < i && key_of(nodes@[j].node_id@) == k,
            forall|k: u64| #[trigger] m@.contains_key(k) ==> {
                &&& m@[k] < i
                &&& key_of(nodes@[m@[k] as int].node_id@) == k
                &&& forall|j: int| m@[k] < j < i ==> key_of((#[trigger] nodes@[j]).node_id@) != k
            },
        decreases nodes@.len() - i,
    {
        let k = nodes[i].node_id.key();
        m.insert(k, i);
        i += 1;
    }
    m
}

pub open spec fn has_address(n: Node, a: u128) -> bool {
    n.addresses@.contains(a)
}

/// Maps each address to the last node that lists it.
fn address_index(nodes: &Vec<Node>) -> (m: HashMap<u128, usize>)
    ensures
        forall|a: u128| #[trigger] m@.contains_key(a) <==> exists|j: int| 0 <= j < nodes@.len() && has_address(nodes@[j], a),
        forall|a: u128| #[trigger] m@.contains_key(a) ==> {
            &&& m@[a] < nodes@.len()
            &&& has_address(nodes@[m@[a] as int], a)
            &&& forall|j: int| m@[a] < j < nodes@.len() ==> !has_address(#[trigger] nodes@[j], a)
        },
{
    let mut m: HashMap<u128, usize> = HashMap::new();
    let mut i: usize = 0;
    while i < nodes.len()
        invariant
            i <= nodes@.len(),
            forall|a: u128| #[trigger] m@.contains_key(a) <==> exists|j: int| 0 <= j < i && has_address(nodes@[j], a),
            forall|a: u128| #[trigger] m@.contains_key(a) ==> {
                &&& m@[a] < i
                &&& has_address(nodes@[m@[a] as int], a)
                &&& forall|j: int| m@[a] < j < i ==> !has_address(#[trigger] nodes@[j], a)
            },
        decreases nodes@.len() - i,
    {
        let addrs = &nodes[i].addresses;
        let mut j: usize = 0;
        while j < addrs.len()
            invariant
                i < nodes@.len(),
                addrs@ == nodes@[i as int].addresses@,
                j <= addrs@.len(),
                forall|a: u128| #[trigger] m@.contains_key(a) <==> (exists|k: int| 0 <= k < i && has_address(nodes@[k], a))
                    || addrs@.subrange(0, j as int).contains(a),
                forall|a: u128| #[trigger] m@.contains_key(a) ==> if addrs@.subrange(0, j as int).contains(a) {
                    m@[a] == i
                } else {
                    &&& m@[a] < i
                    &&& has_address(nodes@[m@[a] as int], a)
                    &&& forall|k: int| m@[a] < k < i ==> !has_address(#[trigger] nodes@[k], a)
                },
            decreases addrs@.len() - j,
        {
            let a = addrs[j];
            m.insert(a, i);
            proof {
                let before = addrs@.subrange(0, j as int);
                let after = addrs@.subrange(0, j + 1);
                assert forall|x: u128| after.contains(x) <==> (before.contains(x) || x == a) by {
                    if before.contains(x) {
                        let w = choose|w: int| 0 <= w < before.len() && before[w] == x;
                        assert(after[w] == x);
                    }
                    if x == a {
                        assert(after[j as int] == x);
                    }
                    if after.contains(x) {
                        let w = choose|w: int| 0 <= w < after.len() && after[w] == x;
                        if w < j {
                            assert(before[w] == x);
                        }
                    }
                }
            }
            j += 1;
        }
        assert(addrs@.subrange(0, j as int) =~= addrs@);
        i += 1;
    }
    m
}

proof fn lemma_last_with_id(nodes: Seq<Node>, t: Seq<u8>, j: int)
    requires
        is_last_with_id(nodes, t, j),
    ensures
        last_with_id(nodes, t) == Some(j),
{
    let c = choose|x: int| is_last_with_id(nodes, t, x);
    assert(is_last_with_id(nodes, t, c));
    if c < j {
        assert(nodes[j].node_id@ == t);
    } else if j < c {
        assert(nodes[c].node_id@ == t);
    }
}

fn target_of(n: &Node, history: &HashMap<u64, LinkInfo>) -> (r: Option<NodeID>)
    ensures
        match r {
            Some(id) => uplink_target(*n, history@) == Some(id@),
            None => uplink_target(*n, history@) is None,
        },
{
    match &n.gateway_nexthop {
        Some(h) => {
            if MacAddr::parse(h.as_str()).is_some() {
                match &n.gateway {
                    Some(g) => NodeID::parse(g.as_str()),
                    None => None,
                }
            } else {
                NodeID::parse(h.as_str())
            }
        },
        None => match history.get(&n.node_id.key()) {
            Some(l) => Some(l.uplink),
            None => None,
        },
    }
}

/// Resolves each node's uplink identifier among the nodes of the sample.
fn resolve_links(nodes: &Vec<Node>, ids: &HashMap<u64, usize>, history: &HashMap<u64, LinkInfo>) -> (r: Vec<Option<usize>>)
    requires
        forall|k: u64| #[trigger] ids@.contains_key(k) <==> exists|j: int| 0 <= j < nodes@.len() && key_of(nodes@[j].node_id@) == k,
        forall|k: u64| #[trigger] ids@.contains_key(k) ==> {
            &&& ids@[k] < nodes@.len()
            &&& key_of(nodes@[ids@[k] as int].node_id@) == k
            &&& forall|j: int| ids@[k] < j < nodes@.len() ==> key_of((#[trigger] nodes@[j]).node_id@) != k
        },
    ensures
        r@.len() == nodes@.len(),
        as_links(r@) == candidate_links(nodes@, history@),
        forall|i: int| 0 <= i < r@.len() ==> (#[trigger] r@[i] matches Some(u) ==> u < nodes@.len()),
{
    let mut r: Vec<Option<usize>> = Vec::new();
    let mut i: usize = 0;
    while i < nodes.len()
        invariant
            i <= nodes@.len(),
            r@.len() == i,
            forall|k: u64| #[trigger] ids@.contains_key(k) <==> exists|j: int| 0 <= j < nodes@.len() && key_of(nodes@[j].node_id@) == k,
            forall|k: u64| #[trigger] ids@.contains_key(k) ==> {
                &&& ids@[k] < nodes@.len()
                &&& key_of(nodes@[ids@[k] as int].node_id@) == k
                &&& forall|j: int| ids@[k] < j < nodes@.len() ==> key_of((#[trigger] nodes@[j]).node_id@) != k
            },
            forall|j: int| 0 <= j < i ==> opt_int(#[trigger] r@[j]) == candidate_links(nodes@, history@)[j],
            forall|j: int| 0 <= j < i ==> (#[trigger] r@[j] matches Some(u) ==> u < nodes@.len()),
        decreases nodes@.len() - i,
    {
        let found = match target_of(&nodes[i], history) {
            Some(t) => {
                let k = t.key();
                match ids.get(&k) {
                    Some(j) => {
                        proof {
                            assert(ids@.contains_key(k) && ids@[k] == *j);
                            lemma_key_injective(nodes@[*j as int].node_id@, t@);
                            assert forall|x: int| *j < x < nodes@.len() implies (#[trigger] nodes@[x]).node_id@ != t@ by {
                                assert(key_of(nodes@[x].node_id@) != k);
                            }
                            lemma_last_with_id(nodes@, t@, *j as int);
                        }
                        Some(*j)
                    },
                    None => {
                        proof {
                            assert(!ids@.contains_key(k));
                            assert forall|x: int| !is_last_with_id(nodes@, t@, x) by {
                                if 0 <= x < nodes@.len() && nodes@[x].node_id@ == t@ {
                                    assert(key_of(nodes@[x].node_id@) == k);
                                }
                            }
                        }
                        None
                    },
                }
            },
            None => None,
        };
        r.push(found);
        i += 1;
    }
    assert(as_links(r@) =~= candidate_links(nodes@, history@));
    r
}

fn apply_timeout(n: &Node, s: NodeState, timeout: u64, threshold: u64, latest: &String, now: i64) -> (r: (NodeState, Option<UpdatePolicy>))
    ensures
        r == timeout_step(*n, s, timeout, threshold, latest@, now as int),
{
    match s.update_received {
        Some(t) => {
            if (now as i128) - (t as i128) > timeout as i128 {
                if n.is_online {
                    if !(n.firmware.release == *latest) {
                        let a = if s.update_attempts < u32::MAX { s.update_attempts + 1 } else { s.update_attempts };
                        let p = if a as u64 >= threshold { UpdatePolicy::Broken } else { UpdatePolicy::Ready };
                        (NodeState { update_received: None, update_attempts: a }, Some(p))
                    } else {
                        (s, None)
                    }
                } else {
                    (s, Some(UpdatePolicy::Finished))
                }
            } else {
                (s, None)
            }
        },
        None => (s, if s.update_attempts as u64 >= threshold { Some(UpdatePolicy::Broken) } else { None }),
    }
}

/// Applies the update timeout to every node that has a history, in order: an unconfirmed
/// update past the timeout failed if the node is online on an old release (its counter
/// rises), and succeeded if the node is offline. Returns the policy this fixes for each
/// node, if any.
pub fn process_update_timeouts(
    nodes: &Vec<Node>,
    pstate: &mut PersistentState,
    timeout: u64,
    broken_threshold: u64,
    latest_fw: &String,
    now: i64,
) -> (prelim: Vec<Option<UpdatePolicy>>)
    ensures
        final(pstate).node_state@ == states_after(nodes@, old(pstate).node_state@, timeout, broken_threshold, latest_fw@, now as int, nodes@.len() as int),
        final(pstate).link_history@ == old(pstate).link_history@,
        prelim@.len() == nodes@.len(),
        forall|i: int| 0 <= i < nodes@.len() ==> #[trigger] prelim@[i] == preliminary(nodes@, old(pstate).node_state@, timeout, broken_threshold, latest_fw@, now as int, i),
{
    let ghost st0 = pstate.node_state@;
    let mut prelim: Vec<Option<UpdatePolicy>> = Vec::new();
    let mut i: usize = 0;
    while i < nodes.len()
        invariant
            i <= nodes@.len(),
            st0 == old(pstate).node_state@,
            pstate.node_state@ == states_after(nodes@, st0, timeout, broken_threshold, latest_fw@, now as int, i as int),
            pstate.link_history@ == old(pstate).link_history@,
            prelim@.len() == i,
            forall|j: int| 0 <= j < i ==> #[trigger] prelim@[j] == preliminary(nodes@, st0, timeout, broken_threshold, latest_fw@, now as int, j),
        decreases nodes@.len() - i,
    {
        let k = nodes[i].node_id.key();
        match pstate.node_state.get(&k) {
            Some(s) => {
                let (s2, p) = apply_timeout(&nodes[i], *s, timeout, broken_threshold, latest_fw, now);
                pstate.node_state.insert(k, s2);
                prelim.push(p);
            },
            None => {
                prelim.push(None);
            },
        }
        i += 1;
    }
    prelim
}

// ---- Depths ----

proof fn lemma_reaches_root_more_fuel(up: Seq<Option<int>>, i: int, f: nat, g: nat)
    requires
        reaches_root(up, i, f),
        f <= g,
    ensures
        reaches_root(up, i, g),
    decreases f,
{
    if let Some(u) = up[i] {
        lemma_reaches_root_more_fuel(up, u, (f - 1) as nat, (g - 1) as nat);
    }
}

proof fn lemma_stuck_never_reaches_root(up: Seq<Option<int>>, settled: Seq<bool>, i: int, f: nat)
    requires
        settled.len() == up.len(),
        0 <= i < up.len(),
        !settled[i],
        forall|j: int| 0 <= j < up.len() && !(#[trigger] settled[j]) ==> up[j] is Some && 0 <= up[j]->0 < up.len() && !settled[up[j]->0],
    ensures
        !reaches_root(up, i, f),
    decreases f,
{
    if f > 0 {
        lemma_stuck_never_reaches_root(up, settled, up[i]->0, (f - 1) as nat);
    }
}

/// Gives every node its depth: a node without uplink is at depth 0, any other one level
/// below its uplink. Nodes are settled in repeated scans until a scan settles none; a node
/// still unsettled then leads into a cycle, and loses its uplink.
fn settle_depths(cand: &Vec<Option<usize>>) -> (r: (Vec<Option<usize>>, Vec<usize>))
    requires
        forall|i: int| 0 <= i < cand@.len() ==> (#[trigger] cand@[i] matches Some(u) ==> u < cand@.len()),
    ensures
        r.0@.len() == cand@.len(),
        r.1@.len() == cand@.len(),
        as_links(r.0@) == kept_links(as_links(cand@)),
        forall|i: int| 0 <= i < cand@.len() ==> match #[trigger] r.0@[i] {
            Some(u) => u < cand@.len() && r.1@[i] == r.1@[u as int] + 1,
            None => r.1@[i] == 0,
        },
{
    let n = cand.len();
    let ghost up = as_links(cand@);
    let mut settled: Vec<bool> = Vec::new();
    let mut depth: Vec<usize> = Vec::new();
    let mut i: usize = 0;
    while i < n
        invariant
            n == cand@.len(),
            i <= n,
            settled@ == Seq::new(i as nat, |j: int| false),
            depth@ == Seq::new(i as nat, |j: int| 0usize),
        decreases n - i,
    {
        settled.push(false);
        depth.push(0);
        i += 1;
    }
    let ghost mut done: Set<int> = Set::empty();
    let mut count: usize = 0;
    let mut changed = true;
    while changed
        invariant
            n == cand@.len(),
            up == as_links(cand@),
            forall|i: int| 0 <= i < n ==> (#[trigger] cand@[i] matches Some(u) ==> u < n),
            settled@.len() == n,
            depth@.len() == n,
            done.finite(),
            done.len() == count,
            count <= n,
            done.subset_of(set_int_range(0, n as int)),
            forall|i: int| 0 <= i < n ==> (#[trigger] settled@[i] <==> done.contains(i)),
            forall|i: int| 0 <= i < n && #[trigger] settled@[i] ==> {
                &&& depth@[i] < count
                &&& reaches_root(up, i, (depth@[i] + 1) as nat)
                &&& match cand@[i] {
                    None => depth@[i] == 0,
                    Some(u) => settled@[u as int] && depth@[i] == depth@[u as int] + 1,
                }
            },
            !changed ==> forall|i: int| 0 <= i < n && !(#[trigger] settled@[i]) ==> cand@[i] is Some && !settled@[cand@[i]->0 as int],
        decreases n - count + if changed { 1int } else { 0int },
    {
        changed = false;
        let ghost count0 = count;
        let mut i: usize = 0;
        while i < n
            invariant
                n == cand@.len(),
                up == as_links(cand@),
                forall|i: int| 0 <= i < n ==> (#[trigger] cand@[i] matches Some(u) ==> u < n),
                i <= n,
                settled@.len() == n,
                depth@.len() == n,
                done.finite(),
                done.len() == count,
                count <= n,
                done.subset_of(set_int_range(0, n as int)),
                forall|i: int| 0 <= i < n ==> (#[trigger] settled@[i] <==> done.contains(i)),
                forall|i: int| 0 <= i < n && #[trigger] settled@[i] ==> {
                    &&& depth@[i] < count
                    &&& reaches_root(up, i, (depth@[i] + 1) as nat)
                    &&& match cand@[i] {
                        None => depth@[i] == 0,
                        Some(u) => settled@[u as int] && depth@[i] == depth@[u as int] + 1,
                    }
                },
                changed ==> count > count0,
                !changed ==> count == count0,
                !changed ==> forall|j: int| 0 <= j < i && !(#[trigger] settled@[j]) ==> cand@[j] is Some && !settled@[cand@[j]->0 as int],
            decreases n - i,
        {
            if !settled[i] {
                let d: Option<usize> = match cand[i] {
                    None => Some(0),
                    Some(u) => if settled[u] { Some(depth[u] + 1) } else { None },
                };
                if let Some(d) = d {
                    proof {
                        lemma_int_range(0, n as int);
                        lemma_len_subset(done.insert(i as int), set_int_range(0, n as int));
                        if let Some(u) = cand@[i as int] {
                            assert(reaches_root(up, u as int, (depth@[u as int] + 1) as nat));
                            assert(up[i as int] == Some(u as int));
                        }
                    }
                    depth.set(i, d);
                    settled.set(i, true);
                    proof {
                        done = done.insert(i as int);
                    }
                    count += 1;
                    changed = true;
                }
            }
            i += 1;
        }
    }
    let mut links: Vec<Option<usize>> = Vec::new();
    let mut depths: Vec<usize> = Vec::new();
    let mut k: usize = 0;
    proof {
        lemma_int_range(0, n as int);
        lemma_len_subset(done, set_int_range(0, n as int));
    }
    while k < n
        invariant
            n == cand@.len(),
            up == as_links(cand@),
            forall|i: int| 0 <= i < n ==> (#[trigger] cand@[i] matches Some(u) ==> u < n),
            settled@.len() == n,
            depth@.len() == n,
            count <= n,
            forall|i: int| 0 <= i < n && #[trigger] settled@[i] ==> {
                &&& depth@[i] < count
                &&& reaches_root(up, i, (depth@[i] + 1) as nat)
                &&& match cand@[i] {
                    None => depth@[i] == 0,
                    Some(u) => settled@[u as int] && depth@[i] == depth@[u as int] + 1,
                }
            },
            forall|i: int| 0 <= i < n && !(#[trigger] settled@[i]) ==> cand@[i] is Some && !settled@[cand@[i]->0 as int],
            k <= n,
            links@.len() == k,
            depths@.len() == k,
            forall|j: int| 0 <= j < k ==> #[trigger] links@[j] == if settled@[j] { cand@[j] } else { None },
            forall|j: int| 0 <= j < k ==> #[trigger] depths@[j] == if settled@[j] { depth@[j] } else { 0 },
        decreases n - k,
    {
        if settled[k] {
            links.push(cand[k]);
            depths.push(depth[k]);
        } else {
            links.push(None);
            depths.push(0);
        }
        k += 1;
    }
    proof {
        assert forall|i: int| 0 <= i < n implies #[trigger] as_links(links@)[i] == kept_links(up)[i] by {
            if settled@[i] {
                lemma_reaches_root_more_fuel(up, i, (depth@[i] + 1) as nat, n as nat);
            } else {
                assert forall|j: int| 0 <= j < up.len() && !(#[trigger] settled@[j]) implies up[j] is Some && 0 <= up[j]->0 < up.len() && !settled@[up[j]->0] by {
                    assert(cand@[j] is Some);
                }
                lemma_stuck_never_reaches_root(up, settled@, i, n as nat);
            }
        }
        assert(as_links(links@) =~= kept_links(up));
    }
    (links, depths)
}

// ---- Classification and assembly ----

/// Some downlink of node `i` holds it back.
pub open spec fn is_blocked(
    nodes: Seq<Node>,
    links: Seq<Option<int>>,
    prelim: Seq<Option<UpdatePolicy>>,
    cfg: SiteConfig,
    i: int,
) -> bool {
    exists|d: int| 0 <= d < nodes.len() && #[trigger] links[d] == Some(i) && blocks(nodes[d], prelim[d], cfg)
}

/// The policies that the timeouts fix, node by node.
pub open spec fn prelims(nodes: Seq<Node>, st: Map<u64, NodeState>, cfg: SiteConfig, now: int) -> Seq<Option<UpdatePolicy>> {
    Seq::new(
        nodes.len(),
        |i: int| preliminary(nodes, st, cfg.update_timeout, cfg.broken_threshold, cfg.latest_version@, now, i),
    )
}

fn blocks_exec(d: &Node, pd: Option<UpdatePolicy>, cfg: &SiteConfig) -> (r: bool)
    ensures
        r == blocks(*d, pd, *cfg),
{
    let done = match pd {
        Some(UpdatePolicy::Finished) => true,
        Some(UpdatePolicy::Broken) => true,
        _ => false,
    };
    !done && !(d.firmware.release == cfg.latest_version) && (d.autoupdater.enabled || !cfg.ignore_autoupdate_off)
}

fn blocked_nodes(nodes: &Vec<Node>, links: &Vec<Option<usize>>, prelim: &Vec<Option<UpdatePolicy>>, cfg: &SiteConfig) -> (b: Vec<bool>)
    requires
        links@.len() == nodes@.len(),
        prelim@.len() == nodes@.len(),
        forall|i: int| 0 <= i < nodes@.len() ==> (#[trigger] links@[i] matches Some(u) ==> u < nodes@.len()),
    ensures
        b@.len() == nodes@.len(),
        forall|i: int| 0 <= i < nodes@.len() ==> #[trigger] b@[i] == is_blocked(nodes@, as_links(links@), prelim@, *cfg, i),
{
    let n = nodes.len();
    let ghost up = as_links(links@);
    let mut b: Vec<bool> = Vec::new();
    let mut i: usize = 0;
    while i < n
        invariant
            n == nodes@.len(),
            i <= n,
            b@ == Seq::new(i as nat, |j: int| false),
        decreases n - i,
    {
        b.push(false);
        i += 1;
    }
    let mut d: usize = 0;
    while d < n
        invariant
            n == nodes@.len(),
            links@.len() == n,
            prelim@.len() == n,
            up == as_links(links@),
            forall|i: int| 0 <= i < n ==> (#[trigger] links@[i] matches Some(u) ==> u < n),
            d <= n,
            b@.len() == n,
            forall|i: int| 0 <= i < n ==> #[trigger] b@[i] == exists|x: int| 0 <= x < d && #[trigger] up[x] == Some(i) && blocks(nodes@[x], prelim@[x], *cfg),
        decreases n - d,
    {
        if let Some(u) = links[d] {
            if blocks_exec(&nodes[d], prelim[d], cfg) {
                b.set(u, true);
            }
        }
        proof {
            assert forall|i: int| 0 <= i < n implies #[trigger] b@[i] == exists|x: int| 0 <= x < d + 1 && #[trigger] up[x] == Some(i) && blocks(nodes@[x], prelim@[x], *cfg) by {
                if up[d as int] == Some(i) && blocks(nodes@[d as int], prelim@[d as int], *cfg) {
                    assert(0 <= d < d + 1 && up[d as int] == Some(i));
                }
            }
        }
        d += 1;
    }
    b
}

fn classify_nodes(nodes: &Vec<Node>, prelim: &Vec<Option<UpdatePolicy>>, blocked: &Vec<bool>, cfg: &SiteConfig) -> (p: Vec<UpdatePolicy>)
    requires
        prelim@.len() == nodes@.len(),
        blocked@.len() == nodes@.len(),
    ensures
        p@.len() == nodes@.len(),
        forall|i: int| 0 <= i < nodes@.len() ==> #[trigger] p@[i] == policy_of(nodes@[i], prelim@[i], blocked@[i], *cfg),
{
    let mut p: Vec<UpdatePolicy> = Vec::new();
    let mut i: usize = 0;
    while i < nodes.len()
        invariant
            prelim@.len() == nodes@.len(),
            blocked@.len() == nodes@.len(),
            i <= nodes@.len(),
            p@.len() == i,
            forall|j: int| 0 <= j < i ==> #[trigger] p@[j] == policy_of(nodes@[j], prelim@[j], blocked@[j], *cfg),
        decreases nodes@.len() - i,
    {
        let pol = match prelim[i] {
            Some(q) => q,
            None => if nodes[i].firmware.release == cfg.latest_version {
                UpdatePolicy::Finished
            } else if blocked[i] {
                UpdatePolicy::Pending
            } else {
                UpdatePolicy::Ready
            },
        };
        p.push(pol);
        i += 1;
    }
    p
}

/// The nodes whose uplink is `i`, in increasing order.
fn downlinks_of(links: &Vec<Option<usize>>, i: usize) -> (r: Vec<usize>)
    ensures
        forall|k: int| 0 <= k < r@.len() ==> #[trigger] r@[k] < links@.len() && links@[r@[k] as int] == Some(i),
        forall|d: int| 0 <= d < links@.len() && #[trigger] links@[d] == Some(i) ==> r@.contains(d as usize),
        forall|a: int, b: int| 0 <= a < b < r@.len() ==> r@[a] < r@[b],
{
    let mut r: Vec<usize> = Vec::new();
    let mut d: usize = 0;
    while d < links.len()
        invariant
            d <= links@.len(),
            forall|k: int| 0 <= k < r@.len() ==> #[trigger] r@[k] < d && links@[r@[k] as int] == Some(i),
            forall|x: int| 0 <= x < d && #[trigger] links@[x] == Some(i) ==> r@.contains(x as usize),
            forall|a: int, b: int| 0 <= a < b < r@.len() ==> r@[a] < r@[b],
        decreases links@.len() - d,
    {
        let ghost r0 = r@;
        if links[d] == Some(i) {
            r.push(d);
        }
        proof {
            assert forall|x: int| 0 <= x < d + 1 && #[trigger] links@[x] == Some(i) implies r@.contains(x as usize) by {
                if x < d {
                    assert(r0.contains(x as usize));
                    let w = choose|w: int| 0 <= w < r0.len() && r0[w] == x as usize;
                    assert(r@[w] == x as usize);
                } else {
                    assert(r@[r@.len() - 1] == x as usize);
                }
            }
        }
        d += 1;
    }
    r
}

fn deepest_of(depths: &Vec<usize>) -> (r: (usize, Option<usize>))
    ensures
        forall|i: int| 0 <= i < depths@.len() ==> #[trigger] depths@[i] <= r.0,
        match r.1 {
            Some(i) => i < depths@.len() && depths@[i as int] == r.0 && r.0 > 0
                && forall|j: int| 0 <= j < i ==> #[trigger] depths@[j] < r.0,
            None => r.0 == 0,
        },
{
    let mut max: usize = 0;
    let mut deepest: Option<usize> = None;
    let mut i: usize = 0;
    while i < depths.len()
        invariant
            i <= depths@.len(),
            forall|k: int| 0 <= k < i ==> #[trigger] depths@[k] <= max,
            match deepest {
                Some(x) => x < i && depths@[x as int] == max && max > 0
                    && forall|j: int| 0 <= j < x ==> #[trigger] depths@[j] < max,
                None => max == 0,
            },
        decreases depths@.len() - i,
    {
        if depths[i] > max {
            max = depths[i];
            deepest = Some(i);
        }
        i += 1;
    }
    (max, deepest)
}

/// Moves the nodes into the graph's containers, with their links.
fn assemble(nodes: Vec<Node>, links: &Vec<Option<usize>>) -> (c: Vec<NodeContainer>)
    requires
        links@.len() == nodes@.len(),
    ensures
        c@.len() == nodes@.len(),
        forall|i: int| 0 <= i < c@.len() ==> (#[trigger] c@[i]).node == nodes@[i] && c@[i].uplink == links@[i],
        forall|i: int, k: int| 0 <= i < c@.len() && 0 <= k < c@[i].downlinks@.len() ==>
            #[trigger] c@[i].downlinks@[k] < links@.len() && links@[c@[i].downlinks@[k] as int] == Some(i as usize),
        forall|i: int, d: int| 0 <= i < c@.len() && 0 <= d < links@.len() && #[trigger] links@[d] == Some(i as usize) ==>
            (#[trigger] c@[i].downlinks@).contains(d as usize),
        forall|i: int, a: int, b: int| 0 <= i < c@.len() && 0 <= a < b < c@[i].downlinks@.len() ==>
            #[trigger] c@[i].downlinks@[a] < #[trigger] c@[i].downlinks@[b],
{
    let ghost orig = nodes@;
    let n = nodes.len();
    let mut nodes = nodes;
    let mut rev: Vec<Node> = Vec::new();
    while nodes.len() > 0
        invariant
            n == orig.len(),
            nodes@.len() + rev@.len() == n,
            nodes@ == orig.subrange(0, nodes@.len() as int),
            forall|j: int| 0 <= j < rev@.len() ==> #[trigger] rev@[j] == orig[n - 1 - j],
        decreases nodes@.len(),
    {
        let x = nodes.pop().unwrap();
        rev.push(x);
    }
    let mut c: Vec<NodeContainer> = Vec::new();
    while rev.len() > 0
        invariant
            n == orig.len(),
            links@.len() == n,
            c@.len() + rev@.len() == n,
            forall|j: int| 0 <= j < rev@.len() ==> #[trigger] rev@[j] == orig[n - 1 - j],
            forall|i: int| 0 <= i < c@.len() ==> (#[trigger] c@[i]).node == orig[i] && c@[i].uplink == links@[i],
            forall|i: int, k: int| 0 <= i < c@.len() && 0 <= k < c@[i].downlinks@.len() ==>
                #[trigger] c@[i].downlinks@[k] < links@.len() && links@[c@[i].downlinks@[k] as int] == Some(i as usize),
            forall|i: int, d: int| 0 <= i < c@.len() && 0 <= d < links@.len() && #[trigger] links@[d] == Some(i as usize) ==>
                (#[trigger] c@[i].downlinks@).contains(d as usize),
            forall|i: int, a: int, b: int| 0 <= i < c@.len() && 0 <= a < b < c@[i].downlinks@.len() ==>
                #[trigger] c@[i].downlinks@[a] < #[trigger] c@[i].downlinks@[b],
        decreases rev@.len(),
    {
        let i = c.len();
        let node = rev.pop().unwrap();
        let downlinks = downlinks_of(links, i);
        c.push(NodeContainer { node, uplink: links[i], downlinks });
    }
    c
}

// ---- The graph ----

impl Graph {
    pub open spec fn node_seq(&self) -> Seq<Node> {
        Seq::new(self.nodes@.len(), |i: int| self.nodes@[i].node)
    }

    pub open spec fn links(&self) -> Seq<Option<int>> {
        Seq::new(self.nodes@.len(), |i: int| opt_int(self.nodes@[i].uplink))
    }

    /// The structure every built graph has: every index names a node, a node's depth is one
    /// more than its uplink's (0 without uplink), downlinks are exactly the nodes that name
    /// the node as uplink (in increasing order), and the deepest node is recorded.
    pub open spec fn wf(&self) -> bool {
        let n = self.nodes@.len();
        &&& self.depths@.len() == n
        &&& self.update_policy@.len() == n
        &&& forall|i: int| 0 <= i < n ==> match (#[trigger] self.nodes@[i]).uplink {
            Some(u) => u < n && self.depths@[i] == self.depths@[u as int] + 1,
            None => self.depths@[i] == 0,
        }
        &&& forall|i: int, k: int| 0 <= i < n && 0 <= k < self.nodes@[i].downlinks@.len() ==> {
            let d = #[trigger] self.nodes@[i].downlinks@[k];
            d < n && self.nodes@[d as int].uplink == Some(i as usize)
        }
        &&& forall|i: int, d: int| 0 <= i < n && 0 <= d < n && #[trigger] self.nodes@[d].uplink == Some(i as usize) ==>
            (#[trigger] self.nodes@[i].downlinks@).contains(d as usize)
        &&& forall|i: int, a: int, b: int| 0 <= i < n && 0 <= a < b < self.nodes@[i].downlinks@.len() ==>
            #[trigger] self.nodes@[i].downlinks@[a] < #[trigger] self.nodes@[i].downlinks@[b]
        &&& forall|a: u128| #[trigger] self.ip_addrs@.contains_key(a) ==> self.ip_addrs@[a] < n
        &&& forall|i: int| 0 <= i < n ==> #[trigger] self.depths@[i] <= self.max_depth
        &&& match self.deepest_node {
            Some(i) => i < n && self.depths@[i as int] == self.max_depth && self.max_depth > 0
                && forall|j: int| 0 <= j < i ==> #[trigger] self.depths@[j] < self.max_depth,
            None => self.max_depth == 0,
        }
    }
}

/// `g` is the graph built from the sample `sample` under `cfg` at time `now`, from the node
/// states `st` and the uplink history `history`, and `st2` are the node states it left.
pub open spec fn built_from(
    g: Graph,
    sample: Seq<Node>,
    cfg: SiteConfig,
    st: Map<u64, NodeState>,
    history: Map<u64, LinkInfo>,
    st2: Map<u64, NodeState>,
    now: int,
) -> bool {
    let nodes = g.node_seq();
    let links = g.links();
    let pre = prelims(nodes, st, cfg, now);
    &&& g.wf()
    &&& same_nodes(nodes, fresh_nodes(sample, cfg, now))
    &&& links == kept_links(candidate_links(nodes, history))
    &&& st2 == states_after(nodes, st, cfg.update_timeout, cfg.broken_threshold, cfg.latest_version@, now, nodes.len() as int)
    &&& forall|i: int| 0 <= i < nodes.len() ==> #[trigger] g.update_policy@[i] == policy_of(
        nodes[i],
        pre[i],
        is_blocked(nodes, links, pre, cfg, i),
        cfg,
    )
    &&& forall|a: u128| #[trigger] g.ip_addrs@.contains_key(a) <==> exists|j: int| 0 <= j < nodes.len() && has_address(nodes[j], a)
    &&& forall|a: u128| #[trigger] g.ip_addrs@.contains_key(a) ==> {
        &&& has_address(nodes[g.ip_addrs@[a] as int], a)
        &&& forall|j: int| g.ip_addrs@[a] < j < nodes.len() ==> !has_address(#[trigger] nodes[j], a)
    }
}

impl Graph {
    /// Builds the graph of a sample at time `now` (seconds since the Unix epoch). The update
    /// timeouts are applied to `persistent`; nothing else of it changes.
    pub fn build_at(info: &MeshInfo, config: &SiteConfig, persistent: &mut PersistentState, now: i64) -> (g: Graph)
        ensures
            built_from(g, info.nodes@, *config, old(persistent).node_state@, old(persistent).link_history@, final(persistent).node_state@, now as int),
            final(persistent).link_history@ == old(persistent).link_history@,
    {
        let nodes = fresh_nodes_of(info, config, now);
        let ids = id_index(&nodes);
        let ip_addrs = address_index(&nodes);
        let candidates = resolve_links(&nodes, &ids, &persistent.link_history);
        let ghost st0 = persistent.node_state@;
        let prelim = process_update_timeouts(
            &nodes,
            persistent,
            config.update_timeout,
            config.broken_threshold,
            &config.latest_version,
            now,
        );
        let (links, depths) = settle_depths(&candidates);
        let (max_depth, deepest_node) = deepest_of(&depths);
        let blocked = blocked_nodes(&nodes, &links, &prelim, config);
        let update_policy = classify_nodes(&nodes, &prelim, &blocked, config);
        let ghost kept = nodes@;
        let containers = assemble(nodes, &links);
        let g = Graph { nodes: containers, ip_addrs, depths, max_depth, deepest_node, update_policy };
        proof {
            assert(g.node_seq() =~= kept);
            assert(g.links() =~= as_links(links@));
            assert(prelim@ =~= prelims(kept, st0, *config, now as int));
        }
        g
    }

    /// Builds the graph of a sample now.
    pub fn build(info: &MeshInfo, config: &SiteConfig, persistent: &mut PersistentState) -> (g: Graph)
        ensures
            exists|t: int| #[trigger] built_from(g, info.nodes@, *config, old(persistent).node_state@, old(persistent).link_history@, final(persistent).node_state@, t),
            final(persistent).link_history@ == old(persistent).link_history@,
    {
        let now = crate::clock::now();
        Graph::build_at(info, config, persistent, now)
    }
}

// ---- Laws of built graphs ----

/// No two nodes share an identifier.
pub open spec fn distinct_ids(nodes: Seq<Node>) -> bool {
    forall|a: int, b: int| 0 <= a < b < nodes.len() ==> (#[trigger] nodes[a]).node_id@ != (#[trigger] nodes[b]).node_id@
}

proof fn lemma_states_untouched(
    nodes: Seq<Node>,
    st: Map<u64, NodeState>,
    timeout: u64,
    threshold: u64,
    latest: Seq<char>,
    now: int,
    k: int,
    key: u64,
)
    requires
        0 <= k <= nodes.len(),
        forall|j: int| 0 <= j < k ==> key_of((#[trigger] nodes[j]).node_id@) != key,
    ensures
        states_after(nodes, st, timeout, threshold, latest, now, k).contains_key(key) == st.contains_key(key),
        st.contains_key(key) ==> states_after(nodes, st, timeout, threshold, latest, now, k)[key] == st[key],
    decreases k,
{
    if k > 0 {
        assert(key_of(nodes[k - 1].node_id@) != key);
        lemma_states_untouched(nodes, st, timeout, threshold, latest, now, k - 1, key);
    }
}

proof fn lemma_states_settled(
    nodes: Seq<Node>,
    st: Map<u64, NodeState>,
    timeout: u64,
    threshold: u64,
    latest: Seq<char>,
    now: int,
    i: int,
    k: int,
)
    requires
        0 <= i < k <= nodes.len(),
        forall|j: int| i < j < k ==> key_of((#[trigger] nodes[j]).node_id@) != key_of(nodes[i].node_id@),
    ensures
        ({
            let key = key_of(nodes[i].node_id@) as u64;
            let a = states_after(nodes, st, timeout, threshold, latest, now, k);
            let b = states_after(nodes, st, timeout, threshold, latest, now, i + 1);
            &&& a.contains_key(key) == b.contains_key(key)
            &&& b.contains_key(key) ==> a[key] == b[key]
        }),
    decreases k,
{
    if k > i + 1 {
        assert(key_of(nodes[k - 1].node_id@) != key_of(nodes[i].node_id@));
        lemma_states_settled(nodes, st, timeout, threshold, latest, now, i, k - 1);
        let key = key_of(nodes[i].node_id@);
        assert(0 <= key < 0x1_0000_0000_0000);
        assert(0 <= key_of(nodes[k - 1].node_id@) < 0x1_0000_0000_0000);
    }
}

proof fn lemma_distinct_keys(nodes: Seq<Node>, a: int, b: int)
    requires
        distinct_ids(nodes),
        0 <= a < nodes.len(),
        0 <= b < nodes.len(),
        a != b,
    ensures
        key_of(nodes[a].node_id@) != key_of(nodes[b].node_id@),
{
    if key_of(nodes[a].node_id@) == key_of(nodes[b].node_id@) {
        lemma_key_injective(nodes[a].node_id@, nodes[b].node_id@);
        if a < b {
            assert(nodes[a].node_id@ != nodes[b].node_id@);
        } else {
            assert(nodes[b].node_id@ != nodes[a].node_id@);
        }
    }
}

/// With distinct identifiers, the state that the timeouts see for node `i` is its stored
/// state, and the state they leave for it is the one its own step gives.
proof fn lemma_own_step(
    nodes: Seq<Node>,
    st: Map<u64, NodeState>,
    timeout: u64,
    threshold: u64,
    latest: Seq<char>,
    now: int,
    i: int,
)
    requires
        distinct_ids(nodes),
        0 <= i < nodes.len(),
    ensures
        ({
            let key = key_of(nodes[i].node_id@) as u64;
            let prev = states_after(nodes, st, timeout, threshold, latest, now, i);
            let last = states_after(nodes, st, timeout, threshold, latest, now, nodes.len() as int);
            &&& prev.contains_key(key) == st.contains_key(key)
            &&& st.contains_key(key) ==> prev[key] == st[key]
            &&& last.contains_key(key) == st.contains_key(key)
            &&& st.contains_key(key) ==> last[key] == timeout_step(nodes[i], st[key], timeout, threshold, latest, now).0
        }),
{
    let key = key_of(nodes[i].node_id@);
    assert forall|j: int| 0 <= j < nodes.len() && j != i implies key_of((#[trigger] nodes[j]).node_id@) != key by {
        lemma_distinct_keys(nodes, j, i);
    }
    assert(0 <= key < 0x1_0000_0000_0000);
    lemma_states_untouched(nodes, st, timeout, threshold, latest, now, i, key as u64);
    lemma_states_settled(nodes, st, timeout, threshold, latest, now, i, nodes.len() as int);
}

/// Every node of a built graph has exactly one policy.
pub proof fn lemma_one_policy_per_node(
    g: Graph,
    sample: Seq<Node>,
    cfg: SiteConfig,
    st: Map<u64, NodeState>,
    history: Map<u64, LinkInfo>,
    st2: Map<u64, NodeState>,
    now: int,
    i: int,
)
    requires
        built_from(g, sample, cfg, st, history, st2, now),
        0 <= i < g.nodes@.len(),
    ensures
        g.update_policy@.len() == g.nodes@.len(),
        g.update_policy@[i] is Pending || g.update_policy@[i] is Ready || g.update_policy@[i] is Finished
            || g.update_policy@[i] is Broken,
{
}

/// A node on the latest release is Finished, unless the timeouts fixed its policy.
pub proof fn lemma_latest_is_finished(
    g: Graph,
    sample: Seq<Node>,
    cfg: SiteConfig,
    st: Map<u64, NodeState>,
    history: Map<u64, LinkInfo>,
    st2: Map<u64, NodeState>,
    now: int,
    i: int,
)
    requires
        built_from(g, sample, cfg, st, history, st2, now),
        0 <= i < g.nodes@.len(),
        g.nodes@[i].node.firmware.release@ == cfg.latest_version@,
        prelims(g.node_seq(), st, cfg, now)[i] is None,
    ensures
        g.update_policy@[i] == UpdatePolicy::Finished,
{
    assert(g.node_seq()[i] == g.nodes@[i].node);
}

/// A node that its downlinks made Ready (the timeouts fixed no policy for it) has every
/// downlink on the latest release, done or given up on, or with its autoupdater off on a
/// site that ignores such routers.
pub proof fn lemma_ready_downlinks_clear(
    g: Graph,
    sample: Seq<Node>,
    cfg: SiteConfig,
    st: Map<u64, NodeState>,
    history: Map<u64, LinkInfo>,
    st2: Map<u64, NodeState>,
    now: int,
    i: int,
)
    requires
        built_from(g, sample, cfg, st, history, st2, now),
        0 <= i < g.nodes@.len(),
        g.update_policy@[i] == UpdatePolicy::Ready,
        prelims(g.node_seq(), st, cfg, now)[i] is None,
    ensures
        forall|k: int| 0 <= k < g.nodes@[i].downlinks@.len() ==> {
            let d = #[trigger] g.nodes@[i].downlinks@[k] as int;
            let dn = g.nodes@[d].node;
            ||| dn.firmware.release@ == cfg.latest_version@
            ||| g.update_policy@[d] == UpdatePolicy::Finished
            ||| g.update_policy@[d] == UpdatePolicy::Broken
            ||| (!dn.autoupdater.enabled && cfg.ignore_autoupdate_off)
        },
{
    let nodes = g.node_seq();
    let links = g.links();
    let pre = prelims(nodes, st, cfg, now);
    assert forall|k: int| 0 <= k < g.nodes@[i].downlinks@.len() implies {
        let d = #[trigger] g.nodes@[i].downlinks@[k] as int;
        let dn = g.nodes@[d].node;
        ||| dn.firmware.release@ == cfg.latest_version@
        ||| g.update_policy@[d] == UpdatePolicy::Finished
        ||| g.update_policy@[d] == UpdatePolicy::Broken
        ||| (!dn.autoupdater.enabled && cfg.ignore_autoupdate_off)
    } by {
        let d = g.nodes@[i].downlinks@[k] as int;
        assert(g.nodes.len() == g.nodes@.len());
        assert(g.nodes@[d].uplink == Some(i as usize));
        assert(links[d] == opt_int(g.nodes@[d].uplink));
        assert(links[d] == Some(i));
        assert(nodes[d] == g.nodes@[d].node);
        assert(!is_blocked(nodes, links, pre, cfg, i));
        assert(!blocks(nodes[d], pre[d], cfg));
        assert(g.update_policy@[d] == policy_of(nodes[d], pre[d], is_blocked(nodes, links, pre, cfg, d), cfg));
    }
}

/// A node that has failed the update at least `broken_threshold` times is Broken. This
/// holds where node identifiers are distinct and no stored unconfirmed delivery already
/// has that many failures.
pub proof fn lemma_failed_too_often_is_broken(
    g: Graph,
    sample: Seq<Node>,
    cfg: SiteConfig,
    st: Map<u64, NodeState>,
    history: Map<u64, LinkInfo>,
    st2: Map<u64, NodeState>,
    now: int,
    i: int,
)
    requires
        built_from(g, sample, cfg, st, history, st2, now),
        distinct_ids(g.node_seq()),
        forall|k: u64| #[trigger] st.contains_key(k) && st[k].update_received is Some ==> st[k].update_attempts < cfg.broken_threshold,
        0 <= i < g.nodes@.len(),
        st2.contains_key(key_of(g.nodes@[i].node.node_id@) as u64),
        st2[key_of(g.nodes@[i].node.node_id@) as u64].update_attempts >= cfg.broken_threshold,
    ensures
        g.update_policy@[i] == UpdatePolicy::Broken,
{
    let nodes = g.node_seq();
    assert(nodes[i] == g.nodes@[i].node);
    lemma_own_step(nodes, st, cfg.update_timeout, cfg.broken_threshold, cfg.latest_version@, now, i);
}

/// A node's depth is 0 exactly when it has no uplink.
pub proof fn lemma_depth_zero_iff_root(
    g: Graph,
    sample: Seq<Node>,
    cfg: SiteConfig,
    st: Map<u64, NodeState>,
    history: Map<u64, LinkInfo>,
    st2: Map<u64, NodeState>,
    now: int,
    i: int,
)
    requires
        built_from(g, sample, cfg, st, history, st2, now),
        0 <= i < g.nodes@.len(),
    ensures
        g.depths@[i] == 0 <==> g.nodes@[i].uplink is None,
{
    assert(g.nodes@[i].uplink == g.nodes@[i].uplink);
}

proof fn lemma_depth_bounds_path(g: Graph, i: int, fuel: nat)
    requires
        g.wf(),
        0 <= i < g.nodes@.len(),
        g.depths@[i] < fuel,
    ensures
        reaches_root(g.links(), i, fuel),
    decreases fuel,
{
    assert(g.links()[i] == opt_int(g.nodes@[i].uplink));
    if let Some(u) = g.nodes@[i].uplink {
        lemma_depth_bounds_path(g, u as int, (fuel - 1) as nat);
    }
}

/// The uplinks form a forest: following them from any node reaches a node without uplink
/// after at most `max_depth` steps.
pub proof fn lemma_uplinks_reach_root(
    g: Graph,
    sample: Seq<Node>,
    cfg: SiteConfig,
    st: Map<u64, NodeState>,
    history: Map<u64, LinkInfo>,
    st2: Map<u64, NodeState>,
    now: int,
    i: int,
)
    requires
        built_from(g, sample, cfg, st, history, st2, now),
        0 <= i < g.nodes@.len(),
    ensures
        reaches_root(g.links(), i, (g.max_depth + 1) as nat),
{
    lemma_depth_bounds_path(g, i, (g.max_depth + 1) as nat);
}

/// A node that stayed offline past the timeout after it was handed the update is taken to
/// have updated: it is Finished, not Broken. This holds where node identifiers are distinct.
pub proof fn lemma_offline_past_timeout_is_finished(
    g: Graph,
    sample: Seq<Node>,
    cfg: SiteConfig,
    st: Map<u64, NodeState>,
    history: Map<u64, LinkInfo>,
    st2: Map<u64, NodeState>,
    now: int,
    i: int,
)
    requires
        built_from(g, sample, cfg, st, history, st2, now),
        distinct_ids(g.node_seq()),
        0 <= i < g.nodes@.len(),
        !g.nodes@[i].node.is_online,
        st.contains_key(key_of(g.nodes@[i].node.node_id@) as u64),
        st[key_of(g.nodes@[i].node.node_id@) as u64].update_received matches Some(t) && now - t > cfg.update_timeout,
    ensures
        g.update_policy@[i] == UpdatePolicy::Finished,
{
    let nodes = g.node_seq();
    assert(nodes[i] == g.nodes@[i].node);
    lemma_own_step(nodes, st, cfg.update_timeout, cfg.broken_threshold, cfg.latest_version@, now, i);
}

/// A node whose next hop is spelled as a MAC address gets the uplink its gateway resolves
/// to, or none.
pub proof fn lemma_mac_next_hop_uses_gateway(
    g: Graph,
    sample: Seq<Node>,
    cfg: SiteConfig,
    st: Map<u64, NodeState>,
    history: Map<u64, LinkInfo>,
    st2: Map<u64, NodeState>,
    now: int,
    i: int,
)
    requires
        built_from(g, sample, cfg, st, history, st2, now),
        0 <= i < g.nodes@.len(),
        g.nodes@[i].node.gateway_nexthop matches Some(h) && is_mac_text(h@),
    ensures
        g.links()[i] is None || match g.nodes@[i].node.gateway {
            Some(gw) => match parse_node_id(gw@) {
                Some(t) => g.links()[i] == last_with_id(g.node_seq(), t),
                None => false,
            },
            None => false,
        },
{
    assert(g.node_seq()[i] == g.nodes@[i].node);
}

// ---- Uplink history ----

/// The uplink history after the first `k` nodes of a graph were looked at in order: a node
/// seen with an uplink for the first time has it remembered, with the time `now`.
pub open spec fn remembered(
    nodes: Seq<Node>,
    links: Seq<Option<int>>,
    h: Map<u64, LinkInfo>,
    now: i64,
    k: int,
) -> Map<u64, LinkInfo>
    decreases k,
{
    if k <= 0 {
        h
    } else {
        let prev = remembered(nodes, links, h, now, k - 1);
        let key = key_of(nodes[k - 1].node_id@) as u64;
        match links[k - 1] {
            Some(u) => if prev.contains_key(key) {
                prev
            } else {
                prev.insert(key, LinkInfo { uplink: nodes[u].node_id, since: now })
            },
            None => prev,
        }
    }
}

impl Graph {
    /// Remembers, for every node seen with an uplink for the first time, that uplink.
    pub fn record_links_at(&self, persistent: &mut PersistentState, now: i64)
        requires
            self.wf(),
        ensures
            final(persistent).link_history@ == remembered(self.node_seq(), self.links(), old(persistent).link_history@, now, self.nodes@.len() as int),
            final(persistent).node_state@ == old(persistent).node_state@,
    {
        let ghost h0 = persistent.link_history@;
        let mut i: usize = 0;
        while i < self.nodes.len()
            invariant
                self.wf(),
                i <= self.nodes@.len(),
                h0 == old(persistent).link_history@,
                persistent.link_history@ == remembered(self.node_seq(), self.links(), h0, now, i as int),
                persistent.node_state@ == old(persistent).node_state@,
            decreases self.nodes@.len() - i,
        {
            let key = self.nodes[i].node.node_id.key();
            assert(self.links()[i as int] == opt_int(self.nodes@[i as int].uplink));
            if let Some(u) = self.nodes[i].uplink {
                assert(self.node_seq()[u as int] == self.nodes@[u as int].node);
                if !persistent.link_history.contains_key(&key) {
                    persistent.link_history.insert(key, LinkInfo { uplink: self.nodes[u].node.node_id, since: now });
                }
            }
            i += 1;
        }
    }
}

/// Builds the graph of a fetched sample at time `now`, and then remembers the uplinks seen
/// for the first time.
pub fn generate_graph_at(info: &MeshInfo, config: &SiteConfig, persistent: &mut PersistentState, now: i64) -> (g: Graph)
    ensures
        built_from(g, info.nodes@, *config, old(persistent).node_state@, old(persistent).link_history@, final(persistent).node_state@, now as int),
        final(persistent).link_history@ == remembered(g.node_seq(), g.links(), old(persistent).link_history@, now, g.nodes@.len() as int),
{
    let g = Graph::build_at(info, config, persistent, now);
    g.record_links_at(persistent, now);
    g
}

/// `generate_graph_at` at the current time.
pub fn generate_graph(info: &MeshInfo, config: &SiteConfig, persistent: &mut PersistentState) -> (g: Graph)
    ensures
        exists|t: i64| {
            &&& #[trigger] built_from(g, info.nodes@, *config, old(persistent).node_state@, old(persistent).link_history@, final(persistent).node_state@, t as int)
            &&& final(persistent).link_history@ == remembered(g.node_seq(), g.links(), old(persistent).link_history@, t, g.nodes@.len() as int)
        },
{
    let now = crate::clock::now();
    generate_graph_at(info, config, persistent, now)
}

} // verus!
