use gluon_update_manager::config::{select_site, SiteConfig};
use gluon_update_manager::decision::update_check_at;
use gluon_update_manager::dump::{generate, status_counts};
use gluon_update_manager::graph::{generate_graph_at, Graph, UpdatePolicy};
use gluon_update_manager::meshinfo::{self, Autoupdater, FirmwareInfo, MeshInfo, Node};
use gluon_update_manager::node_id::NodeID;
use gluon_update_manager::persistence::{LinkInfo, NodeState, PersistentState};

const NOW: i64 = 1_700_000_000;

fn id(n: u8) -> NodeID {
    NodeID::from_bytes([0x02, 0, 0, 0, 0, n])
}

fn id_text(n: u8) -> meshinfo::NodeID {
    meshinfo::NodeID::new(id(n).to_string())
}

fn ip(n: u8) -> u128 {
    0x2001_0db8_0000_0000_0000_0000_0000_0000u128 + n as u128
}

fn node(n: u8, release: &str, online: bool, autoupdate: bool, uplink: Option<u8>) -> Node {
    Node {
        node_id: id(n),
        hostname: format!("node{}", n),
        is_online: online,
        last_seen: NOW,
        gateway: None,
        gateway_nexthop: uplink.map(id_text),
        addresses: vec![ip(n)],
        firmware: FirmwareInfo { base: "gluon".to_string(), release: release.to_string() },
        autoupdater: Autoupdater { enabled: autoupdate, branch: Some("stable".to_string()) },
    }
}

fn config() -> SiteConfig {
    SiteConfig {
        enabled: true,
        latest_version: "v2".to_string(),
        name: "site".to_string(),
        branch: "stable".to_string(),
        meshinfo: "http://meshinfo/nodes.json".to_string(),
        on_update: "https://fw/update".to_string(),
        on_noupdate: "https://fw/noupdate".to_string(),
        update_default: false,
        dry_run: false,
        ignore_autoupdate_off: false,
        refresh_interval: 60,
        update_timeout: 300,
        broken_threshold: 3,
        node_max_age_days: 30,
        state_file: "state.json".to_string(),
    }
}

fn sample(nodes: Vec<Node>) -> MeshInfo {
    MeshInfo { timestamp: NOW, nodes }
}

fn index_of(g: &Graph, n: u8) -> usize {
    g.nodes.iter().position(|c| c.node.node_id == id(n)).unwrap()
}

fn policy(g: &Graph, n: u8) -> UpdatePolicy {
    g.update_policy[index_of(g, n)]
}

fn state(st: &PersistentState, n: u8) -> NodeState {
    *st.node_state.get(&id(n).key()).unwrap()
}

#[test]
fn leaf_is_ready_and_root_pending() {
    let cfg = config();
    let mut st = PersistentState::new();
    let info = sample(vec![node(1, "v1", true, true, None), node(2, "v1", true, true, Some(1))]);
    let g = Graph::build_at(&info, &cfg, &mut st, NOW);
    assert_eq!(policy(&g, 1), UpdatePolicy::Pending);
    assert_eq!(policy(&g, 2), UpdatePolicy::Ready);
    let d = update_check_at(&cfg, &g, &mut st, ip(2), "gluon-sysupgrade.bin", NOW);
    assert!(d.should_update);
    assert!(d.recorded);
    assert_eq!(d.location, "https://fw/update/gluon-sysupgrade.bin");
    assert_eq!(state(&st, 2).update_received, Some(NOW));
}

#[test]
fn updated_leaf_unblocks_root() {
    let cfg = config();
    let mut st = PersistentState::new();
    let info = sample(vec![node(1, "v1", true, true, None), node(2, "v1", true, true, Some(1))]);
    let g = Graph::build_at(&info, &cfg, &mut st, NOW);
    update_check_at(&cfg, &g, &mut st, ip(2), "fw.bin", NOW);
    let info = sample(vec![node(1, "v1", true, true, None), node(2, "v2", true, true, Some(1))]);
    let g = Graph::build_at(&info, &cfg, &mut st, NOW + 60);
    assert_eq!(policy(&g, 2), UpdatePolicy::Finished);
    assert_eq!(policy(&g, 1), UpdatePolicy::Ready);
}

#[test]
fn repeated_timeouts_make_node_broken() {
    let cfg = config();
    let mut st = PersistentState::new();
    let info = sample(vec![node(1, "v1", true, true, None)]);
    let mut t = NOW;
    let g = Graph::build_at(&info, &cfg, &mut st, t);
    assert_eq!(policy(&g, 1), UpdatePolicy::Ready);
    let mut g = g;
    for round in 1..=3u32 {
        let d = update_check_at(&cfg, &g, &mut st, ip(1), "fw.bin", t);
        assert!(d.should_update);
        t += 301;
        g = Graph::build_at(&info, &cfg, &mut st, t);
        assert_eq!(state(&st, 1).update_attempts, round);
        assert_eq!(state(&st, 1).update_received, None);
        let expected = if round < 3 { UpdatePolicy::Ready } else { UpdatePolicy::Broken };
        assert_eq!(policy(&g, 1), expected);
    }
    // A restart rebuilds from the same state: the node stays broken.
    let g = Graph::build_at(&info, &cfg, &mut st, t + 3600);
    assert_eq!(policy(&g, 1), UpdatePolicy::Broken);
    assert_eq!(state(&st, 1).update_attempts, 3);
    // A broken node is still served the update, and nothing is recorded.
    let d = update_check_at(&cfg, &g, &mut st, ip(1), "fw.bin", t + 3600);
    assert!(d.should_update);
    assert!(!d.recorded);
    assert_eq!(state(&st, 1).update_received, None);
}

#[test]
fn offline_past_timeout_is_finished() {
    let cfg = config();
    let mut st = PersistentState::new();
    let g = Graph::build_at(&sample(vec![node(3, "v1", true, true, None)]), &cfg, &mut st, NOW);
    assert_eq!(policy(&g, 3), UpdatePolicy::Ready);
    update_check_at(&cfg, &g, &mut st, ip(3), "fw.bin", NOW);
    let g = Graph::build_at(&sample(vec![node(3, "v1", false, true, None)]), &cfg, &mut st, NOW + 301);
    assert_eq!(policy(&g, 3), UpdatePolicy::Finished);
    assert_eq!(state(&st, 3).update_attempts, 0);
}

#[test]
fn within_timeout_nothing_changes() {
    let cfg = config();
    let mut st = PersistentState::new();
    let info = sample(vec![node(3, "v1", true, true, None)]);
    let g = Graph::build_at(&info, &cfg, &mut st, NOW);
    update_check_at(&cfg, &g, &mut st, ip(3), "fw.bin", NOW);
    let g = Graph::build_at(&info, &cfg, &mut st, NOW + 300);
    assert_eq!(policy(&g, 3), UpdatePolicy::Ready);
    assert_eq!(state(&st, 3), NodeState { update_received: Some(NOW), update_attempts: 0 });
}

#[test]
fn autoupdater_off_downlink_ignored_when_configured() {
    let mut cfg = config();
    cfg.ignore_autoupdate_off = true;
    let info = sample(vec![node(5, "v1", true, true, None), node(4, "v1", true, false, Some(5))]);
    let mut st = PersistentState::new();
    let g = Graph::build_at(&info, &cfg, &mut st, NOW);
    assert_eq!(policy(&g, 4), UpdatePolicy::Ready);
    assert_eq!(policy(&g, 5), UpdatePolicy::Ready);
    cfg.ignore_autoupdate_off = false;
    let g = Graph::build_at(&info, &cfg, &mut st, NOW);
    assert_eq!(policy(&g, 4), UpdatePolicy::Ready);
    assert_eq!(policy(&g, 5), UpdatePolicy::Pending);
}

#[test]
fn unknown_client_gets_site_default() {
    let mut cfg = config();
    let mut st = PersistentState::new();
    let g = Graph::build_at(&sample(vec![node(1, "v1", true, true, None)]), &cfg, &mut st, NOW);
    cfg.update_default = true;
    let d = update_check_at(&cfg, &g, &mut st, ip(99), "fw.bin", NOW);
    assert!(d.should_update);
    assert_eq!(d.location, "https://fw/update/fw.bin");
    cfg.update_default = false;
    let d = update_check_at(&cfg, &g, &mut st, ip(99), "fw.bin", NOW);
    assert!(!d.should_update);
    assert_eq!(d.location, "https://fw/noupdate/fw.bin");
    assert!(st.node_state.is_empty());
}

#[test]
fn disabled_site_never_updates() {
    let mut cfg = config();
    let mut st = PersistentState::new();
    let g = Graph::build_at(&sample(vec![node(1, "v1", true, true, None)]), &cfg, &mut st, NOW);
    assert_eq!(policy(&g, 1), UpdatePolicy::Ready);
    cfg.enabled = false;
    cfg.update_default = true;
    for client in [ip(1), ip(99)] {
        let d = update_check_at(&cfg, &g, &mut st, client, "fw.bin", NOW);
        assert!(!d.should_update);
        assert!(!d.recorded);
        assert_eq!(d.location, "https://fw/noupdate/fw.bin");
    }
    assert!(st.node_state.is_empty());
}

#[test]
fn dry_run_records_but_redirects_to_noupdate() {
    let mut cfg = config();
    cfg.dry_run = true;
    let mut st = PersistentState::new();
    let g = Graph::build_at(&sample(vec![node(1, "v1", true, true, None)]), &cfg, &mut st, NOW);
    let d = update_check_at(&cfg, &g, &mut st, ip(1), "fw.bin", NOW);
    assert!(d.should_update);
    assert!(d.recorded);
    assert_eq!(d.location, "https://fw/noupdate/fw.bin");
}

#[test]
fn pending_and_finished_decisions() {
    let cfg = config();
    let mut st = PersistentState::new();
    let info = sample(vec![node(1, "v1", true, true, None), node(2, "v1", true, true, Some(1)), node(6, "v2", true, true, None)]);
    let g = Graph::build_at(&info, &cfg, &mut st, NOW);
    let d = update_check_at(&cfg, &g, &mut st, ip(1), "fw.bin", NOW);
    assert!(!d.should_update);
    assert!(!d.recorded);
    assert_eq!(d.location, "https://fw/noupdate/fw.bin");
    let d = update_check_at(&cfg, &g, &mut st, ip(6), "fw.bin", NOW);
    assert!(d.should_update);
    assert!(!d.recorded);
    assert!(st.node_state.is_empty());
}

#[test]
fn second_hit_keeps_first_delivery() {
    let cfg = config();
    let mut st = PersistentState::new();
    let g = Graph::build_at(&sample(vec![node(1, "v1", true, true, None)]), &cfg, &mut st, NOW);
    update_check_at(&cfg, &g, &mut st, ip(1), "fw.bin", NOW);
    update_check_at(&cfg, &g, &mut st, ip(1), "fw.bin", NOW + 100);
    assert_eq!(state(&st, 1), NodeState { update_received: Some(NOW), update_attempts: 0 });
}

#[test]
fn update_node_keeps_attempts() {
    let mut st = PersistentState::new();
    st.node_state.insert(id(1).key(), NodeState { update_received: None, update_attempts: 2 });
    st.update_node_at(&id(1), NOW);
    assert_eq!(state(&st, 1), NodeState { update_received: Some(NOW), update_attempts: 2 });
    st.update_node_at(&id(1), NOW + 5);
    assert_eq!(state(&st, 1), NodeState { update_received: Some(NOW), update_attempts: 2 });
    st.update_node(&id(7));
    assert!(state(&st, 7).update_received.is_some());
    assert_eq!(state(&st, 7).update_attempts, 0);
}

#[test]
fn mac_shaped_next_hop_uses_gateway() {
    let cfg = config();
    let mut st = PersistentState::new();
    let mut b = node(2, "v1", true, true, None);
    b.gateway_nexthop = Some(meshinfo::NodeID::new("de:ad:be:ef:00:01".to_string()));
    b.gateway = Some(id_text(1));
    let info = sample(vec![node(1, "v1", true, true, None), b]);
    let g = Graph::build_at(&info, &cfg, &mut st, NOW);
    assert_eq!(g.nodes[index_of(&g, 2)].node.node_id, id(2));
    assert_eq!(g.nodes[index_of(&g, 2)].uplink, Some(index_of(&g, 1)));
    assert_eq!(policy(&g, 1), UpdatePolicy::Pending);
}

#[test]
fn mac_shaped_next_hop_without_gateway_is_root() {
    let cfg = config();
    let mut st = PersistentState::new();
    st.link_history.insert(id(2).key(), LinkInfo { uplink: id(1), since: NOW - 1000 });
    let mut b = node(2, "v1", true, true, None);
    b.gateway_nexthop = Some(meshinfo::NodeID::new("de:ad:be:ef:00:01".to_string()));
    let info = sample(vec![node(1, "v1", true, true, None), b]);
    let g = Graph::build_at(&info, &cfg, &mut st, NOW);
    assert_eq!(g.nodes[index_of(&g, 2)].uplink, None);
    assert_eq!(g.depths[index_of(&g, 2)], 0);
    assert_eq!(policy(&g, 1), UpdatePolicy::Ready);
}

#[test]
fn remembered_uplink_used_without_next_hop() {
    let cfg = config();
    let mut st = PersistentState::new();
    let info = sample(vec![node(1, "v1", true, true, None), node(2, "v1", true, true, Some(1))]);
    let g = generate_graph_at(&info, &cfg, &mut st, NOW);
    assert_eq!(g.nodes[index_of(&g, 2)].uplink, Some(index_of(&g, 1)));
    assert_eq!(st.link_history.get(&id(2).key()), Some(&LinkInfo { uplink: id(1), since: NOW }));
    assert_eq!(st.link_history.get(&id(1).key()), None);
    // The next sample omits the next hop: the remembered uplink still holds the root back.
    let info = sample(vec![node(1, "v1", true, true, None), node(2, "v1", true, true, None)]);
    let g = generate_graph_at(&info, &cfg, &mut st, NOW + 60);
    assert_eq!(g.nodes[index_of(&g, 2)].uplink, Some(index_of(&g, 1)));
    assert_eq!(policy(&g, 1), UpdatePolicy::Pending);
    assert_eq!(st.link_history.get(&id(2).key()), Some(&LinkInfo { uplink: id(1), since: NOW }));
}

#[test]
fn depths_follow_the_chain() {
    let cfg = config();
    let mut st = PersistentState::new();
    let info = sample(vec![node(3, "v1", true, true, Some(2)), node(2, "v1", true, true, Some(1)), node(1, "v1", true, true, None)]);
    let g = Graph::build_at(&info, &cfg, &mut st, NOW);
    assert_eq!(g.depths[index_of(&g, 1)], 0);
    assert_eq!(g.depths[index_of(&g, 2)], 1);
    assert_eq!(g.depths[index_of(&g, 3)], 2);
    assert_eq!(g.max_depth, 2);
    assert_eq!(g.deepest_node, Some(index_of(&g, 3)));
    assert_eq!(g.nodes[index_of(&g, 1)].downlinks, vec![index_of(&g, 2)]);
    assert_eq!(g.nodes[index_of(&g, 3)].downlinks, Vec::<usize>::new());
    assert_eq!(policy(&g, 3), UpdatePolicy::Ready);
    assert_eq!(policy(&g, 2), UpdatePolicy::Pending);
    assert_eq!(policy(&g, 1), UpdatePolicy::Pending);
}

#[test]
fn cycle_loses_its_uplinks() {
    let cfg = config();
    let mut st = PersistentState::new();
    let info = sample(vec![node(1, "v1", true, true, Some(2)), node(2, "v1", true, true, Some(1)), node(3, "v1", true, true, Some(1))]);
    let g = Graph::build_at(&info, &cfg, &mut st, NOW);
    for n in [1, 2, 3] {
        assert_eq!(g.nodes[index_of(&g, n)].uplink, None);
        assert_eq!(g.depths[index_of(&g, n)], 0);
        assert_eq!(policy(&g, n), UpdatePolicy::Ready);
    }
    assert_eq!(g.max_depth, 0);
    assert_eq!(g.deepest_node, None);
}

#[test]
fn stale_nodes_are_dropped() {
    let cfg = config();
    let mut st = PersistentState::new();
    let mut old = node(2, "v1", true, true, Some(1));
    old.last_seen = NOW - 30 * 86400 - 1;
    let mut edge = node(3, "v1", true, true, Some(1));
    edge.last_seen = NOW - 30 * 86400;
    let g = Graph::build_at(&sample(vec![node(1, "v1", true, true, None), old, edge]), &cfg, &mut st, NOW);
    assert_eq!(g.nodes.len(), 2);
    assert!(g.nodes.iter().all(|c| c.node.node_id != id(2)));
    assert!(!g.ip_addrs.contains_key(&ip(2)));
    assert_eq!(policy(&g, 1), UpdatePolicy::Pending);
}

#[test]
fn later_node_owns_shared_address() {
    let cfg = config();
    let mut st = PersistentState::new();
    let mut b = node(2, "v1", true, true, None);
    b.addresses.push(ip(1));
    let g = Graph::build_at(&sample(vec![node(1, "v1", true, true, None), b]), &cfg, &mut st, NOW);
    assert_eq!(g.ip_addrs.get(&ip(1)), Some(&index_of(&g, 2)));
    assert_eq!(g.ip_addrs.get(&ip(2)), Some(&index_of(&g, 2)));
    assert_eq!(g.ip_addrs.len(), 2);
}

#[test]
fn stored_failures_make_node_broken() {
    let cfg = config();
    let mut st = PersistentState::new();
    st.node_state.insert(id(1).key(), NodeState { update_received: None, update_attempts: 3 });
    st.node_state.insert(id(2).key(), NodeState { update_received: None, update_attempts: 2 });
    let info = sample(vec![node(1, "v1", true, true, None), node(2, "v1", true, true, Some(1))]);
    let g = Graph::build_at(&info, &cfg, &mut st, NOW);
    assert_eq!(policy(&g, 1), UpdatePolicy::Broken);
    assert_eq!(policy(&g, 2), UpdatePolicy::Ready);
}

#[test]
fn broken_downlink_does_not_block() {
    let cfg = config();
    let mut st = PersistentState::new();
    st.node_state.insert(id(2).key(), NodeState { update_received: None, update_attempts: 5 });
    let info = sample(vec![node(1, "v1", true, true, None), node(2, "v1", true, true, Some(1))]);
    let g = Graph::build_at(&info, &cfg, &mut st, NOW);
    assert_eq!(policy(&g, 2), UpdatePolicy::Broken);
    assert_eq!(policy(&g, 1), UpdatePolicy::Ready);
}

#[test]
fn finished_downlink_with_old_release_does_not_block() {
    let cfg = config();
    let mut st = PersistentState::new();
    st.node_state.insert(id(2).key(), NodeState { update_received: Some(NOW - 1000), update_attempts: 0 });
    let info = sample(vec![node(1, "v1", true, true, None), node(2, "v1", false, true, Some(1))]);
    let g = Graph::build_at(&info, &cfg, &mut st, NOW);
    assert_eq!(policy(&g, 2), UpdatePolicy::Finished);
    assert_eq!(policy(&g, 1), UpdatePolicy::Ready);
}

#[test]
fn site_selection_prefers_any_branch() {
    let mut a = config();
    a.branch = "stable".to_string();
    let mut b = config();
    b.branch = "any".to_string();
    let mut c = config();
    c.name = "other".to_string();
    let sites = vec![a, b, c];
    assert_eq!(select_site(&sites, &"site".to_string(), &"stable".to_string()), Some(1));
    assert_eq!(select_site(&sites, &"other".to_string(), &"stable".to_string()), Some(2));
    assert_eq!(select_site(&sites, &"other".to_string(), &"beta".to_string()), None);
    assert_eq!(select_site(&sites, &"nowhere".to_string(), &"stable".to_string()), None);
}

#[test]
fn dump_sorts_nodes_into_lists() {
    let cfg = config();
    let mut st = PersistentState::new();
    st.node_state.insert(id(3).key(), NodeState { update_received: None, update_attempts: 1 });
    st.node_state.insert(id(4).key(), NodeState { update_received: None, update_attempts: 9 });
    let info = sample(vec![
        node(1, "v1", true, true, None),
        node(2, "v1", true, true, Some(1)),
        node(3, "v1", true, true, None),
        node(4, "v1", true, true, None),
        node(5, "v2", true, true, None),
    ]);
    let g = Graph::build_at(&info, &cfg, &mut st, NOW);
    let d = generate(&g, &st);
    let ids = |l: &Vec<gluon_update_manager::dump::NodeInfo>| l.iter().map(|i| i.id).collect::<Vec<_>>();
    assert_eq!(ids(&d.updated), vec![id(5)]);
    assert_eq!(ids(&d.pending), vec![id(1)]);
    assert_eq!(ids(&d.failed), vec![id(3)]);
    assert_eq!(ids(&d.scheduled), vec![id(2)]);
    assert_eq!(ids(&d.broken), vec![id(4)]);
    assert_eq!(d.failed[0].update_fail_count, 1);
    assert_eq!(d.failed[0].hostname, "node3");
    assert_eq!(d.scheduled[0].update_fail_count, 0);
    assert_eq!(d.scheduled[0].updated_at, None);
    assert_eq!((d.counts.updated, d.counts.pending, d.counts.failed, d.counts.scheduled, d.counts.broken), (1, 1, 1, 1, 1));
    assert_eq!(status_counts(&g), (1, 2, 1, 5));
}

#[test]
fn empty_sample_gives_empty_graph() {
    let cfg = config();
    let mut st = PersistentState::new();
    let g = Graph::build_at(&sample(vec![]), &cfg, &mut st, NOW);
    assert!(g.nodes.is_empty());
    assert_eq!(g.max_depth, 0);
    assert_eq!(g.deepest_node, None);
    assert_eq!(status_counts(&g), (0, 0, 0, 0));
}

#[test]
fn build_now_uses_the_clock() {
    let cfg = config();
    let mut st = PersistentState::new();
    let mut n = node(1, "v1", true, true, None);
    n.last_seen = 0;
    let g = Graph::build(&sample(vec![n]), &cfg, &mut st);
    assert!(g.nodes.is_empty());
}
