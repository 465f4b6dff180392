//! Answers a router's poll: redirect to the update, or to no update.
use vstd::prelude::*;
use crate::config::SiteConfig;
use crate::graph::{Graph, UpdatePolicy};
use crate::node_id::key_of;
use crate::persistence::{PersistentState, recorded};
use crate::text::push_char;

verus! {

broadcast use vstd::std_specs::hash::group_hash_axioms;

/// The answer to one poll.
#[derive(Debug)]
pub struct Decision {
    /// Whether the policy grants the update (before a dry run is taken into account).
    pub should_update: bool,
    /// Where the router is redirected.
    pub location: String,
    /// Whether the delivery was noted in the persistent state, which then wants saving.
    pub recorded: bool,
}

/// Whether the site grants the update to the router polling from `ip`: never on a
/// disabled site; to a known router unless it is Pending; to an unknown one as the site's
/// default says.
pub open spec fn grants_update(cfg: SiteConfig, g: Graph, ip: u128) -> bool {
    if !cfg.enabled {
        false
    } else if g.ip_addrs@.contains_key(ip) {
        g.update_policy@[g.ip_addrs@[ip] as int] != UpdatePolicy::Pending
    } else {
        cfg.update_default
    }
}

/// The poll comes from a known router that is Ready, on an enabled site.
pub open spec fn is_ready_hit(cfg: SiteConfig, g: Graph, ip: u128) -> bool {
    &&& cfg.enabled
    &&& g.ip_addrs@.contains_key(ip)
    &&& g.update_policy@[g.ip_addrs@[ip] as int] == UpdatePolicy::Ready
}

/// `base/file`, with the update URL only where the update is granted and this is no dry run.
pub open spec fn redirect_location(cfg: SiteConfig, update: bool, file: Seq<char>) -> Seq<char> {
    let base = if update && !cfg.dry_run { cfg.on_update@ } else { cfg.on_noupdate@ };
    base.push('/') + file
}

fn location_of(config: &SiteConfig, update: bool, file: &str) -> (r: String)
    ensures
        r@ == redirect_location(*config, update, file@),
{
    let mut r = if update && !config.dry_run { config.on_update.clone() } else { config.on_noupdate.clone() };
    push_char(&mut r, '/');
    r.append(file);
    r
}

/// Decides a poll from `ip` for `file` at time `now`. A Ready router has the delivery noted
/// in `persistent`; nothing else changes.
pub fn update_check_at(
    config: &SiteConfig,
    graph: &Graph,
    persistent: &mut PersistentState,
    ip: u128,
    file: &str,
    now: i64,
) -> (d: Decision)
    requires
        graph.wf(),
    ensures
        d.should_update == grants_update(*config, *graph, ip),
        d.location@ == redirect_location(*config, d.should_update, file@),
        d.recorded == is_ready_hit(*config, *graph, ip),
        is_ready_hit(*config, *graph, ip) ==> final(persistent).node_state@ == recorded(
            old(persistent).node_state@,
            key_of(graph.nodes@[graph.ip_addrs@[ip] as int].node.node_id@) as u64,
            now,
        ),
        !is_ready_hit(*config, *graph, ip) ==> final(persistent).node_state@ == old(persistent).node_state@,
        final(persistent).link_history@ == old(persistent).link_history@,
{
    let mut recorded = false;
    let should_update = if config.enabled {
        match graph.ip_addrs.get(&ip) {
            Some(k) => {
                let k = *k;
                match graph.update_policy[k] {
                    UpdatePolicy::Ready => {
                        persistent.update_node_at(&graph.nodes[k].node.node_id, now);
                        recorded = true;
                        true
                    },
                    UpdatePolicy::Finished => true,
                    UpdatePolicy::Pending => false,
                    UpdatePolicy::Broken => true,
                }
            },
            None => config.update_default,
        }
    } else {
        false
    };
    let location = location_of(config, should_update, file);
    Decision { should_update, location, recorded }
}

/// `update_check_at` at the current time.
pub fn update_check(config: &SiteConfig, graph: &Graph, persistent: &mut PersistentState, ip: u128, file: &str) -> (d: Decision)
    requires
        graph.wf(),
    ensures
        d.should_update == grants_update(*config, *graph, ip),
        d.location@ == redirect_location(*config, d.should_update, file@),
        d.recorded == is_ready_hit(*config, *graph, ip),
        is_ready_hit(*config, *graph, ip) ==> exists|t: i64| final(persistent).node_state@ == #[trigger] recorded(
            old(persistent).node_state@,
            key_of(graph.nodes@[graph.ip_addrs@[ip] as int].node.node_id@) as u64,
            t,
        ),
        !is_ready_hit(*config, *graph, ip) ==> final(persistent).node_state@ == old(persistent).node_state@,
        final(persistent).link_history@ == old(persistent).link_history@,
{
    let now = crate::clock::now();
    update_check_at(config, graph, persistent, ip, file, now)
}

/// A disabled site sends every router to the no-update URL, known or not.
pub proof fn lemma_disabled_site_never_updates(cfg: SiteConfig, g: Graph, ip: u128, file: Seq<char>)
    requires
        !cfg.enabled,
    ensures
        !grants_update(cfg, g, ip),
        redirect_location(cfg, grants_update(cfg, g, ip), file) == cfg.on_noupdate@.push('/') + file,
{
}

} // verus!
