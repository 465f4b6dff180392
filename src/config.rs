//! Per-site settings, and which site answers a request.
use vstd::prelude::*;

verus! {

/// The settings of one site. Times are in seconds.
#[derive(Debug, Clone)]
pub struct SiteConfig {
    pub enabled: bool,
    pub latest_version: String,
    pub name: String,
    pub branch: String,
    pub meshinfo: String,
    pub on_update: String,
    pub on_noupdate: String,
    pub update_default: bool,
    pub dry_run: bool,
    pub ignore_autoupdate_off: bool,
    pub refresh_interval: u64,
    pub update_timeout: u64,
    pub broken_threshold: u64,
    pub node_max_age_days: u64,
    pub state_file: String,
}

/// The branch name of a site that serves every branch.
pub open spec fn any_branch() -> Seq<char> {
    seq!['a', 'n', 'y']
}

pub open spec fn serves(c: SiteConfig, name: Seq<char>, branch: Seq<char>) -> bool {
    c.name@ == name && c.branch@ == branch
}

pub open spec fn some_site_serves(sites: Seq<SiteConfig>, name: Seq<char>, branch: Seq<char>) -> bool {
    exists|i: int| 0 <= i < sites.len() && serves(#[trigger] sites[i], name, branch)
}

/// `i` is the last site that serves `(name, branch)`: a later entry replaces an earlier one.
pub open spec fn is_last_serving(sites: Seq<SiteConfig>, name: Seq<char>, branch: Seq<char>, i: int) -> bool {
    &&& 0 <= i < sites.len()
    &&& serves(sites[i], name, branch)
    &&& forall|j: int| i < j < sites.len() ==> !serves(#[trigger] sites[j], name, branch)
}

fn last_serving(sites: &Vec<SiteConfig>, name: &String, branch: &String) -> (r: Option<usize>)
    ensures
        r is None <==> !some_site_serves(sites@, name@, branch@),
        r is Some ==> is_last_serving(sites@, name@, branch@, r->0 as int),
{
    let mut i: usize = sites.len();
    while i > 0
        invariant
            i <= sites@.len(),
            forall|j: int| i <= j < sites@.len() ==> !serves(#[trigger] sites@[j], name@, branch@),
        decreases i,
    {
        i -= 1;
        if sites[i].name == *name && sites[i].branch == *branch {
            return Some(i);
        }
    }
    None
}

/// The site that answers for `(name, branch)`: the one named `name` that serves every
/// branch, else the one for that branch.
pub fn select_site(sites: &Vec<SiteConfig>, name: &String, branch: &String) -> (r: Option<usize>)
    ensures
        r is None <==> !some_site_serves(sites@, name@, any_branch()) && !some_site_serves(sites@, name@, branch@),
        r is Some ==> if some_site_serves(sites@, name@, any_branch()) {
            is_last_serving(sites@, name@, any_branch(), r->0 as int)
        } else {
            is_last_serving(sites@, name@, branch@, r->0 as int)
        },
{
    let any = String::from_str("any");
    proof {
        reveal_strlit("any");
        assert(any@ =~= any_branch());
    }
    match last_serving(sites, name, &any) {
        Some(i) => Some(i),
        None => last_serving(sites, name, branch),
    }
}

} // verus!
