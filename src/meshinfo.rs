//! One sample of the mesh, as fetched from the mesh-info service.
use vstd::prelude::*;

verus! {

/// An identifier as the mesh-info service spells it: either twelve hexadecimal digits or,
/// from some firmware versions, a colon-separated MAC address.
#[derive(Debug, PartialEq, Eq, Hash, Clone)]
pub struct NodeID(pub String);

impl View for NodeID {
    type V = Seq<char>;

    open spec fn view(&self) -> Seq<char> {
        self.0@
    }
}

impl NodeID {
    pub fn new(s: String) -> (r: NodeID)
        ensures
            r@ == s@,
    {
        NodeID(s)
    }

    pub fn as_str(&self) -> (r: &str)
        ensures
            r@ == self@,
    {
        self.0.as_str()
    }

    pub fn to_string(&self) -> (r: String)
        ensures
            r@ == self@,
    {
        self.0.clone()
    }

    pub fn duplicate(&self) -> (r: NodeID)
        ensures
            r@ == self@,
    {
        NodeID(self.0.clone())
    }
}

#[derive(Debug, Clone)]
pub struct FirmwareInfo {
    pub base: String,
    pub release: String,
}

#[derive(Debug, Clone)]
pub struct Autoupdater {
    pub enabled: bool,
    pub branch: Option<String>,
}

#[derive(Debug, Clone, Copy, PartialEq, Eq)]
pub enum LinkType {
    Wireless,
    VPN,
    Other,
}

/// What the policy engine reads of one node in one sample.
///
/// Times are whole seconds since the Unix epoch. An address is an IPv6 address as a
/// number; an IPv4 address is held in its IPv4-mapped form (`::ffff:a.b.c.d`).
#[derive(Debug, Clone)]
pub struct Node {
    pub node_id: crate::node_id::NodeID,
    pub hostname: String,
    pub is_online: bool,
    pub last_seen: i64,
    pub gateway: Option<NodeID>,
    pub gateway_nexthop: Option<NodeID>,
    pub addresses: Vec<u128>,
    pub firmware: FirmwareInfo,
    pub autoupdater: Autoupdater,
}

/// One sample of the mesh.
#[derive(Debug, Clone)]
pub struct MeshInfo {
    pub timestamp: i64,
    pub nodes: Vec<Node>,
}

pub open spec fn same_id_text(a: Option<NodeID>, b: Option<NodeID>) -> bool {
    match (a, b) {
        (Some(x), Some(y)) => x@ == y@,
        (None, None) => true,
        _ => false,
    }
}

pub open spec fn same_text(a: Option<String>, b: Option<String>) -> bool {
    match (a, b) {
        (Some(x), Some(y)) => x@ == y@,
        (None, None) => true,
        _ => false,
    }
}

/// Two node records that hold the same values.
pub open spec fn same_node(a: Node, b: Node) -> bool {
    &&& a.node_id@ == b.node_id@
    &&& a.hostname@ == b.hostname@
    &&& a.is_online == b.is_online
    &&& a.last_seen == b.last_seen
    &&& same_id_text(a.gateway, b.gateway)
    &&& same_id_text(a.gateway_nexthop, b.gateway_nexthop)
    &&& a.addresses@ == b.addresses@
    &&& a.firmware.base@ == b.firmware.base@
    &&& a.firmware.release@ == b.firmware.release@
    &&& a.autoupdater.enabled == b.autoupdater.enabled
    &&& same_text(a.autoupdater.branch, b.autoupdater.branch)
}

fn duplicate_id(v: &Option<NodeID>) -> (r: Option<NodeID>)
    ensures
        same_id_text(r, *v),
{
    match v {
        Some(id) => Some(id.duplicate()),
        None => None,
    }
}

impl Node {
    /// A copy of this record.
    pub fn duplicate(&self) -> (r: Node)
        ensures
            same_node(r, *self),
    {
        let mut addresses: Vec<u128> = Vec::new();
        let mut i: usize = 0;
        while i < self.addresses.len()
            invariant
                i <= self.addresses@.len(),
                addresses@ == self.addresses@.subrange(0, i as int),
            decreases self.addresses@.len() - i,
        {
            addresses.push(self.addresses[i]);
            i += 1;
            assert(addresses@ =~= self.addresses@.subrange(0, i as int));
        }
        assert(addresses@ =~= self.addresses@);
        let branch = match &self.autoupdater.branch {
            Some(b) => Some(b.clone()),
            None => None,
        };
        Node {
            node_id: self.node_id,
            hostname: self.hostname.clone(),
            is_online: self.is_online,
            last_seen: self.last_seen,
            gateway: duplicate_id(&self.gateway),
            gateway_nexthop: duplicate_id(&self.gateway_nexthop),
            addresses,
            firmware: FirmwareInfo {
                base: self.firmware.base.clone(),
                release: self.firmware.release.clone(),
            },
            autoupdater: Autoupdater { enabled: self.autoupdater.enabled, branch },
        }
    }
}

} // verus!
