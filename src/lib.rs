//! Topology-aware firmware rollout for a mesh of routers.
//!
//! Each refresh turns a sample of the mesh into a [`graph::Graph`]: a forest of uplinks in
//! which every router is Pending, Ready, Finished or Broken, so that an update spreads from
//! the leaves towards the gateways. [`decision`] answers a router's poll from that graph
//! and notes deliveries in the [`persistence::PersistentState`] that outlives restarts.
pub mod text;
pub mod node_id;
pub mod mac;
pub mod meshinfo;
mod clock;
pub mod config;
pub mod persistence;
pub mod graph;
pub mod decision;
pub mod dump;
