//! Discovery of a federated chat network's server topology over a single
//! connection: a spanning-tree graph with stable node ids, a directed view of
//! reported links, a per-link uptime ledger, a tree-diameter calculator, and a
//! renderer that writes the result as a graph-description document.

pub mod graph;
pub mod index;
pub mod ledger;
pub mod text;
pub mod diam;
pub mod msg;
pub mod render;
pub mod machine;
