//! Trusted view of the protocol graph.
//!
//! The graph is stored in a `petgraph` directed graph whose nodes and edges
//! live in insertion-order arenas. The two names below stand for those
//! arenas: `graph_nodes` is the node weights in index order, `graph_edges`
//! the `(source, target)` node-index pairs in edge-index order. The wrappers
//! read the graph through them; verified code never touches `petgraph`
//! directly.

use crate::ast::{GraphIdent, ProtocolGraph, Spanned};
use vstd::prelude::*;

verus! {

#[verifier::external_type_specification]
#[verifier::external_body]
#[verifier::reject_recursive_types(N)]
#[verifier::reject_recursive_types(E)]
#[verifier::reject_recursive_types(D)]
#[verifier::reject_recursive_types(X)]
pub struct ExGraph<N, E, D, X>(petgraph::graph::Graph<N, E, D, X>);

#[verifier::external_type_specification]
#[verifier::external_body]
pub struct ExDirected(petgraph::Directed);

/// The node weights of the graph, in node-index order.
pub uninterp spec fn graph_nodes(g: ProtocolGraph) -> Seq<Spanned<GraphIdent>>;

/// The `(source, target)` node-index pairs of the edges, in edge-index order.
pub uninterp spec fn graph_edges(g: ProtocolGraph) -> Seq<(usize, usize)>;

/// Relies on petgraph's `Graph::node_count`: the number of nodes.
#[verifier::external_body]
pub fn graph_node_count(g: &ProtocolGraph) -> (n: usize)
    ensures
        n == graph_nodes(*g).len(),
{
    g.node_count()
}

/// Relies on petgraph's `Graph::edge_count`: the number of edges.
#[verifier::external_body]
pub fn graph_edge_count(g: &ProtocolGraph) -> (n: usize)
    ensures
        n == graph_edges(*g).len(),
{
    g.edge_count()
}

/// Relies on petgraph's `Graph::node_weight`: the weight stored at a valid
/// node index.
#[verifier::external_body]
pub fn graph_node_weight(g: &ProtocolGraph, i: usize) -> (w: Spanned<GraphIdent>)
    requires
        i < graph_nodes(*g).len(),
    ensures
        w == graph_nodes(*g)[i as int],
{
    g.node_weight(petgraph::graph::NodeIndex::new(i)).unwrap().clone()
}

/// Relies on petgraph's `Graph::edge_endpoints`: the source and target of a
/// valid edge index. Both endpoints of every stored edge are valid node
/// indices, which `Graph::add_edge` checks on insertion.
#[verifier::external_body]
pub fn graph_edge_endpoints(g: &ProtocolGraph, k: usize) -> (e: (usize, usize))
    requires
        k < graph_edges(*g).len(),
    ensures
        e == graph_edges(*g)[k as int],
        e.0 < graph_nodes(*g).len(),
        e.1 < graph_nodes(*g).len(),
{
    let (a, b) = g.edge_endpoints(petgraph::graph::EdgeIndex::new(k)).unwrap();
    (a.index(), b.index())
}

} // verus!
