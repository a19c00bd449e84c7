//! The directed graph of workspace nodes, kept by `petgraph`.
//!
//! The graph is opaque here. What it holds has two names, [`graph_nodes`] and [`graph_edges`],
//! and the functions below say over these names what the calls into `petgraph` do. Nodes are
//! handed in and out by their index. The searches of `petgraph` recurse, so that the stack bounds how
//! long a chain of dependencies they can follow.

use crate::name::{NodeView, WorkspaceNode};
use crate::reach;
use petgraph::graph::NodeIndex;
use petgraph::visit::{depth_first_search, DfsEvent, Reversed};
use vstd::multiset::Multiset;
use vstd::prelude::*;

verus! {

/// `petgraph::graph::Graph`, of which nothing is seen inside.
#[verifier::external_type_specification]
#[verifier::external_body]
#[verifier::reject_recursive_types(N)]
#[verifier::reject_recursive_types(E)]
#[verifier::reject_recursive_types(Ty)]
#[verifier::reject_recursive_types(Ix)]
pub struct ExGraph<N, E, Ty, Ix>(petgraph::graph::Graph<N, E, Ty, Ix>);

/// `petgraph::Directed`, the marker of directed graphs.
#[verifier::external_type_specification]
#[verifier::external_body]
pub struct ExDirected(petgraph::Directed);

/// `petgraph::Direction`, with its two variants.
#[verifier::external_type_specification]
pub struct ExDirection(petgraph::Direction);

/// The nodes that a graph holds, each at its index.
pub uninterp spec fn graph_nodes(graph: petgraph::graph::Graph<WorkspaceNode, ()>) -> Seq<NodeView>;

/// The edges that a graph holds, each as the indices of its source and its target. Parallel edges
/// count as often as they were added.
pub uninterp spec fn graph_edges(
    graph: petgraph::graph::Graph<WorkspaceNode, ()>,
) -> Multiset<(usize, usize)>;

/// Calls `Graph::new`: the graph has neither nodes nor edges.
#[verifier::external_body]
pub(crate) fn graph_new() -> (graph: petgraph::graph::Graph<WorkspaceNode, ()>)
    ensures
        graph_nodes(graph) == Seq::<NodeView>::empty(),
        graph_edges(graph) == Multiset::<(usize, usize)>::empty(),
{
    petgraph::graph::Graph::new()
}

/// Calls `Graph::add_node`: the node comes after those that are there, and its index is returned.
/// The call panics on a graph that has as many nodes as its index type can tell apart.
#[verifier::external_body]
pub(crate) fn graph_add_node(
    graph: &mut petgraph::graph::Graph<WorkspaceNode, ()>,
    node: WorkspaceNode,
) -> (index: usize)
    requires
        graph_nodes(*old(graph)).len() < u32::MAX,
    ensures
        index == graph_nodes(*old(graph)).len(),
        graph_nodes(*final(graph)) == graph_nodes(*old(graph)).push(node@),
        graph_edges(*final(graph)) == graph_edges(*old(graph)),
{
    graph.add_node(node).index()
}

/// Calls `Graph::add_edge`: the edge is added, also where there is one like it. The call panics
/// where a node does not exist, and on a graph that has as many edges as its index type can tell
/// apart.
#[verifier::external_body]
pub(crate) fn graph_add_edge(
    graph: &mut petgraph::graph::Graph<WorkspaceNode, ()>,
    from: usize,
    to: usize,
)
    requires
        from < graph_nodes(*old(graph)).len(),
        to < graph_nodes(*old(graph)).len(),
        graph_edges(*old(graph)).len() < u32::MAX,
    ensures
        graph_nodes(*final(graph)) == graph_nodes(*old(graph)),
        graph_edges(*final(graph)) == graph_edges(*old(graph)).insert((from, to)),
{
    graph.add_edge(NodeIndex::new(from), NodeIndex::new(to), ());
}

/// Calls `Graph::node_weight`: the node at an index.
#[verifier::external_body]
pub(crate) fn graph_node_weight(
    graph: &petgraph::graph::Graph<WorkspaceNode, ()>,
    index: usize,
) -> (node: Option<&WorkspaceNode>)
    requires
        index < graph_nodes(*graph).len(),
    ensures
        node is Some,
        node->0@ == graph_nodes(*graph)[index as int],
{
    graph.node_weight(NodeIndex::new(index))
}

/// Calls `Graph::neighbors_directed`: for each edge that leaves the node, or enters it, the node at
/// the other end. Nothing is said of their order.
#[verifier::external_body]
pub(crate) fn graph_neighbors_directed(
    graph: &petgraph::graph::Graph<WorkspaceNode, ()>,
    index: usize,
    direction: petgraph::Direction,
) -> (neighbors: Vec<usize>)
    requires
        index < graph_nodes(*graph).len(),
    ensures
        forall|other: usize| #[trigger]
            neighbors@.to_multiset().count(other) == graph_edges(*graph).count(
                match direction {
                    petgraph::Direction::Outgoing => (index, other),
                    petgraph::Direction::Incoming => (other, index),
                },
            ),
{
    let neighbors = graph.neighbors_directed(NodeIndex::new(index), direction);
    neighbors.map(|other| other.index()).collect()
}

/// Whether an edge with the given endpoints leads to the node at `root`.
pub open spec fn leads_to(endpoints: Option<(usize, usize)>, root: usize) -> bool {
    endpoints matches Some(edge) && edge.1 == root
}

/// Decides whether an edge is kept: only those that lead to the node at `root` are.
pub(crate) fn keep_edge(endpoints: Option<(usize, usize)>, root: usize) -> (keep: bool)
    ensures
        keep == leads_to(endpoints, root),
{
    match endpoints {
        Some((_from, to)) => to == root,
        None => false,
    }
}

/// Calls `Graph::retain_edges` with [`keep_edge`], which is given what `Graph::edge_endpoints`
/// returns: the edges for which it decides so stay, as often as they were there, and no others.
/// Nodes keep their indices.
#[verifier::external_body]
pub(crate) fn graph_retain_edges(
    graph: &mut petgraph::graph::Graph<WorkspaceNode, ()>,
    root: usize,
)
    ensures
        graph_nodes(*final(graph)) == graph_nodes(*old(graph)),
        forall|edge: (usize, usize)| #[trigger]
            graph_edges(*final(graph)).count(edge) == if leads_to(Some(edge), root) {
                graph_edges(*old(graph)).count(edge)
            } else {
                0
            },
{
    graph.retain_edges(
        |graph, edge|
            {
                let endpoints = graph.edge_endpoints(edge);
                keep_edge(endpoints.map(|(from, to)| (from.index(), to.index())), root)
            },
    );
}

/// What a depth first search reports of nodes, by index, and of the time at which they were
/// discovered and finished.
#[derive(Debug, Clone, Copy, PartialEq, Eq)]
pub enum SearchEvent {
    Discover(usize, usize),
    TreeEdge(usize, usize),
    BackEdge(usize, usize),
    CrossForwardEdge(usize, usize),
    Finish(usize, usize),
}

/// The nodes whose discovery a search reported.
pub open spec fn discovered(events: Seq<SearchEvent>) -> Set<usize> {
    Set::new(
        |index: usize|
            exists|i: int|
                0 <= i < events.len() && (#[trigger] events[i] matches SearchEvent::Discover(
                    node,
                    _,
                ) && node == index),
    )
}

/// Calls `petgraph::visit::depth_first_search`, on the graph as it is: the nodes that are reachable
/// from those at `starts` are discovered, and no others. Nothing is said of the order of the events,
/// nor of those that are no discoveries. The call panics where a start does not exist.
#[verifier::external_body]
pub(crate) fn search_outgoing(
    graph: &petgraph::graph::Graph<WorkspaceNode, ()>,
    starts: &Vec<usize>,
) -> (events: Vec<SearchEvent>)
    requires
        forall|i: int| 0 <= i < starts@.len() ==> #[trigger] starts@[i] < graph_nodes(*graph).len(),
    ensures
        discovered(events@) == reach::reachable(graph_edges(*graph).dom(), starts@.to_set()),
{
    let mut events = Vec::new();
    let indices = starts.iter().map(|start| NodeIndex::new(*start));
    depth_first_search(graph, indices, |event| events.push(match event {
        DfsEvent::Discover(node, time) => SearchEvent::Discover(node.index(), time.0),
        DfsEvent::TreeEdge(from, to) => SearchEvent::TreeEdge(from.index(), to.index()),
        DfsEvent::BackEdge(from, to) => SearchEvent::BackEdge(from.index(), to.index()),
        DfsEvent::CrossForwardEdge(from, to) => SearchEvent::CrossForwardEdge(from.index(), to.index()),
        DfsEvent::Finish(node, time) => SearchEvent::Finish(node.index(), time.0),
    }));
    events
}

/// Calls `petgraph::visit::depth_first_search`, on the graph with its edges turned round by
/// `petgraph::visit::Reversed`: the nodes from which one of those at `starts` is reachable are
/// discovered, and no others. Nothing is said of the order of the events, nor of those that are no
/// discoveries. The call panics where a start does not exist.
#[verifier::external_body]
pub(crate) fn search_incoming(
    graph: &petgraph::graph::Graph<WorkspaceNode, ()>,
    starts: &Vec<usize>,
) -> (events: Vec<SearchEvent>)
    requires
        forall|i: int| 0 <= i < starts@.len() ==> #[trigger] starts@[i] < graph_nodes(*graph).len(),
    ensures
        discovered(events@) == reach::reachable(
            reach::reversed(graph_edges(*graph).dom()),
            starts@.to_set(),
        ),
{
    let mut events = Vec::new();
    let indices = starts.iter().map(|start| NodeIndex::new(*start));
    depth_first_search(Reversed(graph), indices, |event| events.push(match event {
        DfsEvent::Discover(node, time) => SearchEvent::Discover(node.index(), time.0),
        DfsEvent::TreeEdge(from, to) => SearchEvent::TreeEdge(from.index(), to.index()),
        DfsEvent::BackEdge(from, to) => SearchEvent::BackEdge(from.index(), to.index()),
        DfsEvent::CrossForwardEdge(from, to) => SearchEvent::CrossForwardEdge(from.index(), to.index()),
        DfsEvent::Finish(node, time) => SearchEvent::Finish(node.index(), time.0),
    }));
    events
}

/// Whether the node at `index` is in the component at `c`.
pub open spec fn in_component(components: Seq<Vec<usize>>, c: int, index: usize) -> bool {
    0 <= c < components.len() && components[c]@.contains(index)
}

/// Whether the node at `index` is in some component.
pub open spec fn has_component(components: Seq<Vec<usize>>, index: usize) -> bool {
    exists|c: int| in_component(components, c, index)
}

/// Calls `petgraph::algo::tarjan_scc`: the strongly connected components. They hold every node, and
/// none twice; two nodes are in the same one just where each is reachable from the other.
#[verifier::external_body]
pub(crate) fn graph_tarjan_scc(
    graph: &petgraph::graph::Graph<WorkspaceNode, ()>,
) -> (components: Vec<Vec<usize>>)
    ensures
        forall|index: usize| #[trigger]
            has_component(components@, index) <==> index < graph_nodes(*graph).len(),
        forall|c: int|
            0 <= c < components@.len() ==> (#[trigger] components@[c])@.no_duplicates(),
        forall|c: int, d: int, from: usize, to: usize| #[trigger]
            in_component(components@, c, from) && #[trigger] in_component(components@, d, to) ==> (c
                == d <==> {
                &&& reach::reaches(graph_edges(*graph).dom(), from, to)
                &&& reach::reaches(graph_edges(*graph).dom(), to, from)
            }),
{
    let components = petgraph::algo::tarjan_scc(graph);
    components.iter().map(|nodes| nodes.iter().map(|node| node.index()).collect()).collect()
}

} // verus!
