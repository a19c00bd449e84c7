//! How the answers of a package graph follow from what was given to its builder, and from one
//! another.

use super::topology;
use super::validate;
use super::validate::GraphError;
use super::{
    Error, PackageGraph, PackageGraphBuilder, WorkspaceInfo, WorkspaceName, WorkspaceNode,
};
use super::laws;
use crate::collections;
use crate::collections::VecSet;
use crate::lockfile::ExternalDependencies;
use crate::name::{NameView, NodeView};
use crate::path::AnchoredSystemPath;
use crate::reach;
use vstd::prelude::*;

verus! {

proof fn node_order_has(order: Seq<NameView>, node: NodeView)
    ensures
        topology::node_order(order).to_set().contains(node) <==> match node {
            NodeView::Root => true,
            NodeView::Workspace(name) => order.contains(name),
        },
{
    let nodes = topology::node_order(order);
    assert(nodes[0] == NodeView::Root);
    if let NodeView::Workspace(name) = node {
        if nodes.contains(node) {
            let k = choose|k: int| 0 <= k < nodes.len() && nodes[k] == node;
            assert(order[k - 1] == name);
        }
        if order.contains(name) {
            let k = choose|k: int| 0 <= k < order.len() && order[k] == name;
            assert(nodes[k + 1] == node);
        }
    }
}

/// A builder to which nothing was added gives a package graph of the root workspace and the root
/// node. The one depends on the other, and on nothing else. What was given to the builder is what
/// is known of the root workspace.
pub proof fn nothing_added<J, M, L>(
    root: J,
    manager: M,
    builder: PackageGraphBuilder<J, M, L>,
    result: Result<PackageGraph<J, M, L>, Error>,
)
    requires
        call_ensures(
            PackageGraph::<J, M, L>::builder,
            (root, manager),
            builder,
        ),
        call_ensures(
            PackageGraphBuilder::<J, M, L>::build,
            (builder,),
            result,
        ),
    ensures
        result matches Ok(graph) && {
            &&& graph.wf()
            &&& forall|node: &WorkspaceNode, found: Option<VecSet<&WorkspaceNode>>| #[trigger]
                call_ensures(
                    PackageGraph::<J, M, L>::immediate_dependencies,
                    (&graph, node),
                    found,
                ) ==> match node {
                    WorkspaceNode::Root => found matches Some(found) && found@ == Set::<
                        NodeView,
                    >::empty(),
                    WorkspaceNode::Workspace(WorkspaceName::Root) => found matches Some(found)
                        && found@ == set![NodeView::Root],
                    WorkspaceNode::Workspace(WorkspaceName::Other(_)) => found is None,
                }
            &&& forall|name: &WorkspaceName, info: Option<&WorkspaceInfo<J>>| #[trigger]
                call_ensures(
                    PackageGraph::<J, M, L>::workspace_info,
                    (&graph, name),
                    info,
                ) ==> match name {
                    WorkspaceName::Root => info matches Some(info) && {
                        &&& info.package_json == root
                        &&& info.package_json_path@ == seq!["package.json"@]
                        &&& info.unresolved_external_dependencies is None
                        &&& info.transitive_dependencies is None
                    },
                    WorkspaceName::Other(_) => info is None,
                }
            &&& forall|found: &M| #[trigger]
                call_ensures(
                    PackageGraph::<J, M, L>::package_manager,
                    (&graph,),
                    found,
                ) ==> *found == manager
            &&& forall|found: Option<&L>| #[trigger]
                call_ensures(
                    PackageGraph::<J, M, L>::lockfile,
                    (&graph,),
                    found,
                ) ==> found is None
        },
{
    let order = builder@.order;
    let edges = builder@.dependencies;
    assert(order[0] == NameView::Root);
    node_order_has(order, NodeView::Root);
    node_order_has(order, NodeView::Workspace(NameView::Root));
    assert(edges[0] == topology::root_edge());
    assert forall|i: int| 0 <= i < edges.len() implies builder@.is_known(#[trigger] edges[i]) by {}
    let graph = result->Ok_0;
    assert(graph@.topology.edges =~= set![topology::root_edge()]) by {
        assert(edges.to_set().contains(edges[0]));
    }
    assert forall|node: &WorkspaceNode, found: Option<VecSet<&WorkspaceNode>>| #[trigger]
        call_ensures(
            PackageGraph::<J, M, L>::immediate_dependencies,
            (&graph, node),
            found,
        ) implies match node {
        WorkspaceNode::Root => found matches Some(found) && found@ == Set::<NodeView>::empty(),
        WorkspaceNode::Workspace(WorkspaceName::Root) => found matches Some(found) && found@
            == set![NodeView::Root],
        WorkspaceNode::Workspace(WorkspaceName::Other(_)) => found is None,
    } by {
        node_order_has(order, node@);
        if let Some(found) = found {
            assert(found@ =~= graph@.topology.immediate_dependencies(node@));
            match node {
                WorkspaceNode::Root => assert(found@ =~= Set::<NodeView>::empty()),
                _ => assert(found@ =~= set![NodeView::Root]),
            }
        }
    }
}

/// To add a dependency adds one edge, from the one node to the other, and changes nothing else, where
/// both nodes are in the graph; else the one that is not is reported, the first one first.
pub proof fn dependency_added<J, M, L>(
    before: PackageGraphBuilder<J, M, L>,
    from: WorkspaceNode,
    to: WorkspaceNode,
    after: PackageGraphBuilder<J, M, L>,
    graph: PackageGraph<J, M, L>,
    result: Result<PackageGraph<J, M, L>, Error>,
)
    requires
        call_ensures(PackageGraphBuilder::<J, M, L>::with_dependency, (before, from, to), after),
        call_ensures(PackageGraphBuilder::<J, M, L>::build, (before,), Ok(graph)),
        call_ensures(PackageGraphBuilder::<J, M, L>::build, (after,), result),
    ensures
        match result {
            Ok(more) => {
                &&& graph@.topology.nodes.contains(from@)
                &&& graph@.topology.nodes.contains(to@)
                &&& more@.topology.nodes == graph@.topology.nodes
                &&& forall|x: NodeView, y: NodeView| #[trigger]
                    more@.topology.edges.contains((x, y)) <==> graph@.topology.edges.contains(
                        (x, y),
                    ) || (x == from@ && y == to@)
                &&& more@.workspaces == graph@.workspaces
                &&& more@.order == graph@.order
                &&& more@.package_manager == graph@.package_manager
                &&& more@.lockfile == graph@.lockfile
            },
            Err(error) => error matches Error::UnknownNode(node)
                && !graph@.topology.nodes.contains(node@) && (node@ == from@ || (node@ == to@
                && graph@.topology.nodes.contains(from@))),
        },
{
    let edges = before@.dependencies;
    let more_edges = after@.dependencies;
    assert forall|i: int| 0 <= i < edges.len() implies after@.is_known(
        #[trigger] more_edges[i],
    ) by {
        assert(more_edges[i] == edges[i]);
        assert(before@.is_known(edges[i]));
    }
    assert(more_edges[edges.len() as int] == (from@, to@));
    if let Ok(more) = result {
        assert(after@.is_known(more_edges[edges.len() as int]));
        assert forall|x: NodeView, y: NodeView| #[trigger]
            more@.topology.edges.contains((x, y)) <==> graph@.topology.edges.contains((x, y)) || (
            x == from@ && y == to@) by {
            if edges.contains((x, y)) {
                let k = choose|k: int| 0 <= k < edges.len() && edges[k] == (x, y);
                assert(more_edges[k] == (x, y));
            }
            if more_edges.contains((x, y)) {
                let k = choose|k: int| 0 <= k < more_edges.len() && more_edges[k] == (x, y);
                if k < edges.len() {
                    assert(edges[k] == (x, y));
                }
            }
        }
    }
}

/// What is added to a builder as a dependency is answered by the graph: the one node has the other
/// as a direct dependency, and the other has it as a direct ancestor, whichever nodes they are.
/// Other answers stay as they were.
pub proof fn dependency_answered<J, M, L>(
    before: PackageGraphBuilder<J, M, L>,
    from: WorkspaceNode,
    to: WorkspaceNode,
    after: PackageGraphBuilder<J, M, L>,
    graph: PackageGraph<J, M, L>,
    more: PackageGraph<J, M, L>,
    node: &WorkspaceNode,
    dependencies: Option<VecSet<&WorkspaceNode>>,
    more_dependencies: Option<VecSet<&WorkspaceNode>>,
    ancestors: Option<VecSet<&WorkspaceNode>>,
    more_ancestors: Option<VecSet<&WorkspaceNode>>,
    other: NodeView,
)
    requires
        call_ensures(PackageGraphBuilder::<J, M, L>::with_dependency, (before, from, to), after),
        call_ensures(PackageGraphBuilder::<J, M, L>::build, (before,), Ok(graph)),
        call_ensures(PackageGraphBuilder::<J, M, L>::build, (after,), Ok(more)),
        call_ensures(
            PackageGraph::<J, M, L>::immediate_dependencies,
            (&graph, node),
            dependencies,
        ),
        call_ensures(
            PackageGraph::<J, M, L>::immediate_dependencies,
            (&more, node),
            more_dependencies,
        ),
        call_ensures(PackageGraph::<J, M, L>::immediate_ancestors, (&graph, node), ancestors),
        call_ensures(PackageGraph::<J, M, L>::immediate_ancestors, (&more, node), more_ancestors),
    ensures
        more_dependencies is Some <==> dependencies is Some,
        more_ancestors is Some <==> ancestors is Some,
        more_dependencies is Some <==> more_ancestors is Some,
        node@ == from@ || node@ == to@ ==> more_dependencies is Some,
        dependencies is Some ==> (more_dependencies->0@.contains(other)
            <==> dependencies->0@.contains(other) || (node@ == from@ && other == to@)),
        ancestors is Some ==> (more_ancestors->0@.contains(other) <==> ancestors->0@.contains(other)
            || (node@ == to@ && other == from@)),
{
    dependency_added(before, from, to, after, graph, Ok(more));
    assert(more@.topology.edges.contains((node@, other)) <==> graph@.topology.edges.contains(
        (node@, other),
    ) || (node@ == from@ && other == to@));
    assert(more@.topology.edges.contains((other, node@)) <==> graph@.topology.edges.contains(
        (other, node@),
    ) || (other == from@ && node@ == to@));
}

/// To add a workspace never keeps a graph from being built. There is then a node for it, without
/// dependencies if it is new, and what was given is what is known of it. Nothing else changes.
pub proof fn workspace_added<J, M, L>(
    before: PackageGraphBuilder<J, M, L>,
    name: WorkspaceName,
    info: WorkspaceInfo<J>,
    after: PackageGraphBuilder<J, M, L>,
    graph: PackageGraph<J, M, L>,
    result: Result<PackageGraph<J, M, L>, Error>,
)
    requires
        call_ensures(PackageGraphBuilder::<J, M, L>::with_workspace, (before, name, info), after),
        call_ensures(PackageGraphBuilder::<J, M, L>::build, (before,), Ok(graph)),
        call_ensures(PackageGraphBuilder::<J, M, L>::build, (after,), result),
    ensures
        result matches Ok(more) && {
            &&& forall|node: NodeView| #[trigger]
                more@.topology.nodes.contains(node) <==> graph@.topology.nodes.contains(node)
                    || node == NodeView::Workspace(name@)
            &&& more@.topology.edges == graph@.topology.edges
            &&& forall|other: &WorkspaceName, known: Option<&WorkspaceInfo<J>>| #[trigger]
                call_ensures(PackageGraph::<J, M, L>::workspace_info, (&more, other), known)
                    ==> if other@ == name@ {
                    known == Some(&info)
                } else {
                    known is Some == graph@.workspaces.contains_key(other@) && (known is Some
                        ==> *known->0 == graph@.workspaces[other@])
                }
            &&& more@.package_manager == graph@.package_manager
            &&& more@.lockfile == graph@.lockfile
        },
{
    graph.wf_is_valid();
    let edges = before@.dependencies;
    assert forall|node: NodeView| #[trigger] after@.nodes().contains(node) <==> before@.nodes().contains(
        node,
    ) || node == NodeView::Workspace(name@) by {
        node_order_has(before@.order, node);
        node_order_has(after@.order, node);
        let order = before@.order;
        assert(order.to_set().contains(name@) <==> graph@.workspaces.contains_key(name@));
        if let NodeView::Workspace(other) = node {
            if order.contains(other) {
                let k = choose|k: int| 0 <= k < order.len() && order[k] == other;
                assert(order.push(name@)[k] == other);
            }
            assert(order.push(name@)[order.len() as int] == name@);
        }
    }
    assert forall|i: int| 0 <= i < edges.len() implies after@.is_known(#[trigger] edges[i]) by {
        assert(before@.is_known(edges[i]));
        assert(before@.nodes().contains(edges[i].0));
        assert(before@.nodes().contains(edges[i].1));
    }
    assert(result is Ok);
}

/// To set the lockfile changes nothing but the lockfile.
pub proof fn lockfile_set<J, M, L>(
    before: PackageGraphBuilder<J, M, L>,
    lockfile: Option<L>,
    after: PackageGraphBuilder<J, M, L>,
    graph: PackageGraph<J, M, L>,
    result: Result<PackageGraph<J, M, L>, Error>,
)
    requires
        call_ensures(PackageGraphBuilder::<J, M, L>::with_lockfile, (before, lockfile), after),
        call_ensures(PackageGraphBuilder::<J, M, L>::build, (before,), Ok(graph)),
        call_ensures(PackageGraphBuilder::<J, M, L>::build, (after,), result),
    ensures
        result matches Ok(more) && {
            &&& more@.topology == graph@.topology
            &&& more@.workspaces == graph@.workspaces
            &&& more@.order == graph@.order
            &&& more@.package_manager == graph@.package_manager
            &&& forall|found: Option<&L>| #[trigger]
                call_ensures(PackageGraph::<J, M, L>::lockfile, (&more,), found) ==> match lockfile {
                    Some(lockfile) => found == Some(&lockfile),
                    None => found is None,
                }
        },
{
    let edges = before@.dependencies;
    assert forall|i: int| 0 <= i < edges.len() implies after@.is_known(#[trigger] edges[i]) by {
        assert(before@.is_known(edges[i]));
    }
}

/// A built graph has an edge just where a dependency was added, or the root edge; a node for each
/// workspace, and the root node; and it has just the workspaces of the builder. It is built just
/// where every dependency joins such nodes.
pub proof fn built_as_given<J, M, L>(
    builder: PackageGraphBuilder<J, M, L>,
    result: Result<PackageGraph<J, M, L>, Error>,
)
    requires
        call_ensures(PackageGraphBuilder::<J, M, L>::build, (builder,), result),
    ensures
        result is Ok <==> forall|i: int|
            0 <= i < builder@.dependencies.len() ==> {
                let (from, to) = #[trigger] builder@.dependencies[i];
                &&& from matches NodeView::Workspace(name) ==> builder@.workspaces.contains_key(
                    name,
                )
                &&& to matches NodeView::Workspace(name) ==> builder@.workspaces.contains_key(name)
            },
        result matches Ok(graph) ==> {
            &&& graph.wf()
            &&& forall|i: int|
                0 <= i < builder@.dependencies.len() ==> graph@.topology.edges.contains(
                    #[trigger] builder@.dependencies[i],
                )
            &&& graph@.topology.edges.contains(
                (NodeView::Workspace(NameView::Root), NodeView::Root),
            )
            &&& forall|edge: (NodeView, NodeView)| #[trigger]
                graph@.topology.edges.contains(edge) ==> builder@.dependencies.contains(edge)
            &&& graph@.topology.nodes.contains(NodeView::Root)
            &&& forall|name: NameView| #[trigger]
                graph@.topology.nodes.contains(NodeView::Workspace(name))
                    <==> builder@.workspaces.contains_key(name)
            &&& graph@.workspaces == builder@.workspaces
            &&& graph@.package_manager == builder@.package_manager
            &&& graph@.lockfile == builder@.lockfile
        },
{
    let order = builder@.order;
    let edges = builder@.dependencies;
    let known = builder@.workspaces;
    assert forall|name: NameView| order.contains(name) <==> #[trigger] known.contains_key(name) by {
        assert(order.to_set().contains(name) <==> known.dom().contains(name));
    }
    assert forall|i: int| 0 <= i < edges.len() implies (#[trigger] builder@.is_known(edges[i]) <==> {
        let (from, to) = edges[i];
        &&& from matches NodeView::Workspace(name) ==> known.contains_key(name)
        &&& to matches NodeView::Workspace(name) ==> known.contains_key(name)
    }) by {
        node_order_has(order, edges[i].0);
        node_order_has(order, edges[i].1);
    }
    if let Ok(graph) = result {
        graph.wf_is_valid();
        node_order_has(order, NodeView::Root);
        assert forall|i: int| 0 <= i < edges.len() implies graph@.topology.edges.contains(
            #[trigger] edges[i],
        ) by {
            assert(edges.to_set().contains(edges[i]));
        }
        assert forall|name: NameView| #[trigger]
            graph@.topology.nodes.contains(NodeView::Workspace(name))
                <==> builder@.workspaces.contains_key(name) by {
            node_order_has(order, NodeView::Workspace(name));
            assert(order.to_set().contains(name) <==> graph@.workspaces.dom().contains(name));
        }
    }
}

/// The direct dependencies of a node are the targets of its edges, and its direct ancestors the
/// sources of the edges to it. Nodes that are not in the graph have no answer.
pub proof fn neighbors_follow_edges<J, M, L>(
    graph: &PackageGraph<J, M, L>,
    node: &WorkspaceNode,
    dependencies: Option<VecSet<&WorkspaceNode>>,
    ancestors: Option<VecSet<&WorkspaceNode>>,
    other: NodeView,
)
    requires
        call_ensures(PackageGraph::<J, M, L>::immediate_dependencies, (graph, node), dependencies),
        call_ensures(PackageGraph::<J, M, L>::immediate_ancestors, (graph, node), ancestors),
    ensures
        dependencies is Some <==> graph@.topology.nodes.contains(node@),
        ancestors is Some <==> graph@.topology.nodes.contains(node@),
        dependencies is Some ==> (dependencies->0@.contains(other)
            <==> graph@.topology.edges.contains((node@, other))),
        ancestors is Some ==> (ancestors->0@.contains(other) <==> graph@.topology.edges.contains(
            (other, node@),
        )),
{
}

/// One node is a direct dependency of another just where the other is a direct ancestor of it.
pub proof fn immediate_answers_mirror<J, M, L>(
    graph: &PackageGraph<J, M, L>,
    a: &WorkspaceNode,
    b: &WorkspaceNode,
    dependencies: VecSet<&WorkspaceNode>,
    ancestors: VecSet<&WorkspaceNode>,
)
    requires
        call_ensures(
            PackageGraph::<J, M, L>::immediate_dependencies,
            (graph, a),
            Some(dependencies),
        ),
        call_ensures(PackageGraph::<J, M, L>::immediate_ancestors, (graph, b), Some(ancestors)),
    ensures
        dependencies@.contains(b@) <==> ancestors@.contains(a@),
{
}

/// The closure of some nodes has those of them that are in the graph, and with a node its direct
/// dependencies. It is the least such set.
pub proof fn closure_answered<J, M, L>(
    graph: &PackageGraph<J, M, L>,
    nodes: &[&WorkspaceNode],
    closure: VecSet<&WorkspaceNode>,
    other: Set<NodeView>,
)
    requires
        graph.wf(),
        call_ensures(PackageGraph::<J, M, L>::transitive_closure, (graph, nodes), closure),
    ensures
        forall|i: int|
            0 <= i < nodes@.len() && graph@.topology.nodes.contains((#[trigger] nodes@[i])@)
                ==> closure@.contains(nodes@[i]@),
        forall|node: &WorkspaceNode, found: VecSet<&WorkspaceNode>, next: NodeView|
            closure@.contains(node@) && #[trigger] call_ensures(
                PackageGraph::<J, M, L>::immediate_dependencies,
                (graph, node),
                Some(found),
            ) && #[trigger] found@.contains(next) ==> closure@.contains(next),
        forall|from: NodeView, to: NodeView| #[trigger]
            graph@.topology.edges.contains((from, to)) && closure@.contains(from)
                ==> closure@.contains(to),
        closure@.subset_of(graph@.topology.nodes),
        (forall|i: int|
            0 <= i < nodes@.len() && graph@.topology.nodes.contains((#[trigger] nodes@[i])@)
                ==> other.contains(nodes@[i]@)) && (forall|from: NodeView, to: NodeView| #[trigger]
            graph@.topology.edges.contains((from, to)) && other.contains(from) ==> other.contains(
                to,
            )) ==> closure@.subset_of(other),
{
    let t = graph@.topology;
    let starts = collections::view_set(nodes@);
    graph.wf_is_valid();
    laws::closure_has_starts(t, starts);
    laws::closure_within_graph(t, starts);
    assert forall|i: int|
        0 <= i < nodes@.len() && t.nodes.contains((#[trigger] nodes@[i])@) implies closure@.contains(
        nodes@[i]@,
    ) by {
        assert(starts.intersect(t.nodes).contains(nodes@[i]@));
    }
    assert forall|from: NodeView, to: NodeView| #[trigger]
        t.edges.contains((from, to)) && closure@.contains(from) implies closure@.contains(to) by {
        laws::closure_is_closed(t, starts, from, to);
    }
    assert forall|node: &WorkspaceNode, found: VecSet<&WorkspaceNode>, next: NodeView|
        closure@.contains(node@) && #[trigger] call_ensures(
            PackageGraph::<J, M, L>::immediate_dependencies,
            (graph, node),
            Some(found),
        ) && #[trigger] found@.contains(next) implies closure@.contains(next) by {
        assert(t.edges.contains((node@, next)));
    }
    if (forall|i: int|
        0 <= i < nodes@.len() && t.nodes.contains((#[trigger] nodes@[i])@) ==> other.contains(
            nodes@[i]@,
        )) && (forall|from: NodeView, to: NodeView| #[trigger]
        t.edges.contains((from, to)) && other.contains(from) ==> other.contains(to)) {
        assert forall|node: NodeView| starts.intersect(t.nodes).contains(
            node,
        ) implies other.contains(node) by {
            let i = choose|i: int| 0 <= i < nodes@.len() && (#[trigger] nodes@[i])@ == node;
            assert(t.nodes.contains(nodes@[i]@));
        }
        laws::closure_is_least(t, starts, other);
    }
}

/// The dependencies of a node are its closure without the node itself. It depends on another just
/// where the other has it as an ancestor. No node is among its own dependencies or ancestors.
pub proof fn dependencies_answered<J, M, L>(
    graph: &PackageGraph<J, M, L>,
    a: &WorkspaceNode,
    b: &WorkspaceNode,
    starts: &[&WorkspaceNode],
    closure: VecSet<&WorkspaceNode>,
    dependencies: VecSet<&WorkspaceNode>,
    ancestors: VecSet<&WorkspaceNode>,
)
    requires
        graph.wf(),
        starts@ == seq![a],
        call_ensures(PackageGraph::<J, M, L>::transitive_closure, (graph, starts), closure),
        call_ensures(PackageGraph::<J, M, L>::dependencies, (graph, a), dependencies),
        call_ensures(PackageGraph::<J, M, L>::ancestors, (graph, b), ancestors),
    ensures
        dependencies@.contains(b@) <==> closure@.contains(b@) && b@ != a@,
        ancestors@.contains(a@) <==> dependencies@.contains(b@),
        ancestors@.contains(a@) <==> closure@.contains(b@) && b@ != a@,
        dependencies@ == closure@.remove(a@),
        ancestors@.subset_of(graph@.topology.nodes),
{
    graph.wf_is_valid();
    let t = graph@.topology;
    collections::view_set_singleton(starts@);
    laws::dependencies_mirror_ancestors(t, a@, b@);
    assert forall|node: NodeView| ancestors@.contains(node) implies t.nodes.contains(node) by {
        laws::ancestors_reach(t, node, b@);
        let next = reach::reaches_first_step(t.edges, node, b@);
        assert(t.edges.contains((node, next)));
    }
}

/// The closure of the nodes of two lists has what the closures of the lists have between them.
pub proof fn closure_of_lists<J, M, L>(
    graph: &PackageGraph<J, M, L>,
    a: &[&WorkspaceNode],
    b: &[&WorkspaceNode],
    both: &[&WorkspaceNode],
    closure_a: VecSet<&WorkspaceNode>,
    closure_b: VecSet<&WorkspaceNode>,
    closure: VecSet<&WorkspaceNode>,
)
    requires
        both@ == a@ + b@,
        call_ensures(PackageGraph::<J, M, L>::transitive_closure, (graph, a), closure_a),
        call_ensures(PackageGraph::<J, M, L>::transitive_closure, (graph, b), closure_b),
        call_ensures(PackageGraph::<J, M, L>::transitive_closure, (graph, both), closure),
    ensures
        closure@ == closure_a@.union(closure_b@),
{
    let (x, y) = (collections::view_set(a@), collections::view_set(b@));
    assert forall|node: NodeView| x.union(y).contains(node) implies collections::view_set(
        both@,
    ).contains(node) by {
        if x.contains(node) {
            let i = choose|i: int| 0 <= i < a@.len() && (#[trigger] a@[i])@ == node;
            assert(both@[i] == a@[i]);
        } else {
            let i = choose|i: int| 0 <= i < b@.len() && (#[trigger] b@[i])@ == node;
            assert(both@[a@.len() + i] == b@[i]);
        }
    }
    assert forall|node: NodeView| collections::view_set(both@).contains(node) implies x.union(
        y,
    ).contains(node) by {
        let i = choose|i: int| 0 <= i < both@.len() && (#[trigger] both@[i])@ == node;
        if i < a@.len() {
            assert(a@[i]@ == node);
        } else {
            assert(b@[i - a@.len()]@ == node);
        }
    }
    assert(collections::view_set(both@) =~= x.union(y));
    laws::closure_of_union(graph@.topology, x, y);
}

/// Once the dependencies between workspaces are removed, of the direct dependencies of a node there
/// is left just the root node, where it was one; the root node keeps its direct ancestors, and no
/// other node has any. Everything else is as it was.
pub proof fn workspace_dependencies_removed<J, M, L>(
    graph: &mut PackageGraph<J, M, L>,
    node: &WorkspaceNode,
    before: Option<VecSet<&WorkspaceNode>>,
    after: Option<VecSet<&WorkspaceNode>>,
    ancestors_before: Option<VecSet<&WorkspaceNode>>,
    ancestors_after: Option<VecSet<&WorkspaceNode>>,
    other: NodeView,
)
    requires
        call_ensures(PackageGraph::<J, M, L>::remove_workspace_dependencies, (graph,), ()),
        call_ensures(
            PackageGraph::<J, M, L>::immediate_dependencies,
            (&*old(graph), node),
            before,
        ),
        call_ensures(
            PackageGraph::<J, M, L>::immediate_dependencies,
            (&*final(graph), node),
            after,
        ),
        call_ensures(
            PackageGraph::<J, M, L>::immediate_ancestors,
            (&*old(graph), node),
            ancestors_before,
        ),
        call_ensures(
            PackageGraph::<J, M, L>::immediate_ancestors,
            (&*final(graph), node),
            ancestors_after,
        ),
    ensures
        final(graph).wf(),
        final(graph)@.topology.nodes == old(graph)@.topology.nodes,
        after is Some <==> before is Some,
        before is Some ==> (after->0@.contains(other) <==> before->0@.contains(other) && other
            == NodeView::Root),
        ancestors_after is Some <==> ancestors_before is Some,
        ancestors_before is Some ==> (ancestors_after->0@.contains(other)
            <==> ancestors_before->0@.contains(other) && node@ == NodeView::Root),
        final(graph)@.workspaces == old(graph)@.workspaces,
        final(graph)@.order == old(graph)@.order,
        final(graph)@.package_manager == old(graph)@.package_manager,
        final(graph)@.lockfile == old(graph)@.lockfile,
{
}

/// A graph passes validation just where no node has a way back to itself: none depends directly on
/// itself, and no two depend on each other, directly or not. Where it does not pass, either a node
/// is named that depends directly on itself, and there are no two that depend on each other, or all
/// those are named that depend on another that depends on them, each once.
pub proof fn validation_answered<J, M, L>(
    graph: &PackageGraph<J, M, L>,
    result: Result<(), Error>,
    a: &WorkspaceNode,
    b: &WorkspaceNode,
    dependencies_a: VecSet<&WorkspaceNode>,
    dependencies_b: VecSet<&WorkspaceNode>,
    immediate: Option<VecSet<&WorkspaceNode>>,
)
    requires
        graph.wf(),
        call_ensures(PackageGraph::<J, M, L>::validate, (graph,), result),
        call_ensures(PackageGraph::<J, M, L>::dependencies, (graph, a), dependencies_a),
        call_ensures(PackageGraph::<J, M, L>::dependencies, (graph, b), dependencies_b),
        call_ensures(PackageGraph::<J, M, L>::immediate_dependencies, (graph, a), immediate),
    ensures
        ({
            let entangled = dependencies_a@.contains(b@) && dependencies_b@.contains(a@);
            let direct = immediate is Some && immediate->0@.contains(a@);
            match result {
                Ok(_) => !entangled && !direct,
                Err(Error::InvalidPackageGraph(GraphError::SelfDependency(node))) => {
                    &&& !entangled
                    &&& node@ == a@ ==> direct
                    &&& graph@.topology.edges.contains((node@, node@))
                },
                Err(Error::InvalidPackageGraph(GraphError::CyclicDependencies(groups))) => {
                    &&& groups@.len() > 0
                    &&& forall|g: int| 0 <= g < groups@.len() ==> (#[trigger] groups@[g])@.len() > 1
                    &&& entangled ==> exists|g: int, i: int, j: int|
                        {
                            &&& 0 <= g < groups@.len()
                            &&& 0 <= i < groups@[g]@.len()
                            &&& 0 <= j < groups@[g]@.len()
                            &&& (#[trigger] groups@[g]@[i])@ == a@
                            &&& (#[trigger] groups@[g]@[j])@ == b@
                        }
                    &&& forall|g: int, i: int, j: int|
                        0 <= g < groups@.len() && 0 <= i < groups@[g]@.len() && 0 <= j
                            < groups@[g]@.len() && i != j && (#[trigger] groups@[g]@[i])@ == a@ && (
                        #[trigger] groups@[g]@[j])@ == b@ ==> entangled
                    &&& forall|g: int, i: int, h: int, j: int|
                        0 <= g < groups@.len() && 0 <= i < groups@[g]@.len() && 0 <= h
                            < groups@.len() && 0 <= j < groups@[h]@.len() && (g != h || i != j)
                            ==> (#[trigger] groups@[g]@[i])@ != (#[trigger] groups@[h]@[j])@
                },
                Err(_) => false,
            }
        }),
{
    graph.wf_is_valid();
    let t = graph@.topology;
    laws::dependencies_are_reached(t, a@, b@);
    laws::dependencies_are_reached(t, b@, a@);
    assert(!t.depends_on_itself(a@) <==> !t.edges.contains((a@, a@)));
    let entangled = dependencies_a@.contains(b@) && dependencies_b@.contains(a@);
    if a@ != b@ && reach::reaches(t.edges, a@, b@) && reach::reaches(t.edges, b@, a@) {
        let next = reach::reaches_first_step(t.edges, a@, b@);
        let back = reach::reaches_first_step(t.edges, b@, a@);
        assert(t.edges.contains((a@, next)));
        assert(t.edges.contains((b@, back)));
    }
    assert(entangled <==> t.entangled(a@, b@));
    if let Err(Error::InvalidPackageGraph(GraphError::CyclicDependencies(groups))) = result {
        if t.has_cycle() {
            let (x, y) = choose|x: NodeView, y: NodeView| t.entangled(x, y);
            assert(t.entangled(x, y));
        }
        if entangled {
            let g = choose|g: int|
                0 <= g < groups@.len() && #[trigger] validate::group_view(groups@[g]@).contains(a@);
            let view = validate::group_view(groups@[g]@);
            assert(validate::is_group(t, view, a@));
            assert(view.contains(b@));
            let i = choose|i: int| 0 <= i < view.len() && view[i] == a@;
            let j = choose|j: int| 0 <= j < view.len() && view[j] == b@;
            assert(groups@[g]@[i]@ == a@);
            assert(groups@[g]@[j]@ == b@);
        }
        assert forall|g: int, i: int, j: int|
            0 <= g < groups@.len() && 0 <= i < groups@[g]@.len() && 0 <= j < groups@[g]@.len() && i
                != j && (#[trigger] groups@[g]@[i])@ == a@ && (#[trigger] groups@[g]@[j])@
                == b@ implies entangled by {
            let view = validate::group_view(groups@[g]@);
            assert(view[i] == a@);
            assert(view[j] == b@);
            assert(view.contains(a@));
            assert(view.contains(b@));
            assert(validate::is_group(t, view, a@));
            assert(view[i] != view[j]);
        }
        assert forall|g: int, i: int, h: int, j: int|
            0 <= g < groups@.len() && 0 <= i < groups@[g]@.len() && 0 <= h < groups@.len() && 0 <= j
                < groups@[h]@.len() && (g != h || i != j) implies (#[trigger] groups@[g]@[i])@ != (
        #[trigger] groups@[h]@[j])@ by {
            let (x, y) = (
                validate::group_view(groups@[g]@),
                validate::group_view(groups@[h]@),
            );
            assert(x[i] == groups@[g]@[i]@);
            assert(y[j] == groups@[h]@[j]@);
            assert(x.contains(x[i]));
            assert(y.contains(y[j]));
            assert(validate::is_group(t, x, x[i]));
        }
    }
}

/// A graph is refused only where some node has a way back to itself.
pub proof fn refused_graph_has_a_cycle<J, M, L>(
    graph: &PackageGraph<J, M, L>,
    result: Result<(), Error>,
)
    requires
        graph.wf(),
        call_ensures(PackageGraph::<J, M, L>::validate, (graph,), result),
    ensures
        result is Err <==> exists|from: NodeView, to: NodeView| #[trigger]
            graph@.topology.edges.contains((from, to)) && reach::reaches(
                graph@.topology.edges,
                to,
                from,
            ),
{
    laws::validated_is_acyclic(graph@.topology);
}

/// What is asked of one workspace is what is known of it, and nothing is known of a workspace that
/// is not in the graph. The directory of a workspace is where its `package.json` lies, and the root
/// where that has no parent.
pub proof fn workspace_answered<J, M, L>(
    graph: &PackageGraph<J, M, L>,
    name: &WorkspaceName,
    info: Option<&WorkspaceInfo<J>>,
    package_json: Option<&J>,
    dependencies: Option<&ExternalDependencies>,
    dir: Option<AnchoredSystemPath<'_>>,
)
    requires
        call_ensures(PackageGraph::<J, M, L>::workspace_info, (graph, name), info),
        call_ensures(PackageGraph::<J, M, L>::package_json, (graph, name), package_json),
        call_ensures(PackageGraph::<J, M, L>::external_dependencies, (graph, name), dependencies),
        call_ensures(PackageGraph::<J, M, L>::workspace_dir, (graph, name), dir),
    ensures
        match info {
            Some(info) => {
                &&& package_json == Some(&info.package_json)
                &&& match info.unresolved_external_dependencies {
                    Some(known) => dependencies == Some(&known),
                    None => dependencies is None,
                }
                &&& dir matches Some(dir) && if info.package_json_path@.len() == 0 {
                    dir@.len() == 0
                } else {
                    info.package_json_path@ == dir@.push(info.package_json_path@.last())
                }
            },
            None => package_json is None && dependencies is None && dir is None,
        },
{
    if let Some(info) = info {
        let path = info.package_json_path@;
        if path.len() > 0 {
            assert(path =~= path.drop_last().push(path.last()));
        }
    }
}

/// The workspaces are listed with what is known of them, each once, the root among them. There are
/// as many as the length says, so a graph is never empty.
pub proof fn workspaces_listed<J, M, L>(
    graph: &PackageGraph<J, M, L>,
    listed: Vec<(&WorkspaceName, &WorkspaceInfo<J>)>,
    len: usize,
    empty: bool,
    root: &J,
    name: &WorkspaceName,
    info: Option<&WorkspaceInfo<J>>,
)
    requires
        graph.wf(),
        call_ensures(PackageGraph::<J, M, L>::workspaces, (graph,), listed),
        call_ensures(PackageGraph::<J, M, L>::len, (graph,), len),
        call_ensures(PackageGraph::<J, M, L>::is_empty, (graph,), empty),
        call_ensures(PackageGraph::<J, M, L>::root_package_json, (graph,), root),
        call_ensures(PackageGraph::<J, M, L>::workspace_info, (graph, name), info),
    ensures
        len == listed@.len(),
        len > 0,
        !empty,
        info is Some <==> exists|i: int|
            0 <= i < listed@.len() && (#[trigger] listed@[i]).0@ == name@,
        forall|i: int|
            0 <= i < listed@.len() && (#[trigger] listed@[i]).0@ == name@ ==> info == Some(
                listed@[i].1,
            ),
        forall|i: int, j: int|
            0 <= i < j < listed@.len() ==> (#[trigger] listed@[i]).0@ != (#[trigger] listed@[j]).0@,
        exists|i: int|
            0 <= i < listed@.len() && (#[trigger] listed@[i]).0@ == NameView::Root
                && listed@[i].1.package_json == *root,
{
    graph.wf_is_valid();
    laws::never_empty(graph@);
    let order = graph@.order;
    order.unique_seq_to_set();
    assert forall|other: NameView| graph@.workspaces.contains_key(other) implies exists|i: int|
        0 <= i < listed@.len() && (#[trigger] listed@[i]).0@ == other by {
        assert(order.to_set().contains(other));
        let i = choose|i: int| 0 <= i < order.len() && order[i] == other;
        assert(listed@[i].0@ == other);
    }
    assert forall|i: int| 0 <= i < listed@.len() implies graph@.workspaces.contains_key(
        (#[trigger] listed@[i]).0@,
    ) by {
        assert(order.to_set().contains(order[i]));
        assert(graph@.workspaces.dom().contains(order[i]));
    }
    assert(graph@.workspaces.contains_key(NameView::Root));
}

/// What is asked of a graph is what its view has.
pub proof fn view_answered<J, M, L>(
    graph: &PackageGraph<J, M, L>,
    manager: &M,
    lockfile: Option<&L>,
    name: &WorkspaceName,
    info: Option<&WorkspaceInfo<J>>,
)
    requires
        call_ensures(PackageGraph::<J, M, L>::package_manager, (graph,), manager),
        call_ensures(PackageGraph::<J, M, L>::lockfile, (graph,), lockfile),
        call_ensures(PackageGraph::<J, M, L>::workspace_info, (graph, name), info),
    ensures
        graph@.package_manager == *manager,
        graph@.lockfile == match lockfile {
            Some(lockfile) => Some(*lockfile),
            None => None,
        },
        graph@.workspaces.contains_key(name@) <==> info is Some,
        info matches Some(info) ==> graph@.workspaces[name@] == *info,
{
}

} // verus!
