//! What holds of every package graph.

use super::builder::BuilderView;
use super::changes;
use super::packages;
use super::packages::NamedPackage;
use super::topology;
use super::topology::Topology;
use super::{PackageGraphView, WorkspaceInfo};
use crate::collections;
use crate::collections::VecSet;
use crate::lockfile;
use crate::lockfile::{Package, PackageView};
use crate::name::{NameView, NodeView, WorkspaceNode, ROOT_PKG_NAME};
use crate::path;
use crate::reach;
use vstd::prelude::*;

verus! {

/// The closure of some nodes has those of them that are in the graph.
pub proof fn closure_has_starts(t: Topology, starts: Set<NodeView>)
    ensures
        starts.intersect(t.nodes).subset_of(t.closure(starts)),
{
    assert forall|node: NodeView| starts.intersect(t.nodes).contains(node) implies t.closure(
        starts,
    ).contains(node) by {
        reach::reaches_reflexive(t.edges, node);
    }
}

/// The closure stays within the graph.
pub proof fn closure_within_graph(t: Topology, starts: Set<NodeView>)
    requires
        t.valid(),
    ensures
        t.closure(starts).subset_of(t.nodes),
{
    assert forall|node: NodeView| t.closure(starts).contains(node) implies t.nodes.contains(
        node,
    ) by {
        let known = starts.intersect(t.nodes);
        let start = choose|start: NodeView|
            known.contains(start) && #[trigger] reach::reaches(t.edges, start, node);
        if start != node {
            reach::reaches_reversed(t.edges, node, start);
            let from = reach::reaches_first_step(reach::reversed(t.edges), node, start);
            assert(t.edges.contains((from, node)));
        }
    }
}

/// The closure has every dependency of each of its nodes.
pub proof fn closure_is_closed(t: Topology, starts: Set<NodeView>, from: NodeView, to: NodeView)
    requires
        t.closure(starts).contains(from),
        t.edges.contains((from, to)),
    ensures
        t.closure(starts).contains(to),
{
    let known = starts.intersect(t.nodes);
    let start = choose|start: NodeView|
        known.contains(start) && #[trigger] reach::reaches(t.edges, start, from);
    reach::reaches_edge(t.edges, from, to);
    reach::reaches_transitive(t.edges, start, from, to);
}

/// The closure is the least set of that kind: any set that has the given nodes of the graph, and
/// with a node its dependencies, has all of the closure.
pub proof fn closure_is_least(t: Topology, starts: Set<NodeView>, other: Set<NodeView>)
    requires
        starts.intersect(t.nodes).subset_of(other),
        forall|from: NodeView, to: NodeView| #[trigger]
            t.edges.contains((from, to)) && other.contains(from) ==> other.contains(to),
    ensures
        t.closure(starts).subset_of(other),
{
    assert forall|node: NodeView| t.closure(starts).contains(node) implies other.contains(node) by {
        let known = starts.intersect(t.nodes);
        let start = choose|start: NodeView|
            known.contains(start) && #[trigger] reach::reaches(t.edges, start, node);
        let path = choose|path: Seq<NodeView>| reach::is_path(t.edges, path, start, node);
        path_stays(t, path, other, path.len() - 1);
    }
}

proof fn path_stays(t: Topology, path: Seq<NodeView>, set: Set<NodeView>, i: int)
    requires
        forall|from: NodeView, to: NodeView| #[trigger]
            t.edges.contains((from, to)) && set.contains(from) ==> set.contains(to),
        forall|k: int| 0 <= k < path.len() - 1 ==> #[trigger] reach::is_step(t.edges, path, k),
        0 <= i < path.len(),
        set.contains(path[0]),
    ensures
        set.contains(path[i]),
    decreases i,
{
    if i > 0 {
        path_stays(t, path, set, i - 1);
        assert(reach::is_step(t.edges, path, i - 1));
    }
}

/// Nothing is added by closing a closure once more.
pub proof fn closure_idempotent(t: Topology, starts: Set<NodeView>)
    requires
        t.valid(),
    ensures
        t.closure(t.closure(starts)) == t.closure(starts),
{
    let once = t.closure(starts);
    let twice = t.closure(once);
    closure_within_graph(t, starts);
    closure_has_starts(t, once);
    assert forall|from: NodeView, to: NodeView| #[trigger]
        t.edges.contains((from, to)) && once.contains(from) implies once.contains(to) by {
        closure_is_closed(t, starts, from, to);
    }
    closure_is_least(t, once, once);
    assert(twice =~= once);
}

/// The closure of the nodes of two sets is what the closures of the sets have between them.
pub proof fn closure_of_union(t: Topology, a: Set<NodeView>, b: Set<NodeView>)
    ensures
        t.closure(a.union(b)) == t.closure(a).union(t.closure(b)),
{
    let both = t.closure(a.union(b));
    let apart = t.closure(a).union(t.closure(b));
    assert forall|node: NodeView| both.contains(node) implies apart.contains(node) by {
        let start = choose|start: NodeView|
            a.union(b).intersect(t.nodes).contains(start) && #[trigger] reach::reaches(
                t.edges,
                start,
                node,
            );
        assert(a.intersect(t.nodes).contains(start) || b.intersect(t.nodes).contains(start));
    }
    assert forall|node: NodeView| apart.contains(node) implies both.contains(node) by {
        let start = choose|start: NodeView|
            (a.intersect(t.nodes).contains(start) || b.intersect(t.nodes).contains(start))
                && #[trigger] reach::reaches(t.edges, start, node);
        assert(a.union(b).intersect(t.nodes).contains(start));
    }
    assert(both =~= apart);
}

/// Nodes that are not in the graph add nothing to the closure, whichever way edges are followed. Of
/// such nodes alone the closure is empty.
pub proof fn closure_ignores_unknown_nodes(t: Topology, starts: Set<NodeView>)
    ensures
        t.closure(starts) == t.closure(starts.intersect(t.nodes)),
        t.reversed().closure(starts) == t.reversed().closure(starts.intersect(t.nodes)),
        starts.disjoint(t.nodes) ==> t.closure(starts) == Set::<NodeView>::empty(),
        starts.disjoint(t.nodes) ==> t.reversed().closure(starts) == Set::<NodeView>::empty(),
{
    let known = starts.intersect(t.nodes);
    assert(known.intersect(t.nodes) =~= known);
    if starts.disjoint(t.nodes) {
        assert(known =~= Set::<NodeView>::empty());
        assert(t.closure(starts) =~= Set::<NodeView>::empty());
        assert(t.reversed().closure(starts) =~= Set::<NodeView>::empty());
    }
}

/// The closure follows from which nodes of the graph are given: their order, how often each is given
/// and what is given besides them do not matter, whichever way edges are followed.
pub proof fn closure_follows_from_known_nodes(
    t: Topology,
    a: Seq<&WorkspaceNode>,
    b: Seq<&WorkspaceNode>,
)
    requires
        forall|node: NodeView| #[trigger]
            t.nodes.contains(node) ==> (collections::view_set(a).contains(node)
                <==> collections::view_set(b).contains(node)),
    ensures
        t.closure(collections::view_set(a)) == t.closure(collections::view_set(b)),
        t.reversed().closure(collections::view_set(a)) == t.reversed().closure(
            collections::view_set(b),
        ),
{
    assert(collections::view_set(a).intersect(t.nodes) =~= collections::view_set(b).intersect(
        t.nodes,
    ));
}

/// A node that is not in the graph has an empty closure, no dependencies and no ancestors.
pub proof fn unknown_node_has_none(t: Topology, node: NodeView)
    requires
        !t.nodes.contains(node),
    ensures
        t.closure(set![node]) == Set::<NodeView>::empty(),
        t.dependencies(node) == Set::<NodeView>::empty(),
        t.ancestors(node) == Set::<NodeView>::empty(),
{
    assert(set![node].intersect(t.nodes) =~= Set::empty());
    assert(t.closure(set![node]) =~= Set::<NodeView>::empty());
    assert(t.reversed().closure(set![node]) =~= Set::<NodeView>::empty());
    assert(t.dependencies(node) =~= Set::<NodeView>::empty());
    assert(t.ancestors(node) =~= Set::<NodeView>::empty());
}

/// The closure of a node of the graph is the node together with its dependencies, which do not
/// include it.
pub proof fn closure_is_node_and_dependencies(t: Topology, node: NodeView)
    requires
        t.nodes.contains(node),
    ensures
        !t.dependencies(node).contains(node),
        t.closure(set![node]) == t.dependencies(node).insert(node),
{
    closure_has_starts(t, set![node]);
    assert(set![node].intersect(t.nodes).contains(node));
    assert(t.closure(set![node]) =~= t.dependencies(node).insert(node));
}

/// What a node reaches, other than itself, is what it depends on.
pub proof fn dependencies_are_reached(t: Topology, a: NodeView, b: NodeView)
    ensures
        t.dependencies(a).contains(b) <==> a != b && t.nodes.contains(a) && reach::reaches(
            t.edges,
            a,
            b,
        ),
{
    if t.dependencies(a).contains(b) {
        let start = choose|start: NodeView|
            set![a].intersect(t.nodes).contains(start) && #[trigger] reach::reaches(
                t.edges,
                start,
                b,
            );
        assert(start == a);
    }
    if a != b && t.nodes.contains(a) && reach::reaches(t.edges, a, b) {
        assert(set![a].intersect(t.nodes).contains(a));
    }
}

/// What reaches a node, other than itself, depends on it.
pub proof fn ancestors_reach(t: Topology, a: NodeView, b: NodeView)
    ensures
        t.ancestors(b).contains(a) <==> a != b && t.nodes.contains(b) && reach::reaches(
            t.edges,
            a,
            b,
        ),
{
    dependencies_are_reached(t.reversed(), b, a);
    reach::reaches_reversed(t.edges, b, a);
}

/// One node depends on another just where the other has it as an ancestor.
pub proof fn dependencies_mirror_ancestors(t: Topology, a: NodeView, b: NodeView)
    requires
        t.valid(),
    ensures
        t.dependencies(a).contains(b) <==> t.ancestors(b).contains(a),
{
    dependencies_are_reached(t, a, b);
    ancestors_reach(t, a, b);
    if a != b && reach::reaches(t.edges, a, b) {
        let via = reach::reaches_first_step(t.edges, a, b);
        closure_has_starts(t, set![a]);
        assert(set![a].intersect(t.nodes).contains(a));
        assert(t.closure(set![a]).contains(b));
        closure_within_graph(t, set![a]);
    }
}

/// One node is in the closure of another just where the other is in its closure with edges followed
/// the other way.
pub proof fn closure_mirrors(t: Topology, a: NodeView, b: NodeView)
    requires
        t.valid(),
    ensures
        t.closure(set![a]).contains(b) <==> t.reversed().closure(set![b]).contains(a),
{
    dependencies_mirror_ancestors(t, a, b);
    if a == b {
        if t.nodes.contains(a) {
            closure_is_node_and_dependencies(t, a);
            closure_is_node_and_dependencies(t.reversed(), a);
        } else {
            unknown_node_has_none(t, a);
            unknown_node_has_none(t.reversed(), a);
        }
    }
}

/// One node depends directly on another just where the other has it as an immediate ancestor.
pub proof fn immediate_dependencies_mirror_ancestors(t: Topology, a: NodeView, b: NodeView)
    ensures
        t.immediate_dependencies(a).contains(b) <==> t.immediate_ancestors(b).contains(a),
{
}

/// The dependencies of a node are its immediate dependencies and what is reached from them, without
/// the node itself.
pub proof fn dependencies_through_immediate(t: Topology, node: NodeView)
    requires
        t.valid(),
    ensures
        t.dependencies(node) == t.closure(t.immediate_dependencies(node)).remove(node),
{
    let immediate = t.immediate_dependencies(node);
    let through = t.closure(immediate).remove(node);
    assert forall|other: NodeView| t.dependencies(node).contains(other) implies through.contains(
        other,
    ) by {
        dependencies_are_reached(t, node, other);
        let via = reach::reaches_first_step(t.edges, node, other);
        assert(immediate.intersect(t.nodes).contains(via));
    }
    assert forall|other: NodeView| through.contains(other) implies t.dependencies(node).contains(
        other,
    ) by {
        let via = choose|via: NodeView|
            immediate.intersect(t.nodes).contains(via) && #[trigger] reach::reaches(
                t.edges,
                via,
                other,
            );
        reach::reaches_edge(t.edges, node, via);
        reach::reaches_transitive(t.edges, node, via, other);
        dependencies_are_reached(t, node, other);
    }
    assert(t.dependencies(node) =~= through);
}

/// What a dependency depends on is a dependency.
pub proof fn dependencies_transitive(t: Topology, a: NodeView, b: NodeView, c: NodeView)
    requires
        t.dependencies(a).contains(b),
        t.dependencies(b).contains(c),
        a != c,
    ensures
        t.dependencies(a).contains(c),
{
    dependencies_are_reached(t, a, b);
    dependencies_are_reached(t, b, c);
    reach::reaches_transitive(t.edges, a, b, c);
    dependencies_are_reached(t, a, c);
}

/// A graph that passes validation has no way from a node back to itself, and one that has none
/// passes.
pub proof fn validated_is_acyclic(t: Topology)
    ensures
        !t.has_cycle() && (forall|node: NodeView| !#[trigger] t.depends_on_itself(node)) <==> (
        forall|from: NodeView, to: NodeView| #[trigger]
            t.edges.contains((from, to)) ==> !reach::reaches(t.edges, to, from)),
{
    if !t.has_cycle() && (forall|node: NodeView| !#[trigger] t.depends_on_itself(node)) {
        assert forall|from: NodeView, to: NodeView| #[trigger]
            t.edges.contains((from, to)) implies !reach::reaches(t.edges, to, from) by {
            assert(!t.depends_on_itself(from));
            reach::reaches_edge(t.edges, from, to);
            assert(!t.entangled(from, to));
        }
    }
    if forall|from: NodeView, to: NodeView| #[trigger]
        t.edges.contains((from, to)) ==> !reach::reaches(t.edges, to, from) {
        assert forall|node: NodeView| !#[trigger] t.depends_on_itself(node) by {
            reach::reaches_reflexive(t.edges, node);
        }
        if t.has_cycle() {
            let (a, b) = choose|a: NodeView, b: NodeView| t.entangled(a, b);
            let via = reach::reaches_first_step(t.edges, a, b);
            reach::reaches_transitive(t.edges, via, b, a);
        }
    }
}

/// The root workspace depends on the root node, in every package graph.
pub proof fn root_workspace_depends_on_root_node<PackageJson, PackageManager, L>(
    graph: PackageGraphView<PackageJson, PackageManager, L>,
)
    requires
        graph.valid(),
    ensures
        graph.topology.immediate_dependencies(NodeView::Workspace(NameView::Root)).contains(
            NodeView::Root,
        ),
        graph.topology.closure(set![NodeView::Workspace(NameView::Root)]).contains(NodeView::Root),
{
    let root = NodeView::Workspace(NameView::Root);
    assert(graph.topology.edges.contains((root, NodeView::Root)));
    closure_has_starts(graph.topology, set![root]);
    assert(set![root].intersect(graph.topology.nodes).contains(root));
    closure_is_closed(graph.topology, set![root], root, NodeView::Root);
}

/// Where a graph passes validation, and every node but the root node depends on something, every
/// node depends on the root node, directly or not.
pub proof fn validated_nodes_reach_the_root(t: Topology, node: NodeView)
    requires
        t.valid(),
        t.nodes.finite(),
        t.nodes.contains(node),
        !t.has_cycle(),
        forall|other: NodeView| !#[trigger] t.depends_on_itself(other),
        forall|other: NodeView| #[trigger]
            t.nodes.contains(other) && other != NodeView::Root ==> exists|to: NodeView| #[trigger]
                t.edges.contains((other, to)),
    ensures
        t.closure(set![node]).contains(NodeView::Root),
    decreases t.closure(set![node]).len(),
{
    closure_is_node_and_dependencies(t, node);
    if node != NodeView::Root {
        let next = choose|next: NodeView| #[trigger] t.edges.contains((node, next));
        let (whole, rest) = (t.closure(set![node]), t.closure(set![next]));
        assert(!t.depends_on_itself(node));
        reach::reaches_edge(t.edges, node, next);
        assert(!t.entangled(node, next));
        dependencies_are_reached(t, next, node);
        assert(!rest.contains(node));
        assert forall|other: NodeView| rest.contains(other) implies whole.contains(other) by {
            if other != next {
                dependencies_are_reached(t, next, other);
            }
            reach::reaches_reflexive(t.edges, next);
            reach::reaches_transitive(t.edges, node, next, other);
            dependencies_are_reached(t, node, other);
        }
        closure_within_graph(t, set![node]);
        vstd::set_lib::lemma_len_subset(whole, t.nodes);
        assert(rest.subset_of(whole.remove(node)));
        vstd::set_lib::lemma_len_subset(rest, whole.remove(node));
        validated_nodes_reach_the_root(t, next);
    }
}

/// A builder to which nothing but packages was added has no dependency on an unknown node, and all
/// nodes but the root node depend on something.
pub proof fn packages_can_be_built<PackageJson, PackageManager, L>(
    builder: BuilderView<PackageJson, PackageManager, L>,
    packages: Seq<NamedPackage<PackageJson>>,
)
    requires
        builder.order == packages::order_with(
            seq![NameView::Root],
            packages::package_names(packages),
        ),
        builder.dependencies == seq![topology::root_edge()] + packages::all_edges(
            packages::package_names(packages).to_set(),
            packages,
        ),
    ensures
        forall|i: int|
            0 <= i < builder.dependencies.len() ==> builder.is_known(
                #[trigger] builder.dependencies[i],
            ),
        builder.graph().topology.valid(),
        builder.graph().topology.nodes.finite(),
        forall|node: NodeView| #[trigger]
            builder.nodes().contains(node) && node != NodeView::Root ==> exists|to: NodeView| #[trigger]
                builder.graph().topology.edges.contains((node, to)),
{
    let names = packages::package_names(packages);
    let edges = packages::all_edges(names.to_set(), packages);
    let all = builder.dependencies;
    let nodes = topology::node_order(builder.order);
    packages::packages_hang_together(packages);
    assert(nodes[0] == NodeView::Root);
    assert forall|name: NameView| name == NameView::Root || names.contains(name) implies (
    #[trigger] builder.nodes().contains(NodeView::Workspace(name))) by {
        packages::order_with_has_names(seq![NameView::Root], names, name);
        assert(seq![NameView::Root][0] == NameView::Root);
        let k = choose|k: int| 0 <= k < builder.order.len() && builder.order[k] == name;
        assert(nodes[k + 1] == NodeView::Workspace(name));
    }
    assert forall|i: int| 0 <= i < all.len() implies builder.is_known(#[trigger] all[i]) by {
        if i > 0 {
            assert(all[i] == edges[i - 1]);
            assert(edges.contains((all[i].0, all[i].1)));
        }
    }
    assert forall|from: NodeView, to: NodeView| #[trigger]
        builder.graph().topology.edges.contains((from, to)) implies builder.nodes().contains(from)
        && builder.nodes().contains(to) by {
        let i = choose|i: int| 0 <= i < all.len() && all[i] == (from, to);
        assert(builder.is_known(all[i]));
    }
    vstd::seq_lib::seq_to_set_is_finite(nodes);
    assert forall|node: NodeView| #[trigger]
        builder.nodes().contains(node) && node != NodeView::Root implies exists|to: NodeView| #[trigger]
        builder.graph().topology.edges.contains((node, to)) by {
        let k = choose|k: int| 0 <= k < nodes.len() && nodes[k] == node;
        let name = builder.order[k - 1];
        packages::order_with_has_names(seq![NameView::Root], names, name);
        assert(builder.order.contains(name));
        if names.contains(name) {
            assert(names.to_set().contains(name));
            let to = choose|to: NodeView| #[trigger]
                edges.contains((NodeView::Workspace(name), to));
            let i = choose|i: int| 0 <= i < edges.len() && edges[i] == (node, to);
            assert(all[i + 1] == (node, to));
            assert(builder.graph().topology.edges.contains((node, to)));
        } else {
            assert(all[0] == (node, NodeView::Root));
            assert(builder.graph().topology.edges.contains((node, NodeView::Root)));
        }
    }
}

/// Where a graph passes validation, nothing that a node depends on depends on it.
pub proof fn validated_dependencies_are_not_ancestors(t: Topology, node: NodeView)
    requires
        !t.has_cycle(),
    ensures
        t.dependencies(node).disjoint(t.ancestors(node)),
{
    assert forall|other: NodeView| t.dependencies(node).contains(other) implies !t.ancestors(
        node,
    ).contains(other) by {
        dependencies_are_reached(t, node, other);
        ancestors_reach(t, other, node);
        assert(!t.entangled(node, other));
    }
}

/// Once the dependencies between workspaces are removed, the nodes are the same, an edge is there
/// just where there was one to the root node, no node depends on another than the root node, no
/// other node depends on itself, no node depends on anything new, and there is no cycle; to remove
/// them again changes nothing.
pub proof fn only_the_root_is_depended_on(t: Topology, node: NodeView)
    requires
        t.valid(),
    ensures
        t.without_workspace_dependencies().valid(),
        t.without_workspace_dependencies().nodes == t.nodes,
        t.without_workspace_dependencies().immediate_dependencies(node).contains(NodeView::Root)
            <==> t.edges.contains((node, NodeView::Root)),
        t.without_workspace_dependencies().immediate_dependencies(node).subset_of(
            set![NodeView::Root],
        ),
        t.without_workspace_dependencies().dependencies(node).subset_of(set![NodeView::Root]),
        t.without_workspace_dependencies().dependencies(node).subset_of(t.dependencies(node)),
        t.without_workspace_dependencies().depends_on_itself(node) ==> node == NodeView::Root,
        !t.without_workspace_dependencies().has_cycle(),
        t.without_workspace_dependencies().without_workspace_dependencies()
            == t.without_workspace_dependencies(),
{
    let after = t.without_workspace_dependencies();
    assert forall|other: NodeView| after.dependencies(node).contains(
        other,
    ) implies set![NodeView::Root].contains(other) by {
        dependencies_are_reached(after, node, other);
        leads_to_root(after, node, other);
    }
    assert forall|other: NodeView| after.dependencies(node).contains(other) implies t.dependencies(
        node,
    ).contains(other) by {
        dependencies_are_reached(after, node, other);
        reach::reaches_monotone(after.edges, t.edges, node, other);
        dependencies_are_reached(t, node, other);
    }
    if after.has_cycle() {
        let (a, b) = choose|a: NodeView, b: NodeView| after.entangled(a, b);
        leads_to_root(after, a, b);
        leads_to_root(after, b, a);
    }
    assert(after.without_workspace_dependencies() =~= after);
}

proof fn leads_to_root(t: Topology, from: NodeView, to: NodeView)
    requires
        forall|edge: (NodeView, NodeView)| #[trigger]
            t.edges.contains(edge) ==> edge.1 == NodeView::Root,
        reach::reaches(t.edges, from, to),
        from != to,
    ensures
        to == NodeView::Root,
{
    let path = choose|path: Seq<NodeView>| reach::is_path(t.edges, path, from, to);
    assert(reach::is_step(t.edges, path, path.len() - 2));
}

/// A package graph has at least the root workspace, so it is never empty, and one node more than
/// workspaces.
pub proof fn never_empty<PackageJson, PackageManager, L>(
    graph: PackageGraphView<PackageJson, PackageManager, L>,
)
    requires
        graph.valid(),
    ensures
        graph.workspaces.dom().finite(),
        graph.workspaces.len() >= 1,
        !graph.workspaces.is_empty(),
        graph.topology.nodes.len() == graph.workspaces.len() + 1,
        graph.topology.nodes.contains(NodeView::Root),
        forall|name: NameView| #[trigger]
            graph.topology.nodes.contains(NodeView::Workspace(name))
                <==> graph.workspaces.contains_key(name),
{
    let order = graph.order;
    let nodes = topology::node_order(order);
    order.unique_seq_to_set();
    vstd::seq_lib::seq_to_set_is_finite(order);
    assert(graph.workspaces.dom().contains(NameView::Root));
    assert(order.to_set().contains(NameView::Root));
    assert(nodes[0] == NodeView::Root);
    topology::node_order_distinct(order);
    nodes.unique_seq_to_set();
    assert forall|name: NameView| #[trigger]
        graph.topology.nodes.contains(NodeView::Workspace(name))
            <==> graph.workspaces.contains_key(name) by {
        if nodes.to_set().contains(NodeView::Workspace(name)) {
            let i = choose|i: int| 0 <= i < nodes.len() && nodes[i] == NodeView::Workspace(name);
            assert(order[i - 1] == name);
            assert(order.to_set().contains(name));
        }
        if graph.workspaces.dom().contains(name) {
            assert(order.to_set().contains(name));
            let i = choose|i: int| 0 <= i < order.len() && order[i] == name;
            assert(nodes[i + 1] == NodeView::Workspace(name));
        }
    }
    assert(!graph.workspaces.is_empty());
}

/// To read a text as a name and write it again gives the text.
pub proof fn parsed_name_has_its_text(text: Seq<char>)
    ensures
        NameView::parse(text).text() == text,
{
}

/// To write a name and read it again gives the name, unless it is that of another workspace and
/// written like the root.
pub proof fn written_name_is_parsed(name: NameView)
    requires
        name != NameView::Other(ROOT_PKG_NAME@),
    ensures
        NameView::parse(name.text()) == name,
{
}

/// The node of a workspace stands for it and is written like it. The root node stands for the root
/// workspace, as the node of that workspace does, but is written otherwise.
pub proof fn node_stands_for_workspace(name: NameView)
    ensures
        NodeView::Workspace(name).workspace() == name,
        NodeView::Workspace(name).text() == name.text(),
        NodeView::Root.workspace() == NameView::Root,
        NodeView::Root.text() != NodeView::Workspace(NameView::Root).text(),
{
    reveal_strlit("//");
    reveal_strlit("___ROOT___");
    assert(NodeView::Root.text().len() != NodeView::Workspace(NameView::Root).text().len());
}

/// The packages of the workspaces of two sets are those that the sets have between them.
pub proof fn external_packages_of_union<PackageJson, PackageManager, L>(
    graph: PackageGraphView<PackageJson, PackageManager, L>,
    a: Set<NameView>,
    b: Set<NameView>,
)
    ensures
        graph.external_packages(a.union(b)) == graph.external_packages(a).union(
            graph.external_packages(b),
        ),
{
    let both = graph.external_packages(a.union(b));
    let apart = graph.external_packages(a).union(graph.external_packages(b));
    assert forall|package: PackageView| apart.contains(package) implies both.contains(package) by {
        let name = choose|name: NameView|
            (a.contains(name) || b.contains(name)) && #[trigger] graph.has_package(name, package);
        assert(a.union(b).contains(name));
    }
    assert(both =~= apart);
}

/// The workspaces that need to be revalidated are workspaces of the graph, each once; every one
/// that has changed is among them; where the change concerns every workspace, and where the root is
/// among them, all are.
pub proof fn changed_packages_are_workspaces<PackageJson, PackageManager, L>(
    graph: PackageGraphView<PackageJson, PackageManager, L>,
    closures: Map<Seq<char>, VecSet<Package>>,
    global_change: bool,
)
    requires
        graph.valid(),
    ensures
        graph.changed_packages(closures, global_change).no_duplicates(),
        forall|name: NameView| #[trigger]
            graph.changed_packages(closures, global_change).contains(name)
                ==> graph.workspaces.contains_key(name),
        forall|name: NameView|
            graph.workspaces.contains_key(name) && #[trigger] graph.workspaces[name].is_changed(
                closures,
            ) ==> graph.changed_packages(closures, global_change).contains(name),
        global_change || graph.changed_packages(closures, global_change).contains(NameView::Root)
            ==> graph.changed_packages(closures, global_change) == graph.order,
{
    let pred = |name: NameView| graph.workspaces[name].is_changed(closures);
    filter_keeps_distinct(graph.order, pred);
    assert forall|name: NameView| #[trigger]
        graph.changed_packages(closures, global_change).contains(
            name,
        ) implies graph.workspaces.contains_key(name) by {
        if graph.order.filter(pred).contains(name) {
            graph.order.lemma_filter_contains_rev(pred, name);
        }
        assert(graph.order.to_set().contains(name));
    }
    assert forall|name: NameView|
        graph.workspaces.contains_key(name) && #[trigger] graph.workspaces[name].is_changed(
            closures,
        ) implies graph.changed_packages(closures, global_change).contains(name) by {
        assert(graph.order.to_set().contains(name));
        let i = choose|i: int| 0 <= i < graph.order.len() && graph.order[i] == name;
        assert(pred(graph.order[i]));
        graph.order.lemma_filter_contains(pred, i);
    }
}

/// Where the change does not concern every workspace, and no workspace has changed, none needs to
/// be revalidated.
pub proof fn nothing_changed<PackageJson, PackageManager, L>(
    graph: PackageGraphView<PackageJson, PackageManager, L>,
    closures: Map<Seq<char>, VecSet<Package>>,
)
    requires
        graph.valid(),
        forall|name: NameView| #[trigger]
            graph.workspaces.contains_key(name) ==> !graph.workspaces[name].is_changed(closures),
    ensures
        graph.changed_packages(closures, false) == Seq::<NameView>::empty(),
{
    let pred = |name: NameView| graph.workspaces[name].is_changed(closures);
    assert forall|i: int| 0 <= i < graph.order.len() implies !pred(#[trigger] graph.order[i]) by {
        assert(graph.order.to_set().contains(graph.order[i]));
        assert(graph.workspaces.contains_key(graph.order[i]));
    }
    assert(graph.order.all(|name: NameView| !pred(name)));
    graph.order.lemma_all_neg_filter_empty(pred);
    assert(graph.changed_packages(closures, false) =~= Seq::<NameView>::empty());
}

/// Once the packages of each workspace are those that a lockfile resolved, that lockfile, if no
/// change concerns every workspace, gives no workspace to revalidate.
pub proof fn resolved_is_unchanged<PackageJson, PackageManager, L>(
    before: BuilderView<PackageJson, PackageManager, L>,
    after: BuilderView<PackageJson, PackageManager, L>,
    closures: Map<Seq<char>, VecSet<Package>>,
)
    requires
        before.is_resolved(after, closures),
        after.graph().valid(),
    ensures
        after.graph().requested() == before.graph().requested(),
        after.graph().changed_packages(closures, false) == Seq::<NameView>::empty(),
{
    let graph = after.graph();
    assert forall|name: NameView| #[trigger]
        graph.workspaces.contains_key(name) implies !graph.workspaces[name].is_changed(
        closures,
    ) by {
        assert(before.workspaces.contains_key(name));
    }
    nothing_changed(graph, closures);
    assert forall|i: int| 0 <= i < before.order.len() implies before.workspaces.contains_key(
        #[trigger] before.order[i],
    ) by {
        assert(graph.order.to_set().contains(before.order[i]));
    }
    same_requests(before.workspaces, after.workspaces, before.order);
}

proof fn same_requests<PackageJson>(
    before: Map<NameView, WorkspaceInfo<PackageJson>>,
    after: Map<NameView, WorkspaceInfo<PackageJson>>,
    order: Seq<NameView>,
)
    requires
        forall|i: int|
            0 <= i < order.len() ==> {
                let name = #[trigger] order[i];
                &&& after[name].unresolved_external_dependencies
                    == before[name].unresolved_external_dependencies
                &&& after[name].package_json_path == before[name].package_json_path
            },
    ensures
        changes::requested_by(after, order) == changes::requested_by(before, order),
    decreases order.len(),
{
    if order.len() > 0 {
        same_requests(before, after, order.drop_last());
        assert(order.last() == order[order.len() - 1]);
    }
}

/// Workspaces in different places have different texts as paths.
pub proof fn paths_are_told_apart<PackageJson, PackageManager, L>(
    graph: PackageGraphView<PackageJson, PackageManager, L>,
    a: NameView,
    b: NameView,
)
    requires
        graph.valid(),
        graph.workspaces.contains_key(a),
        graph.workspaces.contains_key(b),
        graph.workspaces[a].has_package_path(),
        graph.workspaces[b].has_package_path(),
    ensures
        graph.workspaces[a].unix_path() == graph.workspaces[b].unix_path() <==> (
        graph.workspaces[a].package_json_path@.drop_last()
            == graph.workspaces[b].package_json_path@.drop_last()),
{
    let x = graph.workspaces[a].package_json_path@.drop_last();
    let y = graph.workspaces[b].package_json_path@.drop_last();
    if graph.workspaces[a].unix_path() == graph.workspaces[b].unix_path() {
        path::unix_text_injective(x, y);
    }
}

proof fn filter_keeps_distinct<A>(items: Seq<A>, pred: spec_fn(A) -> bool)
    requires
        items.no_duplicates(),
    ensures
        items.filter(pred).no_duplicates(),
    decreases items.len(),
{
    reveal(Seq::filter);
    if items.len() > 0 {
        let rest = items.drop_last();
        filter_keeps_distinct(rest, pred);
        if pred(items.last()) {
            let kept = rest.filter(pred);
            assert(items.filter(pred) == kept.push(items.last()));
            if kept.contains(items.last()) {
                rest.lemma_filter_contains_rev(pred, items.last());
                let i = choose|i: int| 0 <= i < rest.len() && rest[i] == items.last();
                assert(items[i] == items[items.len() - 1]);
            }
        }
    }
}

/// A lockfile is asked for the paths of just those workspaces that have external dependencies.
pub proof fn requested_paths<PackageJson, PackageManager, L>(
    graph: PackageGraphView<PackageJson, PackageManager, L>,
    path: Seq<char>,
)
    requires
        graph.valid(),
    ensures
        graph.requested().contains_key(path) <==> exists|name: NameView| #[trigger]
            graph.workspaces.contains_key(name)
                && graph.workspaces[name].unresolved_external_dependencies is Some
                && graph.workspaces[name].unix_path() == path,
{
    requested_paths_of(graph.workspaces, graph.order, path);
    if graph.requested().contains_key(path) {
        let i = choose|i: int|
            0 <= i < graph.order.len() && asks_at(graph.workspaces, #[trigger] graph.order[i], path);
        assert(graph.order.to_set().contains(graph.order[i]));
        assert(graph.workspaces.contains_key(graph.order[i]));
    }
    if exists|name: NameView| #[trigger]
        graph.workspaces.contains_key(name)
            && graph.workspaces[name].unresolved_external_dependencies is Some
            && graph.workspaces[name].unix_path() == path {
        let name = choose|name: NameView| #[trigger]
            graph.workspaces.contains_key(name)
                && graph.workspaces[name].unresolved_external_dependencies is Some
                && graph.workspaces[name].unix_path() == path;
        assert(graph.order.to_set().contains(name));
        let i = choose|i: int| 0 <= i < graph.order.len() && graph.order[i] == name;
        assert(asks_at(graph.workspaces, graph.order[i], path));
    }
}

/// Where no other workspace has the path of a workspace, a lockfile is asked for the dependencies
/// of that workspace at its path.
pub proof fn requested_of_workspace<PackageJson, PackageManager, L>(
    graph: PackageGraphView<PackageJson, PackageManager, L>,
    name: NameView,
)
    requires
        graph.valid(),
        graph.workspaces.contains_key(name),
        graph.workspaces[name].unresolved_external_dependencies is Some,
        forall|other: NameView| #[trigger]
            graph.workspaces.contains_key(other) && graph.workspaces[other].unix_path()
                == graph.workspaces[name].unix_path() ==> other == name,
    ensures
        graph.requested().contains_key(graph.workspaces[name].unix_path()),
        graph.requested()[graph.workspaces[name].unix_path()] == lockfile::versions(
            graph.workspaces[name].unresolved_external_dependencies->0,
        ),
{
    assert(graph.order.to_set().contains(name));
    let i = choose|i: int| 0 <= i < graph.order.len() && graph.order[i] == name;
    assert forall|k: int| 0 <= k < graph.order.len() implies graph.workspaces.contains_key(
        #[trigger] graph.order[k],
    ) by {
        assert(graph.order.to_set().contains(graph.order[k]));
    }
    requested_of(graph.workspaces, graph.order, name);
}

spec fn asks_at<PackageJson>(
    workspaces: Map<NameView, WorkspaceInfo<PackageJson>>,
    name: NameView,
    path: Seq<char>,
) -> bool {
    workspaces[name].unresolved_external_dependencies is Some && workspaces[name].unix_path()
        == path
}

proof fn requested_paths_of<PackageJson>(
    workspaces: Map<NameView, WorkspaceInfo<PackageJson>>,
    order: Seq<NameView>,
    path: Seq<char>,
)
    ensures
        changes::requested_by(workspaces, order).contains_key(path) <==> exists|i: int|
            0 <= i < order.len() && asks_at(workspaces, #[trigger] order[i], path),
    decreases order.len(),
{
    if order.len() > 0 {
        let rest = order.drop_last();
        requested_paths_of(workspaces, rest, path);
        if changes::requested_by(workspaces, order).contains_key(path) {
            if changes::requested_by(workspaces, rest).contains_key(path) {
                let i = choose|i: int|
                    0 <= i < rest.len() && asks_at(workspaces, #[trigger] rest[i], path);
                assert(asks_at(workspaces, order[i], path));
            } else {
                assert(asks_at(workspaces, order[order.len() - 1], path));
            }
        }
        if exists|i: int| 0 <= i < order.len() && asks_at(workspaces, #[trigger] order[i], path) {
            let i = choose|i: int|
                0 <= i < order.len() && asks_at(workspaces, #[trigger] order[i], path);
            if i < rest.len() {
                assert(asks_at(workspaces, rest[i], path));
            }
        }
    }
}

proof fn requested_of<PackageJson>(
    workspaces: Map<NameView, WorkspaceInfo<PackageJson>>,
    order: Seq<NameView>,
    name: NameView,
)
    requires
        order.contains(name),
        workspaces[name].unresolved_external_dependencies is Some,
        forall|k: int|
            0 <= k < order.len() && workspaces[#[trigger] order[k]].unix_path()
                == workspaces[name].unix_path() ==> order[k] == name,
    ensures
        changes::requested_by(workspaces, order).contains_key(workspaces[name].unix_path()),
        changes::requested_by(workspaces, order)[workspaces[name].unix_path()]
            == lockfile::versions(workspaces[name].unresolved_external_dependencies->0),
    decreases order.len(),
{
    if order.last() != name {
        let rest = order.drop_last();
        let i = choose|i: int| 0 <= i < order.len() && order[i] == name;
        assert(rest[i] == name);
        assert forall|k: int|
            0 <= k < rest.len() && workspaces[#[trigger] rest[k]].unix_path()
                == workspaces[name].unix_path() implies rest[k] == name by {
            assert(order[k] == rest[k]);
        }
        requested_of(workspaces, rest, name);
        assert(order[order.len() - 1] == order.last());
    }
}

} // verus!
