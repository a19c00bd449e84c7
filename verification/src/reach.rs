//! Reachability along the edges of a directed graph.

use vstd::prelude::*;

verus! {

/// Whether `path` takes an edge from its `i`-th node to the next one.
pub open spec fn is_step<A>(edges: Set<(A, A)>, path: Seq<A>, i: int) -> bool {
    edges.contains((path[i], path[i + 1]))
}

/// Whether `path` leads from `from` to `to`, each node joined to the next by an edge.
pub open spec fn is_path<A>(edges: Set<(A, A)>, path: Seq<A>, from: A, to: A) -> bool {
    &&& path.len() > 0
    &&& path.first() == from
    &&& path.last() == to
    &&& forall|i: int| 0 <= i < path.len() - 1 ==> #[trigger] is_step(edges, path, i)
}

/// Whether some path leads from `from` to `to`. Every node reaches itself.
pub open spec fn reaches<A>(edges: Set<(A, A)>, from: A, to: A) -> bool {
    exists|path: Seq<A>| is_path(edges, path, from, to)
}

/// The nodes that some node of `starts` reaches.
pub open spec fn reachable<A>(edges: Set<(A, A)>, starts: Set<A>) -> Set<A> {
    Set::new(|node: A| exists|start: A| starts.contains(start) && #[trigger] reaches(edges, start, node))
}

/// The edges, turned round.
pub open spec fn reversed<A>(edges: Set<(A, A)>) -> Set<(A, A)> {
    Set::new(|edge: (A, A)| edges.contains((edge.1, edge.0)))
}

/// Every node reaches itself.
pub proof fn reaches_reflexive<A>(edges: Set<(A, A)>, node: A)
    ensures
        reaches(edges, node, node),
{
    assert(is_path(edges, seq![node], node, node));
}

/// The source of an edge reaches its target.
pub proof fn reaches_edge<A>(edges: Set<(A, A)>, from: A, to: A)
    requires
        edges.contains((from, to)),
    ensures
        reaches(edges, from, to),
{
    let path = seq![from, to];
    assert forall|i: int| 0 <= i < path.len() - 1 implies #[trigger] is_step(edges, path, i) by {
        assert(i == 0);
    }
    assert(is_path(edges, path, from, to));
}

/// What a reachable node reaches is reachable.
pub proof fn reaches_transitive<A>(edges: Set<(A, A)>, from: A, via: A, to: A)
    requires
        reaches(edges, from, via),
        reaches(edges, via, to),
    ensures
        reaches(edges, from, to),
{
    let first = choose|path: Seq<A>| is_path(edges, path, from, via);
    let second = choose|path: Seq<A>| is_path(edges, path, via, to);
    let path = first + second.drop_first();
    let joint = first.len() - 1;
    assert forall|i: int| 0 <= i < path.len() - 1 implies #[trigger] is_step(edges, path, i) by {
        if i < joint {
            assert(is_step(edges, first, i));
        } else {
            assert(is_step(edges, second, i - joint));
        }
    }
    assert(path.last() == to);
    assert(is_path(edges, path, from, to));
}

/// A node other than the start is reached through one of the start's targets.
pub proof fn reaches_first_step<A>(edges: Set<(A, A)>, from: A, to: A) -> (via: A)
    requires
        reaches(edges, from, to),
        from != to,
    ensures
        edges.contains((from, via)),
        reaches(edges, via, to),
{
    let path = choose|path: Seq<A>| is_path(edges, path, from, to);
    let rest = path.drop_first();
    assert(is_step(edges, path, 0));
    assert forall|i: int| 0 <= i < rest.len() - 1 implies #[trigger] is_step(edges, rest, i) by {
        assert(is_step(edges, path, i + 1));
    }
    assert(is_path(edges, rest, path[1], to));
    path[1]
}

/// More edges reach no less.
pub proof fn reaches_monotone<A>(fewer: Set<(A, A)>, more: Set<(A, A)>, from: A, to: A)
    requires
        fewer.subset_of(more),
        reaches(fewer, from, to),
    ensures
        reaches(more, from, to),
{
    let path = choose|path: Seq<A>| is_path(fewer, path, from, to);
    assert forall|i: int| 0 <= i < path.len() - 1 implies #[trigger] is_step(more, path, i) by {
        assert(is_step(fewer, path, i));
    }
    assert(is_path(more, path, from, to));
}

/// Along the edges turned round, every path leads back.
pub proof fn reaches_reversed<A>(edges: Set<(A, A)>, from: A, to: A)
    ensures
        reaches(reversed(edges), from, to) <==> reaches(edges, to, from),
{
    if reaches(edges, to, from) {
        reaches_back(edges, to, from);
    }
    if reaches(reversed(edges), from, to) {
        reaches_back(reversed(edges), from, to);
        assert(reversed(reversed(edges)) =~= edges);
    }
}

proof fn reaches_back<A>(edges: Set<(A, A)>, from: A, to: A)
    requires
        reaches(edges, from, to),
    ensures
        reaches(reversed(edges), to, from),
{
    let path = choose|path: Seq<A>| is_path(edges, path, from, to);
    let back = path.reverse();
    assert forall|i: int| 0 <= i < back.len() - 1 implies #[trigger] is_step(
        reversed(edges),
        back,
        i,
    ) by {
        assert(is_step(edges, path, path.len() - 2 - i));
    }
    assert(is_path(reversed(edges), back, to, from));
}

/// The edges of a graph whose nodes are given by index, as edges between the nodes themselves.
pub open spec fn edges_between<A>(nodes: Seq<A>, edges: Set<(usize, usize)>) -> Set<(A, A)> {
    Set::new(
        |edge: (A, A)|
            exists|i: usize, j: usize| #[trigger]
                edges.contains((i, j)) && nodes[i as int] == edge.0 && nodes[j as int] == edge.1,
    )
}

/// Where the nodes differ from one another, one reaches another just where its index reaches the
/// other's index.
pub proof fn reaches_by_index<A>(nodes: Seq<A>, edges: Set<(usize, usize)>, from: usize, to: usize)
    requires
        nodes.no_duplicates(),
        forall|i: usize, j: usize| #[trigger]
            edges.contains((i, j)) ==> i < nodes.len() && j < nodes.len(),
        from < nodes.len(),
        to < nodes.len(),
    ensures
        reaches(edges, from, to) <==> reaches(
            edges_between(nodes, edges),
            nodes[from as int],
            nodes[to as int],
        ),
{
    let between = edges_between(nodes, edges);
    if reaches(edges, from, to) {
        let path = choose|path: Seq<usize>| is_path(edges, path, from, to);
        let image = path.map_values(|i: usize| nodes[i as int]);
        assert forall|k: int| 0 <= k < image.len() - 1 implies #[trigger] is_step(
            between,
            image,
            k,
        ) by {
            assert(is_step(edges, path, k));
            assert(edges.contains((path[k], path[k + 1])));
        }
        assert(is_path(between, image, nodes[from as int], nodes[to as int]));
    }
    if reaches(between, nodes[from as int], nodes[to as int]) {
        let path = choose|path: Seq<A>|
            is_path(between, path, nodes[from as int], nodes[to as int]);
        reaches_index_of_path(nodes, edges, path, from, to);
    }
}

proof fn reaches_index_of_path<A>(
    nodes: Seq<A>,
    edges: Set<(usize, usize)>,
    path: Seq<A>,
    from: usize,
    to: usize,
)
    requires
        nodes.no_duplicates(),
        forall|i: usize, j: usize| #[trigger]
            edges.contains((i, j)) ==> i < nodes.len() && j < nodes.len(),
        from < nodes.len(),
        to < nodes.len(),
        is_path(edges_between(nodes, edges), path, nodes[from as int], nodes[to as int]),
    ensures
        reaches(edges, from, to),
    decreases path.len(),
{
    let between = edges_between(nodes, edges);
    if path.len() == 1 {
        assert(from == to);
        reaches_reflexive(edges, from);
    } else {
        assert(is_step(between, path, 0));
        let (i, j) = choose|i: usize, j: usize| #[trigger]
            edges.contains((i, j)) && nodes[i as int] == path[0] && nodes[j as int] == path[1];
        assert(i == from);
        let rest = path.drop_first();
        assert forall|k: int| 0 <= k < rest.len() - 1 implies #[trigger] is_step(
            between,
            rest,
            k,
        ) by {
            assert(is_step(between, path, k + 1));
        }
        reaches_index_of_path(nodes, edges, rest, j, to);
        reaches_edge(edges, from, j);
        reaches_transitive(edges, from, j, to);
    }
}

/// The nodes at the given indices.
pub open spec fn nodes_at<A>(nodes: Seq<A>, indices: Set<usize>) -> Set<A> {
    Set::new(|node: A| exists|i: usize| #[trigger] indices.contains(i) && nodes[i as int] == node)
}

/// Only what has a node is reachable by index.
pub proof fn reaches_in_range<A>(nodes: Seq<A>, edges: Set<(usize, usize)>, from: usize, to: usize)
    requires
        forall|i: usize, j: usize| #[trigger]
            edges.contains((i, j)) ==> i < nodes.len() && j < nodes.len(),
        from < nodes.len(),
        reaches(edges, from, to),
    ensures
        to < nodes.len(),
{
    let path = choose|path: Seq<usize>| is_path(edges, path, from, to);
    if path.len() > 1 {
        assert(is_step(edges, path, path.len() - 2));
    }
}

/// Reachability by index is reachability between the nodes.
pub proof fn reachable_by_index<A>(nodes: Seq<A>, edges: Set<(usize, usize)>, starts: Set<usize>)
    requires
        nodes.no_duplicates(),
        forall|i: usize, j: usize| #[trigger]
            edges.contains((i, j)) ==> i < nodes.len() && j < nodes.len(),
        forall|i: usize| #[trigger] starts.contains(i) ==> i < nodes.len(),
    ensures
        forall|i: usize| #[trigger] reachable(edges, starts).contains(i) ==> i < nodes.len(),
        nodes_at(nodes, reachable(edges, starts)) == reachable(
            edges_between(nodes, edges),
            nodes_at(nodes, starts),
        ),
{
    let between = edges_between(nodes, edges);
    let by_index = reachable(edges, starts);
    assert forall|i: usize| #[trigger] by_index.contains(i) implies i < nodes.len() by {
        let start = choose|start: usize| starts.contains(start) && #[trigger] reaches(edges, start, i);
        reaches_in_range(nodes, edges, start, i);
    }
    assert forall|node: A| nodes_at(nodes, by_index).contains(node) implies reachable(
        between,
        nodes_at(nodes, starts),
    ).contains(node) by {
        let i = choose|i: usize| #[trigger] by_index.contains(i) && nodes[i as int] == node;
        let start = choose|start: usize| starts.contains(start) && #[trigger] reaches(edges, start, i);
        reaches_by_index(nodes, edges, start, i);
        assert(nodes_at(nodes, starts).contains(nodes[start as int]));
        assert(reaches(between, nodes[start as int], node));
    }
    assert forall|node: A|
        reachable(between, nodes_at(nodes, starts)).contains(node) implies nodes_at(
        nodes,
        by_index,
    ).contains(node) by {
        let from = choose|from: A|
            nodes_at(nodes, starts).contains(from) && #[trigger] reaches(between, from, node);
        let start = choose|start: usize| #[trigger]
            starts.contains(start) && nodes[start as int] == from;
        let i = reaches_has_index(nodes, edges, start, node);
        reaches_by_index(nodes, edges, start, i);
        assert(by_index.contains(i));
    }
    assert(nodes_at(nodes, by_index) =~= reachable(between, nodes_at(nodes, starts)));
}

/// A node that is reached from one with an index has an index.
proof fn reaches_has_index<A>(
    nodes: Seq<A>,
    edges: Set<(usize, usize)>,
    from: usize,
    to: A,
) -> (index: usize)
    requires
        forall|i: usize, j: usize| #[trigger]
            edges.contains((i, j)) ==> i < nodes.len() && j < nodes.len(),
        from < nodes.len(),
        reaches(edges_between(nodes, edges), nodes[from as int], to),
    ensures
        index < nodes.len(),
        nodes[index as int] == to,
{
    let between = edges_between(nodes, edges);
    let path = choose|path: Seq<A>| is_path(between, path, nodes[from as int], to);
    if path.len() == 1 {
        from
    } else {
        let last = path.len() - 2;
        assert(is_step(between, path, last));
        let (i, j) = choose|i: usize, j: usize| #[trigger]
            edges.contains((i, j)) && nodes[i as int] == path[last] && nodes[j as int] == path[last
                + 1];
        j
    }
}

/// Turning the edges round by index turns them round between the nodes.
pub proof fn reversed_by_index<A>(nodes: Seq<A>, edges: Set<(usize, usize)>)
    ensures
        edges_between(nodes, reversed(edges)) == reversed(edges_between(nodes, edges)),
{
    let left = edges_between(nodes, reversed(edges));
    let right = reversed(edges_between(nodes, edges));
    assert forall|edge: (A, A)| left.contains(edge) implies right.contains(edge) by {
        let (i, j) = choose|i: usize, j: usize| #[trigger]
            reversed(edges).contains((i, j)) && nodes[i as int] == edge.0 && nodes[j as int]
                == edge.1;
        assert(edges.contains((j, i)));
    }
    assert forall|edge: (A, A)| right.contains(edge) implies left.contains(edge) by {
        let (i, j) = choose|i: usize, j: usize| #[trigger]
            edges.contains((i, j)) && nodes[i as int] == edge.1 && nodes[j as int] == edge.0;
        assert(reversed(edges).contains((j, i)));
    }
    assert(left =~= right);
}

} // verus!
