# turborepo_repository

The package graph of a monorepo: which workspaces there are, how they depend on one another, and
which of them a change of lockfile concerns. The library is written in Verus; its contracts are
proved.

- `src/name.rs`: names of workspaces and the nodes that stand for them.
- `src/path.rs`: paths anchored at the root of the repository.
- `src/lockfile.rs`: packages, and what a lockfile is asked.
- `src/collections.rs`: sets, and maps that are walked in the order of insertion.
- `src/sorted_map.rs`: maps from texts that are walked in the order of their keys.
- `src/reach.rs`: reachability in directed graphs.
- `src/dependency_graph.rs`: the calls into `petgraph`, with what is believed of them.
- `src/package_graph/`: the package graph. `builder.rs` puts it together, `packages.rs`
  splits the dependencies of packages into those on one another and external ones, `queries.rs`
  answers what depends on what, `validate.rs` looks for cycles, `changes.rs` tells which packages
  have changed, and `laws.rs` states what holds of every package graph.

Contracts speak of the view of a package graph: its topology (a set of nodes and a set of edges) and
its workspaces.

`app/` is ordinary Rust around the library: types that are shown and serialised, errors, lockfiles
of package managers, and the registration of the development runtime of Turbopack. The last two
build on crates of the Turborepo workspace.
