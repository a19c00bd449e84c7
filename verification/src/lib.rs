//! The package graph of a monorepo.

pub mod collections;
pub mod dependency_graph;
pub mod lockfile;
pub mod name;
pub mod package_graph;
pub mod path;
pub mod reach;
pub mod sorted_map;
