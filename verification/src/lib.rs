//! A library for constructing and analyzing Code Property Graphs: one node set
//! shared by an abstract syntax tree, a control-flow graph, a data-flow graph
//! and a program dependence graph, with structural analyses on top.

pub mod algorithms;
pub mod builder;
pub mod error;
pub mod gnn;
pub mod graph;
pub mod overlay;
pub mod reach;
pub mod scc;
pub mod syntax;
pub mod text;
