//! Builder for a translation unit's regionalized value state dependence graph.
//!
//! A translation unit is a tree of nodes and regions: a region holds nodes and
//! the dataflow edges among them, a node may own child regions. The builder
//! keeps every node and region in dense tables, keeps the input count of a
//! node aligned with the arguments of its child regions, and connects an
//! origin of an enclosing region to a user of the current one by forwarding
//! the value through every node in between.
//!
//! The builder is [`TranslationUnitContext`]. Its contracts speak of the unit
//! as a value, [`graph::Graph`]; [`laws`] states what holds of every unit.

pub mod connect;
pub mod context;
pub mod edge;
pub mod graph;
pub mod id;
pub mod laws;
pub mod nodes;
pub mod recenv;
pub mod steps;
pub mod tables;

pub use context::TranslationUnitContext;
pub use edge::{Argument, Edge, Input, Origin, Output, Result, User};
pub use nodes::NodeKind;
pub use tables::Node;
