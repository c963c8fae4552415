//! Static data-flow analysis for smart contracts given as a compiled AST.
//!
//! Per function of a chosen contract, a control-flow graph is consumed and an
//! intra-procedural data-flow graph is derived from it; the per-function
//! results are then stitched together with assignment, index and call/return
//! links into a whole-contract network that answers context-sensitive
//! reachability queries.

pub mod assignment;
pub mod ast;
pub mod cfg;
pub mod dict;
pub mod dot;
pub mod flatten;
pub mod flow;
pub mod graph;
pub mod kind;
pub mod link;
pub mod loader;
pub mod network;
pub mod oracle;
pub mod strutil;
pub mod variable;
pub mod vecset;
pub mod vertex;
