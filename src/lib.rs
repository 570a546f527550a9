//! Execution-graph reconstruction for conversation event logs: typed nodes and
//! causal edges built from log records, zoom-level projection into display
//! lanes, and a navigation state that survives live rebuilds of the graph.

pub mod types;
pub mod text;
pub mod parser;
pub mod graph;
pub mod zoom;
pub mod state;
