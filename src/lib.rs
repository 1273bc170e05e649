//! Static call-graph extraction and rendering.
//!
//! The library keeps a name-keyed call graph built from per-function call
//! facts and renders a cycle-safe depth-first trace of it, either as an
//! indented text chain or as a top-down flow diagram.
pub mod analyzer;
pub mod bodies;
pub mod graph;
pub mod laws;
pub mod names;
pub mod render;
pub mod trace;
pub mod visitor;

pub use analyzer::{
    ProjectFacts, analyze_project, extract_call_chain_mermaid_real, extract_call_chain_real,
    render_diagram, render_text, resolve_entry,
};
pub use bodies::BodyTable;
pub use graph::CallGraph;
pub use names::NameSet;
pub use visitor::FnCallVisitor;
