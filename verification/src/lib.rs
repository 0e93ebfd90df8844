//! Multi-provider workflow orchestration: a string-keyed context, a prompt
//! template renderer, a graph of nodes joined by direct and conditional edges,
//! and the state machine that walks that graph.

pub mod table;
mod text;
pub mod error;
pub mod context;
pub mod json;
pub mod engine;
pub mod providers;
