pub mod edge;
pub mod graph;
pub mod node;
pub mod template;
pub mod workflow;
pub mod runs;
