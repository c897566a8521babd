//! The engine: the syntax tree, the stores of extension data, the rule
//! registry and the renderer.

pub mod block;
pub mod cache;
pub mod engine;
pub mod extset;
pub mod inline;
pub mod node;
pub mod renderer;
pub mod root;
pub mod ruler;
