//! A composable Markdown engine: a rule pipeline turns source text into a
//! typed syntax tree, and the tree renders itself to HTML.

pub mod generics;
pub mod parser;
pub mod plugins;
pub mod text;

pub use parser::engine::MarkdownIt;
pub use parser::node::{Node, NodeKind, NodeValue};
