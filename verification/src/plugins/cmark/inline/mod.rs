//! Inline node kinds of the core syntax.

pub mod backticks;
pub mod emphasis;
pub mod link;
