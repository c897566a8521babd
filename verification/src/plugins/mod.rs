//! Syntax extensions, each a set of rules and node kinds.

pub mod cmark;
pub mod extra;
pub mod gfm;
pub mod html;
pub mod pandoc;
pub mod sourcepos;
