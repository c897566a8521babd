//! Building blocks that several syntaxes share.

pub mod inline;
