//! Building blocks for inline syntaxes.

pub mod emph_pair;
