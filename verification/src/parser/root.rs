//! The document itself, as the root of its tree.
use vstd::prelude::*;
use std::collections::HashMap;
use crate::parser::cache::Cache;
use crate::parser::extset::RootExtSet;
use crate::parser::node::{Node, NodeValue};
use crate::parser::renderer::{render_onto, Renderer};

verus! {

/// Root node of the tree: the source text of the document, and the extension
/// data that the rules gathered while parsing it.
#[derive(Debug)]
pub struct Root {
    pub content: String,
    pub ext: RootExtSet,
}

impl Root {
    /// The root of a document that was not parsed yet: it holds `content`,
    /// and its extension store is empty.
    pub fn new(content: String) -> (r: Root)
        ensures
            r.content == content,
            r.ext.is_empty(),
    {
        Root { content, ext: RootExtSet::new() }
    }
}

impl Root {
    /// Renders `node`, whose value this is: its children, and nothing more.
    pub fn render(
        &self,
        node: &Node,
        fmt: &mut Renderer,
        options: &HashMap<String, String>,
        cache: &mut Cache,
    )
        requires
            node.value == NodeValue::Root(*self),
        ensures
            final(fmt)@ == render_onto(old(fmt)@, node@),
            *final(cache) == *old(cache),
        decreases *node, 0nat,
    {
        proof {
            crate::parser::node::lemma_model_children(*node);
        }
        fmt.contents(&node.children, options, cache);
    }
}

} // verus!
