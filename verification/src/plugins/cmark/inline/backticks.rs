//! Code spans: `` `looks like this` ``.
use vstd::prelude::*;
use std::collections::HashMap;
use crate::parser::cache::Cache;
use crate::parser::engine::{inline_rule_added, plain_rule, MarkdownIt};
use crate::parser::node::{Node, NodeValue};
use crate::parser::renderer::{render_onto, Renderer};
use crate::parser::ruler::RuleId;

verus! {

/// A code span.
#[derive(Debug)]
pub struct CodeInline {
    pub marker: char,
    pub marker_len: usize,
}

impl CodeInline {
    /// Renders `node`, whose value this is: its children inside `<code>`.
    pub fn render(
        &self,
        node: &Node,
        fmt: &mut Renderer,
        options: &HashMap<String, String>,
        cache: &mut Cache,
    )
        requires
            node.value == NodeValue::CodeInline(*self),
        ensures
            final(fmt)@ == render_onto(old(fmt)@, node@),
            *final(cache) == *old(cache),
        decreases *node, 0nat,
    {
        proof {
            crate::parser::node::lemma_model_children(*node);
        }
        fmt.open("code", &node.attrs);
        fmt.contents(&node.children, options, cache);
        fmt.close("code");
    }
}

/// Adds the code spans to `md`.
pub fn add(md: &mut MarkdownIt)
    ensures
        inline_rule_added(*old(md), *final(md), plain_rule(RuleId::Backticks)),
        final(md).ext == old(md).ext,
{
    md.inline.add(RuleId::Backticks);
}

} // verus!
