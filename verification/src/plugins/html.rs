//! Raw HTML in the source, passed through to the output as it is.
use vstd::prelude::*;
use std::collections::HashMap;
use crate::parser::cache::Cache;
use crate::parser::engine::{plain_rule, rule_before, MarkdownIt};
use crate::parser::node::{Node, NodeValue};
use crate::parser::renderer::{render_onto, Renderer};
use crate::parser::ruler::RuleId;

verus! {

/// A block of raw HTML.
#[derive(Debug)]
pub struct HtmlBlock {
    pub content: String,
}

/// Raw HTML inside a line of text.
#[derive(Debug)]
pub struct HtmlInline {
    pub content: String,
}

impl HtmlBlock {
    /// Renders `node`, whose value this is: the HTML as it is, on lines of
    /// its own.
    pub fn render(
        &self,
        node: &Node,
        fmt: &mut Renderer,
        options: &HashMap<String, String>,
        cache: &mut Cache,
    )
        requires
            node.value == NodeValue::HtmlBlock(*self),
        ensures
            final(fmt)@ == render_onto(old(fmt)@, node@),
            *final(cache) == *old(cache),
        decreases *node, 0nat,
    {
        proof {
            crate::parser::node::lemma_model_children(*node);
        }
        fmt.cr();
        fmt.text_raw(self.content.as_str());
        fmt.cr();
    }
}

impl HtmlInline {
    /// Renders `node`, whose value this is: the HTML as it is.
    pub fn render(
        &self,
        node: &Node,
        fmt: &mut Renderer,
        options: &HashMap<String, String>,
        cache: &mut Cache,
    )
        requires
            node.value == NodeValue::HtmlInline(*self),
        ensures
            final(fmt)@ == render_onto(old(fmt)@, node@),
            *final(cache) == *old(cache),
        decreases *node, 0nat,
    {
        proof {
            crate::parser::node::lemma_model_children(*node);
        }
        fmt.text_raw(self.content.as_str());
    }
}

/// Adds raw HTML to `md`: blocks of it, tried before the paragraphs, and
/// tags inside a line of text.
pub fn add(md: &mut MarkdownIt)
    ensures
        final(md).block@ == old(md).block@.push(rule_before(RuleId::HtmlBlock, RuleId::Paragraph)),
        final(md).inline@ == old(md).inline@.push(plain_rule(RuleId::HtmlInline)),
        final(md).ruler@ == old(md).ruler@,
        final(md).ext == old(md).ext,
        final(md).max_indent == old(md).max_indent,
{
    md.block.add(RuleId::HtmlBlock).before(RuleId::Paragraph);
    assert(seq![RuleId::Paragraph] =~= Seq::<RuleId>::empty().push(RuleId::Paragraph));
    md.inline.add(RuleId::HtmlInline);
}

} // verus!
