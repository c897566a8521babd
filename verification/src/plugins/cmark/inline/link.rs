//! Links: `[text](<to> "title")`.
use vstd::prelude::*;
use std::collections::HashMap;
use crate::parser::cache::Cache;
use crate::parser::engine::{inline_rule_added, plain_rule, MarkdownIt};
use crate::parser::node::{attrs_model, opt_chars, Node, NodeValue};
use crate::parser::renderer::{clone_attrs, lemma_attrs_push, link_attrs, render_onto, Renderer};
use crate::parser::ruler::RuleId;

verus! {

/// A link.
#[derive(Debug)]
pub struct Link {
    pub url: String,
    pub title: Option<String>,
}

impl Link {
    /// Renders `node`, whose value this is: its children inside `<a>`, with
    /// the link's address and, where it has one, its title.
    pub fn render(
        &self,
        node: &Node,
        fmt: &mut Renderer,
        options: &HashMap<String, String>,
        cache: &mut Cache,
    )
        requires
            node.value == NodeValue::Link(*self),
        ensures
            final(fmt)@ == render_onto(old(fmt)@, node@),
            *final(cache) == *old(cache),
        decreases *node, 0nat,
    {
        proof {
            crate::parser::node::lemma_model_children(*node);
        }
        let mut attrs = clone_attrs(&node.attrs);
        let ghost own = attrs@;
        attrs.push(("href", self.url.clone()));
        proof {
            lemma_attrs_push(own, ("href", self.url));
        }
        if let Some(title) = &self.title {
            let ghost with_href = attrs@;
            attrs.push(("title", title.clone()));
            proof {
                lemma_attrs_push(with_href, ("title", *title));
            }
        }
        assert(attrs_model(attrs@) =~= node@.attrs + link_attrs(self.url@, opt_chars(self.title)));
        fmt.open("a", &attrs);
        fmt.contents(&node.children, options, cache);
        fmt.close("a");
    }
}

/// Adds the links to `md`.
pub fn add(md: &mut MarkdownIt)
    ensures
        inline_rule_added(*old(md), *final(md), plain_rule(RuleId::Link)),
        final(md).ext == old(md).ext,
{
    md.inline.add(RuleId::Link);
}

} // verus!
