//! Footnote references: `[^label]`.
use vstd::prelude::*;
use std::collections::HashMap;
use crate::parser::cache::Cache;
use crate::parser::engine::{inline_rule_added, plain_rule, MarkdownIt};
use crate::parser::node::{attrs_model, Node, NodeValue};
use crate::parser::renderer::{clone_attrs, lemma_attrs_push, render_onto, Renderer};
use crate::parser::ruler::RuleId;
use crate::text::{decimal, push_decimal, push_str, string_from_chars};

verus! {

/// A reference to a footnote definition.
#[derive(Debug)]
pub struct FootnoteReference {
    pub label: Option<String>,
    pub ref_id: usize,
    pub def_id: usize,
}

/// The text made of `prefix` and the numeral of `n`.
pub fn numbered(prefix: &str, n: usize) -> (r: String)
    ensures
        r@ == prefix@ + decimal(n as nat),
{
    let mut buf: Vec<char> = Vec::new();
    push_str(&mut buf, prefix);
    push_decimal(&mut buf, n);
    assert(buf@ =~= prefix@ + decimal(n as nat));
    string_from_chars(buf)
}

impl FootnoteReference {
    /// Renders `node`, whose value this is: the definition's id in square
    /// brackets, as a superscript link to the definition.
    pub fn render(
        &self,
        node: &Node,
        fmt: &mut Renderer,
        options: &HashMap<String, String>,
        cache: &mut Cache,
    )
        requires
            node.value == NodeValue::FootnoteReference(*self),
        ensures
            final(fmt)@ == render_onto(old(fmt)@, node@),
            *final(cache) == *old(cache),
        decreases *node, 0nat,
    {
        proof {
            crate::parser::node::lemma_model_children(*node);
        }
        let mut attrs = clone_attrs(&node.attrs);
        let class = "footnote-ref".to_owned();
        let ghost own = attrs@;
        attrs.push(("class", class));
        proof {
            lemma_attrs_push(own, ("class", class));
        }
        fmt.open("sup", &attrs);
        let mut link: Vec<(&'static str, String)> = Vec::new();
        let href = numbered("#fn", self.def_id);
        let id = numbered("fnref", self.ref_id);
        link.push(("href", href));
        link.push(("id", id));
        assert(attrs_model(link@) =~= seq![
            ("href"@, "#fn"@ + decimal(self.def_id as nat)),
            ("id"@, "fnref"@ + decimal(self.ref_id as nat)),
        ]);
        fmt.open("a", &link);
        let mut label: Vec<char> = Vec::new();
        label.push('[');
        push_decimal(&mut label, self.def_id);
        label.push(']');
        let label = string_from_chars(label);
        assert(label@ =~= seq!['['] + decimal(self.def_id as nat) + seq![']']);
        fmt.text(label.as_str());
        fmt.close("a");
        fmt.close("sup");
    }
}

/// Adds the footnote references to `md`.
pub fn add(md: &mut MarkdownIt)
    ensures
        inline_rule_added(*old(md), *final(md), plain_rule(RuleId::FootnoteReference)),
        final(md).ext == old(md).ext,
{
    md.inline.add(RuleId::FootnoteReference);
}

} // verus!
