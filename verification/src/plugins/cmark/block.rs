//! Block-level node kinds of the core syntax.
use vstd::prelude::*;
use std::collections::HashMap;
use crate::parser::cache::Cache;
use crate::parser::node::{Node, NodeValue};
use crate::parser::renderer::{heading_tag, render_onto, Renderer};
use crate::text::{push_decimal, string_from_chars};

verus! {

/// A paragraph.
#[derive(Debug)]
pub struct Paragraph;

/// A heading written with leading `#`.
#[derive(Debug)]
pub struct ATXHeading {
    pub level: u8,
}

/// A heading written as a line of text over a line of `=` or `-`.
#[derive(Debug)]
pub struct SetextHeader {
    pub level: u8,
    pub marker: char,
}

impl Paragraph {
    /// Renders `node`, whose value this is: its children inside `<p>`.
    pub fn render(
        &self,
        node: &Node,
        fmt: &mut Renderer,
        options: &HashMap<String, String>,
        cache: &mut Cache,
    )
        requires
            node.value == NodeValue::Paragraph(*self),
        ensures
            final(fmt)@ == render_onto(old(fmt)@, node@),
            *final(cache) == *old(cache),
        decreases *node, 0nat,
    {
        proof {
            crate::parser::node::lemma_model_children(*node);
        }
        fmt.cr();
        fmt.open("p", &node.attrs);
        fmt.contents(&node.children, options, cache);
        fmt.close("p");
        fmt.cr();
    }
}

impl ATXHeading {
    /// Renders `node`, whose value this is: its children inside the heading
    /// tag of its level.
    pub fn render(
        &self,
        node: &Node,
        fmt: &mut Renderer,
        options: &HashMap<String, String>,
        cache: &mut Cache,
    )
        requires
            node.value == NodeValue::ATXHeading(*self),
        ensures
            final(fmt)@ == render_onto(old(fmt)@, node@),
            *final(cache) == *old(cache),
        decreases *node, 0nat,
    {
        proof {
            crate::parser::node::lemma_model_children(*node);
        }
        let mut tag: Vec<char> = Vec::new();
        tag.push('h');
        push_decimal(&mut tag, self.level as usize);
        let tag = string_from_chars(tag);
        assert(tag@ =~= heading_tag(self.level));
        fmt.cr();
        fmt.open(tag.as_str(), &node.attrs);
        fmt.contents(&node.children, options, cache);
        fmt.close(tag.as_str());
        fmt.cr();
    }
}

impl SetextHeader {
    /// Renders `node`, whose value this is: its children inside the heading
    /// tag of its level.
    pub fn render(
        &self,
        node: &Node,
        fmt: &mut Renderer,
        options: &HashMap<String, String>,
        cache: &mut Cache,
    )
        requires
            node.value == NodeValue::SetextHeader(*self),
        ensures
            final(fmt)@ == render_onto(old(fmt)@, node@),
            *final(cache) == *old(cache),
        decreases *node, 0nat,
    {
        proof {
            crate::parser::node::lemma_model_children(*node);
        }
        let mut tag: Vec<char> = Vec::new();
        tag.push('h');
        push_decimal(&mut tag, self.level as usize);
        let tag = string_from_chars(tag);
        assert(tag@ =~= heading_tag(self.level));
        fmt.cr();
        fmt.open(tag.as_str(), &node.attrs);
        fmt.contents(&node.children, options, cache);
        fmt.close(tag.as_str());
        fmt.cr();
    }
}

} // verus!
