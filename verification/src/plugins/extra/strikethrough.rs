//! Strikethrough: `~~this~~`.
use vstd::prelude::*;
use std::collections::HashMap;
use crate::generics::inline::emph_pair::{add_with, has_pair_rule, pairs_of, PairConfig, PairKind};
use crate::parser::cache::Cache;
use crate::parser::engine::{plain_rule, MarkdownIt};
use crate::parser::node::{Node, NodeValue};
use crate::parser::renderer::{render_onto, Renderer};
use crate::parser::ruler::RuleId;

verus! {

/// Struck-through text.
#[derive(Debug)]
pub struct Strikethrough {
    pub marker: char,
}

impl Strikethrough {
    /// Renders `node`, whose value this is: its children inside `<s>`.
    pub fn render(
        &self,
        node: &Node,
        fmt: &mut Renderer,
        options: &HashMap<String, String>,
        cache: &mut Cache,
    )
        requires
            node.value == NodeValue::Strikethrough(*self),
        ensures
            final(fmt)@ == render_onto(old(fmt)@, node@),
            *final(cache) == *old(cache),
        decreases *node, 0nat,
    {
        proof {
            crate::parser::node::lemma_model_children(*node);
        }
        fmt.open("s", &node.attrs);
        fmt.contents(&node.children, options, cache);
        fmt.close("s");
    }
}

/// Adds strikethrough to `md`: two `~` on each side, also inside a word.
pub fn add(md: &mut MarkdownIt)
    ensures
        pairs_of(final(md).ext) == pairs_of(old(md).ext).push(
            PairConfig { marker: '~', length: 2, can_split_word: true, kind: PairKind::Strikethrough },
        ),
        final(md).ext.heading_anchors == old(md).ext.heading_anchors,
        final(md).inline@ == (if has_pair_rule(old(md).inline@) {
            old(md).inline@
        } else {
            old(md).inline@.push(plain_rule(RuleId::EmphPair))
        }),
        final(md).ruler@ == old(md).ruler@,
        final(md).block@ == old(md).block@,
        final(md).max_indent == old(md).max_indent,
{
    add_with(md, '~', 2, true, PairKind::Strikethrough);
}

} // verus!
