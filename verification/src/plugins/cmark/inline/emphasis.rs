//! Emphasis and strong emphasis: `*this*` or `__that__`.
use vstd::prelude::*;
use std::collections::HashMap;
use crate::generics::inline::emph_pair::{add_with, has_pair_rule, pairs_of, PairConfig, PairKind};
use crate::parser::cache::Cache;
use crate::parser::engine::{plain_rule, MarkdownIt};
use crate::parser::node::{Node, NodeValue};
use crate::parser::renderer::{render_onto, Renderer};
use crate::parser::ruler::RuleId;

verus! {

/// Emphasis.
#[derive(Debug)]
pub struct Em {
    pub marker: char,
}

/// Strong emphasis.
#[derive(Debug)]
pub struct Strong {
    pub marker: char,
}

impl Em {
    /// Renders `node`, whose value this is: its children inside `<em>`.
    pub fn render(
        &self,
        node: &Node,
        fmt: &mut Renderer,
        options: &HashMap<String, String>,
        cache: &mut Cache,
    )
        requires
            node.value == NodeValue::Em(*self),
        ensures
            final(fmt)@ == render_onto(old(fmt)@, node@),
            *final(cache) == *old(cache),
        decreases *node, 0nat,
    {
        proof {
            crate::parser::node::lemma_model_children(*node);
        }
        fmt.open("em", &node.attrs);
        fmt.contents(&node.children, options, cache);
        fmt.close("em");
    }
}

impl Strong {
    /// Renders `node`, whose value this is: its children inside `<strong>`.
    pub fn render(
        &self,
        node: &Node,
        fmt: &mut Renderer,
        options: &HashMap<String, String>,
        cache: &mut Cache,
    )
        requires
            node.value == NodeValue::Strong(*self),
        ensures
            final(fmt)@ == render_onto(old(fmt)@, node@),
            *final(cache) == *old(cache),
        decreases *node, 0nat,
    {
        proof {
            crate::parser::node::lemma_model_children(*node);
        }
        fmt.open("strong", &node.attrs);
        fmt.contents(&node.children, options, cache);
        fmt.close("strong");
    }
}

/// The constructs of emphasis: one `*` or `_` for emphasis, two for strong
/// emphasis; `_` does not work inside a word.
pub open spec fn emphasis_pairs() -> Seq<PairConfig> {
    seq![
        PairConfig { marker: '*', length: 1, can_split_word: true, kind: PairKind::Em },
        PairConfig { marker: '_', length: 1, can_split_word: false, kind: PairKind::Em },
        PairConfig { marker: '*', length: 2, can_split_word: true, kind: PairKind::Strong },
        PairConfig { marker: '_', length: 2, can_split_word: false, kind: PairKind::Strong },
    ]
}

/// Adds emphasis and strong emphasis to `md`.
pub fn add(md: &mut MarkdownIt)
    ensures
        pairs_of(final(md).ext) == pairs_of(old(md).ext) + emphasis_pairs(),
        final(md).ext.heading_anchors == old(md).ext.heading_anchors,
        final(md).inline@ == (if has_pair_rule(old(md).inline@) {
            old(md).inline@
        } else {
            old(md).inline@.push(plain_rule(RuleId::EmphPair))
        }),
        final(md).ruler@ == old(md).ruler@,
        final(md).block@ == old(md).block@,
        final(md).max_indent == old(md).max_indent,
{
    add_with(md, '*', 1, true, PairKind::Em);
    proof {
        let r = md.inline@;
        if !has_pair_rule(old(md).inline@) {
            assert(r[r.len() - 1].mark == RuleId::EmphPair);
        }
        assert(has_pair_rule(r));
    }
    add_with(md, '_', 1, false, PairKind::Em);
    add_with(md, '*', 2, true, PairKind::Strong);
    add_with(md, '_', 2, false, PairKind::Strong);
    assert(pairs_of(md.ext) =~= pairs_of(old(md).ext) + emphasis_pairs());
}

} // verus!
