//! The core syntax.
use vstd::prelude::*;
use crate::generics::inline::emph_pair::{has_pair_rule, pairs_of};
use crate::parser::engine::{plain_rule, MarkdownIt};
use crate::parser::ruler::{RuleId, RuleModel};
use self::inline::emphasis::emphasis_pairs;

pub mod block;
pub mod inline;

verus! {

/// The inline rules of `rules` with those of the core syntax after them:
/// the code spans, the marker pairs unless they are there already, and the
/// links.
pub open spec fn with_inline_rules(rules: Seq<RuleModel>) -> Seq<RuleModel> {
    let ticks = rules.push(plain_rule(RuleId::Backticks));
    let pairs = if has_pair_rule(ticks) {
        ticks
    } else {
        ticks.push(plain_rule(RuleId::EmphPair))
    };
    pairs.push(plain_rule(RuleId::Link))
}

/// Adds the core syntax to `md`: code spans, emphasis and links inside
/// text; headings and paragraphs as blocks. A line that is indented by four
/// columns or more starts no block.
pub fn add(md: &mut MarkdownIt)
    ensures
        final(md).inline@ == with_inline_rules(old(md).inline@),
        pairs_of(final(md).ext) == pairs_of(old(md).ext) + emphasis_pairs(),
        final(md).ext.heading_anchors == old(md).ext.heading_anchors,
        final(md).block@ == old(md).block@.push(plain_rule(RuleId::Heading)).push(
            plain_rule(RuleId::Paragraph),
        ),
        final(md).ruler@ == old(md).ruler@,
        final(md).max_indent == 4,
{
    inline::backticks::add(md);
    inline::emphasis::add(md);
    inline::link::add(md);
    md.block.add(RuleId::Heading);
    md.block.add(RuleId::Paragraph);
    md.max_indent = 4;
}

} // verus!
