//! Common extensions outside the core syntax.
use vstd::prelude::*;
use crate::generics::inline::emph_pair::{has_pair_rule, pairs_of, PairConfig, PairKind};
use crate::parser::engine::{plain_rule, MarkdownIt};
use crate::parser::ruler::RuleId;

pub mod strikethrough;

verus! {

/// Adds the extensions of this module to `md`: strikethrough.
pub fn add(md: &mut MarkdownIt)
    ensures
        pairs_of(final(md).ext) == pairs_of(old(md).ext).push(
            PairConfig { marker: '~', length: 2, can_split_word: true, kind: PairKind::Strikethrough },
        ),
        final(md).ext.heading_anchors == old(md).ext.heading_anchors,
        final(md).inline@ == (if has_pair_rule(old(md).inline@) {
            old(md).inline@
        } else {
            old(md).inline@.push(plain_rule(RuleId::EmphPair))
        }),
        final(md).ruler@ == old(md).ruler@,
        final(md).block@ == old(md).block@,
        final(md).max_indent == old(md).max_indent,
{
    strikethrough::add(md);
}

} // verus!
