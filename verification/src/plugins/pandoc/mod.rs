//! Extensions in the style of pandoc.
use vstd::prelude::*;
use crate::parser::engine::{plain_rule, rule_before, MarkdownIt};
use crate::parser::ruler::RuleId;
use self::footnote::definitions::definition_rule;

pub mod footnote;

verus! {

/// Adds the extensions of this module to `md`: footnotes.
pub fn add(md: &mut MarkdownIt)
    ensures
        final(md).block@ == old(md).block@.push(definition_rule()),
        final(md).inline@ == old(md).inline@.push(plain_rule(RuleId::FootnoteReference)).push(
            plain_rule(RuleId::FootnoteInline),
        ),
        final(md).ruler@ == old(md).ruler@.push(plain_rule(RuleId::FootnoteCollect)).push(
            rule_before(RuleId::FootnoteBackrefs, RuleId::FootnoteCollect),
        ),
        final(md).ext == old(md).ext,
        final(md).max_indent == old(md).max_indent,
{
    footnote::add(md);
}

} // verus!
