//! Footnotes written at their reference: `^[text]`.
use vstd::prelude::*;
use crate::parser::engine::{inline_rule_added, plain_rule, MarkdownIt};
use crate::parser::ruler::RuleId;

verus! {

/// Adds the footnotes written at their reference to `md`.
pub fn add(md: &mut MarkdownIt)
    ensures
        inline_rule_added(*old(md), *final(md), plain_rule(RuleId::FootnoteInline)),
        final(md).ext == old(md).ext,
{
    md.inline.add(RuleId::FootnoteInline);
}

} // verus!
