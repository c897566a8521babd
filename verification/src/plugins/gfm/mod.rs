//! Extensions in the style of GitHub Flavored Markdown.
use vstd::prelude::*;
use crate::parser::engine::{rule_after, MarkdownIt};
use crate::parser::ruler::RuleId;
use self::heading_anchors::{HeadingAnchorOptions, HeadingAnchorOptionsModel};

pub mod heading_anchors;
pub mod tag_filter;

verus! {

/// Adds the extensions of this module to `md`: the tag filter, and the
/// heading anchors with empty anchors and the default options otherwise.
pub fn add(md: &mut MarkdownIt)
    ensures
        final(md).ruler@ == old(md).ruler@.push(
            rule_after(RuleId::TagFilter, RuleId::InlineParser),
        ).push(rule_after(RuleId::HeadingAnchors, RuleId::InlineParser)),
        final(md).block@ == old(md).block@,
        final(md).inline@ == old(md).inline@,
        final(md).max_indent == old(md).max_indent,
        final(md).ext.pairs == old(md).ext.pairs,
        final(md).ext.heading_anchors is Some,
        final(md).ext.heading_anchors->0@ == (HeadingAnchorOptionsModel {
            inner_html: Seq::empty(),
            ..HeadingAnchorOptionsModel::default_value()
        }),
{
    tag_filter::add(md);
    let mut options = HeadingAnchorOptions::default();
    options.inner_html = String::new();
    heading_anchors::add_with_options(md, options);
}

} // verus!
