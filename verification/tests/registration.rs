use markdown_it::generics::inline::emph_pair::{PairConfig, PairConfigs, PairKind};
use markdown_it::parser::ruler::RuleId;
use markdown_it::plugins::gfm::heading_anchors::HeadingAnchorOptions;
use markdown_it::MarkdownIt;

fn marks(ruler: &markdown_it::parser::ruler::Ruler) -> Vec<RuleId> {
    ruler.rules.iter().map(|rule| rule.mark).collect()
}

#[test]
fn new_parser_has_the_two_phases_and_nothing_else() {
    let md = MarkdownIt::new();
    assert_eq!(marks(&md.ruler), vec![RuleId::BlockParser, RuleId::InlineParser]);
    assert_eq!(md.ruler.rules[1].after, vec![RuleId::BlockParser]);
    assert!(md.ruler.rules[0].before.is_empty() && md.ruler.rules[0].after.is_empty());
    assert!(md.block.rules.is_empty());
    assert!(md.inline.rules.is_empty());
    assert!(md.ext.get::<HeadingAnchorOptions>().is_none());
    assert!(md.ext.get::<PairConfigs>().is_none());
    assert_eq!(md.max_indent, usize::MAX);
    assert!(md.is_ready());
}

#[test]
fn rule_constraints_are_kept_in_the_order_given() {
    let mut md = MarkdownIt::new();
    md.add_rule(RuleId::SourcePos)
        .before(RuleId::TagFilter)
        .after(RuleId::InlineParser)
        .before(RuleId::FootnoteCollect);
    let rule = md.ruler.rules.last().unwrap();
    assert_eq!(rule.mark, RuleId::SourcePos);
    assert_eq!(rule.before, vec![RuleId::TagFilter, RuleId::FootnoteCollect]);
    assert_eq!(rule.after, vec![RuleId::InlineParser]);
}

#[test]
fn emphasis_adds_four_constructs_and_the_rule_once() {
    let mut md = MarkdownIt::new();
    markdown_it::plugins::cmark::inline::emphasis::add(&mut md);
    markdown_it::plugins::extra::strikethrough::add(&mut md);
    assert_eq!(marks(&md.inline), vec![RuleId::EmphPair]);
    assert_eq!(
        md.ext.get::<PairConfigs>().unwrap().pairs,
        vec![
            PairConfig { marker: '*', length: 1, can_split_word: true, kind: PairKind::Em },
            PairConfig { marker: '_', length: 1, can_split_word: false, kind: PairKind::Em },
            PairConfig { marker: '*', length: 2, can_split_word: true, kind: PairKind::Strong },
            PairConfig { marker: '_', length: 2, can_split_word: false, kind: PairKind::Strong },
            PairConfig { marker: '~', length: 2, can_split_word: true, kind: PairKind::Strikethrough },
        ]
    );
}

#[test]
fn core_syntax() {
    let mut md = MarkdownIt::new();
    markdown_it::plugins::cmark::add(&mut md);
    assert_eq!(marks(&md.inline), vec![RuleId::Backticks, RuleId::EmphPair, RuleId::Link]);
    assert_eq!(marks(&md.block), vec![RuleId::Heading, RuleId::Paragraph]);
    assert_eq!(marks(&md.ruler), vec![RuleId::BlockParser, RuleId::InlineParser]);
    assert_eq!(md.max_indent, 4);
}

#[test]
fn single_rules() {
    let mut md = MarkdownIt::new();
    markdown_it::plugins::cmark::inline::backticks::add(&mut md);
    markdown_it::plugins::cmark::inline::link::add(&mut md);
    markdown_it::plugins::pandoc::footnote::references::add(&mut md);
    markdown_it::plugins::pandoc::footnote::inline::add(&mut md);
    assert_eq!(
        marks(&md.inline),
        vec![RuleId::Backticks, RuleId::Link, RuleId::FootnoteReference, RuleId::FootnoteInline]
    );
    markdown_it::plugins::pandoc::footnote::definitions::add(&mut md);
    assert_eq!(marks(&md.block), vec![RuleId::FootnoteDefinition]);
    assert_eq!(md.block.rules[0].before, vec![RuleId::Reference, RuleId::Paragraph]);
    markdown_it::plugins::gfm::tag_filter::add(&mut md);
    markdown_it::plugins::pandoc::footnote::collect::add(&mut md);
    markdown_it::plugins::pandoc::footnote::back_refs::add(&mut md);
    markdown_it::plugins::sourcepos::add(&mut md);
    assert_eq!(
        marks(&md.ruler),
        vec![
            RuleId::BlockParser,
            RuleId::InlineParser,
            RuleId::TagFilter,
            RuleId::FootnoteCollect,
            RuleId::FootnoteBackrefs,
            RuleId::SourcePos,
        ]
    );
    assert_eq!(md.ruler.rules[2].after, vec![RuleId::InlineParser]);
    assert_eq!(md.ruler.rules[4].before, vec![RuleId::FootnoteCollect]);
    assert!(md.ruler.rules[3].before.is_empty() && md.ruler.rules[3].after.is_empty());
}

#[test]
fn footnotes_and_html() {
    let mut md = MarkdownIt::new();
    markdown_it::plugins::html::add(&mut md);
    markdown_it::plugins::pandoc::add(&mut md);
    assert_eq!(marks(&md.block), vec![RuleId::HtmlBlock, RuleId::FootnoteDefinition]);
    assert_eq!(md.block.rules[0].before, vec![RuleId::Paragraph]);
    assert_eq!(
        marks(&md.inline),
        vec![RuleId::HtmlInline, RuleId::FootnoteReference, RuleId::FootnoteInline]
    );
    assert_eq!(
        marks(&md.ruler),
        vec![
            RuleId::BlockParser,
            RuleId::InlineParser,
            RuleId::FootnoteCollect,
            RuleId::FootnoteBackrefs,
        ]
    );
}

#[test]
fn gfm_sets_empty_anchors() {
    let mut md = MarkdownIt::new();
    markdown_it::plugins::gfm::add(&mut md);
    assert_eq!(
        marks(&md.ruler),
        vec![
            RuleId::BlockParser,
            RuleId::InlineParser,
            RuleId::TagFilter,
            RuleId::HeadingAnchors,
        ]
    );
    let options = md.ext.get::<HeadingAnchorOptions>().unwrap();
    assert_eq!(options.inner_html, "");
    assert_eq!((options.min_level, options.max_level), (1, 6));
    assert_eq!(options.classes, vec!["anchor".to_string()]);
}
