use markdown_it::parser::ruler::{CyclicDependency, RuleId, Ruler};
use markdown_it::MarkdownIt;

#[test]
fn unrelated_rules_keep_registration_order() {
    let mut ruler = Ruler::new();
    ruler.add(RuleId::TagFilter);
    ruler.add(RuleId::HeadingAnchors);
    ruler.add(RuleId::SourcePos);
    assert_eq!(ruler.compile(), Ok(vec![0, 1, 2]));
    assert_eq!(
        ruler.ordered_marks(),
        Some(vec![RuleId::TagFilter, RuleId::HeadingAnchors, RuleId::SourcePos])
    );
}

#[test]
fn empty_registry_resolves_to_nothing() {
    assert_eq!(Ruler::new().compile(), Ok(vec![]));
}

#[test]
fn constraints_are_met_and_ties_go_to_the_rule_registered_first() {
    let mut ruler = Ruler::new();
    ruler.add(RuleId::TagFilter).after(RuleId::SourcePos);
    ruler.add(RuleId::HeadingAnchors);
    ruler.add(RuleId::SourcePos);
    ruler.add(RuleId::FootnoteCollect).before(RuleId::HeadingAnchors);
    // 1 waits for 3, 0 waits for 2: 2 is the first that may run, then 0
    assert_eq!(ruler.compile(), Ok(vec![2, 0, 3, 1]));
}

#[test]
fn same_registrations_resolve_to_the_same_order() {
    let build = || {
        let mut ruler = Ruler::new();
        ruler.add(RuleId::FootnoteCollect);
        ruler.add(RuleId::FootnoteBackrefs).before(RuleId::FootnoteCollect);
        ruler.add(RuleId::TagFilter).after(RuleId::FootnoteCollect);
        ruler.add(RuleId::SourcePos).before(RuleId::FootnoteBackrefs);
        ruler
    };
    let first = build().compile();
    assert_eq!(first, Ok(vec![3, 1, 0, 2]));
    assert_eq!(build().compile(), first);
    let ruler = build();
    assert_eq!(ruler.compile(), ruler.compile());
}

#[test]
fn constraint_on_a_rule_that_is_not_there_is_ignored() {
    let mut ruler = Ruler::new();
    ruler.add(RuleId::FootnoteDefinition).before(RuleId::Reference);
    ruler.add(RuleId::Paragraph).after(RuleId::Heading);
    assert_eq!(ruler.compile(), Ok(vec![0, 1]));
}

#[test]
fn cycle_is_an_error() {
    let mut ruler = Ruler::new();
    ruler.add(RuleId::TagFilter).before(RuleId::HeadingAnchors);
    ruler.add(RuleId::HeadingAnchors).before(RuleId::TagFilter);
    assert_eq!(ruler.compile(), Err(CyclicDependency));
    assert_eq!(ruler.ordered_marks(), None);

    let mut longer = Ruler::new();
    longer.add(RuleId::TagFilter).after(RuleId::SourcePos);
    longer.add(RuleId::HeadingAnchors).after(RuleId::TagFilter);
    longer.add(RuleId::SourcePos).after(RuleId::HeadingAnchors);
    longer.add(RuleId::FootnoteCollect);
    assert_eq!(longer.compile(), Err(CyclicDependency));
}

#[test]
fn two_rules_of_one_name_that_want_to_run_before_it_make_a_cycle() {
    let mut ruler = Ruler::new();
    ruler.add(RuleId::TagFilter).before(RuleId::TagFilter);
    // one rule does not wait for itself
    assert_eq!(ruler.compile(), Ok(vec![0]));
    ruler.add(RuleId::TagFilter).before(RuleId::TagFilter);
    assert_eq!(ruler.compile(), Err(CyclicDependency));
}

#[test]
fn parser_is_ready_unless_its_rules_make_a_cycle() {
    let mut md = MarkdownIt::new();
    markdown_it::plugins::cmark::add(&mut md);
    markdown_it::plugins::html::add(&mut md);
    markdown_it::plugins::gfm::add(&mut md);
    markdown_it::plugins::pandoc::add(&mut md);
    assert!(md.is_ready());
    assert!(md.ruler.contains(RuleId::FootnoteCollect));
    assert!(!md.ruler.contains(RuleId::SourcePos));
    // block phase, inline phase, then the rules in the order of their
    // registration, but the links back before the collecting
    assert_eq!(
        md.ruler.ordered_marks(),
        Some(vec![
            RuleId::BlockParser,
            RuleId::InlineParser,
            RuleId::TagFilter,
            RuleId::HeadingAnchors,
            RuleId::FootnoteBackrefs,
            RuleId::FootnoteCollect,
        ])
    );
    assert_eq!(
        md.block.ordered_marks(),
        Some(vec![
            RuleId::Heading,
            RuleId::HtmlBlock,
            RuleId::FootnoteDefinition,
            RuleId::Paragraph,
        ])
    );
    md.add_rule(RuleId::BlockParser).after(RuleId::InlineParser);
    assert!(!md.is_ready());
}
