use markdown_it::parser::cache::Cache;
use markdown_it::{MarkdownIt, NodeKind};
use std::collections::HashMap;

fn html(src: &str) -> String {
    let md = &mut MarkdownIt::new();
    markdown_it::plugins::cmark::add(md);
    markdown_it::plugins::extra::add(md);
    md.parse(src).render(&HashMap::new(), &mut Cache::new())
}

#[test]
fn strong_around_a_lone_star_follows_the_rule_of_three() {
    assert_eq!(html("**a*b**"), "<p><strong>a*b</strong></p>\n");
    let md = &mut MarkdownIt::new();
    markdown_it::plugins::cmark::add(md);
    let tree = md.parse("**a*b**");
    assert_eq!(
        tree.walk(),
        vec![NodeKind::Root, NodeKind::Paragraph, NodeKind::Strong, NodeKind::Text]
    );
    assert_eq!(tree.collect_text(), "a*b");
}

#[test]
fn emphasis_around_a_double_star_follows_the_rule_of_three() {
    assert_eq!(html("*a**b*"), "<p><em>a**b</em></p>\n");
    let md = &mut MarkdownIt::new();
    markdown_it::plugins::cmark::add(md);
    let tree = md.parse("*a**b*");
    assert_eq!(
        tree.walk(),
        vec![NodeKind::Root, NodeKind::Paragraph, NodeKind::Em, NodeKind::Text]
    );
    assert_eq!(tree.collect_text(), "a**b");
}

#[test]
fn plain_pairs() {
    assert_eq!(html("*a*"), "<p><em>a</em></p>\n");
    assert_eq!(html("**a**"), "<p><strong>a</strong></p>\n");
    assert_eq!(html("_a_ and __b__"), "<p><em>a</em> and <strong>b</strong></p>\n");
    assert_eq!(html("~~gone~~"), "<p><s>gone</s></p>\n");
}

#[test]
fn three_stars_nest_strong_in_emphasis() {
    assert_eq!(html("***a***"), "<p><em><strong>a</strong></em></p>\n");
}

#[test]
fn leftover_of_a_run_stays_as_text() {
    assert_eq!(html("**a*"), "<p>*<em>a</em></p>\n");
    assert_eq!(html("*a**"), "<p><em>a</em>*</p>\n");
}

#[test]
fn unmatched_runs_are_literal_text() {
    assert_eq!(html("*a"), "<p>*a</p>\n");
    assert_eq!(html("a*"), "<p>a*</p>\n");
    assert_eq!(html("a * b"), "<p>a * b</p>\n");
    assert_eq!(html("**"), "<p>**</p>\n");
    // strikethrough is written with two markers only
    assert_eq!(html("~a~"), "<p>~a~</p>\n");
}

#[test]
fn underscore_does_not_work_inside_a_word() {
    assert_eq!(html("_a_b_"), "<p><em>a_b</em></p>\n");
    assert_eq!(html("snake_case_name"), "<p>snake_case_name</p>\n");
    // the star does
    assert_eq!(html("a*b*c"), "<p>a<em>b</em>c</p>\n");
}

#[test]
fn pairs_nest() {
    assert_eq!(html("*a **b** c*"), "<p><em>a <strong>b</strong> c</em></p>\n");
    assert_eq!(html("**a ~~b~~**"), "<p><strong>a <s>b</s></strong></p>\n");
}

#[test]
fn a_run_inside_a_pair_of_another_marker_is_text() {
    assert_eq!(html("*a _b* c_"), "<p><em>a _b</em> c_</p>\n");
}

#[test]
fn without_the_rule_markers_are_text() {
    let md = &mut MarkdownIt::new();
    md.block.add(markdown_it::parser::ruler::RuleId::Paragraph);
    let out = md.parse("*a*").render(&HashMap::new(), &mut Cache::new());
    assert_eq!(out, "<p>*a*</p>\n");
}
