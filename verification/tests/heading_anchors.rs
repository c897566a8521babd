use markdown_it::parser::cache::Cache;
use markdown_it::plugins::gfm::heading_anchors::{
    add, add_with_options, AddHeadingAnchors, AnchorPosition, HeadingAnchorOptions,
};
use markdown_it::{MarkdownIt, NodeKind};
use std::collections::HashMap;

fn html(md: &MarkdownIt, src: &str) -> String {
    md.parse(src).render(&HashMap::new(), &mut Cache::new())
}

#[test]
fn equal_headings_get_distinct_slugs() {
    let md = &mut MarkdownIt::new();
    markdown_it::plugins::cmark::add(md);
    let mut options = HeadingAnchorOptions::default();
    options.position = AnchorPosition::Start;
    options.inner_html = String::from("¶");
    add_with_options(md, options);
    assert_eq!(
        html(md, "# heading\n\n# heading"),
        "<h1>\
         <a aria-hidden=\"true\" class=\"anchor\" id=\"heading\" href=\"#heading\">¶</a>\
         heading</h1>\n\
         <h1>\
         <a aria-hidden=\"true\" class=\"anchor\" id=\"heading-1\" href=\"#heading-1\">¶</a>\
         heading</h1>\n"
    );
}

#[test]
fn a_third_equal_heading_counts_on_and_a_taken_number_is_passed_over() {
    let md = &mut MarkdownIt::new();
    markdown_it::plugins::cmark::add(md);
    let mut options = HeadingAnchorOptions::default();
    options.position = AnchorPosition::NoAnchor;
    options.id_on_heading = true;
    add_with_options(md, options);
    assert_eq!(
        html(md, "# a\n\n# a-1\n\n# a\n\n# a\n\n## A"),
        "<h1 id=\"a\">a</h1>\n<h1 id=\"a-1\">a-1</h1>\n<h1 id=\"a-2\">a</h1>\n\
         <h1 id=\"a-3\">a</h1>\n<h2 id=\"a-4\">A</h2>\n"
    );
}

#[test]
fn slug_is_lower_case_with_dashes_and_without_punctuation() {
    let md = &mut MarkdownIt::new();
    markdown_it::plugins::cmark::add(md);
    let mut options = HeadingAnchorOptions::default();
    options.position = AnchorPosition::NoAnchor;
    options.id_on_heading = true;
    add_with_options(md, options);
    assert_eq!(
        html(md, "# Hello, World! It's *me*"),
        "<h1 id=\"hello-world-its-me\">Hello, World! It's <em>me</em></h1>\n"
    );
}

#[test]
fn anchors_only_within_the_range_of_levels() {
    let md = &mut MarkdownIt::new();
    markdown_it::plugins::cmark::add(md);
    let mut options = HeadingAnchorOptions::default();
    options.min_level = 2;
    options.max_level = 3;
    options.inner_html = String::new();
    options.position = AnchorPosition::End;
    add_with_options(md, options);
    assert_eq!(
        html(md, "# one\n\n## two\n\n### three\n\n#### four\n\ntext"),
        "<h1>one</h1>\n\
         <h2>two<a aria-hidden=\"true\" class=\"anchor\" id=\"two\" href=\"#two\"></a></h2>\n\
         <h3>three<a aria-hidden=\"true\" class=\"anchor\" id=\"three\" href=\"#three\"></a></h3>\n\
         <h4>four</h4>\n\
         <p>text</p>\n"
    );
}

#[test]
fn id_on_the_heading_leaves_the_anchor_without() {
    let md = &mut MarkdownIt::new();
    markdown_it::plugins::cmark::add(md);
    let mut options = HeadingAnchorOptions::default();
    options.id_on_heading = true;
    options.inner_html = String::from("#");
    options.classes = vec![String::from("one"), String::from("two")];
    add_with_options(md, options);
    assert_eq!(
        html(md, "## t"),
        "<h2 id=\"t\"><a aria-hidden=\"true\" class=\"one two\" href=\"#t\">#</a>t</h2>\n"
    );
}

#[test]
fn default_options_anchor_every_level_with_the_link_icon() {
    let md = &mut MarkdownIt::new();
    markdown_it::plugins::cmark::add(md);
    add(md);
    let tree = md.parse("###### deep");
    assert_eq!(
        tree.walk(),
        vec![
            NodeKind::Root,
            NodeKind::ATXHeading,
            NodeKind::HeadingAnchor,
            NodeKind::HtmlInline,
            NodeKind::Text,
        ]
    );
    let out = tree.render(&HashMap::new(), &mut Cache::new());
    assert!(out.starts_with(
        "<h6><a aria-hidden=\"true\" class=\"anchor\" id=\"deep\" href=\"#deep\"><svg class=\"octicon octicon-link\""
    ));
    assert!(out.ends_with("</svg></a>deep</h6>\n"));
}

#[test]
fn add_keeps_the_options_that_are_there() {
    let md = &mut MarkdownIt::new();
    markdown_it::plugins::cmark::add(md);
    let mut options = HeadingAnchorOptions::default();
    options.inner_html = String::from("x");
    add_with_options(md, options);
    add(md);
    assert_eq!(md.ext.get::<HeadingAnchorOptions>().unwrap().inner_html, "x");
}

#[test]
fn gfm_adds_empty_anchors() {
    let md = &mut MarkdownIt::new();
    markdown_it::plugins::cmark::add(md);
    markdown_it::plugins::gfm::add(md);
    assert_eq!(
        html(md, "# a"),
        "<h1><a aria-hidden=\"true\" class=\"anchor\" id=\"a\" href=\"#a\"></a>a</h1>\n"
    );
}

#[test]
fn rule_runs_on_a_tree_made_by_hand() {
    let md = &mut MarkdownIt::new();
    markdown_it::plugins::cmark::add(md);
    let mut options = HeadingAnchorOptions::default();
    options.position = AnchorPosition::NoAnchor;
    options.id_on_heading = true;
    add_with_options(md, options);
    let mut tree = md.parse("# x");
    // the parse gave the heading its id; a second run gives a second one,
    // from a slugger of its own
    AddHeadingAnchors::run(&mut tree, md);
    assert_eq!(
        tree.render(&HashMap::new(), &mut Cache::new()),
        "<h1 id=\"x\" id=\"x\">x</h1>\n"
    );
}

#[test]
fn headings_get_their_anchors_at_any_depth() {
    let md = &mut MarkdownIt::new();
    markdown_it::plugins::cmark::add(md);
    markdown_it::plugins::pandoc::footnote::definitions::add(md);
    let mut options = HeadingAnchorOptions::default();
    options.min_level = 2;
    options.max_level = 2;
    options.position = AnchorPosition::NoAnchor;
    options.id_on_heading = true;
    add_with_options(md, options);
    // a heading inside a definition, one in range and one out of range,
    // and one at the top with the same text
    assert_eq!(
        html(md, "[^a]: ## deep\n\n    # deep\n\n## deep\n\ntext"),
        "<li id=\"fn1\" class=\"footnote-item\">\n\
         <h2 id=\"deep\">deep</h2>\n\
         <h1>deep</h1>\n\
         </li>\n\
         <h2 id=\"deep-1\">deep</h2>\n\
         <p>text</p>\n"
    );
}
