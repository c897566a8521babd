use markdown_it::parser::cache::Cache;
use markdown_it::plugins::pandoc::footnote::definitions::{add, FootnoteDefinition};
use markdown_it::NodeKind;
use std::collections::HashMap;

#[test]
fn it_works() {
    let parser = &mut markdown_it::MarkdownIt::new();
    markdown_it::plugins::cmark::add(parser);
    markdown_it::plugins::sourcepos::add(parser);
    add(parser);
    let node = parser.parse("[^note]: a\n\nhallo\nthere\n");
    assert!(node.children.first().unwrap().is::<FootnoteDefinition>());
}

#[test]
fn definition_holds_its_paragraph_and_the_rest_follows() {
    let parser = &mut markdown_it::MarkdownIt::new();
    markdown_it::plugins::cmark::add(parser);
    add(parser);
    let node = parser.parse("[^note]: a\n\nhallo\nthere\n");
    assert_eq!(
        node.walk(),
        vec![
            NodeKind::Root,
            NodeKind::FootnoteDefinition,
            NodeKind::Paragraph,
            NodeKind::Text,
            NodeKind::Paragraph,
            NodeKind::Text,
        ]
    );
    assert_eq!(node.children[1].collect_text(), "hallo\nthere");
    let html = node.render(&HashMap::new(), &mut Cache::new());
    assert_eq!(
        html,
        "<li id=\"fn1\" class=\"footnote-item\">\n<p>a</p>\n</li>\n<p>hallo\nthere</p>\n"
    );
}

#[test]
fn definition_takes_the_indented_lines_after_it() {
    let parser = &mut markdown_it::MarkdownIt::new();
    markdown_it::plugins::cmark::add(parser);
    add(parser);
    let node = parser.parse("[^a]: first\n\n    second\n\nafter\n");
    assert_eq!(
        node.walk(),
        vec![
            NodeKind::Root,
            NodeKind::FootnoteDefinition,
            NodeKind::Paragraph,
            NodeKind::Text,
            NodeKind::Paragraph,
            NodeKind::Text,
            NodeKind::Paragraph,
            NodeKind::Text,
        ]
    );
    assert_eq!(node.children[0].collect_text(), "firstsecond");
    assert_eq!(node.children[1].collect_text(), "after");
}

#[test]
fn a_label_with_a_space_or_without_colon_is_no_definition() {
    let parser = &mut markdown_it::MarkdownIt::new();
    markdown_it::plugins::cmark::add(parser);
    add(parser);
    for src in ["[^a b]: x", "[^a] x", "[^]: x", "[^a", "[a]: x", "     [^a]: x"] {
        let node = parser.parse(src);
        assert_eq!(
            node.walk(),
            vec![NodeKind::Root, NodeKind::Paragraph, NodeKind::Text],
            "{}",
            src
        );
    }
}

#[test]
fn a_label_defined_twice_keeps_its_first_id() {
    let parser = &mut markdown_it::MarkdownIt::new();
    markdown_it::plugins::cmark::add(parser);
    add(parser);
    let node = parser.parse("[^a]: one\n\n[^b]: two\n\n[^a]: three\n");
    let ids: Vec<Option<usize>> = node
        .children
        .iter()
        .map(|child| match &child.value {
            markdown_it::NodeValue::FootnoteDefinition(def) => def.def_id,
            _ => panic!("not a definition"),
        })
        .collect();
    assert_eq!(ids, vec![Some(1), Some(2), None]);
}
