use markdown_it::parser::cache::Cache;
use markdown_it::plugins::pandoc::footnote::collect::FootnotesContainerNode;
use markdown_it::plugins::pandoc::footnote::FootnoteMap;
use markdown_it::{MarkdownIt, NodeKind, NodeValue};
use std::collections::HashMap;

fn parser() -> MarkdownIt {
    let mut md = MarkdownIt::new();
    markdown_it::plugins::cmark::add(&mut md);
    markdown_it::plugins::pandoc::add(&mut md);
    md
}

fn html(src: &str) -> String {
    parser().parse(src).render(&HashMap::new(), &mut Cache::new())
}

#[test]
fn reference_without_definition_is_literal_text() {
    assert_eq!(html("[^x]"), "<p>[^x]</p>\n");
    let tree = parser().parse("see [^x] here");
    assert_eq!(tree.walk(), vec![NodeKind::Root, NodeKind::Paragraph, NodeKind::Text]);
    assert_eq!(tree.collect_text(), "see [^x] here");
}

#[test]
fn definition_referenced_twice_has_two_backrefs_in_order() {
    let out = html("one[^a] two[^a]\n\n[^a]: note\n");
    assert_eq!(
        out,
        "<p>one<sup class=\"footnote-ref\"><a href=\"#fn1\" id=\"fnref1\">[1]</a></sup> \
         two<sup class=\"footnote-ref\"><a href=\"#fn1\" id=\"fnref2\">[1]</a></sup></p>\n\
         <hr class=\"footnotes-sep\">\n\
         <section class=\"footnotes\">\n\
         <ol class=\"footnotes-list\">\n\
         <li id=\"fn1\" class=\"footnote-item\">\n\
         <p>note <a href=\"#fnref1\" class=\"footnote-backref\">\u{21a9}\u{FE0E}</a> \
         <a href=\"#fnref2\" class=\"footnote-backref\">\u{21a9}\u{FE0E}</a></p>\n\
         </li>\n\
         </ol>\n\
         </section>\n"
    );
    assert_eq!(out.matches("footnote-backref").count(), 2);
    assert!(out.find("#fnref1").unwrap() < out.find("#fnref2").unwrap());
}

#[test]
fn definition_without_reference_is_absent() {
    assert_eq!(html("[^a]: note\n\ntext"), "<p>text</p>\n");
    let tree = parser().parse("[^a]: note\n\ntext");
    assert_eq!(tree.walk(), vec![NodeKind::Root, NodeKind::Paragraph, NodeKind::Text]);
}

#[test]
fn ids_follow_first_sight_and_not_the_number_of_references() {
    let tree = parser().parse("[^b]: B\n\n[^a]: A\n\n[^a] [^a] [^a] [^b]");
    let container = tree.children.last().unwrap();
    assert!(container.is::<FootnotesContainerNode>());
    let ids: Vec<(Option<String>, Option<usize>)> = container
        .children
        .iter()
        .map(|def| match &def.value {
            NodeValue::FootnoteDefinition(d) => (d.label.clone(), d.def_id),
            _ => panic!("not a definition"),
        })
        .collect();
    assert_eq!(
        ids,
        vec![(Some("b".to_string()), Some(1)), (Some("a".to_string()), Some(2))]
    );
}

#[test]
fn collected_tree_has_the_definitions_in_one_container_at_the_end() {
    let tree = parser().parse("[^label]\n\n[^label]: This is a footnote\n\nlast");
    assert_eq!(
        tree.walk(),
        vec![
            NodeKind::Root,
            NodeKind::Paragraph,
            NodeKind::FootnoteReference,
            NodeKind::Paragraph,
            NodeKind::Text,
            NodeKind::FootnotesContainerNode,
            NodeKind::FootnoteDefinition,
            NodeKind::Paragraph,
            NodeKind::Text,
            NodeKind::FootnoteRefAnchor,
        ]
    );
}

#[test]
fn backrefs_alone_leave_the_definition_in_place() {
    let mut md = MarkdownIt::new();
    markdown_it::plugins::cmark::add(&mut md);
    markdown_it::plugins::pandoc::footnote::references::add(&mut md);
    markdown_it::plugins::pandoc::footnote::definitions::add(&mut md);
    markdown_it::plugins::pandoc::footnote::back_refs::add(&mut md);
    let tree = md.parse("[^label]\n\n[^label]: This is a footnote");
    assert_eq!(
        tree.walk(),
        vec![
            NodeKind::Root,
            NodeKind::Paragraph,
            NodeKind::FootnoteReference,
            NodeKind::FootnoteDefinition,
            NodeKind::Paragraph,
            NodeKind::Text,
            NodeKind::FootnoteRefAnchor,
        ]
    );
}

#[test]
fn definition_that_ends_in_no_paragraph_gets_its_backref_as_a_child() {
    let mut md = MarkdownIt::new();
    markdown_it::plugins::cmark::add(&mut md);
    markdown_it::plugins::pandoc::footnote::references::add(&mut md);
    markdown_it::plugins::pandoc::footnote::definitions::add(&mut md);
    markdown_it::plugins::pandoc::footnote::back_refs::add(&mut md);
    let tree = md.parse("[^a]\n\n[^a]: # head");
    assert_eq!(
        tree.walk(),
        vec![
            NodeKind::Root,
            NodeKind::Paragraph,
            NodeKind::FootnoteReference,
            NodeKind::FootnoteDefinition,
            NodeKind::ATXHeading,
            NodeKind::Text,
            NodeKind::FootnoteRefAnchor,
        ]
    );
}

#[test]
fn footnote_written_at_its_reference_is_collected_in_a_paragraph() {
    let out = html("a^[note]");
    assert_eq!(
        out,
        "<p>a<sup class=\"footnote-ref\"><a href=\"#fn1\" id=\"fnref1\">[1]</a></sup></p>\n\
         <hr class=\"footnotes-sep\">\n\
         <section class=\"footnotes\">\n\
         <ol class=\"footnotes-list\">\n\
         <li id=\"fn1\" class=\"footnote-item\">\n\
         <p>note <a href=\"#fnref1\" class=\"footnote-backref\">\u{21a9}\u{FE0E}</a></p>\n\
         </li>\n\
         </ol>\n\
         </section>\n"
    );
}

#[test]
fn a_fresh_parse_knows_nothing_of_an_earlier_one() {
    let md = parser();
    let first = md.parse("[^a]: note\n\n[^a]");
    assert!(first.children.last().unwrap().is::<FootnotesContainerNode>());
    // the label of the first document is not defined in the second
    let second = md.parse("[^a]");
    assert_eq!(second.walk(), vec![NodeKind::Root, NodeKind::Paragraph, NodeKind::Text]);
    match &second.value {
        NodeValue::Root(root) => assert!(root.ext.get::<FootnoteMap>().is_none()),
        _ => panic!("not a root"),
    }
}

#[test]
fn map_gives_ids_in_order_of_first_sight() {
    let mut map = FootnoteMap::new();
    assert_eq!(map.add_ref("a"), None);
    assert_eq!(map.add_def("a"), Some(1));
    assert_eq!(map.add_def("b"), Some(2));
    assert_eq!(map.add_def("a"), None);
    assert_eq!(map.add_ref("b"), Some((2, 1)));
    assert_eq!(map.add_ref("a"), Some((1, 2)));
    assert_eq!(map.add_ref("b"), Some((2, 3)));
    assert_eq!(map.add_inline_def(), (3, 4));
    assert_eq!(map.add_def("c"), Some(4));
    assert_eq!(map.referenced_by(1), vec![2]);
    assert_eq!(map.referenced_by(2), vec![1, 3]);
    assert_eq!(map.referenced_by(3), vec![4]);
    assert_eq!(map.referenced_by(4), Vec::<usize>::new());
    assert_eq!(map.referenced_by(0), Vec::<usize>::new());
    assert_eq!(map.referenced_by(9), Vec::<usize>::new());
    assert_eq!(map.ref_count(), 4);
}

fn definitions_of(tree: &markdown_it::Node) -> Vec<(Option<String>, Option<usize>)> {
    let container = tree.children.last().unwrap();
    assert!(container.is::<FootnotesContainerNode>());
    container
        .children
        .iter()
        .map(|def| match &def.value {
            NodeValue::FootnoteDefinition(d) => (d.label.clone(), d.def_id),
            _ => panic!("not a definition"),
        })
        .collect()
}

#[test]
fn referenced_definition_inside_an_unreferenced_one_survives() {
    let tree = parser().parse("[^u]: outer\n\n    [^d]: inner\n\ntext[^d]");
    assert_eq!(
        tree.walk(),
        vec![
            NodeKind::Root,
            NodeKind::Paragraph,
            NodeKind::Text,
            NodeKind::FootnoteReference,
            NodeKind::FootnotesContainerNode,
            NodeKind::FootnoteDefinition,
            NodeKind::Paragraph,
            NodeKind::Text,
            NodeKind::FootnoteRefAnchor,
        ]
    );
    assert_eq!(definitions_of(&tree), vec![(Some("d".to_string()), Some(2))]);
    assert_eq!(tree.children[1].collect_text(), "inner");
    // the same with both on one line
    let tree = parser().parse("[^u]: [^d]: inner\n\ntext[^d]");
    assert_eq!(definitions_of(&tree), vec![(Some("d".to_string()), Some(2))]);
}

#[test]
fn referenced_definition_inside_a_referenced_one_is_collected_by_itself() {
    let tree = parser().parse("[^p]: parent\n\n    [^c]: child\n\nx[^c] y[^p]");
    assert_eq!(
        definitions_of(&tree),
        vec![(Some("p".to_string()), Some(1)), (Some("c".to_string()), Some(2))]
    );
    let container = tree.children.last().unwrap();
    // the parent no longer holds the child
    assert_eq!(
        container.children[0].walk(),
        vec![
            NodeKind::FootnoteDefinition,
            NodeKind::Paragraph,
            NodeKind::Text,
            NodeKind::FootnoteRefAnchor,
        ]
    );
    assert_eq!(container.children[0].collect_text(), "parent");
    assert_eq!(container.children[1].collect_text(), "child");
    assert_eq!(tree.children.len(), 2);
}

#[test]
fn definitions_are_collected_in_the_order_of_the_document() {
    // a footnote written at its reference, in a paragraph that stands
    // before a definition
    let tree = parser().parse("a^[one]\n\n[^b]: two\n\nb[^b]");
    assert_eq!(definitions_of(&tree), vec![(None, Some(2)), (Some("b".to_string()), Some(1))]);
    let out = tree.render(&HashMap::new(), &mut Cache::new());
    assert!(out.find("<li id=\"fn2\"").unwrap() < out.find("<li id=\"fn1\"").unwrap());
    // and the other way round
    let tree = parser().parse("[^b]: two\n\na^[one] b[^b]");
    assert_eq!(definitions_of(&tree), vec![(Some("b".to_string()), Some(1)), (None, Some(2))]);
}

#[test]
fn unreferenced_definitions_are_dropped_at_every_depth() {
    let tree = parser().parse("[^p]: parent\n\n    [^c]: child\n\nx[^p]");
    assert_eq!(definitions_of(&tree), vec![(Some("p".to_string()), Some(1))]);
    assert_eq!(tree.children.last().unwrap().children[0].collect_text(), "parent");
    let tree = parser().parse("[^p]: parent\n\n    [^c]: child\n\nx");
    assert_eq!(tree.walk(), vec![NodeKind::Root, NodeKind::Paragraph, NodeKind::Text]);
}
