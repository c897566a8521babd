use markdown_it::parser::cache::Cache;
use markdown_it::plugins::gfm::tag_filter::TagFilter;
use markdown_it::plugins::html::{HtmlBlock, HtmlInline};
use markdown_it::{MarkdownIt, Node, NodeValue};
use std::collections::HashMap;

fn html(src: &str) -> String {
    let md = &mut MarkdownIt::new();
    markdown_it::plugins::cmark::add(md);
    markdown_it::plugins::html::add(md);
    markdown_it::plugins::gfm::tag_filter::add(md);
    md.parse(src).render(&HashMap::new(), &mut Cache::new())
}

#[test]
fn script_in_raw_html_is_disarmed() {
    assert_eq!(
        html("<script>alert(window.location)</script>"),
        "&lt;script>alert(window.location)</script>\n"
    );
}

#[test]
fn every_denied_tag_is_disarmed_in_any_case() {
    for tag in [
        "iframe", "noembed", "noframes", "plaintext", "script", "title", "textarea", "xmp",
    ] {
        let lower = html(&format!("<{}>x", tag));
        assert_eq!(lower, format!("&lt;{}>x\n", tag));
        let upper = html(&format!("<{}>x", tag.to_uppercase()));
        assert_eq!(upper, format!("&lt;{}>x\n", tag.to_uppercase()));
        let mixed = format!("{}{}", tag[..1].to_uppercase(), &tag[1..]);
        assert_eq!(html(&format!("<div><{} a=\"b\">", mixed)), format!("<div>&lt;{} a=\"b\">\n", mixed));
        assert!(!lower.contains(&format!("<{}", tag)));
    }
}

#[test]
fn other_tags_pass() {
    assert_eq!(html("<div>a</div>"), "<div>a</div>\n");
    assert_eq!(html("<strong>a</strong>"), "<strong>a</strong>\n");
}

#[test]
fn denied_tag_inside_a_line_is_disarmed() {
    assert_eq!(html("a <xmp> b"), "<p>a &lt;xmp> b</p>\n");
    assert_eq!(html("a <b>c</b>"), "<p>a <b>c</b></p>\n");
}

#[test]
fn rule_changes_raw_html_only() {
    let md = MarkdownIt::new();
    let mut root = Node::new(NodeValue::Root(markdown_it::parser::root::Root::new(String::new())));
    root.children.push(Node::new(NodeValue::HtmlBlock(HtmlBlock {
        content: "<TITLE>t</TITLE><title>".to_string(),
    })));
    let mut para = Node::new(NodeValue::Paragraph(markdown_it::plugins::cmark::block::Paragraph));
    para.children.push(Node::new(NodeValue::Text(markdown_it::parser::inline::Text {
        content: "<script>".to_string(),
    })));
    para.children.push(Node::new(NodeValue::HtmlInline(HtmlInline {
        content: "<Script src>".to_string(),
    })));
    root.children.push(para);
    TagFilter::run(&mut root, &md);
    match &root.children[0].value {
        NodeValue::HtmlBlock(block) => assert_eq!(block.content, "&lt;TITLE>t</TITLE>&lt;title>"),
        _ => panic!("not a block of html"),
    }
    match &root.children[1].children[0].value {
        NodeValue::Text(text) => assert_eq!(text.content, "<script>"),
        _ => panic!("not a text"),
    }
    match &root.children[1].children[1].value {
        NodeValue::HtmlInline(inline) => assert_eq!(inline.content, "&lt;Script src>"),
        _ => panic!("not inline html"),
    }
}
