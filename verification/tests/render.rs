use markdown_it::parser::cache::Cache;
use markdown_it::parser::inline::{InlineRoot, Text};
use markdown_it::parser::renderer::Renderer;
use markdown_it::parser::root::Root;
use markdown_it::plugins::cmark::block::{ATXHeading, Paragraph, SetextHeader};
use markdown_it::plugins::cmark::inline::backticks::CodeInline;
use markdown_it::plugins::cmark::inline::emphasis::{Em, Strong};
use markdown_it::plugins::cmark::inline::link::Link;
use markdown_it::plugins::extra::strikethrough::Strikethrough;
use markdown_it::plugins::gfm::heading_anchors::HeadingAnchor;
use markdown_it::plugins::html::{HtmlBlock, HtmlInline};
use markdown_it::plugins::pandoc::footnote::back_refs::FootnoteRefAnchor;
use markdown_it::plugins::pandoc::footnote::collect::FootnotesContainerNode;
use markdown_it::plugins::pandoc::footnote::definitions::FootnoteDefinition;
use markdown_it::plugins::pandoc::footnote::references::FootnoteReference;
use markdown_it::{MarkdownIt, Node, NodeKind, NodeValue};
use std::collections::HashMap;

fn text(content: &str) -> Node {
    Node::new(NodeValue::Text(Text { content: content.to_string() }))
}

fn with(value: NodeValue, children: Vec<Node>) -> Node {
    let mut node = Node::new(value);
    node.children = children;
    node
}

fn html(node: &Node) -> String {
    node.render(&HashMap::new(), &mut Cache::new())
}

#[test]
fn rendering_twice_gives_the_same_output() {
    let md = &mut MarkdownIt::new();
    markdown_it::plugins::cmark::add(md);
    markdown_it::plugins::html::add(md);
    markdown_it::plugins::gfm::add(md);
    markdown_it::plugins::pandoc::add(md);
    let tree = md.parse("# Title\n\nsome *text*[^a] and `code`\n\n<div>\n\n[^a]: a note\n");
    let options = HashMap::new();
    let mut cache = Cache::new();
    let first = tree.render(&options, &mut cache);
    let second = tree.render(&options, &mut cache);
    assert_eq!(first, second);
    // and a second parse of the same source renders the same
    assert_eq!(first, md.parse("# Title\n\nsome *text*[^a] and `code`\n\n<div>\n\n[^a]: a note\n").render(&options, &mut Cache::new()));
    assert!(first.starts_with("<h1><a aria-hidden=\"true\" class=\"anchor\" id=\"title\" href=\"#title\"></a>Title</h1>\n<p>some <em>text</em><sup"));
}

#[test]
fn rendering_does_not_depend_on_the_options() {
    let tree = with(NodeValue::Paragraph(Paragraph), vec![text("a")]);
    let mut options = HashMap::new();
    options.insert("x".to_string(), "y".to_string());
    assert_eq!(tree.render(&options, &mut Cache::new()), html(&tree));
}

#[test]
fn text_is_escaped() {
    assert_eq!(html(&text("a < b & c > \"d\" 'e'")), "a &lt; b &amp; c &gt; &quot;d&quot; 'e'");
    assert_eq!(html(&text("")), "");
    assert_eq!(html(&text("é ↩")), "é ↩");
}

#[test]
fn unparsed_text_of_a_block_is_escaped_too() {
    let node = Node::new(NodeValue::InlineRoot(InlineRoot { content: "*a* <b>".to_string() }));
    assert_eq!(html(&node), "*a* &lt;b&gt;");
}

#[test]
fn raw_html_is_not_escaped() {
    let inline = Node::new(NodeValue::HtmlInline(HtmlInline { content: "<b a=\"1\">&".to_string() }));
    assert_eq!(html(&inline), "<b a=\"1\">&");
    let block = Node::new(NodeValue::HtmlBlock(HtmlBlock { content: "<div>\n</div>\n".to_string() }));
    assert_eq!(html(&block), "<div>\n</div>\n");
    // a block stands on lines of its own
    let block = Node::new(NodeValue::HtmlBlock(HtmlBlock { content: "<hr>".to_string() }));
    let root = with(NodeValue::Root(Root::new(String::new())), vec![text("a"), block, text("b")]);
    assert_eq!(html(&root), "a\n<hr>\nb");
}

#[test]
fn inline_wrappers() {
    assert_eq!(html(&with(NodeValue::Em(Em { marker: '*' }), vec![text("a")])), "<em>a</em>");
    assert_eq!(html(&with(NodeValue::Strong(Strong { marker: '_' }), vec![text("a")])), "<strong>a</strong>");
    assert_eq!(html(&with(NodeValue::Strikethrough(Strikethrough { marker: '~' }), vec![text("a")])), "<s>a</s>");
    assert_eq!(
        html(&with(NodeValue::CodeInline(CodeInline { marker: '`', marker_len: 2 }), vec![text("a<b")])),
        "<code>a&lt;b</code>"
    );
}

#[test]
fn blocks_stand_on_lines_of_their_own() {
    let para = || with(NodeValue::Paragraph(Paragraph), vec![text("a")]);
    assert_eq!(html(&para()), "<p>a</p>\n");
    let root = with(NodeValue::Root(Root::new(String::new())), vec![para(), para()]);
    assert_eq!(html(&root), "<p>a</p>\n<p>a</p>\n");
    let root = with(NodeValue::Root(Root::new(String::new())), vec![text("x"), para()]);
    assert_eq!(html(&root), "x\n<p>a</p>\n");
    assert_eq!(html(&with(NodeValue::ATXHeading(ATXHeading { level: 3 }), vec![text("t")])), "<h3>t</h3>\n");
    assert_eq!(
        html(&with(NodeValue::SetextHeader(SetextHeader { level: 2, marker: '-' }), vec![text("t")])),
        "<h2>t</h2>\n"
    );
}

#[test]
fn attributes_are_written_in_order_and_escaped() {
    let mut node = with(NodeValue::Paragraph(Paragraph), vec![]);
    node.attrs.push(("title", "a \"b\" <c>".to_string()));
    node.attrs.push(("data-x", "1".to_string()));
    node.attrs.push(("data-x", "2".to_string()));
    assert_eq!(html(&node), "<p title=\"a &quot;b&quot; &lt;c&gt;\" data-x=\"1\" data-x=\"2\"></p>\n");
}

#[test]
fn classes_and_styles_are_written_as_one_attribute() {
    let mut node = with(NodeValue::Em(Em { marker: '*' }), vec![]);
    node.attrs.push(("class", "a".to_string()));
    node.attrs.push(("id", "i".to_string()));
    node.attrs.push(("style", "x:1".to_string()));
    node.attrs.push(("class", "b".to_string()));
    node.attrs.push(("style", "y:2".to_string()));
    node.attrs.push(("class", "c".to_string()));
    assert_eq!(html(&node), "<em class=\"a b c\" id=\"i\" style=\"x:1;y:2\"></em>");
}

#[test]
fn link_with_and_without_title() {
    let link = with(
        NodeValue::Link(Link { url: "http://x/?a=1&b=2".to_string(), title: None }),
        vec![text("t")],
    );
    assert_eq!(html(&link), "<a href=\"http://x/?a=1&amp;b=2\">t</a>");
    let mut link = with(
        NodeValue::Link(Link { url: "u".to_string(), title: Some("the \"title\"".to_string()) }),
        vec![text("t")],
    );
    link.attrs.push(("class", "c".to_string()));
    assert_eq!(html(&link), "<a class=\"c\" href=\"u\" title=\"the &quot;title&quot;\">t</a>");
}

#[test]
fn heading_anchor_with_and_without_id() {
    let anchor = with(
        NodeValue::HeadingAnchor(HeadingAnchor { href: "slug".to_string(), id: Some("slug".to_string()) }),
        vec![text("#")],
    );
    assert_eq!(html(&anchor), "<a id=\"slug\" href=\"#slug\">#</a>");
    let anchor = with(
        NodeValue::HeadingAnchor(HeadingAnchor { href: "slug".to_string(), id: None }),
        vec![],
    );
    assert_eq!(html(&anchor), "<a href=\"#slug\"></a>");
}

#[test]
fn footnote_definition_with_and_without_id() {
    let def = with(
        NodeValue::FootnoteDefinition(FootnoteDefinition {
            label: Some("a".to_string()),
            def_id: Some(12),
            inline: false,
        }),
        vec![text("n")],
    );
    assert_eq!(html(&def), "<li id=\"fn12\" class=\"footnote-item\">n</li>\n");
    let mut def = with(
        NodeValue::FootnoteDefinition(FootnoteDefinition { label: None, def_id: None, inline: false }),
        vec![],
    );
    def.attrs.push(("class", "own".to_string()));
    assert_eq!(html(&def), "<li class=\"own footnote-item\"></li>\n");
}

#[test]
fn footnote_reference() {
    let reference = Node::new(NodeValue::FootnoteReference(FootnoteReference {
        label: Some("a".to_string()),
        ref_id: 3,
        def_id: 10,
    }));
    assert_eq!(
        html(&reference),
        "<sup class=\"footnote-ref\"><a href=\"#fn10\" id=\"fnref3\">[10]</a></sup>"
    );
}

#[test]
fn footnote_backrefs_one_for_each_reference_in_order() {
    let anchor = Node::new(NodeValue::FootnoteRefAnchor(FootnoteRefAnchor { ref_ids: vec![2, 5, 100] }));
    assert_eq!(
        html(&anchor),
        " <a href=\"#fnref2\" class=\"footnote-backref\">\u{21a9}\u{FE0E}</a> \
         <a href=\"#fnref5\" class=\"footnote-backref\">\u{21a9}\u{FE0E}</a> \
         <a href=\"#fnref100\" class=\"footnote-backref\">\u{21a9}\u{FE0E}</a>"
    );
    let none = Node::new(NodeValue::FootnoteRefAnchor(FootnoteRefAnchor { ref_ids: vec![] }));
    assert_eq!(html(&none), "");
}

#[test]
fn footnotes_container() {
    let container = with(
        NodeValue::FootnotesContainerNode(FootnotesContainerNode),
        vec![with(
            NodeValue::FootnoteDefinition(FootnoteDefinition {
                label: None,
                def_id: Some(1),
                inline: false,
            }),
            vec![text("n")],
        )],
    );
    assert_eq!(
        html(&container),
        "<hr class=\"footnotes-sep\">\n<section class=\"footnotes\">\n<ol class=\"footnotes-list\">\n\
         <li id=\"fn1\" class=\"footnote-item\">n</li>\n</ol>\n</section>\n"
    );
    let root = with(NodeValue::Root(Root::new(String::new())), vec![text("x"), container]);
    assert!(html(&root).starts_with("x\n<hr class=\"footnotes-sep\">\n"));
}

#[test]
fn line_break_is_made_once() {
    let mut fmt = Renderer::new();
    fmt.cr();
    assert_eq!(fmt.result.len(), 0);
    fmt.text("a");
    fmt.cr();
    fmt.cr();
    fmt.cr();
    fmt.open("p", &vec![]);
    fmt.close("p");
    fmt.self_close("hr", &vec![("class", "c".to_string())]);
    fmt.text_raw("<&>");
    assert_eq!(fmt.finish(), "a\n<p></p><hr class=\"c\"><&>");
}

#[test]
fn node_knows_its_kind_and_its_text() {
    let tree = with(
        NodeValue::Paragraph(Paragraph),
        vec![
            text("a"),
            with(NodeValue::Em(Em { marker: '*' }), vec![text("b"), text("c")]),
            Node::new(NodeValue::HtmlInline(HtmlInline { content: "<x>".to_string() })),
            text("d"),
        ],
    );
    assert!(tree.is::<Paragraph>());
    assert!(!tree.is::<Text>());
    assert_eq!(tree.kind(), NodeKind::Paragraph);
    assert_eq!(tree.children[1].kind(), NodeKind::Em);
    assert_eq!(tree.collect_text(), "abcd");
    assert_eq!(
        tree.walk(),
        vec![
            NodeKind::Paragraph,
            NodeKind::Text,
            NodeKind::Em,
            NodeKind::Text,
            NodeKind::Text,
            NodeKind::HtmlInline,
            NodeKind::Text,
        ]
    );
    let fresh = Node::new(NodeValue::Paragraph(Paragraph));
    assert!(fresh.children.is_empty() && fresh.attrs.is_empty() && fresh.srcmap.is_none());
}

#[test]
fn cast_gives_the_value_of_its_type_or_nothing() {
    let mut node = with(
        NodeValue::Link(Link { url: "u".to_string(), title: None }),
        vec![text("t")],
    );
    assert!(node.is::<Link>());
    assert!(!node.is::<Em>());
    assert_eq!(node.cast::<Link>().unwrap().url, "u");
    assert!(node.cast::<Em>().is_none());
    assert!(node.cast::<Root>().is_none());
    assert!(node.cast_mut::<Text>().is_none());
    node.cast_mut::<Link>().unwrap().title = Some("x".to_string());
    assert_eq!(html(&node), "<a href=\"u\" title=\"x\">t</a>");
    assert_eq!(node.children[0].cast::<Text>().unwrap().content, "t");
}
