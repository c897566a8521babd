use markdown_it::parser::block::{scan_lines, BlockState};
use markdown_it::parser::cache::Cache;
use markdown_it::parser::extset::RootExtSet;
use markdown_it::parser::root::Root;
use markdown_it::parser::ruler::RuleId;
use markdown_it::plugins::pandoc::footnote::definitions::FootnoteDefinitionScanner;
use markdown_it::plugins::pandoc::footnote::FootnoteMap;
use markdown_it::{MarkdownIt, Node, NodeKind, NodeValue};
use std::collections::HashMap;

fn parser() -> MarkdownIt {
    let mut md = MarkdownIt::new();
    markdown_it::plugins::cmark::add(&mut md);
    markdown_it::plugins::html::add(&mut md);
    md
}

fn html(src: &str) -> String {
    parser().parse(src).render(&HashMap::new(), &mut Cache::new())
}

#[test]
fn paragraphs_are_split_at_empty_lines() {
    assert_eq!(html("a\nb\n\n\nc"), "<p>a\nb</p>\n<p>c</p>\n");
    assert_eq!(html(""), "");
    assert_eq!(html("\n\n"), "");
    assert_eq!(html("  indented"), "<p>indented</p>\n");
}

#[test]
fn headings_take_one_line() {
    assert_eq!(html("# a\nb"), "<h1>a</h1>\n<p>b</p>\n");
    assert_eq!(html("a\n## b\nc"), "<p>a</p>\n<h2>b</h2>\n<p>c</p>\n");
    assert_eq!(html("######   six"), "<h6>six</h6>\n");
    assert_eq!(html("#"), "<h1></h1>\n");
    // seven are too many, and a space has to follow
    assert_eq!(html("####### seven"), "<p>####### seven</p>\n");
    assert_eq!(html("#hash"), "<p>#hash</p>\n");
}

#[test]
fn html_blocks_run_up_to_an_empty_line() {
    assert_eq!(html("<div>\n*a*\n</div>\n\n*b*"), "<div>\n*a*\n</div>\n<p><em>b</em></p>\n");
    assert_eq!(html("a\n<div>"), "<p>a</p>\n<div>\n");
    assert_eq!(html("< div"), "<p>&lt; div</p>\n");
}

#[test]
fn code_spans() {
    assert_eq!(html("`a*b*`"), "<p><code>a*b*</code></p>\n");
    assert_eq!(html("``a`b``"), "<p><code>a`b</code></p>\n");
    assert_eq!(html("a `<b>` c"), "<p>a <code>&lt;b&gt;</code> c</p>\n");
    // backticks that nothing closes are text
    assert_eq!(html("``a`"), "<p>``a`</p>\n");
    assert_eq!(html("`"), "<p>`</p>\n");
}

#[test]
fn links() {
    assert_eq!(html("[text](http://x)"), "<p><a href=\"http://x\">text</a></p>\n");
    assert_eq!(html("a [b](c) d"), "<p>a <a href=\"c\">b</a> d</p>\n");
    assert_eq!(html("[text]"), "<p>[text]</p>\n");
    assert_eq!(html("[text] (x)"), "<p>[text] (x)</p>\n");
    assert_eq!(html("[text](x"), "<p>[text](x</p>\n");
}

#[test]
fn inline_html() {
    assert_eq!(html("a <b>c</b>"), "<p>a <b>c</b></p>\n");
    assert_eq!(html("a <b"), "<p>a &lt;b</p>\n");
    assert_eq!(html("1 < 2 > 0"), "<p>1 &lt; 2 &gt; 0</p>\n");
}

#[test]
fn tree_of_a_small_document() {
    let tree = parser().parse("# T\n\na *b* `c`");
    assert_eq!(
        tree.walk(),
        vec![
            NodeKind::Root,
            NodeKind::ATXHeading,
            NodeKind::Text,
            NodeKind::Paragraph,
            NodeKind::Text,
            NodeKind::Em,
            NodeKind::Text,
            NodeKind::Text,
            NodeKind::CodeInline,
            NodeKind::Text,
        ]
    );
    assert_eq!(tree.collect_text(), "Ta b c");
    assert_eq!(tree.children[0].srcmap, Some((0, 3)));
    assert_eq!(tree.children[1].srcmap, Some((5, 14)));
    match &tree.value {
        NodeValue::Root(root) => assert_eq!(root.content, "# T\n\na *b* `c`"),
        _ => panic!("not a root"),
    }
}

#[test]
fn without_rules_nothing_is_parsed() {
    let md = MarkdownIt::new();
    let tree = md.parse("# a\n\nb");
    assert_eq!(tree.walk(), vec![NodeKind::Root]);
    assert_eq!(tree.render(&HashMap::new(), &mut Cache::new()), "");
}

#[test]
fn source_positions() {
    let mut md = parser();
    markdown_it::plugins::sourcepos::add(&mut md);
    let out = md.parse("# a\n\nb\nc").render(&HashMap::new(), &mut Cache::new());
    assert_eq!(
        out,
        "<h1 data-sourcepos=\"1:1-1:3\">a</h1>\n<p data-sourcepos=\"3:1-4:1\">b\nc</p>\n"
    );
    let out = md.parse("   x yz").render(&HashMap::new(), &mut Cache::new());
    assert_eq!(out, "<p data-sourcepos=\"1:1-1:7\">x yz</p>\n");
}

fn lines(src: &str) -> (Vec<char>, Vec<(usize, usize, usize, usize)>) {
    let chars: Vec<char> = src.chars().collect();
    let offsets = scan_lines(&chars)
        .iter()
        .map(|o| (o.line_start, o.line_end, o.first_nonspace, o.indent_nonspace))
        .collect();
    (chars, offsets)
}

#[test]
fn lines_of_a_source() {
    assert_eq!(lines("").1, vec![(0, 0, 0, 0)]);
    assert_eq!(lines("ab").1, vec![(0, 2, 0, 0)]);
    assert_eq!(lines("ab\n").1, vec![(0, 2, 0, 0), (3, 3, 3, 0)]);
    assert_eq!(
        lines("a\n  b\n\n\t c").1,
        vec![(0, 1, 0, 0), (2, 5, 4, 2), (6, 6, 6, 0), (7, 10, 9, 2)]
    );
    assert_eq!(lines("   ").1, vec![(0, 3, 3, 3)]);
}

fn is_def(src: &str, max_indent: usize) -> Option<(String, usize)> {
    let mut md = MarkdownIt::new();
    md.max_indent = max_indent;
    let chars: Vec<char> = src.chars().collect();
    let rules = vec![RuleId::FootnoteDefinition, RuleId::Paragraph];
    let line_offsets = scan_lines(&chars);
    let line_max = line_offsets.len();
    let state = BlockState {
        src: &chars,
        md: &md,
        rules: &rules,
        root_ext: RootExtSet::new(),
        node: Node::new(NodeValue::Root(Root::new(src.to_string()))),
        line_offsets,
        line: 0,
        line_max,
        blk_indent: 0,
    };
    assert_eq!(
        FootnoteDefinitionScanner::check(&state),
        None,
        "outside a definition, a definition ends no block"
    );
    FootnoteDefinitionScanner::is_def(&state)
}

#[test]
fn is_def_reads_label_and_spaces() {
    assert_eq!(is_def("[^note]: a", 4), Some(("note".to_string(), 1)));
    assert_eq!(is_def("[^note]:a", 4), Some(("note".to_string(), 0)));
    assert_eq!(is_def("[^n]: \t  a", 4), Some(("n".to_string(), 4)));
    assert_eq!(is_def("[^n]:", 4), Some(("n".to_string(), 0)));
    // a backslash escapes nothing: the label ends at the first `]`
    assert_eq!(is_def("[^a\\]: x", 4), Some(("a\\".to_string(), 1)));
    assert_eq!(is_def("[^a\\]b]: x", 4), None);
    assert_eq!(is_def("[^é↩]: x", 4), Some(("é↩".to_string(), 1)));
    assert_eq!(is_def("   [^n]: a", 4), Some(("n".to_string(), 1)));
}

#[test]
fn is_def_rejects_what_is_no_definition() {
    for src in ["", "[", "[^", "[^a", "[^a]", "[^a] :", "[^]: a", "[^a b]: c", "[a]: b", "^[a]: b", "x[^a]: b"] {
        assert_eq!(is_def(src, 4), None, "{}", src);
    }
    // indented as far as a block can no longer start
    assert_eq!(is_def("    [^n]: a", 4), None);
    assert_eq!(is_def("    [^n]: a", 5), Some(("n".to_string(), 1)));
}

#[test]
fn definition_rule_records_the_label_and_restores_the_state() {
    let mut md = MarkdownIt::new();
    markdown_it::plugins::cmark::add(&mut md);
    let src = "[^a]:  first\n    more\nlazy\n\nafter";
    let chars: Vec<char> = src.chars().collect();
    let rules = vec![RuleId::FootnoteDefinition, RuleId::Paragraph];
    let line_offsets = scan_lines(&chars);
    let line_max = line_offsets.len();
    let mut state = BlockState {
        src: &chars,
        md: &md,
        rules: &rules,
        root_ext: RootExtSet::new(),
        node: Node::new(NodeValue::Root(Root::new(src.to_string()))),
        line_offsets,
        line: 0,
        line_max,
        blk_indent: 0,
    };
    let (node, lines) = FootnoteDefinitionScanner::run(&mut state).unwrap();
    // three lines of text, and the empty line that is passed over after them
    assert_eq!(lines, 4);
    assert_eq!(node.walk(), vec![NodeKind::FootnoteDefinition, NodeKind::Paragraph, NodeKind::InlineRoot]);
    assert_eq!(node.srcmap, Some((0, 27)));
    match &node.value {
        NodeValue::FootnoteDefinition(def) => {
            assert_eq!(def.label.as_deref(), Some("a"));
            assert_eq!(def.def_id, Some(1));
            assert!(!def.inline);
        }
        _ => panic!("not a definition"),
    }
    match &node.children[0].children[0].value {
        NodeValue::InlineRoot(root) => assert_eq!(root.content, "first\nmore\nlazy"),
        _ => panic!("not the text of a block"),
    }
    // the state is where it was, and the label is recorded
    assert_eq!(state.line, 0);
    assert_eq!(state.blk_indent, 0);
    assert_eq!(state.line_offsets[0].first_nonspace, 0);
    assert_eq!(state.line_offsets[0].indent_nonspace, 0);
    assert!(state.node.children.is_empty());
    assert_eq!(state.root_ext.get_or_insert_default::<FootnoteMap>().add_def("a"), None);
    // a second definition of the label gets no id
    let (again, _) = FootnoteDefinitionScanner::run(&mut state).unwrap();
    match &again.value {
        NodeValue::FootnoteDefinition(def) => assert_eq!(def.def_id, None),
        _ => panic!("not a definition"),
    }
    // on a line that starts no definition the rule gives nothing
    state.line = 1;
    assert!(FootnoteDefinitionScanner::run(&mut state).is_none());
}
