//! Notes on each node where in the source it came from, as an attribute
//! `data-sourcepos` of the form `line:column-line:column`.
use vstd::prelude::*;
use crate::parser::engine::{core_rule_added, plain_rule, MarkdownIt};
use crate::parser::node::{lemma_model_children, Node, NodeModel, NodeValue, ValueModel};
use crate::parser::renderer::lemma_attrs_push;
use crate::parser::ruler::RuleId;
use crate::text::{decimal, push_decimal, string_from_chars, to_chars};

verus! {

/// How many line breaks stand in `src` before position `p`.
pub open spec fn breaks_before(src: Seq<char>, p: int) -> nat
    decreases p,
{
    if p <= 0 || p > src.len() {
        0
    } else {
        breaks_before(src, p - 1) + if src[p - 1] == '\n' {
            1nat
        } else {
            0nat
        }
    }
}

/// Where the line starts on which position `p` of `src` stands.
pub open spec fn line_start(src: Seq<char>, p: int) -> int
    decreases p,
{
    if p <= 0 || p > src.len() {
        0
    } else if src[p - 1] == '\n' {
        p
    } else {
        line_start(src, p - 1)
    }
}

/// Position `p` of `src` as line and column, both counted from 1.
pub open spec fn line_column(src: Seq<char>, p: int) -> Seq<char> {
    decimal(breaks_before(src, p) + 1) + seq![':'] + decimal((p - line_start(src, p) + 1) as nat)
}

/// The span from `a` up to `b` of `src` as a source position: the line and
/// column of its first character, and those of its last.
pub open spec fn source_position(src: Seq<char>, a: int, b: int) -> Seq<char> {
    line_column(src, a) + seq!['-'] + line_column(
        src,
        if b > a {
            b - 1
        } else {
            a
        },
    )
}

/// Whether the span `span` lies within a source of `len` characters, and
/// starts where a column can still be counted.
pub open spec fn span_in_source(span: (usize, usize), len: nat) -> bool {
    span.0 <= span.1 <= len && span.0 < usize::MAX
}

/// The tree `n` with the source position noted on each node that knows its
/// span in the source `src`, and whose span lies within it.
pub open spec fn with_source_positions(n: NodeModel, src: Seq<char>) -> NodeModel
    decreases n,
{
    NodeModel {
        children: Seq::new(
            n.children.len(),
            |i: int|
                if 0 <= i < n.children.len() {
                    with_source_positions(n.children[i], src)
                } else {
                    arbitrary()
                },
        ),
        attrs: match n.srcmap {
            Some(span) => if span_in_source(span, src.len()) {
                n.attrs.push(
                    ("data-sourcepos"@, source_position(src, span.0 as int, span.1 as int)),
                )
            } else {
                n.attrs
            },
            None => n.attrs,
        },
        ..n
    }
}

/// The document `n` with the source positions noted on its nodes.
pub open spec fn source_positions_noted(n: NodeModel) -> NodeModel {
    match n.value {
        ValueModel::Root { content, .. } => with_source_positions(n, content),
        _ => n,
    }
}

/// Appends position `p` of `src` as line and column to `out`.
fn push_line_column(out: &mut Vec<char>, src: &Vec<char>, p: usize)
    requires
        p <= src@.len(),
        p < usize::MAX,
    ensures
        final(out)@ == old(out)@ + line_column(src@, p as int),
{
    let mut breaks: usize = 0;
    let mut start: usize = 0;
    let mut i: usize = 0;
    while i < p
        invariant
            i <= p <= src@.len(),
            breaks == breaks_before(src@, i as int),
            breaks <= i,
            start == line_start(src@, i as int),
            start <= i,
        decreases p - i,
    {
        i = i + 1;
        if src[i - 1] == '\n' {
            breaks = breaks + 1;
            start = i;
        }
    }
    push_decimal(out, breaks + 1);
    out.push(':');
    push_decimal(out, p - start + 1);
    assert(out@ =~= old(out)@ + line_column(src@, p as int));
}

/// Notes the source position on each node of the tree `node` that knows
/// its span in the source `src`.
pub fn note_positions(node: &mut Node, src: &Vec<char>)
    ensures
        (*final(node))@ == with_source_positions((*old(node))@, src@),
    decreases *old(node),
{
    proof {
        lemma_model_children(*old(node));
    }
    match node.srcmap {
        Some((a, b)) => {
            if a <= b && b <= src.len() && a < usize::MAX {
                let mut pos: Vec<char> = Vec::new();
                push_line_column(&mut pos, src, a);
                pos.push('-');
                push_line_column(&mut pos, src, if b > a {
                    b - 1
                } else {
                    a
                });
                assert(pos@ =~= source_position(src@, a as int, b as int));
                let pos = string_from_chars(pos);
                let ghost own = node.attrs@;
                node.attrs.push(("data-sourcepos", pos));
                proof {
                    lemma_attrs_push(own, ("data-sourcepos", pos));
                }
            }
        },
        None => {},
    }
    let ghost attrs1 = node.attrs@;
    let n = node.children.len();
    let mut i: usize = 0;
    while i < n
        invariant
            i <= n,
            n == node.children@.len(),
            n == old(node).children@.len(),
            node.value == old(node).value,
            node.srcmap == old(node).srcmap,
            node.attrs@ == attrs1,
            forall|j: int|
                0 <= j < i ==> (#[trigger] node.children@[j])@ == with_source_positions(
                    old(node).children@[j]@,
                    src@,
                ),
            forall|j: int| i <= j < n ==> #[trigger] node.children@[j] == old(node).children@[j],
        decreases n - i,
    {
        note_positions(&mut node.children[i], src);
        i = i + 1;
    }
    proof {
        lemma_model_children(*node);
        let want = with_source_positions((*old(node))@, src@);
        assert((*node)@.children =~= want.children);
        assert((*node)@.attrs == want.attrs);
        assert((*node)@.value == want.value);
        assert((*node)@.srcmap == want.srcmap);
    }
}

/// The rule that notes the source positions.
pub struct SourcePosRule;

impl SourcePosRule {
    /// Notes on each node of the document where in the source it came
    /// from.
    pub fn run(root: &mut Node, md: &MarkdownIt)
        ensures
            (*final(root))@ == source_positions_noted((*old(root))@),
    {
        let src = match &root.value {
            NodeValue::Root(data) => Some(to_chars(data.content.as_str())),
            _ => None,
        };
        match src {
            Some(src) => {
                note_positions(root, &src);
            },
            None => {},
        }
    }
}

/// Adds the source positions to `md`.
pub fn add(md: &mut MarkdownIt)
    ensures
        core_rule_added(*old(md), *final(md), plain_rule(RuleId::SourcePos)),
        final(md).ext == old(md).ext,
{
    md.add_rule(RuleId::SourcePos);
}

} // verus!
