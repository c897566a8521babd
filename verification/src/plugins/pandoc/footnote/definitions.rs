//! Footnote definitions: `[^label]: text`.
use vstd::prelude::*;
use std::collections::HashMap;
use crate::parser::block::{
    def_at, def_on_line, definition_block, definition_matches, same_frame, tokenize, without_label,
    BlockState,
};
use crate::parser::cache::Cache;
use crate::parser::engine::{block_rule_added, MarkdownIt};
use crate::parser::node::{attrs_model, lemma_model_children, Node, NodeValue};
use crate::parser::renderer::{
    clone_attrs, definition_attrs, lemma_attrs_push, render_onto, Renderer,
};
use crate::parser::ruler::{RuleId, RuleModel};
use crate::plugins::pandoc::footnote::FootnoteMap;
use crate::text::{decimal, push_decimal, push_str, string_from_chars};

verus! {

/// A footnote definition.
#[derive(Debug)]
pub struct FootnoteDefinition {
    pub label: Option<String>,
    /// The id that the document's footnote map gave to the label; `None`
    /// where the label was defined before.
    pub def_id: Option<usize>,
    /// Whether the definition was written at its reference.
    pub inline: bool,
}

impl FootnoteDefinition {
    /// Renders `node`, whose value this is: its children as a list item of
    /// class `footnote-item`, whose `id` is `fn` and the definition's id.
    pub fn render(
        &self,
        node: &Node,
        fmt: &mut Renderer,
        options: &HashMap<String, String>,
        cache: &mut Cache,
    )
        requires
            node.value == NodeValue::FootnoteDefinition(*self),
        ensures
            final(fmt)@ == render_onto(old(fmt)@, node@),
            *final(cache) == *old(cache),
        decreases *node, 0nat,
    {
        proof {
            crate::parser::node::lemma_model_children(*node);
        }
        let mut attrs = clone_attrs(&node.attrs);
        if let Some(def_id) = self.def_id {
            let mut id: Vec<char> = Vec::new();
            push_str(&mut id, "fn");
            push_decimal(&mut id, def_id);
            let id = string_from_chars(id);
            assert(id@ =~= "fn"@ + decimal(def_id as nat));
            let ghost own = attrs@;
            attrs.push(("id", id));
            proof {
                lemma_attrs_push(own, ("id", id));
            }
        }
        let class = "footnote-item".to_owned();
        let ghost with_id = attrs@;
        attrs.push(("class", class));
        proof {
            lemma_attrs_push(with_id, ("class", class));
        }
        assert(attrs_model(attrs@) =~= node@.attrs + definition_attrs(self.def_id));
        fmt.cr();
        fmt.open("li", &attrs);
        fmt.contents(&node.children, options, cache);
        fmt.close("li");
        fmt.cr();
    }
}

/// The rule of footnote definitions as it is registered: it is tried before
/// the link reference definitions and before the paragraphs, which would
/// else take a definition for one of theirs.
pub open spec fn definition_rule() -> RuleModel {
    RuleModel {
        mark: RuleId::FootnoteDefinition,
        before: seq![RuleId::Reference, RuleId::Paragraph],
        after: Seq::empty(),
    }
}

/// Adds the footnote definitions to `md`.
pub fn add(md: &mut MarkdownIt)
    ensures
        block_rule_added(*old(md), *final(md), definition_rule()),
        final(md).ext == old(md).ext,
{
    md.block.add(RuleId::FootnoteDefinition).before(RuleId::Reference).before(RuleId::Paragraph);
    assert(seq![RuleId::Reference, RuleId::Paragraph] =~= Seq::<RuleId>::empty().push(
        RuleId::Reference,
    ).push(RuleId::Paragraph));
}

/// The block rule of footnote definitions.
pub struct FootnoteDefinitionScanner;

impl FootnoteDefinitionScanner {
    /// Whether a footnote definition starts on line `state.line`: it gives
    /// the label and the number of blank characters after the colon.
    ///
    /// The line has to start with `[^`, a label that is not empty and holds
    /// no space, and `]:`, and may not be indented as far as a block can no
    /// longer start.
    pub fn is_def(state: &BlockState) -> (r: Option<(String, usize)>)
        requires
            state.wf(),
            state.line < state.line_max,
        ensures
            match r {
                Some((label, spaces)) => def_at(
                    state.cfg(),
                    state.lines(),
                    state.line as int,
                    state.blk_indent as nat,
                ) == Some((label@, spaces as nat)),
                None => def_at(
                    state.cfg(),
                    state.lines(),
                    state.line as int,
                    state.blk_indent as nat,
                ) is None,
            },
    {
        match def_on_line(state, state.line) {
            Some((label, spaces)) => Some((string_from_chars(label), spaces)),
            None => None,
        }
    }

    /// Whether a footnote definition on line `state.line` ends the block
    /// before it: it does so only inside a footnote definition.
    pub fn check(state: &BlockState) -> (r: Option<()>)
        requires
            state.wf(),
            state.line < state.line_max,
        ensures
            r is Some <==> state.in_def() && def_at(
                state.cfg(),
                state.lines(),
                state.line as int,
                state.blk_indent as nat,
            ) is Some,
    {
        if state.node.is::<FootnoteDefinition>() && Self::is_def(state).is_some() {
            return Some(());
        }
        None
    }

    /// Where a footnote definition starts on line `state.line`, the
    /// definition with its content, and the number of lines it takes.
    ///
    /// The label is recorded in the footnote map of the document. The
    /// content is what the block phase makes of the lines of the
    /// definition: while it does, the first line is seen without the label,
    /// and the block is indented by four columns more. After that the state
    /// is as it was, but for the footnote map.
    pub fn run(state: &mut BlockState) -> (r: Option<(Node, usize)>)
        requires
            old(state).wf(),
            old(state).line < old(state).line_max,
        ensures
            final(state).wf(),
            same_frame(*old(state), *final(state)),
            final(state).line == old(state).line,
            final(state).node == old(state).node,
            ({
                let c = old(state).cfg();
                let lines = old(state).lines();
                let l = old(state).line as int;
                let blk = old(state).blk_indent as nat;
                if definition_matches(c, lines, l, blk) {
                    let found = def_at(c, lines, l, blk)->0;
                    let b = definition_block(c, lines, l, blk, old(state).map(), found.0, found.1);
                    &&& r matches Some((node, n))
                    &&& b.nodes == seq![node@]
                    &&& l + n == b.next
                    &&& final(state).map() == b.map
                } else {
                    &&& r is None
                    &&& final(state).root_ext == old(state).root_ext
                }
            }),
        decreases
                old(state).line_max - old(state).line,
                crate::parser::block::text_len(old(state).lines(), old(state).line as int),
                0nat,
    {
        let found = def_on_line(state, state.line);
        let (label, spaces) = match found {
            Some(f) => f,
            None => {
                return None;
            },
        };
        if state.blk_indent > usize::MAX - 4 {
            return None;
        }
        let ghost c = state.cfg();
        let ghost lines = state.lines();
        let ghost blk = state.blk_indent as nat;
        let ghost map0 = state.map();
        let label_len = label.len();
        let label = string_from_chars(label);

        // record the footnote label, so that references can find it
        let foot_map = state.root_ext.get_or_insert_default::<FootnoteMap>();
        let def_id = foot_map.add_def(label.as_str());

        // the definition becomes the node that is filled
        let mut holder = Node::new(
            NodeValue::FootnoteDefinition(
                FootnoteDefinition { label: Some(label.clone()), def_id, inline: false },
            ),
        );
        core::mem::swap(&mut state.node, &mut holder);

        // the first line is seen without the label, four columns deeper
        let first_line = state.line;
        let first_line_offsets = state.line_offsets[first_line];
        let mut shifted = first_line_offsets;
        shifted.first_nonspace = shifted.first_nonspace + (4 + label_len + spaces);
        shifted.indent_nonspace = shifted.indent_nonspace + (4 + spaces);
        state.line_offsets.set(first_line, shifted);
        state.blk_indent = state.blk_indent + 4;
        proof {
            assert(state.lines() =~= lines.update(
                first_line as int,
                without_label(lines[first_line as int], label@, spaces as nat),
            )) by {
                let inner = state.lines();
                let want = lines.update(
                    first_line as int,
                    without_label(lines[first_line as int], label@, spaces as nat),
                );
                assert(inner.len() == want.len());
                assert forall|i: int| 0 <= i < inner.len() implies inner[i] == want[i] by {
                    if i == first_line {
                        assert(inner[i].text =~= want[i].text);
                    }
                }
            }
            lemma_model_children(state.node);
        }
        tokenize(state);
        state.blk_indent = state.blk_indent - 4;

        // how many lines the definition takes
        let num_lines = if state.line > first_line {
            state.line - first_line
        } else {
            1
        };

        // back to the first line as it was
        state.line_offsets.set(first_line, first_line_offsets);
        state.line = first_line;
        assert(state.line_offsets@ =~= old(state).line_offsets@);

        // back to the node that was filled before
        core::mem::swap(&mut state.node, &mut holder);
        holder.srcmap = state.get_map(first_line, first_line + num_lines);
        proof {
            lemma_model_children(holder);
            let b = definition_block(c, lines, first_line as int, blk, map0, label@, spaces as nat);
            assert(holder@.children =~= b.nodes[0].children);
        }
        Some((holder, num_lines))
    }
}

} // verus!
