//! The block phase: splits the lines of the source into blocks.
//!
//! The grammar is given as spec functions on the lines of the source; the
//! rules and the tokenizer are proved to follow it.
use vstd::prelude::*;
use crate::parser::engine::MarkdownIt;
use crate::parser::extset::{RootExtModel, RootExtSet};
use crate::parser::inline::InlineRoot;
use crate::parser::node::{lemma_model_children, models_of, Node, NodeModel, NodeValue, ValueModel};
use crate::parser::ruler::RuleId;
use crate::plugins::cmark::block::{ATXHeading, Paragraph};
use crate::plugins::html::HtmlBlock;
use crate::plugins::pandoc::footnote::{
    lemma_def_then_found, lemma_labels_have_their_own_ids, lemma_more_definitions_keep_ids,
    only_adds_definitions, FootnoteMapModel,
};
use crate::plugins::pandoc::footnote::definitions::FootnoteDefinition;
use crate::text::{push_chars, string_from_chars, to_chars};

verus! {

/// One line of the source, as the block rules see it.
pub struct LineModel {
    /// The line from its first character that is no indentation on, without
    /// the line break.
    pub text: Seq<char>,
    /// How far the line is indented.
    pub indent: nat,
    /// Where in the source the line starts.
    pub start: usize,
    /// Where in the source the line ends, before its line break.
    pub end: usize,
}

/// What the block phase was configured with.
pub struct BlockCfg {
    /// The names of the block rules, in the order in which they are tried.
    pub rules: Seq<RuleId>,
    /// From how many columns of indentation on a line cannot start a block.
    pub max_indent: usize,
}

/// Whether `c` is blank: a space or a tab.
pub open spec fn is_blank(c: char) -> bool {
    c == ' ' || c == '\t'
}

/// How many blank characters stand in `text` from `i` on, up to the first
/// that is not blank.
pub open spec fn count_blank(text: Seq<char>, i: int) -> nat
    decreases text.len() - i,
{
    if 0 <= i < text.len() && is_blank(text[i]) {
        1 + count_blank(text, i + 1)
    } else {
        0
    }
}

/// Where the label that starts at `i` ends: the position of the first `]`
/// from `i` on, if no space stands before it.
pub open spec fn label_end(text: Seq<char>, i: int) -> Option<int>
    decreases text.len() - i,
{
    if i < 0 || i >= text.len() {
        None
    } else if text[i] == ']' {
        Some(i)
    } else if text[i] == ' ' {
        None
    } else {
        label_end(text, i + 1)
    }
}

/// The label of the footnote definition that `text` starts with, and the
/// number of blank characters after its colon: `text` has to start with
/// `[^`, a label that is not empty and holds no space, and `]:`.
pub open spec fn def_label(text: Seq<char>) -> Option<(Seq<char>, nat)> {
    if text.len() >= 2 && text[0] == '[' && text[1] == '^' {
        match label_end(text, 2) {
            Some(e) => if e > 2 && e + 1 < text.len() && text[e + 1] == ':' {
                Some((text.subrange(2, e), count_blank(text, e + 2)))
            } else {
                None
            },
            None => None,
        }
    } else {
        None
    }
}

/// How far line `l` is indented beyond `blk_indent`, if it is.
pub open spec fn rel_indent(lines: Seq<LineModel>, l: int, blk_indent: nat) -> int {
    lines[l].indent - blk_indent
}

/// Whether line `l` is empty but for indentation.
pub open spec fn is_empty_line(lines: Seq<LineModel>, l: int) -> bool {
    lines[l].text.len() == 0
}

/// The footnote definition that starts on line `l`: its label and the
/// blank characters after the colon. The line may not be indented by
/// `max_indent` or more beyond the block.
pub open spec fn def_at(
    c: BlockCfg,
    lines: Seq<LineModel>,
    l: int,
    blk_indent: nat,
) -> Option<(Seq<char>, nat)> {
    if rel_indent(lines, l, blk_indent) >= c.max_indent {
        None
    } else {
        def_label(lines[l].text)
    }
}

/// The level of the heading that `text` starts with: one to six `#`, and
/// then a blank character or the end of the line.
pub open spec fn heading_level(text: Seq<char>) -> Option<u8> {
    let n = count_hashes(text, 0);
    if 1 <= n <= 6 && (n == text.len() || is_blank(text[n as int])) {
        Some(n as u8)
    } else {
        None
    }
}

/// How many `#` stand in `text` from `i` on, up to the first character that
/// is none.
pub open spec fn count_hashes(text: Seq<char>, i: int) -> nat
    decreases text.len() - i,
{
    if 0 <= i < text.len() && text[i] == '#' {
        1 + count_hashes(text, i + 1)
    } else {
        0
    }
}

/// Whether `text` starts like a tag of HTML: `<` and then a letter, `/`,
/// `!` or `?`.
pub open spec fn starts_html(text: Seq<char>) -> bool {
    text.len() >= 2 && text[0] == '<' && (is_ascii_letter(text[1]) || text[1] == '/' || text[1]
        == '!' || text[1] == '?')
}

/// Whether `c` is a letter of the Latin alphabet.
pub open spec fn is_ascii_letter(c: char) -> bool {
    ('a' <= c && c <= 'z') || ('A' <= c && c <= 'Z')
}

/// Whether `rules` names `mark`.
pub open spec fn has_rule(c: BlockCfg, mark: RuleId) -> bool {
    c.rules.contains(mark)
}

/// Whether line `l` ends a paragraph that runs up to it: a block of another
/// kind starts there. A footnote definition does so only inside a footnote
/// definition.
pub open spec fn interrupts(
    c: BlockCfg,
    lines: Seq<LineModel>,
    l: int,
    blk_indent: nat,
    in_def: bool,
) -> bool {
    ||| has_rule(c, RuleId::FootnoteDefinition) && in_def && def_at(c, lines, l, blk_indent) is Some
    ||| has_rule(c, RuleId::Heading) && heading_level(lines[l].text) is Some
    ||| has_rule(c, RuleId::HtmlBlock) && starts_html(lines[l].text)
}

/// Where the paragraph ends that runs up to line `l`: the first line from
/// `l` on that is empty or starts a block of another kind, or the number of
/// lines.
pub open spec fn paragraph_end(
    c: BlockCfg,
    lines: Seq<LineModel>,
    l: int,
    blk_indent: nat,
    in_def: bool,
) -> int
    decreases lines.len() - l,
{
    if 0 <= l < lines.len() && !is_empty_line(lines, l) && !interrupts(c, lines, l, blk_indent, in_def) {
        paragraph_end(c, lines, l + 1, blk_indent, in_def)
    } else {
        l
    }
}

/// Where the block of raw HTML ends that runs up to line `l`: the first
/// empty line from `l` on, or the number of lines.
pub open spec fn html_end(lines: Seq<LineModel>, l: int) -> int
    decreases lines.len() - l,
{
    if 0 <= l < lines.len() && !is_empty_line(lines, l) {
        html_end(lines, l + 1)
    } else {
        l
    }
}

/// The text of the lines from `from` up to `to`, each without its
/// indentation, with a line break between one and the next.
pub open spec fn joined(lines: Seq<LineModel>, from: int, to: int) -> Seq<char>
    decreases to - from,
{
    if to <= from {
        Seq::empty()
    } else if to == from + 1 {
        lines[from].text
    } else {
        joined(lines, from, to - 1) + seq!['\n'] + lines[to - 1].text
    }
}

/// A node that holds the text `content` for the inline phase.
pub open spec fn inline_root(content: Seq<char>) -> NodeModel {
    NodeModel {
        value: ValueModel::InlineRoot { content },
        children: Seq::empty(),
        attrs: Seq::empty(),
        srcmap: None,
    }
}

/// The span of the source that the lines from `from` up to `to` cover.
pub open spec fn span(lines: Seq<LineModel>, from: int, to: int) -> Option<(usize, usize)> {
    Some((lines[from].start, lines[to - 1].end))
}

/// `text` from its first character on that is not blank, looked for from
/// `i` on.
pub open spec fn after_blank(text: Seq<char>, i: int) -> Seq<char> {
    text.subrange(i + count_blank(text, i), text.len() as int)
}

/// Line `l` as the content of the footnote definition that starts on it
/// sees it: without the label, and indented by the four columns of the
/// definition and by the blank characters after the colon.
pub open spec fn without_label(line: LineModel, label: Seq<char>, spaces: nat) -> LineModel {
    LineModel {
        text: line.text.subrange((4 + label.len() + spaces) as int, line.text.len() as int),
        indent: line.indent + 4 + spaces,
        ..line
    }
}

/// What the block phase made of some lines.
pub struct Blocks {
    /// The blocks, in order.
    pub nodes: Seq<NodeModel>,
    /// The line after the last block.
    pub next: int,
    /// The footnote map of the document after these blocks.
    pub map: Option<FootnoteMapModel>,
}

/// The footnote map `map`, or an empty one where there is none yet.
pub open spec fn map_or_empty(map: Option<FootnoteMapModel>) -> FootnoteMapModel {
    match map {
        Some(m) => m,
        None => FootnoteMapModel::empty(),
    }
}

/// The blocks of the lines from `l` on, inside a block that is indented by
/// `blk_indent`: empty lines are passed over; the blocks end with the lines
/// or at a line that is indented less than the block.
pub open spec fn blocks(
    c: BlockCfg,
    lines: Seq<LineModel>,
    l: int,
    blk_indent: nat,
    in_def: bool,
    map: Option<FootnoteMapModel>,
) -> Blocks
    decreases lines.len() - l, text_len(lines, l), 2nat,
{
    if l < 0 || l >= lines.len() {
        Blocks { nodes: Seq::empty(), next: l, map }
    } else if is_empty_line(lines, l) {
        blocks(c, lines, l + 1, blk_indent, in_def, map)
    } else if rel_indent(lines, l, blk_indent) < 0 {
        Blocks { nodes: Seq::empty(), next: l, map }
    } else {
        let first = block_at(c, lines, l, blk_indent, in_def, map, 0);
        let next = if l < first.next <= lines.len() {
            first.next
        } else {
            l + 1
        };
        let rest = blocks(c, lines, next, blk_indent, in_def, first.map);
        Blocks { nodes: first.nodes + rest.nodes, next: rest.next, map: rest.map }
    }
}

/// How long the text of line `l` is; nothing for a line that is not there.
pub open spec fn text_len(lines: Seq<LineModel>, l: int) -> nat {
    if 0 <= l < lines.len() {
        lines[l].text.len()
    } else {
        0
    }
}

/// The block of the footnote definition that starts on line `l` with the
/// label `label` and `spaces` blank characters after its colon.
///
/// The label is recorded in the footnote map, which gives it the next id if
/// it was not defined before. The content of the definition is what the
/// lines from `l` on make, the first without the label, as far as they are
/// indented by four columns more than the block.
pub open spec fn definition_block(
    c: BlockCfg,
    lines: Seq<LineModel>,
    l: int,
    blk_indent: nat,
    map: Option<FootnoteMapModel>,
    label: Seq<char>,
    spaces: nat,
) -> Blocks
    decreases lines.len() - l, text_len(lines, l), 0nat, 0nat,
{
    let m = map_or_empty(map);
    let inner = if 0 <= l < lines.len() && 4 + label.len() + spaces <= lines[l].text.len() {
        blocks(
            c,
            lines.update(l, without_label(lines[l], label, spaces)),
            l,
            blk_indent + 4,
            true,
            Some(m.with_def(label)),
        )
    } else {
        Blocks { nodes: Seq::empty(), next: l + 1, map: Some(m.with_def(label)) }
    };
    let next = if inner.next > l {
        inner.next
    } else {
        l + 1
    };
    Blocks {
        nodes: seq![
            NodeModel {
                value: ValueModel::FootnoteDefinition {
                    label: Some(label),
                    def_id: if m.def_id_of(label) is Some {
                        None
                    } else {
                        Some((m.defs.len() + 1) as usize)
                    },
                    inline: false,
                },
                children: inner.nodes,
                attrs: Seq::empty(),
                srcmap: span(lines, l, next),
            },
        ],
        next,
        map: inner.map,
    }
}

/// The block of the heading of level `level` on line `l`: the heading holds
/// the text after the `#` and the blank characters that follow them.
pub open spec fn heading_block(lines: Seq<LineModel>, l: int, level: u8) -> NodeModel {
    NodeModel {
        value: ValueModel::ATXHeading { level },
        children: seq![inline_root(after_blank(lines[l].text, level as int))],
        attrs: Seq::empty(),
        srcmap: span(lines, l, l + 1),
    }
}

/// The block of raw HTML on the lines from `l` up to `e`: it holds the text
/// of the lines, each with its line break.
pub open spec fn html_block(lines: Seq<LineModel>, l: int, e: int) -> NodeModel {
    NodeModel {
        value: ValueModel::HtmlBlock { content: joined(lines, l, e).push('\n') },
        children: Seq::empty(),
        attrs: Seq::empty(),
        srcmap: span(lines, l, e),
    }
}

/// The paragraph on the lines from `l` up to `e`: it holds the text of the
/// lines.
pub open spec fn paragraph_block(lines: Seq<LineModel>, l: int, e: int) -> NodeModel {
    NodeModel {
        value: ValueModel::Paragraph,
        children: seq![inline_root(joined(lines, l, e))],
        attrs: Seq::empty(),
        srcmap: span(lines, l, e),
    }
}

/// Whether the rule of footnote definitions matches line `l`.
pub open spec fn definition_matches(
    c: BlockCfg,
    lines: Seq<LineModel>,
    l: int,
    blk_indent: nat,
) -> bool {
    def_at(c, lines, l, blk_indent) is Some && blk_indent + 4 <= usize::MAX
}

/// The block that starts on line `l`, which is not empty: that of the first
/// rule from `k` on that matches the line. A line that no rule matches makes
/// no block, and is passed over.
pub open spec fn block_at(
    c: BlockCfg,
    lines: Seq<LineModel>,
    l: int,
    blk_indent: nat,
    in_def: bool,
    map: Option<FootnoteMapModel>,
    k: int,
) -> Blocks
    decreases lines.len() - l, text_len(lines, l), 1nat, c.rules.len() - k,
{
    if l < 0 || l >= lines.len() || k < 0 || k >= c.rules.len() {
        Blocks { nodes: Seq::empty(), next: l + 1, map }
    } else if c.rules[k] == RuleId::FootnoteDefinition && definition_matches(c, lines, l, blk_indent) {
        let found = def_at(c, lines, l, blk_indent)->0;
        let label = found.0;
        let spaces = found.1;
        definition_block(c, lines, l, blk_indent, map, label, spaces)
    } else if c.rules[k] == RuleId::Heading && heading_level(lines[l].text) is Some {
        Blocks {
            nodes: seq![heading_block(lines, l, heading_level(lines[l].text)->0)],
            next: l + 1,
            map,
        }
    } else if c.rules[k] == RuleId::HtmlBlock && starts_html(lines[l].text) {
        Blocks {
            nodes: seq![html_block(lines, l, html_end(lines, l + 1))],
            next: html_end(lines, l + 1),
            map,
        }
    } else if c.rules[k] == RuleId::Paragraph {
        Blocks {
            nodes: seq![paragraph_block(lines, l, paragraph_end(c, lines, l + 1, blk_indent, in_def))],
            next: paragraph_end(c, lines, l + 1, blk_indent, in_def),
            map,
        }
    } else {
        block_at(c, lines, l, blk_indent, in_def, map, k + 1)
    }
}

/// Whether the footnote map `after` is the map `before` with more
/// definitions at its end, and nothing else changed. A map that is not
/// there yet counts as empty, and a map that is there stays.
pub open spec fn map_grows(before: Option<FootnoteMapModel>, after: Option<FootnoteMapModel>) -> bool {
    &&& only_adds_definitions(map_or_empty(before), map_or_empty(after))
    &&& before is Some ==> after is Some
}

proof fn lemma_map_grows_step(
    a: Option<FootnoteMapModel>,
    b: Option<FootnoteMapModel>,
    c: Option<FootnoteMapModel>,
)
    requires
        map_grows(a, b),
        map_grows(b, c),
    ensures
        map_grows(a, c),
{
    let x = map_or_empty(a).defs;
    let y = map_or_empty(b).defs;
    let z = map_or_empty(c).defs;
    assert(z.take(x.len() as int) =~= z.take(y.len() as int).take(x.len() as int));
}

proof fn lemma_map_grows_by_definition(map: Option<FootnoteMapModel>, label: Seq<char>)
    ensures
        map_grows(map, Some(map_or_empty(map).with_def(label))),
{
    let m = map_or_empty(map);
    assert(m.with_def(label).defs.take(m.defs.len() as int) =~= m.defs);
}

/// The block phase only adds definitions to the footnote map: the blocks of
/// some lines leave every definition that was there, with its id, and count
/// no reference.
pub proof fn lemma_blocks_only_add_definitions(
    c: BlockCfg,
    lines: Seq<LineModel>,
    l: int,
    blk_indent: nat,
    in_def: bool,
    map: Option<FootnoteMapModel>,
)
    ensures
        map_grows(map, blocks(c, lines, l, blk_indent, in_def, map).map),
    decreases lines.len() - l, text_len(lines, l), 2nat,
{
    let m = map_or_empty(map);
    assert(m.defs.take(m.defs.len() as int) =~= m.defs);
    if l < 0 || l >= lines.len() {
    } else if is_empty_line(lines, l) {
        lemma_blocks_only_add_definitions(c, lines, l + 1, blk_indent, in_def, map);
    } else if rel_indent(lines, l, blk_indent) < 0 {
    } else {
        let first = block_at(c, lines, l, blk_indent, in_def, map, 0);
        let next = if l < first.next <= lines.len() {
            first.next
        } else {
            l + 1
        };
        lemma_block_only_adds_definitions(c, lines, l, blk_indent, in_def, map, 0);
        lemma_blocks_only_add_definitions(c, lines, next, blk_indent, in_def, first.map);
        lemma_map_grows_step(
            map,
            first.map,
            blocks(c, lines, next, blk_indent, in_def, first.map).map,
        );
    }
}

proof fn lemma_block_only_adds_definitions(
    c: BlockCfg,
    lines: Seq<LineModel>,
    l: int,
    blk_indent: nat,
    in_def: bool,
    map: Option<FootnoteMapModel>,
    k: int,
)
    ensures
        map_grows(map, block_at(c, lines, l, blk_indent, in_def, map, k).map),
    decreases lines.len() - l, text_len(lines, l), 1nat, c.rules.len() - k,
{
    let m = map_or_empty(map);
    assert(m.defs.take(m.defs.len() as int) =~= m.defs);
    if l < 0 || l >= lines.len() || k < 0 || k >= c.rules.len() {
    } else if c.rules[k] == RuleId::FootnoteDefinition && definition_matches(c, lines, l, blk_indent) {
        let found = def_at(c, lines, l, blk_indent)->0;
        lemma_definition_only_adds(c, lines, l, blk_indent, map, found.0, found.1);
    } else if c.rules[k] == RuleId::Heading && heading_level(lines[l].text) is Some {
    } else if c.rules[k] == RuleId::HtmlBlock && starts_html(lines[l].text) {
    } else if c.rules[k] == RuleId::Paragraph {
    } else {
        lemma_block_only_adds_definitions(c, lines, l, blk_indent, in_def, map, k + 1);
    }
}

/// A footnote definition adds its label to the footnote map, unless the
/// label is there already, and what stands inside the definition only adds
/// more: after it the one map of the document is there and knows the label,
/// every label that was defined before has the id it had, and no reference
/// is counted.
pub proof fn lemma_definition_only_adds(
    c: BlockCfg,
    lines: Seq<LineModel>,
    l: int,
    blk_indent: nat,
    map: Option<FootnoteMapModel>,
    label: Seq<char>,
    spaces: nat,
)
    ensures
        ({
            let after = definition_block(c, lines, l, blk_indent, map, label, spaces).map;
            &&& map_grows(map, after)
            &&& after is Some
            &&& map_or_empty(after).def_id_of(label) is Some
            &&& map_or_empty(after).def_id_of(label) == map_or_empty(map).with_def(label).def_id_of(
                label,
            )
            &&& forall|other: Seq<char>|
                map_or_empty(map).def_id_of(other) is Some ==> #[trigger] map_or_empty(
                    after,
                ).def_id_of(other) == map_or_empty(map).def_id_of(other)
        }),
    decreases lines.len() - l, text_len(lines, l), 0nat, 0nat,
{
    let m = map_or_empty(map);
    let with_label = Some(m.with_def(label));
    let after = definition_block(c, lines, l, blk_indent, map, label, spaces).map;
    lemma_map_grows_by_definition(map, label);
    if 0 <= l < lines.len() && 4 + label.len() + spaces <= lines[l].text.len() {
        lemma_blocks_only_add_definitions(
            c,
            lines.update(l, without_label(lines[l], label, spaces)),
            l,
            blk_indent + 4,
            true,
            with_label,
        );
    } else {
        let w = m.with_def(label);
        assert(w.defs.take(w.defs.len() as int) =~= w.defs);
    }
    lemma_map_grows_step(map, with_label, after);
    lemma_def_then_found(m, label);
    lemma_more_definitions_keep_ids(
        m.with_def(label),
        map_or_empty(after),
        label,
    );
    assert forall|other: Seq<char>| m.def_id_of(other) is Some implies #[trigger] map_or_empty(
        after,
    ).def_id_of(other) == m.def_id_of(other) by {
        lemma_more_definitions_keep_ids(m, map_or_empty(after), other);
    }
}

/// Two definitions of two labels, one after the other in one document,
/// leave one footnote map that knows both labels, each under an id of its
/// own; the first label has the id that its definition gave it, wherever
/// the two definitions stand and whatever stands inside them.
pub proof fn lemma_two_definitions(
    c: BlockCfg,
    first_lines: Seq<LineModel>,
    first_line: int,
    first_indent: nat,
    map: Option<FootnoteMapModel>,
    first_label: Seq<char>,
    first_spaces: nat,
    second_lines: Seq<LineModel>,
    second_line: int,
    second_indent: nat,
    second_label: Seq<char>,
    second_spaces: nat,
)
    requires
        first_label != second_label,
        map_or_empty(
            definition_block(
                c,
                second_lines,
                second_line,
                second_indent,
                definition_block(
                    c,
                    first_lines,
                    first_line,
                    first_indent,
                    map,
                    first_label,
                    first_spaces,
                ).map,
                second_label,
                second_spaces,
            ).map,
        ).defs.len() < usize::MAX,
    ensures
        ({
            let first = definition_block(
                c,
                first_lines,
                first_line,
                first_indent,
                map,
                first_label,
                first_spaces,
            ).map;
            let second = definition_block(
                c,
                second_lines,
                second_line,
                second_indent,
                first,
                second_label,
                second_spaces,
            ).map;
            let m = map_or_empty(second);
            &&& second is Some
            &&& m.def_id_of(first_label) is Some
            &&& m.def_id_of(second_label) is Some
            &&& m.def_id_of(first_label) != m.def_id_of(second_label)
            &&& m.def_id_of(first_label) == map_or_empty(first).def_id_of(first_label)
            &&& m.ref_counter == map_or_empty(map).ref_counter
        }),
{
    let first = definition_block(
        c,
        first_lines,
        first_line,
        first_indent,
        map,
        first_label,
        first_spaces,
    ).map;
    let second = definition_block(
        c,
        second_lines,
        second_line,
        second_indent,
        first,
        second_label,
        second_spaces,
    ).map;
    lemma_definition_only_adds(c, first_lines, first_line, first_indent, map, first_label, first_spaces);
    lemma_definition_only_adds(
        c,
        second_lines,
        second_line,
        second_indent,
        first,
        second_label,
        second_spaces,
    );
    assert(map_or_empty(second).def_id_of(first_label) == map_or_empty(first).def_id_of(
        first_label,
    ));
    lemma_labels_have_their_own_ids(map_or_empty(second), first_label, second_label);
}

/// Where the line ends that starts at `i`: at the first line break from `i`
/// on, or at the end of the source.
pub open spec fn line_end(src: Seq<char>, i: int) -> int
    decreases src.len() - i,
{
    if 0 <= i < src.len() && src[i] != '\n' {
        line_end(src, i + 1)
    } else {
        i
    }
}

/// The line of the source from `start` up to `end`. A blank character of
/// indentation counts as one column.
pub open spec fn line_of(src: Seq<char>, start: int, end: int) -> LineModel {
    let blank = count_blank(src.subrange(start, end), 0);
    LineModel {
        text: src.subrange(start + blank, end),
        indent: blank,
        start: start as usize,
        end: end as usize,
    }
}

/// The lines of the source from `start` on. A line break ends a line, and
/// what follows the last line break is a line too, be it empty.
pub open spec fn lines_from(src: Seq<char>, start: int) -> Seq<LineModel>
    decreases src.len() - start,
{
    if start < 0 || start > src.len() {
        Seq::empty()
    } else {
        let e = line_end(src, start);
        if start <= e < src.len() {
            seq![line_of(src, start, e)] + lines_from(src, e + 1)
        } else {
            seq![line_of(src, start, src.len() as int)]
        }
    }
}

/// Where one line of the source stands in it.
#[derive(Debug, Clone, Copy)]
pub struct LineOffsets {
    /// Where the line starts.
    pub line_start: usize,
    /// Where the line ends, before its line break.
    pub line_end: usize,
    /// Where the first character stands that is no indentation.
    pub first_nonspace: usize,
    /// How far the line is indented.
    pub indent_nonspace: usize,
}

/// Whether `o` makes sense in a source of `len` characters.
pub open spec fn offsets_wf(o: LineOffsets, len: nat) -> bool {
    &&& o.line_start <= o.first_nonspace <= o.line_end <= len
    &&& o.indent_nonspace <= o.first_nonspace - o.line_start
}

/// The line of `src` that stands at `o`.
pub open spec fn line_model(src: Seq<char>, o: LineOffsets) -> LineModel {
    LineModel {
        text: src.subrange(o.first_nonspace as int, o.line_end as int),
        indent: o.indent_nonspace as nat,
        start: o.line_start,
        end: o.line_end,
    }
}

/// The lines of `src` that stand at `offsets`.
pub open spec fn lines_model(src: Seq<char>, offsets: Seq<LineOffsets>) -> Seq<LineModel> {
    Seq::new(offsets.len(), |i: int| line_model(src, offsets[i]))
}

/// The state of the block phase: the lines of the source, the line it has
/// come to, and the node that it is filling.
pub struct BlockState<'a> {
    /// The source.
    pub src: &'a Vec<char>,
    /// The parser.
    pub md: &'a MarkdownIt,
    /// The names of the block rules, in the order in which they are tried.
    pub rules: &'a Vec<RuleId>,
    /// The extension data of the document.
    pub root_ext: RootExtSet,
    /// The node whose children the blocks become.
    pub node: Node,
    /// Where each line stands in the source.
    pub line_offsets: Vec<LineOffsets>,
    /// The line that the phase has come to.
    pub line: usize,
    /// The number of lines.
    pub line_max: usize,
    /// How far the block that is being filled is indented.
    pub blk_indent: usize,
}

impl<'a> BlockState<'a> {
    /// Whether the state is in order: the line it has come to is there or
    /// just past the last, and every line lies within the source.
    pub open spec fn wf(self) -> bool {
        &&& self.line_max == self.line_offsets@.len()
        &&& self.line <= self.line_max
        &&& forall|i: int|
            0 <= i < self.line_offsets@.len() ==> offsets_wf(
                #[trigger] self.line_offsets@[i],
                self.src@.len(),
            )
    }

    /// The lines of the source, as the rules see them.
    pub open spec fn lines(self) -> Seq<LineModel> {
        lines_model(self.src@, self.line_offsets@)
    }

    /// What the phase was configured with.
    pub open spec fn cfg(self) -> BlockCfg {
        BlockCfg { rules: self.rules@, max_indent: self.md.max_indent }
    }

    /// The footnote map of the document, if it has one yet.
    pub open spec fn map(self) -> Option<FootnoteMapModel> {
        self.root_ext@.footnotes
    }

    /// Whether the node that is being filled is a footnote definition.
    pub open spec fn in_def(self) -> bool {
        self.node@.value is FootnoteDefinition
    }

    /// The text of line `line`, without its indentation.
    pub fn get_line(&self, line: usize) -> (r: Vec<char>)
        requires
            self.wf(),
            line < self.line_max,
        ensures
            r@ == self.lines()[line as int].text,
    {
        let o = self.line_offsets[line];
        let mut r: Vec<char> = Vec::new();
        let mut i: usize = o.first_nonspace;
        while i < o.line_end
            invariant
                o.first_nonspace <= i <= o.line_end <= self.src@.len(),
                r@ == self.src@.subrange(o.first_nonspace as int, i as int),
            decreases o.line_end - i,
        {
            r.push(self.src[i]);
            i = i + 1;
            assert(r@ =~= self.src@.subrange(o.first_nonspace as int, i as int));
        }
        r
    }

    /// Whether line `line` is empty but for indentation.
    pub fn is_empty(&self, line: usize) -> (r: bool)
        requires
            self.wf(),
            line < self.line_max,
        ensures
            r == is_empty_line(self.lines(), line as int),
    {
        let o = self.line_offsets[line];
        o.first_nonspace >= o.line_end
    }

    /// The text of the lines from `from` up to `to`, each without its
    /// indentation, with a line break between one and the next.
    pub fn get_lines(&self, from: usize, to: usize) -> (r: Vec<char>)
        requires
            self.wf(),
            from <= to <= self.line_max,
        ensures
            r@ == joined(self.lines(), from as int, to as int),
    {
        let mut r: Vec<char> = Vec::new();
        let mut l: usize = from;
        while l < to
            invariant
                self.wf(),
                from <= l <= to <= self.line_max,
                r@ == joined(self.lines(), from as int, l as int),
            decreases to - l,
        {
            if l > from {
                r.push('\n');
            }
            let text = self.get_line(l);
            push_chars(&mut r, &text);
            l = l + 1;
            assert(r@ =~= joined(self.lines(), from as int, l as int));
        }
        r
    }

    /// The span of the source that the lines from `from` up to `to` cover.
    pub fn get_map(&self, from: usize, to: usize) -> (r: Option<(usize, usize)>)
        requires
            self.wf(),
            from < to <= self.line_max,
        ensures
            r == span(self.lines(), from as int, to as int),
    {
        Some((self.line_offsets[from].line_start, self.line_offsets[to - 1].line_end))
    }
}

/// How many blank characters stand in `text` from `i` on.
pub fn scan_blank(text: &Vec<char>, i: usize) -> (r: usize)
    requires
        i <= text@.len(),
    ensures
        r == count_blank(text@, i as int),
        i + r <= text@.len(),
{
    let mut j: usize = i;
    while j < text.len() && (text[j] == ' ' || text[j] == '\t')
        invariant
            i <= j <= text@.len(),
            count_blank(text@, i as int) == (j - i) + count_blank(text@, j as int),
        decreases text.len() - j,
    {
        j = j + 1;
    }
    j - i
}

/// How many `#` stand in `text` from `i` on.
pub fn scan_hashes(text: &Vec<char>, i: usize) -> (r: usize)
    requires
        i <= text@.len(),
    ensures
        r == count_hashes(text@, i as int),
        i + r <= text@.len(),
{
    let mut j: usize = i;
    while j < text.len() && text[j] == '#'
        invariant
            i <= j <= text@.len(),
            count_hashes(text@, i as int) == (j - i) + count_hashes(text@, j as int),
        decreases text.len() - j,
    {
        j = j + 1;
    }
    j - i
}

/// Where the label that starts at `i` ends.
pub fn scan_label_end(text: &Vec<char>, i: usize) -> (r: Option<usize>)
    requires
        i <= text@.len(),
    ensures
        match r {
            Some(e) => label_end(text@, i as int) == Some(e as int) && i <= e < text@.len(),
            None => label_end(text@, i as int) is None,
        },
{
    let mut j: usize = i;
    while j < text.len()
        invariant
            i <= j <= text@.len(),
            label_end(text@, i as int) == label_end(text@, j as int),
        decreases text.len() - j,
    {
        if text[j] == ']' {
            return Some(j);
        }
        if text[j] == ' ' {
            return None;
        }
        j = j + 1;
    }
    None
}

/// The characters of `text` from `from` up to `to`.
pub fn copy_range(text: &Vec<char>, from: usize, to: usize) -> (r: Vec<char>)
    requires
        from <= to <= text@.len(),
    ensures
        r@ == text@.subrange(from as int, to as int),
{
    let mut r: Vec<char> = Vec::new();
    let mut i: usize = from;
    while i < to
        invariant
            from <= i <= to <= text@.len(),
            r@ == text@.subrange(from as int, i as int),
        decreases to - i,
    {
        r.push(text[i]);
        i = i + 1;
        assert(r@ =~= text@.subrange(from as int, i as int));
    }
    r
}

/// The label of the footnote definition that `text` starts with, and the
/// number of blank characters after its colon.
pub fn scan_def_label(text: &Vec<char>) -> (r: Option<(Vec<char>, usize)>)
    ensures
        match r {
            Some((label, spaces)) => def_label(text@) == Some((label@, spaces as nat)) && 4
                + label@.len() + spaces <= text@.len(),
            None => def_label(text@) is None,
        },
{
    if text.len() < 2 || text[0] != '[' || text[1] != '^' {
        return None;
    }
    match scan_label_end(text, 2) {
        Some(e) => {
            if e > 2 && e + 1 < text.len() && text[e + 1] == ':' {
                let label = copy_range(text, 2, e);
                let spaces = scan_blank(text, e + 2);
                Some((label, spaces))
            } else {
                None
            }
        },
        None => None,
    }
}

/// Whether `c` is a letter of the Latin alphabet.
pub fn ascii_letter(c: char) -> (r: bool)
    ensures
        r == is_ascii_letter(c),
{
    ('a' <= c && c <= 'z') || ('A' <= c && c <= 'Z')
}

/// Whether `text` starts like a tag of HTML.
pub fn scan_html_start(text: &Vec<char>) -> (r: bool)
    ensures
        r == starts_html(text@),
{
    text.len() >= 2 && text[0] == '<' && (ascii_letter(text[1]) || text[1] == '/' || text[1] == '!'
        || text[1] == '?')
}

/// The level of the heading that `text` starts with.
pub fn scan_heading_level(text: &Vec<char>) -> (r: Option<u8>)
    ensures
        r == heading_level(text@),
        r matches Some(n) ==> 1 <= n <= 6 && n <= text@.len(),
{
    let n = scan_hashes(text, 0);
    if 1 <= n && n <= 6 && (n == text.len() || text[n] == ' ' || text[n] == '\t') {
        Some(n as u8)
    } else {
        None
    }
}

/// A node of value `value` that covers `srcmap` and holds the text
/// `content` for the inline phase.
pub fn text_block(value: NodeValue, content: Vec<char>, srcmap: Option<(usize, usize)>) -> (r: Node)
    ensures
        r@ == (NodeModel {
            value: value@,
            children: seq![inline_root(content@)],
            attrs: Seq::empty(),
            srcmap,
        }),
{
    let mut node = Node::new(value);
    let inner = Node::new(NodeValue::InlineRoot(InlineRoot { content: string_from_chars(content) }));
    node.children.push(inner);
    node.srcmap = srcmap;
    proof {
        lemma_model_children(node);
        assert(node@.children =~= seq![inline_root(content@)]);
    }
    node
}

/// Whether `rules` names `mark`.
pub fn names_rule(rules: &Vec<RuleId>, mark: RuleId) -> (r: bool)
    ensures
        r == rules@.contains(mark),
{
    let mut i: usize = 0;
    while i < rules.len()
        invariant
            i <= rules@.len(),
            forall|j: int| 0 <= j < i ==> rules@[j] != mark,
        decreases rules.len() - i,
    {
        if rules[i] == mark {
            return true;
        }
        i = i + 1;
    }
    false
}

/// The footnote definition that starts on line `line`: its label and the
/// blank characters after the colon.
pub fn def_on_line(state: &BlockState, line: usize) -> (r: Option<(Vec<char>, usize)>)
    requires
        state.wf(),
        line < state.line_max,
    ensures
        match r {
            Some((label, spaces)) => def_at(
                state.cfg(),
                state.lines(),
                line as int,
                state.blk_indent as nat,
            ) == Some((label@, spaces as nat)) && 4 + label@.len() + spaces
                <= state.lines()[line as int].text.len(),
            None => def_at(state.cfg(), state.lines(), line as int, state.blk_indent as nat) is None,
        },
{
    let o = state.line_offsets[line];
    if o.indent_nonspace >= state.blk_indent && o.indent_nonspace - state.blk_indent
        >= state.md.max_indent {
        return None;
    }
    let text = state.get_line(line);
    scan_def_label(&text)
}

/// Whether line `line` ends a paragraph that runs up to it.
pub fn interrupts_paragraph(state: &BlockState, line: usize) -> (r: bool)
    requires
        state.wf(),
        line < state.line_max,
    ensures
        r == interrupts(
            state.cfg(),
            state.lines(),
            line as int,
            state.blk_indent as nat,
            state.in_def(),
        ),
{
    if names_rule(state.rules, RuleId::FootnoteDefinition) && state.node.is::<FootnoteDefinition>() && def_on_line(state, line).is_some() {
        return true;
    }
    let text = state.get_line(line);
    if names_rule(state.rules, RuleId::Heading) && scan_heading_level(&text).is_some() {
        return true;
    }
    names_rule(state.rules, RuleId::HtmlBlock) && scan_html_start(&text)
}

/// The rule of headings written with `#`: where line `state.line` starts a
/// heading, the heading and the one line it takes.
pub fn heading_rule(state: &BlockState) -> (r: Option<(Node, usize)>)
    requires
        state.wf(),
        state.line < state.line_max,
    ensures
        match heading_level(state.lines()[state.line as int].text) {
            Some(level) => r matches Some((node, n)) && n == 1 && node@ == heading_block(
                state.lines(),
                state.line as int,
                level,
            ),
            None => r is None,
        },
{
    let text = state.get_line(state.line);
    match scan_heading_level(&text) {
        Some(level) => {
            let from = level as usize;
            let blank = scan_blank(&text, from);
            let content = copy_range(&text, from + blank, text.len());
            let node = text_block(
                NodeValue::ATXHeading(ATXHeading { level }),
                content,
                state.get_map(state.line, state.line + 1),
            );
            Some((node, 1))
        },
        None => None,
    }
}

/// The rule of blocks of raw HTML: where line `state.line` starts like a
/// tag, the block up to the next empty line, and the lines it takes.
pub fn html_block_rule(state: &BlockState) -> (r: Option<(Node, usize)>)
    requires
        state.wf(),
        state.line < state.line_max,
    ensures
        ({
            let l = state.line as int;
            if starts_html(state.lines()[l].text) {
                r matches Some((node, n)) && l + n == html_end(state.lines(), l + 1) && node@
                    == html_block(state.lines(), l, html_end(state.lines(), l + 1))
            } else {
                r is None
            }
        }),
{
    let text = state.get_line(state.line);
    if !scan_html_start(&text) {
        return None;
    }
    let mut e: usize = state.line + 1;
    while e < state.line_max && !state.is_empty(e)
        invariant
            state.wf(),
            state.line < e <= state.line_max,
            html_end(state.lines(), state.line + 1) == html_end(state.lines(), e as int),
        decreases state.line_max - e,
    {
        e = e + 1;
    }
    let mut content = state.get_lines(state.line, e);
    content.push('\n');
    let mut node = Node::new(NodeValue::HtmlBlock(HtmlBlock { content: string_from_chars(content) }));
    node.srcmap = state.get_map(state.line, e);
    proof {
        lemma_model_children(node);
        assert(node@.children =~= Seq::<NodeModel>::empty());
    }
    Some((node, e - state.line))
}

/// The rule of paragraphs: the paragraph that starts on line `state.line`
/// and runs up to the next line that is empty or starts a block of another
/// kind, and the lines it takes.
pub fn paragraph_rule(state: &BlockState) -> (r: (Node, usize))
    requires
        state.wf(),
        state.line < state.line_max,
    ensures
        ({
            let l = state.line as int;
            let e = paragraph_end(
                state.cfg(),
                state.lines(),
                l + 1,
                state.blk_indent as nat,
                state.in_def(),
            );
            &&& l + r.1 == e
            &&& r.0@ == paragraph_block(state.lines(), l, e)
        }),
{
    let mut e: usize = state.line + 1;
    while e < state.line_max && !state.is_empty(e) && !interrupts_paragraph(state, e)
        invariant
            state.wf(),
            state.line < e <= state.line_max,
            paragraph_end(
                state.cfg(),
                state.lines(),
                state.line + 1,
                state.blk_indent as nat,
                state.in_def(),
            ) == paragraph_end(
                state.cfg(),
                state.lines(),
                e as int,
                state.blk_indent as nat,
                state.in_def(),
            ),
        decreases state.line_max - e,
    {
        e = e + 1;
    }
    let content = state.get_lines(state.line, e);
    let node = text_block(NodeValue::Paragraph(Paragraph), content, state.get_map(state.line, e));
    (node, e - state.line)
}

/// Whether the states `a` and `b` are at the same source with the same
/// rules, see the same lines, and fill a block of the same indentation.
pub open spec fn same_frame(a: BlockState, b: BlockState) -> bool {
    &&& a.src == b.src
    &&& a.md == b.md
    &&& a.rules == b.rules
    &&& a.line_offsets@ == b.line_offsets@
    &&& a.line_max == b.line_max
    &&& a.blk_indent == b.blk_indent
}

/// The tree `n` with the trees `more` after its children.
pub open spec fn with_children_added(n: NodeModel, more: Seq<NodeModel>) -> NodeModel {
    NodeModel { children: n.children + more, ..n }
}

/// Tries the block rules on line `state.line`, in their order, and returns
/// the block of the first that matches, with the lines it takes. The state
/// stays at the line; a footnote definition is recorded in the footnote
/// map.
pub fn block_rule(state: &mut BlockState) -> (r: Option<(Node, usize)>)
    requires
        old(state).wf(),
        old(state).line < old(state).line_max,
    ensures
        final(state).wf(),
        same_frame(*old(state), *final(state)),
        final(state).line == old(state).line,
        final(state).node == old(state).node,
        ({
            let b = block_at(
                old(state).cfg(),
                old(state).lines(),
                old(state).line as int,
                old(state).blk_indent as nat,
                old(state).in_def(),
                old(state).map(),
                0,
            );
            &&& final(state).map() == b.map
            &&& match r {
                Some((node, n)) => b.nodes == seq![node@] && old(state).line + n == b.next,
                None => b.nodes == Seq::<NodeModel>::empty() && b.next == old(state).line + 1,
            }
        }),
    decreases
            old(state).line_max - old(state).line,
            text_len(old(state).lines(), old(state).line as int),
            1nat,
{
    let ghost c = state.cfg();
    let ghost lines = state.lines();
    let ghost l = state.line as int;
    let ghost blk = state.blk_indent as nat;
    let ghost in_def = state.in_def();
    let ghost map = state.map();
    let text = state.get_line(state.line);
    let mut k: usize = 0;
    while k < state.rules.len()
        invariant
            state.wf(),
            same_frame(*old(state), *state),
            state.line == old(state).line,
            state.node == old(state).node,
            state.root_ext == old(state).root_ext,
            state.line < state.line_max,
            c == state.cfg(),
            lines == state.lines(),
            l == state.line as int,
            blk == state.blk_indent as nat,
            in_def == state.in_def(),
            map == state.map(),
            text@ == lines[l].text,
            k <= state.rules@.len(),
            block_at(c, lines, l, blk, in_def, map, 0) == block_at(c, lines, l, blk, in_def, map, k as int),
        decreases state.rules.len() - k,
    {
        let mark = state.rules[k];
        if mark == RuleId::FootnoteDefinition {
            let found = crate::plugins::pandoc::footnote::definitions::FootnoteDefinitionScanner::run(
                state,
            );
            if found.is_some() {
                return found;
            }
        } else if mark == RuleId::Heading {
            let found = heading_rule(state);
            if found.is_some() {
                return found;
            }
        } else if mark == RuleId::HtmlBlock {
            let found = html_block_rule(state);
            if found.is_some() {
                return found;
            }
        } else if mark == RuleId::Paragraph {
            return Some(paragraph_rule(state));
        }
        k = k + 1;
    }
    None
}

/// Splits the lines from `state.line` on into blocks, and makes them
/// children of `state.node`: empty lines are passed over; the blocks end
/// with the lines or at a line that is indented less than the block that is
/// being filled. The state is left at the line where the blocks end.
pub fn tokenize(state: &mut BlockState)
    requires
        old(state).wf(),
    ensures
        final(state).wf(),
        same_frame(*old(state), *final(state)),
        ({
            let b = blocks(
                old(state).cfg(),
                old(state).lines(),
                old(state).line as int,
                old(state).blk_indent as nat,
                old(state).in_def(),
                old(state).map(),
            );
            &&& final(state).line == b.next
            &&& final(state).node@ == with_children_added(old(state).node@, b.nodes)
            &&& final(state).map() == b.map
        }),
    decreases
            old(state).line_max - old(state).line,
            text_len(old(state).lines(), old(state).line as int),
            2nat,
{
    let ghost c = state.cfg();
    let ghost lines = state.lines();
    let ghost blk = state.blk_indent as nat;
    let ghost in_def = state.in_def();
    let ghost whole = blocks(c, lines, state.line as int, blk, in_def, state.map());
    let ghost first = state.node@;
    let ghost mut pushed: Seq<NodeModel> = Seq::empty();
    proof {
        lemma_model_children(state.node);
        assert(first.children + pushed =~= first.children);
    }
    let mut done = false;
    while !done && state.line < state.line_max
        invariant
            state.wf(),
            same_frame(*old(state), *state),
            c == state.cfg(),
            lines == state.lines(),
            blk == state.blk_indent as nat,
            in_def == state.in_def(),
            old(state).line <= state.line,
            state.node.value == old(state).node.value,
            state.node.attrs == old(state).node.attrs,
            state.node.srcmap == old(state).node.srcmap,
            models_of(state.node.children@) == first.children + pushed,
            first == old(state).node@,
            ({
                let rest = blocks(c, lines, state.line as int, blk, in_def, state.map());
                &&& whole.nodes == pushed + rest.nodes
                &&& whole.next == rest.next
                &&& whole.map == rest.map
            }),
            done ==> blocks(c, lines, state.line as int, blk, in_def, state.map()).nodes.len() == 0
                && blocks(c, lines, state.line as int, blk, in_def, state.map()).next == state.line
                && blocks(c, lines, state.line as int, blk, in_def, state.map()).map == state.map(),
        decreases state.line_max - state.line, if done { 0nat } else { 1nat },
    {
        let line = state.line;
        if state.is_empty(line) {
            state.line = line + 1;
        } else if state.line_offsets[line].indent_nonspace < state.blk_indent {
            done = true;
        } else {
            let ghost before_map = state.map();
            let ghost kids = state.node.children@;
            let ghost step = block_at(c, lines, line as int, blk, in_def, before_map, 0);
            let found = block_rule(state);
            match found {
                Some((node, n)) => {
                    let ghost m = node@;
                    state.node.children.push(node);
                    if 1 <= n && n <= state.line_max - line {
                        state.line = line + n;
                    } else {
                        state.line = line + 1;
                    }
                    proof {
                        assert(models_of(state.node.children@) =~= models_of(kids).push(m));
                        assert(pushed.push(m) + blocks(
                            c,
                            lines,
                            state.line as int,
                            blk,
                            in_def,
                            state.map(),
                        ).nodes =~= pushed + (step.nodes + blocks(
                            c,
                            lines,
                            state.line as int,
                            blk,
                            in_def,
                            state.map(),
                        ).nodes));
                        assert(first.children + pushed.push(m) =~= (first.children + pushed).push(m));
                        pushed = pushed.push(m);
                    }
                },
                None => {
                    state.line = line + 1;
                    proof {
                        assert(pushed + (step.nodes + blocks(
                            c,
                            lines,
                            state.line as int,
                            blk,
                            in_def,
                            state.map(),
                        ).nodes) =~= pushed + blocks(
                            c,
                            lines,
                            state.line as int,
                            blk,
                            in_def,
                            state.map(),
                        ).nodes);
                    }
                },
            }
        }
    }
    proof {
        lemma_model_children(state.node);
        let rest = blocks(c, lines, state.line as int, blk, in_def, state.map());
        assert(rest.nodes.len() == 0);
        assert(pushed + rest.nodes =~= pushed);
        assert(state.node@.children =~= with_children_added(first, whole.nodes).children);
    }
}

/// Where each line of `src` stands in it.
pub fn scan_lines(src: &Vec<char>) -> (r: Vec<LineOffsets>)
    ensures
        lines_model(src@, r@) == lines_from(src@, 0),
        forall|i: int| 0 <= i < r@.len() ==> offsets_wf(#[trigger] r@[i], src@.len()),
{
    let len = src.len();
    let mut offsets: Vec<LineOffsets> = Vec::new();
    let mut start: usize = 0;
    let mut more = true;
    assert(lines_model(src@, offsets@) =~= Seq::<LineModel>::empty());
    while more
        invariant
            len == src@.len(),
            start <= len,
            forall|i: int| 0 <= i < offsets@.len() ==> offsets_wf(#[trigger] offsets@[i], src@.len()),
            more ==> lines_from(src@, 0) == lines_model(src@, offsets@) + lines_from(
                src@,
                start as int,
            ),
            !more ==> lines_from(src@, 0) == lines_model(src@, offsets@),
        decreases len - start, if more { 1nat } else { 0nat },
    {
        // the end of the line
        let mut e: usize = start;
        while e < len && src[e] != '\n'
            invariant
                len == src@.len(),
                start <= e <= len,
                line_end(src@, start as int) == line_end(src@, e as int),
            decreases len - e,
        {
            e = e + 1;
        }
        // the end of the indentation
        let ghost sub = src@.subrange(start as int, e as int);
        let mut f: usize = start;
        while f < e && (src[f] == ' ' || src[f] == '\t')
            invariant
                len == src@.len(),
                start <= f <= e <= len,
                sub == src@.subrange(start as int, e as int),
                count_blank(sub, 0) == (f - start) + count_blank(sub, f - start),
            decreases e - f,
        {
            assert(sub[f - start] == src@[f as int]);
            f = f + 1;
        }
        let ghost before = offsets@;
        let o = LineOffsets {
            line_start: start,
            line_end: e,
            first_nonspace: f,
            indent_nonspace: f - start,
        };
        offsets.push(o);
        proof {
            assert(f < e ==> sub[f - start] == src@[f as int]);
            assert(count_blank(sub, f - start) == 0);
            assert(line_model(src@, o) == line_of(src@, start as int, e as int));
            assert(lines_model(src@, offsets@) =~= lines_model(src@, before).push(
                line_model(src@, o),
            ));
        }
        if e < len {
            proof {
                assert(lines_model(src@, before) + (seq![line_of(src@, start as int, e as int)]
                    + lines_from(src@, e + 1)) =~= lines_model(src@, offsets@) + lines_from(
                    src@,
                    e + 1,
                ));
            }
            start = e + 1;
        } else {
            proof {
                assert(lines_model(src@, before) + seq![line_of(src@, start as int, len as int)]
                    =~= lines_model(src@, offsets@));
            }
            more = false;
        }
    }
    offsets
}

/// The document `n` after the block phase: the blocks of its source are its
/// children, after those it had, and its footnote map knows the definitions.
pub open spec fn block_phase(c: BlockCfg, n: NodeModel) -> NodeModel {
    match n.value {
        ValueModel::Root { content, ext } => {
            let b = blocks(c, lines_from(content, 0), 0, 0, false, ext.footnotes);
            NodeModel {
                value: ValueModel::Root { content, ext: RootExtModel { footnotes: b.map } },
                children: n.children + b.nodes,
                ..n
            }
        },
        _ => n,
    }
}

/// The core rule of the block phase.
pub struct BlockParserRule;

impl BlockParserRule {
    /// Splits the source of the document into blocks, with the block rules
    /// `rules` in this order, and makes them children of the document.
    ///
    /// The extension data is taken out of the document while the blocks are
    /// made, and put back after.
    pub fn run(root: &mut Node, md: &MarkdownIt, rules: &Vec<RuleId>)
        requires
            old(root)@.value is Root,
        ensures
            (*final(root))@ == block_phase(
                BlockCfg { rules: rules@, max_indent: md.max_indent },
                (*old(root))@,
            ),
    {
        let ghost c = BlockCfg { rules: rules@, max_indent: md.max_indent };
        proof {
            lemma_model_children(*old(root));
        }
        let src = match &root.value {
            NodeValue::Root(data) => to_chars(data.content.as_str()),
            _ => Vec::new(),
        };
        let mut ext = RootExtSet::new();
        match &mut root.value {
            NodeValue::Root(data) => {
                core::mem::swap(&mut data.ext, &mut ext);
            },
            _ => {},
        }
        let mut document = Node::new(NodeValue::Paragraph(Paragraph));
        core::mem::swap(root, &mut document);
        let line_offsets = scan_lines(&src);
        let line_max = line_offsets.len();
        let mut state = BlockState {
            src: &src,
            md,
            rules,
            root_ext: ext,
            node: document,
            line_offsets,
            line: 0,
            line_max,
            blk_indent: 0,
        };
        proof {
            lemma_model_children(state.node);
        }
        let ghost emptied = state.node@;
        tokenize(&mut state);
        let BlockState { root_ext, node, .. } = state;
        let mut ext = root_ext;
        let mut document = node;
        match &mut document.value {
            NodeValue::Root(data) => {
                core::mem::swap(&mut data.ext, &mut ext);
            },
            _ => {},
        }
        core::mem::swap(root, &mut document);
        proof {
            lemma_model_children(*root);
            let want = block_phase(c, (*old(root))@);
            assert((*root)@.value == want.value);
            assert((*root)@.children == want.children);
            assert((*root)@.attrs == want.attrs);
            assert((*root)@.srcmap == want.srcmap);
        }
    }
}

} // verus!
