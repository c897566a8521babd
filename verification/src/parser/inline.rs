//! The inline phase: parses the text of each block.
//!
//! The grammar is given as spec functions on the characters of the text;
//! the scanner is proved to follow it.
use vstd::prelude::*;
use std::collections::HashMap;
use crate::generics::inline::emph_pair::{
    items_model, make_text, pair_nodes, paired, pairs_of, text_node, DelimRun, InlineItem,
    ItemModel, PairConfig,
};
use crate::parser::block::{
    ascii_letter, copy_range, is_ascii_letter, label_end, map_or_empty, scan_label_end,
};
use crate::parser::cache::Cache;
use crate::parser::engine::MarkdownIt;
use crate::parser::extset::{RootExtModel, RootExtSet};
use crate::parser::node::{lemma_model_children, models_of, Node, NodeModel, NodeValue, ValueModel};
use crate::parser::renderer::{render_onto, Renderer};
use crate::parser::ruler::RuleId;
use crate::plugins::cmark::inline::backticks::CodeInline;
use crate::plugins::cmark::inline::link::Link;
use crate::plugins::html::HtmlInline;
use crate::plugins::pandoc::footnote::{FootnoteMap, FootnoteMapModel};
use crate::plugins::pandoc::footnote::definitions::FootnoteDefinition;
use crate::plugins::pandoc::footnote::references::FootnoteReference;
use crate::text::{string_from_chars, to_chars};

verus! {

/// Plain text.
#[derive(Debug)]
pub struct Text {
    pub content: String,
}

/// The text of a block as it was written, before the inline phase parsed
/// it.
#[derive(Debug)]
pub struct InlineRoot {
    pub content: String,
}

impl Text {
    /// Renders `node`, whose value this is: the text, escaped.
    pub fn render(
        &self,
        node: &Node,
        fmt: &mut Renderer,
        options: &HashMap<String, String>,
        cache: &mut Cache,
    )
        requires
            node.value == NodeValue::Text(*self),
        ensures
            final(fmt)@ == render_onto(old(fmt)@, node@),
            *final(cache) == *old(cache),
        decreases *node, 0nat,
    {
        proof {
            crate::parser::node::lemma_model_children(*node);
        }
        fmt.text(self.content.as_str());
    }
}

impl InlineRoot {
    /// Renders `node`, whose value this is: the text as it was written,
    /// escaped.
    pub fn render(
        &self,
        node: &Node,
        fmt: &mut Renderer,
        options: &HashMap<String, String>,
        cache: &mut Cache,
    )
        requires
            node.value == NodeValue::InlineRoot(*self),
        ensures
            final(fmt)@ == render_onto(old(fmt)@, node@),
            *final(cache) == *old(cache),
        decreases *node, 0nat,
    {
        proof {
            crate::parser::node::lemma_model_children(*node);
        }
        fmt.text(self.content.as_str());
    }
}

/// What the inline phase was configured with.
pub struct InlineCfg {
    /// The names of the inline rules, in the order in which they are tried.
    pub rules: Seq<RuleId>,
    /// The constructs written with pairs of marker runs.
    pub pairs: Seq<PairConfig>,
}

/// Whether `c` is white space.
pub open spec fn is_space(c: char) -> bool {
    c == ' ' || c == '\t' || c == '\n' || c == '\r' || c == '\u{0b}' || c == '\u{0c}' || c
        == '\u{a0}'
}

/// Whether `c` is a punctuation character of ASCII.
pub open spec fn is_punct(c: char) -> bool {
    ('!' <= c && c <= '/') || (':' <= c && c <= '@') || ('[' <= c && c <= '`') || ('{' <= c && c
        <= '~')
}

/// Whether the first construct from `k` on that is written with `marker`
/// works inside a word; `None` where no construct is written with it.
pub open spec fn splits_word(pairs: Seq<PairConfig>, marker: char, k: int) -> Option<bool>
    decreases pairs.len() - k,
{
    if k < 0 || k >= pairs.len() {
        None
    } else if pairs[k].marker == marker {
        Some(pairs[k].can_split_word)
    } else {
        splits_word(pairs, marker, k + 1)
    }
}

/// Whether `c` is the marker of a construct.
pub open spec fn is_marker(pairs: Seq<PairConfig>, c: char) -> bool {
    splits_word(pairs, c, 0) is Some
}

/// Whether a rule may start at the character `c`.
pub open spec fn is_special(pairs: Seq<PairConfig>, c: char) -> bool {
    c == '`' || c == '[' || c == '<' || c == '^' || is_marker(pairs, c)
}

/// How many characters `c` stand in `text` from `i` on, up to the first
/// character that is another.
pub open spec fn count_char(text: Seq<char>, c: char, i: int) -> nat
    decreases text.len() - i,
{
    if 0 <= i < text.len() && text[i] == c {
        1 + count_char(text, c, i + 1)
    } else {
        0
    }
}

/// Where the first character `c` stands in `text` from `i` on.
pub open spec fn find_char(text: Seq<char>, c: char, i: int) -> Option<int>
    decreases text.len() - i,
{
    if i < 0 || i >= text.len() {
        None
    } else if text[i] == c {
        Some(i)
    } else {
        find_char(text, c, i + 1)
    }
}

/// Where the text ends that runs up to `i`: at the first character from `i`
/// on at which a rule may start, or at the end.
pub open spec fn text_end(pairs: Seq<PairConfig>, text: Seq<char>, i: int) -> int
    decreases text.len() - i,
{
    if 0 <= i < text.len() && !is_special(pairs, text[i]) {
        text_end(pairs, text, i + 1)
    } else {
        i
    }
}

/// Where the run of exactly `n` backticks starts that closes a code span,
/// looked for from `i` on.
pub open spec fn closing_backticks(text: Seq<char>, n: nat, i: int) -> Option<int>
    decreases text.len() - i,
{
    if i < 0 || i >= text.len() {
        None
    } else if text[i] == '`' {
        let m = count_char(text, '`', i);
        if m == n {
            Some(i)
        } else if m >= 1 && i + m <= text.len() {
            closing_backticks(text, n, i + m)
        } else {
            closing_backticks(text, n, i + 1)
        }
    } else {
        closing_backticks(text, n, i + 1)
    }
}

/// The character before position `i`; a space at the start.
pub open spec fn char_before(text: Seq<char>, i: int) -> char {
    if 0 < i <= text.len() {
        text[i - 1]
    } else {
        ' '
    }
}

/// The character at position `i`; a space at the end.
pub open spec fn char_at(text: Seq<char>, i: int) -> char {
    if 0 <= i < text.len() {
        text[i]
    } else {
        ' '
    }
}

/// Whether a run between the characters `prev` and `next` is left-flanking:
/// it stands at the start of something.
pub open spec fn left_flanking(prev: char, next: char) -> bool {
    !is_space(next) && (!is_punct(next) || is_space(prev) || is_punct(prev))
}

/// Whether a run between the characters `prev` and `next` is
/// right-flanking: it stands at the end of something.
pub open spec fn right_flanking(prev: char, next: char) -> bool {
    !is_space(prev) && (!is_punct(prev) || is_space(next) || is_punct(next))
}

/// The run of `n` markers `marker` between the characters `prev` and
/// `next`. A marker that works inside a word opens where it is
/// left-flanking and closes where it is right-flanking; one that does not
/// opens and closes only at the edge of a word.
pub open spec fn run_between(
    marker: char,
    n: nat,
    split: bool,
    prev: char,
    next: char,
) -> DelimRun {
    let left = left_flanking(prev, next);
    let right = right_flanking(prev, next);
    DelimRun {
        marker,
        length: n as usize,
        can_open: if split {
            left
        } else {
            left && (!right || is_punct(prev))
        },
        can_close: if split {
            right
        } else {
            right && (!left || is_punct(next))
        },
    }
}

/// A node of value `value` that holds the text `content`.
pub open spec fn holding_text(value: ValueModel, content: Seq<char>) -> NodeModel {
    NodeModel { value, children: seq![text_node(content)], attrs: Seq::empty(), srcmap: None }
}

/// A node of value `value` without children.
pub open spec fn leaf(value: ValueModel) -> NodeModel {
    NodeModel { value, children: Seq::empty(), attrs: Seq::empty(), srcmap: None }
}

/// What one rule made of the text at some position.
pub struct Piece {
    /// The item.
    pub item: ItemModel,
    /// Where the text goes on after the item.
    pub next: int,
    /// The footnote map of the document after the item.
    pub map: Option<FootnoteMapModel>,
}

/// What the rule of code spans makes of the text at `i`, where a backtick
/// stands: the code span up to the run of as many backticks that closes
/// it, or the backticks themselves as text where none does.
pub open spec fn backticks_at(text: Seq<char>, i: int, map: Option<FootnoteMapModel>) -> Piece {
    let n = count_char(text, '`', i);
    match closing_backticks(text, n, i + n) {
        Some(p) => Piece {
            item: ItemModel::Node(
                holding_text(
                    ValueModel::CodeInline { marker: '`', marker_len: n as usize },
                    text.subrange(i + n, p),
                ),
            ),
            next: p + n,
            map,
        },
        None => Piece { item: ItemModel::Node(text_node(text.subrange(i, i + n))), next: i + n, map },
    }
}

/// What the rule of the marker pairs makes of the text at `i`, where a
/// marker stands: the run of this marker.
pub open spec fn run_at(
    pairs: Seq<PairConfig>,
    text: Seq<char>,
    i: int,
    map: Option<FootnoteMapModel>,
) -> Piece {
    let marker = text[i];
    let n = count_char(text, marker, i);
    Piece {
        item: ItemModel::Run(
            run_between(
                marker,
                n,
                splits_word(pairs, marker, 0)->0,
                char_before(text, i),
                char_at(text, i + n),
            ),
        ),
        next: i + n,
        map,
    }
}

/// What the rule of footnote references makes of the text at `i`: where
/// `[^`, a label and `]` stand there, and the label has a definition, the
/// reference, which is counted in the footnote map.
pub open spec fn reference_at(text: Seq<char>, i: int, map: Option<FootnoteMapModel>) -> Option<
    Piece,
> {
    if 0 <= i && i + 1 < text.len() && text[i] == '[' && text[i + 1] == '^' {
        match (label_end(text, i + 2), map) {
            (Some(e), Some(m)) => {
                let label = text.subrange(i + 2, e);
                if e > i + 2 && m.def_id_of(label) is Some && m.ref_counter < usize::MAX {
                    Some(
                        Piece {
                            item: ItemModel::Node(
                                leaf(
                                    ValueModel::FootnoteReference {
                                        label: Some(label),
                                        ref_id: (m.ref_counter + 1) as usize,
                                        def_id: m.def_id_of(label)->0,
                                    },
                                ),
                            ),
                            next: e + 1,
                            map: Some(m.with_ref(label)),
                        },
                    )
                } else {
                    None
                }
            },
            _ => None,
        }
    } else {
        None
    }
}

/// What the rule of footnotes written at their reference makes of the
/// text at `i`: where `^[`, a text and `]` stand there, a reference that
/// holds its own definition, which holds the text. The footnote map gives
/// the definition the next definition id, and the reference the next
/// reference id.
pub open spec fn note_at(text: Seq<char>, i: int, map: Option<FootnoteMapModel>) -> Option<Piece> {
    if 0 <= i && i + 1 < text.len() && text[i] == '^' && text[i + 1] == '[' {
        match find_char(text, ']', i + 2) {
            Some(p) => {
                let m = map_or_empty(map);
                if m.ref_counter < usize::MAX {
                    let def_id = (m.defs.len() + 1) as usize;
                    Some(
                        Piece {
                            item: ItemModel::Node(
                                NodeModel {
                                    value: ValueModel::FootnoteReference {
                                        label: None,
                                        ref_id: (m.ref_counter + 1) as usize,
                                        def_id,
                                    },
                                    children: seq![
                                        holding_text(
                                            ValueModel::FootnoteDefinition {
                                                label: None,
                                                def_id: Some(def_id),
                                                inline: true,
                                            },
                                            text.subrange(i + 2, p),
                                        ),
                                    ],
                                    attrs: Seq::empty(),
                                    srcmap: None,
                                },
                            ),
                            next: p + 1,
                            map: Some(m.with_inline_def()),
                        },
                    )
                } else {
                    None
                }
            },
            None => None,
        }
    } else {
        None
    }
}

/// What the rule of raw HTML makes of the text at `i`: where `<` and a
/// letter or `/` stand there, the tag up to the next `>`.
pub open spec fn html_at(text: Seq<char>, i: int, map: Option<FootnoteMapModel>) -> Option<Piece> {
    if 0 <= i && i + 1 < text.len() && text[i] == '<' && (is_ascii_letter(text[i + 1]) || text[i
        + 1] == '/') {
        match find_char(text, '>', i + 1) {
            Some(p) => Some(
                Piece {
                    item: ItemModel::Node(
                        leaf(ValueModel::HtmlInline { content: text.subrange(i, p + 1) }),
                    ),
                    next: p + 1,
                    map,
                },
            ),
            None => None,
        }
    } else {
        None
    }
}

/// What the rule of links makes of the text at `i`: where `[`, a text, `](`,
/// an address and `)` stand there, the link, which holds the text.
pub open spec fn link_at(text: Seq<char>, i: int, map: Option<FootnoteMapModel>) -> Option<Piece> {
    if 0 <= i < text.len() && text[i] == '[' {
        match find_char(text, ']', i + 1) {
            Some(p) => if p + 1 < text.len() && text[p + 1] == '(' {
                match find_char(text, ')', p + 2) {
                    Some(q) => Some(
                        Piece {
                            item: ItemModel::Node(
                                holding_text(
                                    ValueModel::Link { url: text.subrange(p + 2, q), title: None },
                                    text.subrange(i + 1, p),
                                ),
                            ),
                            next: q + 1,
                            map,
                        },
                    ),
                    None => None,
                }
            } else {
                None
            },
            None => None,
        }
    } else {
        None
    }
}

/// What the first rule from `k` on that matches makes of the text at `i`.
pub open spec fn piece_at(
    c: InlineCfg,
    text: Seq<char>,
    i: int,
    map: Option<FootnoteMapModel>,
    k: int,
) -> Option<Piece>
    decreases c.rules.len() - k,
{
    if k < 0 || k >= c.rules.len() || i < 0 || i >= text.len() {
        None
    } else if c.rules[k] == RuleId::Backticks && text[i] == '`' {
        Some(backticks_at(text, i, map))
    } else if c.rules[k] == RuleId::EmphPair && is_marker(c.pairs, text[i]) {
        Some(run_at(c.pairs, text, i, map))
    } else if c.rules[k] == RuleId::FootnoteReference && reference_at(text, i, map) is Some {
        reference_at(text, i, map)
    } else if c.rules[k] == RuleId::FootnoteInline && note_at(text, i, map) is Some {
        note_at(text, i, map)
    } else if c.rules[k] == RuleId::HtmlInline && html_at(text, i, map) is Some {
        html_at(text, i, map)
    } else if c.rules[k] == RuleId::Link && link_at(text, i, map) is Some {
        link_at(text, i, map)
    } else {
        piece_at(c, text, i, map, k + 1)
    }
}

/// What the scanner made of a text.
pub struct Scan {
    /// The items, in order.
    pub items: Seq<ItemModel>,
    /// The footnote map of the document after the text.
    pub map: Option<FootnoteMapModel>,
}

/// The items of `text` from `i` on. At each position the rules are tried in
/// their order; where none matches, the text up to the next character at
/// which a rule may start is plain text.
pub open spec fn scanned(c: InlineCfg, text: Seq<char>, i: int, map: Option<FootnoteMapModel>) -> Scan
    decreases text.len() - i,
{
    if i < 0 || i >= text.len() {
        Scan { items: Seq::empty(), map }
    } else {
        match piece_at(c, text, i, map, 0) {
            Some(piece) => {
                if i < piece.next <= text.len() {
                    let rest = scanned(c, text, piece.next, piece.map);
                    Scan { items: seq![piece.item] + rest.items, map: rest.map }
                } else {
                    let rest = scanned(c, text, i + 1, piece.map);
                    Scan { items: seq![piece.item] + rest.items, map: rest.map }
                }
            },
            None => {
                let e = text_end(c.pairs, text, i + 1);
                if i < e <= text.len() {
                    let rest = scanned(c, text, e, map);
                    Scan {
                        items: seq![ItemModel::Node(text_node(text.subrange(i, e)))] + rest.items,
                        map: rest.map,
                    }
                } else {
                    let rest = scanned(c, text, i + 1, map);
                    Scan {
                        items: seq![ItemModel::Node(text_node(text.subrange(i, i + 1)))] + rest.items,
                        map: rest.map,
                    }
                }
            },
        }
    }
}

/// The nodes that the text `text` makes: the items of the text, with the
/// marker runs paired and neighbouring texts joined.
pub open spec fn inline_nodes(c: InlineCfg, text: Seq<char>, map: Option<FootnoteMapModel>) -> Seq<
    NodeModel,
> {
    paired(c.pairs, scanned(c, text, 0, map).items)
}

/// Whether `c` is white space.
pub fn space(c: char) -> (r: bool)
    ensures
        r == is_space(c),
{
    c == ' ' || c == '\t' || c == '\n' || c == '\r' || c == '\u{0b}' || c == '\u{0c}' || c
        == '\u{a0}'
}

/// Whether `c` is a punctuation character of ASCII.
pub fn punct(c: char) -> (r: bool)
    ensures
        r == is_punct(c),
{
    ('!' <= c && c <= '/') || (':' <= c && c <= '@') || ('[' <= c && c <= '`') || ('{' <= c && c
        <= '~')
}

/// Whether the first construct that is written with `marker` works inside a
/// word.
pub fn marker_splits_word(pairs: &Vec<PairConfig>, marker: char) -> (r: Option<bool>)
    ensures
        r == splits_word(pairs@, marker, 0),
{
    let mut k: usize = 0;
    while k < pairs.len()
        invariant
            k <= pairs@.len(),
            splits_word(pairs@, marker, 0) == splits_word(pairs@, marker, k as int),
        decreases pairs.len() - k,
    {
        if pairs[k].marker == marker {
            return Some(pairs[k].can_split_word);
        }
        k = k + 1;
    }
    None
}

/// Whether a rule may start at the character `c`.
pub fn special(pairs: &Vec<PairConfig>, c: char) -> (r: bool)
    ensures
        r == is_special(pairs@, c),
{
    c == '`' || c == '[' || c == '<' || c == '^' || marker_splits_word(pairs, c).is_some()
}

/// How many characters `c` stand in `text` from `i` on.
pub fn scan_char_run(text: &Vec<char>, c: char, i: usize) -> (r: usize)
    requires
        i <= text@.len(),
    ensures
        r == count_char(text@, c, i as int),
        i + r <= text@.len(),
{
    let mut j: usize = i;
    while j < text.len() && text[j] == c
        invariant
            i <= j <= text@.len(),
            count_char(text@, c, i as int) == (j - i) + count_char(text@, c, j as int),
        decreases text.len() - j,
    {
        j = j + 1;
    }
    j - i
}

/// Where the first character `c` stands in `text` from `i` on.
pub fn scan_for_char(text: &Vec<char>, c: char, i: usize) -> (r: Option<usize>)
    requires
        i <= text@.len(),
    ensures
        match r {
            Some(p) => find_char(text@, c, i as int) == Some(p as int) && i <= p < text@.len(),
            None => find_char(text@, c, i as int) is None,
        },
{
    let mut j: usize = i;
    while j < text.len()
        invariant
            i <= j <= text@.len(),
            find_char(text@, c, i as int) == find_char(text@, c, j as int),
        decreases text.len() - j,
    {
        if text[j] == c {
            return Some(j);
        }
        j = j + 1;
    }
    None
}

/// Where the text ends that runs up to `i`.
pub fn scan_text_end(pairs: &Vec<PairConfig>, text: &Vec<char>, i: usize) -> (r: usize)
    requires
        i <= text@.len(),
    ensures
        r == text_end(pairs@, text@, i as int),
        i <= r <= text@.len(),
{
    let mut j: usize = i;
    while j < text.len() && !special(pairs, text[j])
        invariant
            i <= j <= text@.len(),
            text_end(pairs@, text@, i as int) == text_end(pairs@, text@, j as int),
        decreases text.len() - j,
    {
        j = j + 1;
    }
    j
}

/// Where the run of exactly `n` backticks starts that closes a code span.
pub fn scan_closing_backticks(text: &Vec<char>, n: usize, i: usize) -> (r: Option<usize>)
    requires
        i <= text@.len(),
    ensures
        match r {
            Some(p) => closing_backticks(text@, n as nat, i as int) == Some(p as int) && i <= p
                && p + n <= text@.len(),
            None => closing_backticks(text@, n as nat, i as int) is None,
        },
{
    let mut j: usize = i;
    while j < text.len()
        invariant
            i <= j <= text@.len(),
            closing_backticks(text@, n as nat, i as int) == closing_backticks(
                text@,
                n as nat,
                j as int,
            ),
        decreases text.len() - j,
    {
        if text[j] == '`' {
            let m = scan_char_run(text, '`', j);
            if m == n {
                return Some(j);
            }
            j = j + m;
        } else {
            j = j + 1;
        }
    }
    None
}

/// A node of value `value` that holds the text `content`.
pub fn node_holding_text(value: NodeValue, content: Vec<char>) -> (r: Node)
    ensures
        r@ == holding_text(value@, content@),
{
    let mut node = Node::new(value);
    node.children.push(make_text(content));
    proof {
        lemma_model_children(node);
        assert(node@.children =~= seq![text_node(content@)]);
    }
    node
}

/// The rule of code spans, at a backtick.
pub fn backticks_rule(text: &Vec<char>, i: usize) -> (r: (InlineItem, usize))
    requires
        i < text@.len(),
        text@[i as int] == '`',
    ensures
        forall|map: Option<FootnoteMapModel>|
            #[trigger] backticks_at(text@, i as int, map) == (Piece {
                item: r.0@,
                next: r.1 as int,
                map,
            }),
        i < r.1 <= text@.len(),
{
    let len = text.len();
    let n = scan_char_run(text, '`', i);
    match scan_closing_backticks(text, n, i + n) {
        Some(p) => {
            let node = node_holding_text(
                NodeValue::CodeInline(CodeInline { marker: '`', marker_len: n }),
                copy_range(text, i + n, p),
            );
            (InlineItem::Node(node), p + n)
        },
        None => (InlineItem::Node(make_text(copy_range(text, i, i + n))), i + n),
    }
}

/// The rule of the marker pairs, at a marker that works inside a word or
/// not as `split` says.
pub fn run_rule(pairs: &Vec<PairConfig>, text: &Vec<char>, i: usize, split: bool) -> (r: (
    InlineItem,
    usize,
))
    requires
        i < text@.len(),
        splits_word(pairs@, text@[i as int], 0) == Some(split),
    ensures
        forall|map: Option<FootnoteMapModel>|
            #[trigger] run_at(pairs@, text@, i as int, map) == (Piece {
                item: r.0@,
                next: r.1 as int,
                map,
            }),
        i < r.1 <= text@.len(),
{
    let len = text.len();
    let marker = text[i];
    let n = scan_char_run(text, marker, i);
    let prev = if i > 0 {
        text[i - 1]
    } else {
        ' '
    };
    let next = if i + n < text.len() {
        text[i + n]
    } else {
        ' '
    };
    let left = !space(next) && (!punct(next) || space(prev) || punct(prev));
    let right = !space(prev) && (!punct(prev) || space(next) || punct(next));
    let run = DelimRun {
        marker,
        length: n,
        can_open: if split {
            left
        } else {
            left && (!right || punct(prev))
        },
        can_close: if split {
            right
        } else {
            right && (!left || punct(next))
        },
    };
    (InlineItem::Run(run), i + n)
}

/// The rule of footnote references.
pub fn reference_rule(text: &Vec<char>, i: usize, ext: &mut RootExtSet) -> (r: Option<
    (InlineItem, usize),
>)
    requires
        i < text@.len(),
    ensures
        match reference_at(text@, i as int, old(ext)@.footnotes) {
            Some(piece) => r matches Some((item, next)) && item@ == piece.item && next == piece.next
                && final(ext)@.footnotes == piece.map && i < next <= text@.len(),
            None => r is None && final(ext)@ == old(ext)@,
        },
{
    let len = text.len();
    if !(i + 1 < len && text[i] == '[' && text[i + 1] == '^') {
        return None;
    }
    let e = match scan_label_end(text, i + 2) {
        Some(e) => e,
        None => {
            return None;
        },
    };
    if e <= i + 2 {
        return None;
    }
    let label = string_from_chars(copy_range(text, i + 2, e));
    // the map is taken out of the store while it is changed, and put back
    let mut map = match ext.take::<FootnoteMap>() {
        Some(map) => map,
        None => {
            return None;
        },
    };
    let added = if map.ref_count() < usize::MAX {
        map.add_ref(label.as_str())
    } else {
        None
    };
    ext.insert(map);
    match added {
        Some((def_id, ref_id)) => {
            let node = Node::new(
                NodeValue::FootnoteReference(
                    FootnoteReference { label: Some(label), ref_id, def_id },
                ),
            );
            Some((InlineItem::Node(node), e + 1))
        },
        None => None,
    }
}

/// The rule of footnotes written at their reference.
pub fn note_rule(text: &Vec<char>, i: usize, ext: &mut RootExtSet) -> (r: Option<
    (InlineItem, usize),
>)
    requires
        i < text@.len(),
    ensures
        match note_at(text@, i as int, old(ext)@.footnotes) {
            Some(piece) => r matches Some((item, next)) && item@ == piece.item && next == piece.next
                && final(ext)@.footnotes == piece.map && i < next <= text@.len(),
            None => r is None && final(ext)@ == old(ext)@,
        },
{
    let len = text.len();
    if !(i + 1 < len && text[i] == '^' && text[i + 1] == '[') {
        return None;
    }
    let p = match scan_for_char(text, ']', i + 2) {
        Some(p) => p,
        None => {
            return None;
        },
    };
    // the map is taken out of the store while it is changed, and put back
    let mut map = match ext.take::<FootnoteMap>() {
        Some(map) => {
            if map.ref_count() == usize::MAX {
                ext.insert(map);
                return None;
            }
            map
        },
        None => FootnoteMap::new(),
    };
    let (def_id, ref_id) = map.add_inline_def();
    ext.insert(map);
    let def_node = node_holding_text(
        NodeValue::FootnoteDefinition(
            FootnoteDefinition { label: None, def_id: Some(def_id), inline: true },
        ),
        copy_range(text, i + 2, p),
    );
    let mut ref_node = Node::new(
        NodeValue::FootnoteReference(FootnoteReference { label: None, ref_id, def_id }),
    );
    let ghost d = def_node@;
    ref_node.children.push(def_node);
    proof {
        lemma_model_children(ref_node);
        assert(ref_node@.children =~= seq![d]);
    }
    Some((InlineItem::Node(ref_node), p + 1))
}

/// The rule of raw HTML.
pub fn html_rule(text: &Vec<char>, i: usize) -> (r: Option<(InlineItem, usize)>)
    requires
        i < text@.len(),
    ensures
        forall|map: Option<FootnoteMapModel>|
            match #[trigger] html_at(text@, i as int, map) {
                Some(piece) => r matches Some((item, next)) && piece == (Piece {
                    item: item@,
                    next: next as int,
                    map,
                }),
                None => r is None,
            },
        r matches Some((_, next)) ==> i < next <= text@.len(),
{
    let len = text.len();
    if !(i + 1 < len && text[i] == '<' && (ascii_letter(text[i + 1]) || text[i + 1] == '/')) {
        return None;
    }
    match scan_for_char(text, '>', i + 1) {
        Some(p) => {
            let node = Node::new(
                NodeValue::HtmlInline(
                    HtmlInline { content: string_from_chars(copy_range(text, i, p + 1)) },
                ),
            );
            Some((InlineItem::Node(node), p + 1))
        },
        None => None,
    }
}

/// The rule of links.
pub fn link_rule(text: &Vec<char>, i: usize) -> (r: Option<(InlineItem, usize)>)
    requires
        i < text@.len(),
    ensures
        forall|map: Option<FootnoteMapModel>|
            match #[trigger] link_at(text@, i as int, map) {
                Some(piece) => r matches Some((item, next)) && piece == (Piece {
                    item: item@,
                    next: next as int,
                    map,
                }),
                None => r is None,
            },
        r matches Some((_, next)) ==> i < next <= text@.len(),
{
    let len = text.len();
    if text[i] != '[' {
        return None;
    }
    let p = match scan_for_char(text, ']', i + 1) {
        Some(p) => p,
        None => {
            return None;
        },
    };
    if !(p + 1 < len && text[p + 1] == '(') {
        return None;
    }
    match scan_for_char(text, ')', p + 2) {
        Some(q) => {
            let node = node_holding_text(
                NodeValue::Link(
                    Link { url: string_from_chars(copy_range(text, p + 2, q)), title: None },
                ),
                copy_range(text, i + 1, p),
            );
            Some((InlineItem::Node(node), q + 1))
        },
        None => None,
    }
}

/// Tries the inline rules at position `i`, in their order, and returns the
/// item of the first that matches, and where the text goes on after it.
pub fn inline_rule(
    rules: &Vec<RuleId>,
    pairs: &Vec<PairConfig>,
    text: &Vec<char>,
    i: usize,
    ext: &mut RootExtSet,
) -> (r: Option<(InlineItem, usize)>)
    requires
        i < text@.len(),
    ensures
        match piece_at(
            InlineCfg { rules: rules@, pairs: pairs@ },
            text@,
            i as int,
            old(ext)@.footnotes,
            0,
        ) {
            Some(piece) => r matches Some((item, next)) && item@ == piece.item && next == piece.next
                && final(ext)@.footnotes == piece.map && i < next <= text@.len(),
            None => r is None && final(ext)@ == old(ext)@,
        },
{
    let ghost c = InlineCfg { rules: rules@, pairs: pairs@ };
    let ghost map = ext@.footnotes;
    let mut k: usize = 0;
    while k < rules.len()
        invariant
            k <= rules@.len(),
            i < text@.len(),
            c == (InlineCfg { rules: rules@, pairs: pairs@ }),
            ext@ == old(ext)@,
            map == ext@.footnotes,
            piece_at(c, text@, i as int, map, 0) == piece_at(c, text@, i as int, map, k as int),
        decreases rules.len() - k,
    {
        let mark = rules[k];
        if mark == RuleId::Backticks && text[i] == '`' {
            return Some(backticks_rule(text, i));
        } else if mark == RuleId::EmphPair {
            match marker_splits_word(pairs, text[i]) {
                Some(split) => {
                    return Some(run_rule(pairs, text, i, split));
                },
                None => {},
            }
        } else if mark == RuleId::FootnoteReference {
            let found = reference_rule(text, i, ext);
            if found.is_some() {
                return found;
            }
        } else if mark == RuleId::FootnoteInline {
            let found = note_rule(text, i, ext);
            if found.is_some() {
                return found;
            }
        } else if mark == RuleId::HtmlInline {
            let found = html_rule(text, i);
            if found.is_some() {
                return found;
            }
        } else if mark == RuleId::Link {
            let found = link_rule(text, i);
            if found.is_some() {
                return found;
            }
        }
        k = k + 1;
    }
    None
}

/// The items of `text`: at each position the rules are tried in their
/// order; where none matches, the text up to the next character at which a
/// rule may start is plain text. Footnote references are counted in the
/// footnote map of `ext`.
pub fn scan_items(
    rules: &Vec<RuleId>,
    pairs: &Vec<PairConfig>,
    text: &Vec<char>,
    ext: &mut RootExtSet,
) -> (r: Vec<InlineItem>)
    ensures
        ({
            let s = scanned(
                InlineCfg { rules: rules@, pairs: pairs@ },
                text@,
                0,
                old(ext)@.footnotes,
            );
            &&& items_model(r@) == s.items
            &&& final(ext)@.footnotes == s.map
        }),
{
    let ghost c = InlineCfg { rules: rules@, pairs: pairs@ };
    let ghost whole = scanned(c, text@, 0, ext@.footnotes);
    let mut items: Vec<InlineItem> = Vec::new();
    let len = text.len();
    let mut i: usize = 0;
    assert(items_model(items@) =~= Seq::<ItemModel>::empty());
    while i < len
        invariant
            len == text@.len(),
            i <= len,
            c == (InlineCfg { rules: rules@, pairs: pairs@ }),
            whole.items == items_model(items@) + scanned(c, text@, i as int, ext@.footnotes).items,
            whole.map == scanned(c, text@, i as int, ext@.footnotes).map,
        decreases len - i,
    {
        let ghost before = items@;
        let ghost map = ext@.footnotes;
        match inline_rule(rules, pairs, text, i, ext) {
            Some((item, next)) => {
                let ghost m = item@;
                items.push(item);
                i = next;
                proof {
                    assert(items_model(items@) =~= items_model(before).push(m));
                    assert(items_model(before) + (seq![m] + scanned(
                        c,
                        text@,
                        i as int,
                        ext@.footnotes,
                    ).items) =~= items_model(items@) + scanned(c, text@, i as int, ext@.footnotes).items);
                }
            },
            None => {
                let e = scan_text_end(pairs, text, i + 1);
                let node = make_text(copy_range(text, i, e));
                let ghost m = ItemModel::Node(node@);
                items.push(InlineItem::Node(node));
                i = e;
                proof {
                    assert(items_model(items@) =~= items_model(before).push(m));
                    assert(items_model(before) + (seq![m] + scanned(
                        c,
                        text@,
                        i as int,
                        ext@.footnotes,
                    ).items) =~= items_model(items@) + scanned(c, text@, i as int, ext@.footnotes).items);
                }
            },
        }
    }
    proof {
        assert(items_model(items@) + Seq::<ItemModel>::empty() =~= items_model(items@));
    }
    items
}

/// The nodes that the text `text` makes: the items of the text, with the
/// marker runs paired and neighbouring texts joined.
pub fn parse_inline(
    rules: &Vec<RuleId>,
    pairs: &Vec<PairConfig>,
    text: &Vec<char>,
    ext: &mut RootExtSet,
) -> (r: Vec<Node>)
    ensures
        ({
            let c = InlineCfg { rules: rules@, pairs: pairs@ };
            &&& models_of(r@) == inline_nodes(c, text@, old(ext)@.footnotes)
            &&& final(ext)@.footnotes == scanned(c, text@, 0, old(ext)@.footnotes).map
        }),
{
    let items = scan_items(rules, pairs, text, ext);
    pair_nodes(pairs, items)
}

/// The tree `n` with the text of each block below it parsed, and the
/// footnote map after that: the blocks are gone through in document order,
/// and each node that holds the text of a block is replaced by the nodes
/// that the text makes.
pub open spec fn inlined(c: InlineCfg, n: NodeModel, map: Option<FootnoteMapModel>) -> (
    NodeModel,
    Option<FootnoteMapModel>,
)
    decreases n,
{
    let below = inlined_all(c, n.children, map);
    (NodeModel { children: below.0, ..n }, below.1)
}

/// The trees of `s` with the text of each block parsed, one tree after the
/// other, and the footnote map after that.
pub open spec fn inlined_all(c: InlineCfg, s: Seq<NodeModel>, map: Option<FootnoteMapModel>) -> (
    Seq<NodeModel>,
    Option<FootnoteMapModel>,
)
    decreases s,
{
    if s.len() == 0 {
        (Seq::empty(), map)
    } else {
        let front = inlined_all(c, s.drop_last(), map);
        match s.last().value {
            ValueModel::InlineRoot { content } => (
                front.0 + inline_nodes(c, content, front.1),
                scanned(c, content, 0, front.1).map,
            ),
            _ => {
                let last = inlined(c, s.last(), front.1);
                (front.0.push(last.0), last.1)
            },
        }
    }
}

/// Parses the text of each block below `node`, in document order.
pub fn inline_walk(
    node: &mut Node,
    rules: &Vec<RuleId>,
    pairs: &Vec<PairConfig>,
    ext: &mut RootExtSet,
)
    ensures
        ((*final(node))@, final(ext)@.footnotes) == inlined(
            InlineCfg { rules: rules@, pairs: pairs@ },
            (*old(node))@,
            old(ext)@.footnotes,
        ),
    decreases *old(node),
{
    let ghost c = InlineCfg { rules: rules@, pairs: pairs@ };
    let ghost kids = old(node)@.children;
    let ghost all = old(node).children@;
    let ghost map0 = ext@.footnotes;
    proof {
        lemma_model_children(*old(node));
    }
    let mut rest: Vec<Node> = Vec::new();
    core::mem::swap(&mut rest, &mut node.children);
    let n = rest.len();
    let mut rev: Vec<Node> = Vec::new();
    while rest.len() > 0
        invariant
            n == all.len(),
            rest@.len() + rev@.len() == n,
            rest@ == all.take(rest@.len() as int),
            forall|j: int| 0 <= j < rev@.len() ==> #[trigger] rev@[j] == all[n - 1 - j],
        decreases rest@.len(),
    {
        match rest.pop() {
            Some(child) => {
                rev.push(child);
            },
            None => {},
        }
    }
    while rev.len() > 0
        invariant
            c == (InlineCfg { rules: rules@, pairs: pairs@ }),
            n == all.len(),
            all == old(node).children@,
            kids == models_of(all),
            rev@.len() <= n,
            forall|j: int| 0 <= j < rev@.len() ==> #[trigger] rev@[j] == all[n - 1 - j],
            inlined_all(c, kids.take(n - rev@.len()), map0) == (
                models_of(node.children@),
                ext@.footnotes,
            ),
            node.value == old(node).value,
            node.attrs == old(node).attrs,
            node.srcmap == old(node).srcmap,
        decreases rev@.len(),
    {
        let ghost k = n - rev@.len();
        let ghost prefix = kids.take(k + 1);
        let ghost done = node.children@;
        match rev.pop() {
            Some(mut child) => {
                proof {
                    assert(child == all[k]);
                    assert(prefix.drop_last() =~= kids.take(k));
                    assert(prefix.last() == child@);
                    lemma_model_children(child);
                }
                let text = match &child.value {
                    NodeValue::InlineRoot(root) => Some(to_chars(root.content.as_str())),
                    _ => None,
                };
                match text {
                    Some(text) => {
                        let mut nodes = parse_inline(rules, pairs, &text, ext);
                        let ghost made = nodes@;
                        node.children.append(&mut nodes);
                        assert(models_of(node.children@) =~= models_of(done) + models_of(made));
                    },
                    None => {
                        assert(decreases_to!(*old(node) => child));
                        inline_walk(&mut child, rules, pairs, ext);
                        let ghost m = child@;
                        node.children.push(child);
                        assert(models_of(node.children@) =~= models_of(done).push(m));
                    },
                }
            },
            None => {},
        }
    }
    proof {
        assert(kids.take(n as int) =~= kids);
        lemma_model_children(*node);
    }
}

/// The document `n` after the inline phase: the text of each of its blocks
/// is parsed, and its footnote map has counted the references.
pub open spec fn inline_phase(c: InlineCfg, n: NodeModel) -> NodeModel {
    match n.value {
        ValueModel::Root { content, ext } => {
            let below = inlined_all(c, n.children, ext.footnotes);
            NodeModel {
                value: ValueModel::Root { content, ext: RootExtModel { footnotes: below.1 } },
                children: below.0,
                ..n
            }
        },
        _ => n,
    }
}

/// The core rule of the inline phase.
pub struct InlineParserRule;

impl InlineParserRule {
    /// Parses the text of each block of the document, with the inline rules
    /// `rules` in this order and the constructs that `md` holds.
    ///
    /// The extension data is taken out of the document while the tree is
    /// changed, and put back after.
    pub fn run(root: &mut Node, md: &MarkdownIt, rules: &Vec<RuleId>)
        requires
            old(root)@.value is Root,
        ensures
            (*final(root))@ == inline_phase(
                InlineCfg { rules: rules@, pairs: pairs_of(md.ext) },
                (*old(root))@,
            ),
    {
        let ghost c = InlineCfg { rules: rules@, pairs: pairs_of(md.ext) };
        proof {
            lemma_model_children(*old(root));
        }
        let mut ext = RootExtSet::new();
        match &mut root.value {
            NodeValue::Root(data) => {
                core::mem::swap(&mut data.ext, &mut ext);
            },
            _ => {},
        }
        let ghost emptied = (*root)@;
        proof {
            lemma_model_children(*root);
        }
        let none: Vec<PairConfig> = Vec::new();
        let pairs = match &md.ext.pairs {
            Some(configs) => &configs.pairs,
            None => &none,
        };
        inline_walk(root, rules, pairs, &mut ext);
        let ghost after = ext@.footnotes;
        match &mut root.value {
            NodeValue::Root(data) => {
                core::mem::swap(&mut data.ext, &mut ext);
            },
            _ => {},
        }
        proof {
            lemma_model_children(*root);
            let want = inline_phase(c, (*old(root))@);
            assert((*root)@.value == want.value);
            assert((*root)@.children == want.children);
            assert((*root)@.attrs == want.attrs);
            assert((*root)@.srcmap == want.srcmap);
        }
    }
}

} // verus!
