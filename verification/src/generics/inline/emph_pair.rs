//! Spans wrapped in pairs of marker runs, such as `*emphasis*`,
//! `**strong emphasis**` and `~~strikethrough~~`.
use vstd::prelude::*;
use crate::parser::engine::MarkdownIt;
use crate::parser::extset::{MarkdownItExt, MarkdownItExtSet};
use crate::parser::inline::Text;
use crate::parser::node::{lemma_model_children, models_of, Node, NodeModel, NodeValue, ValueModel};
use crate::parser::ruler::{RuleId, RuleModel};
use crate::plugins::cmark::inline::emphasis::{Em, Strong};
use crate::plugins::extra::strikethrough::Strikethrough;
use crate::text::string_from_chars;

verus! {

/// What a pair of marker runs wraps its span in.
#[derive(Debug, Clone, Copy, PartialEq, Eq, Structural)]
pub enum PairKind {
    Em,
    Strong,
    Strikethrough,
}

/// One construct written with pairs of marker runs.
#[derive(Debug, Clone, Copy, PartialEq, Eq, Structural)]
pub struct PairConfig {
    /// The marker character.
    pub marker: char,
    /// How many markers open and close the construct: 1 or 2.
    pub length: u8,
    /// Whether a run inside a word may open or close the construct.
    pub can_split_word: bool,
    /// What the span is wrapped in.
    pub kind: PairKind,
}

/// The constructs that a parser knows, in the order in which they were
/// added.
#[derive(Debug)]
pub struct PairConfigs {
    pub pairs: Vec<PairConfig>,
}

impl MarkdownItExt for PairConfigs {
    open spec fn slot(set: MarkdownItExtSet) -> Option<PairConfigs> {
        set.pairs
    }

    open spec fn with_slot(set: MarkdownItExtSet, value: Option<PairConfigs>) -> MarkdownItExtSet {
        MarkdownItExtSet { pairs: value, ..set }
    }

    open spec fn is_initial(value: PairConfigs) -> bool {
        value.pairs@ == Seq::<PairConfig>::empty()
    }

    proof fn lemma_slot(set: MarkdownItExtSet, a: Option<PairConfigs>, b: Option<PairConfigs>) {
    }

    fn slot_ref(set: &MarkdownItExtSet) -> (r: &Option<PairConfigs>) {
        &set.pairs
    }

    fn slot_mut(set: &mut MarkdownItExtSet) -> (r: &mut Option<PairConfigs>) {
        &mut set.pairs
    }

    fn initial() -> (r: PairConfigs) {
        PairConfigs { pairs: Vec::new() }
    }
}

/// The constructs that the store `set` holds.
pub open spec fn pairs_of(set: MarkdownItExtSet) -> Seq<PairConfig> {
    match set.pairs {
        Some(c) => c.pairs@,
        None => Seq::empty(),
    }
}

/// Whether the inline rules `rules` hold the rule of the marker pairs.
pub open spec fn has_pair_rule(rules: Seq<RuleModel>) -> bool {
    exists|i: int| 0 <= i < rules.len() && (#[trigger] rules[i]).mark == RuleId::EmphPair
}

/// Adds to `md` the construct that wraps in `kind` what stands between runs
/// of `length` markers `marker`. The rule of the marker pairs is registered
/// with the first construct.
pub fn add_with(md: &mut MarkdownIt, marker: char, length: u8, can_split_word: bool, kind: PairKind)
    ensures
        pairs_of(final(md).ext) == pairs_of(old(md).ext).push(
            PairConfig { marker, length, can_split_word, kind },
        ),
        final(md).ext.heading_anchors == old(md).ext.heading_anchors,
        final(md).inline@ == (if has_pair_rule(old(md).inline@) {
            old(md).inline@
        } else {
            old(md).inline@.push(
                RuleModel { mark: RuleId::EmphPair, before: Seq::empty(), after: Seq::empty() },
            )
        }),
        final(md).ruler == old(md).ruler,
        final(md).block == old(md).block,
        final(md).max_indent == old(md).max_indent,
{
    let configs = md.ext.get_or_insert_default::<PairConfigs>();
    configs.pairs.push(PairConfig { marker, length, can_split_word, kind });
    if !md.inline.contains(RuleId::EmphPair) {
        md.inline.add(RuleId::EmphPair);
    }
}

/// A run of one marker character in the text of a block.
#[derive(Debug, Clone, Copy, PartialEq, Eq, Structural)]
pub struct DelimRun {
    /// The marker character.
    pub marker: char,
    /// How many markers of the run are not used yet.
    pub length: usize,
    /// Whether the run may open a span.
    pub can_open: bool,
    /// Whether the run may close a span.
    pub can_close: bool,
}

/// One piece of the text of a block: a node, or a run of markers that may
/// still open or close a span.
#[derive(Debug)]
pub enum InlineItem {
    Node(Node),
    Run(DelimRun),
}

/// The mathematical content of an [`InlineItem`].
pub enum ItemModel {
    Node(NodeModel),
    Run(DelimRun),
}

impl View for InlineItem {
    type V = ItemModel;

    open spec fn view(&self) -> ItemModel {
        match *self {
            InlineItem::Node(n) => ItemModel::Node(n@),
            InlineItem::Run(r) => ItemModel::Run(r),
        }
    }
}

/// The mathematical content of a list of items.
pub open spec fn items_model(items: Seq<InlineItem>) -> Seq<ItemModel> {
    items.map_values(|i: InlineItem| i@)
}

/// What wraps a span between runs of `length` markers `marker`: the kind of
/// the first construct from `k` on that is written so.
pub open spec fn pair_kind(cfg: Seq<PairConfig>, marker: char, length: nat, k: int) -> Option<
    PairKind,
>
    decreases cfg.len() - k,
{
    if k < 0 || k >= cfg.len() {
        None
    } else if cfg[k].marker == marker && cfg[k].length == length {
        Some(cfg[k].kind)
    } else {
        pair_kind(cfg, marker, length, k + 1)
    }
}

/// How many markers a pair of runs of lengths `a` and `b` uses on each side:
/// two where both runs have two and a construct is written with two, else
/// one where a construct is written with one.
pub open spec fn use_length(cfg: Seq<PairConfig>, marker: char, a: nat, b: nat) -> Option<nat> {
    if a >= 2 && b >= 2 && pair_kind(cfg, marker, 2, 0) is Some {
        Some(2)
    } else if a >= 1 && b >= 1 && pair_kind(cfg, marker, 1, 0) is Some {
        Some(1)
    } else {
        None
    }
}

/// Whether the rule of three forbids the pair: one of the runs may both open
/// and close, and the lengths of the runs add up to a multiple of three
/// without each being one.
pub open spec fn rule_of_three_forbids(opener: DelimRun, closer: DelimRun) -> bool {
    &&& opener.can_close || closer.can_open
    &&& (opener.length % 3 + closer.length % 3) % 3 == 0
    &&& !(opener.length % 3 == 0 && closer.length % 3 == 0)
}

/// Whether `item` is a run that can open the span that `closer` closes.
pub open spec fn opens_for(cfg: Seq<PairConfig>, item: ItemModel, closer: DelimRun) -> bool {
    match item {
        ItemModel::Run(opener) => {
            &&& opener.can_open
            &&& opener.marker == closer.marker
            &&& !rule_of_three_forbids(opener, closer)
            &&& use_length(cfg, closer.marker, opener.length as nat, closer.length as nat) is Some
        },
        ItemModel::Node(_) => false,
    }
}

/// The nearest item before `j` that opens the span that `closer` closes.
pub open spec fn find_opener(cfg: Seq<PairConfig>, items: Seq<ItemModel>, closer: DelimRun, j: int) -> Option<
    int,
>
    decreases j,
{
    if j <= 0 || j > items.len() {
        None
    } else if opens_for(cfg, items[j - 1], closer) {
        Some(j - 1)
    } else {
        find_opener(cfg, items, closer, j - 1)
    }
}

/// `n` times the character `c`.
pub open spec fn repeated(c: char, n: nat) -> Seq<char> {
    Seq::new(n, |i: int| c)
}

/// A node of plain text `content`.
pub open spec fn text_node(content: Seq<char>) -> NodeModel {
    NodeModel {
        value: ValueModel::Text { content },
        children: Seq::empty(),
        attrs: Seq::empty(),
        srcmap: None,
    }
}

/// The item as a node: a run that was not used up is the text of its
/// markers.
pub open spec fn literal(item: ItemModel) -> NodeModel {
    match item {
        ItemModel::Node(n) => n,
        ItemModel::Run(r) => text_node(repeated(r.marker, r.length as nat)),
    }
}

/// The items as nodes, in order.
pub open spec fn literals(items: Seq<ItemModel>) -> Seq<NodeModel> {
    items.map_values(|i: ItemModel| literal(i))
}

/// Whether `n` is a node of plain text and nothing else.
pub open spec fn is_plain_text(n: NodeModel) -> bool {
    n.value is Text && n.children.len() == 0 && n.attrs.len() == 0 && n.srcmap is None
}

/// The nodes of `s` with each run of neighbouring plain texts joined into
/// one.
pub open spec fn merged(s: Seq<NodeModel>) -> Seq<NodeModel>
    decreases s.len(),
{
    if s.len() == 0 {
        Seq::empty()
    } else {
        let front = merged(s.drop_last());
        if front.len() > 0 && is_plain_text(front.last()) && is_plain_text(s.last()) {
            front.update(
                front.len() - 1,
                text_node(front.last().value->Text_content + s.last().value->Text_content),
            )
        } else {
            front.push(s.last())
        }
    }
}

/// The value that wraps a span in `kind`, written with `marker`.
pub open spec fn wrapper_value(kind: PairKind, marker: char) -> ValueModel {
    match kind {
        PairKind::Em => ValueModel::Em { marker },
        PairKind::Strong => ValueModel::Strong { marker },
        PairKind::Strikethrough => ValueModel::Strikethrough { marker },
    }
}

/// The node that wraps `children` in `kind`, written with `marker`.
pub open spec fn wrapper_node(kind: PairKind, marker: char, children: Seq<NodeModel>) -> NodeModel {
    NodeModel { value: wrapper_value(kind, marker), children, attrs: Seq::empty(), srcmap: None }
}

/// The run `r` with `used` markers less, as a list of items: nothing where
/// the run is used up.
pub open spec fn rest_of_run(r: DelimRun, used: nat) -> Seq<ItemModel> {
    if r.length > used {
        seq![ItemModel::Run(DelimRun { length: (r.length - used) as usize, ..r })]
    } else {
        Seq::empty()
    }
}

/// The items after the run at `i` closed the span that the run at `j`
/// opens: what stands between the two is wrapped, each run inside as the
/// text of its markers; what is left of the opener stands before the
/// wrapper, and what is left of the closer after it.
pub open spec fn after_pair(cfg: Seq<PairConfig>, items: Seq<ItemModel>, j: int, i: int) -> Seq<
    ItemModel,
> {
    let opener = items[j]->Run_0;
    let closer = items[i]->Run_0;
    let used = use_length(cfg, closer.marker, opener.length as nat, closer.length as nat)->0;
    let kind = pair_kind(cfg, closer.marker, used, 0)->0;
    items.take(j) + rest_of_run(opener, used) + seq![
        ItemModel::Node(
            wrapper_node(kind, closer.marker, merged(literals(items.subrange(j + 1, i)))),
        ),
    ] + rest_of_run(closer, used) + items.skip(i + 1)
}

/// Where the closer stands after the pair of the runs at `j` and `i` was
/// made, or what follows it where it is used up.
pub open spec fn closer_after_pair(cfg: Seq<PairConfig>, items: Seq<ItemModel>, j: int, i: int) -> int {
    let opener = items[j]->Run_0;
    let closer = items[i]->Run_0;
    let used = use_length(cfg, closer.marker, opener.length as nat, closer.length as nat)->0;
    j + rest_of_run(opener, used).len() + 1
}

/// How many markers the run at `i` has; nothing for a node, or past the
/// items.
pub open spec fn length_at(items: Seq<ItemModel>, i: int) -> nat {
    if 0 <= i < items.len() {
        match items[i] {
            ItemModel::Run(r) => r.length as nat,
            ItemModel::Node(_) => 0,
        }
    } else {
        0
    }
}

/// The items after every run from `i` on closed what it can.
///
/// The items are gone through from left to right. A run that can close
/// looks back for the nearest run that opens for it, and makes a pair with
/// it; what is left of the closer looks back again. A run that finds no
/// opener stays, and may open for a later run.
pub open spec fn paired_from(cfg: Seq<PairConfig>, items: Seq<ItemModel>, i: int) -> Seq<ItemModel>
    decreases items.len() - i, length_at(items, i),
{
    if i < 0 || i >= items.len() {
        items
    } else {
        match items[i] {
            ItemModel::Run(closer) => {
                if closer.can_close {
                    match find_opener(cfg, items, closer, i) {
                        Some(j) => {
                            if 0 <= j < i && opens_for(cfg, items[j], closer) {
                                paired_from(
                                    cfg,
                                    after_pair(cfg, items, j, i),
                                    closer_after_pair(cfg, items, j, i),
                                )
                            } else {
                                paired_from(cfg, items, i + 1)
                            }
                        },
                        None => paired_from(cfg, items, i + 1),
                    }
                } else {
                    paired_from(cfg, items, i + 1)
                }
            },
            ItemModel::Node(_) => paired_from(cfg, items, i + 1),
        }
    }
}

/// The nodes that the items make: every run closes what it can, the runs
/// that stay are text, and neighbouring texts are joined.
pub open spec fn paired(cfg: Seq<PairConfig>, items: Seq<ItemModel>) -> Seq<NodeModel> {
    merged(literals(paired_from(cfg, items, 0)))
}

/// How many markers stand on each side of a span that is wrapped in
/// `kind`.
pub open spec fn marker_count(kind: PairKind) -> nat {
    match kind {
        PairKind::Em => 1,
        PairKind::Strong => 2,
        PairKind::Strikethrough => 2,
    }
}

/// Whether each construct of `cfg` is written with as many markers as its
/// kind has: one for emphasis, two for strong emphasis and strikethrough.
pub open spec fn plainly_written(cfg: Seq<PairConfig>) -> bool {
    forall|k: int| 0 <= k < cfg.len() ==> (#[trigger] cfg[k]).length == marker_count(cfg[k].kind)
}

/// What was written for the tree `n`, as far as texts and marker pairs go:
/// a text is its content, and a wrapper is its markers, what was written
/// for its children, and its markers again.
pub open spec fn written(n: NodeModel) -> Seq<char>
    decreases n,
{
    match n.value {
        ValueModel::Text { content } => content,
        ValueModel::Em { marker } => repeated(marker, 1) + written_all(n.children) + repeated(
            marker,
            1,
        ),
        ValueModel::Strong { marker } => repeated(marker, 2) + written_all(n.children) + repeated(
            marker,
            2,
        ),
        ValueModel::Strikethrough { marker } => repeated(marker, 2) + written_all(n.children)
            + repeated(marker, 2),
        _ => Seq::empty(),
    }
}

/// What was written for the trees of `s`, one after the other.
pub open spec fn written_all(s: Seq<NodeModel>) -> Seq<char>
    decreases s,
{
    if s.len() == 0 {
        Seq::empty()
    } else {
        written_all(s.drop_last()) + written(s.last())
    }
}

proof fn lemma_written_concat(a: Seq<NodeModel>, b: Seq<NodeModel>)
    ensures
        written_all(a + b) == written_all(a) + written_all(b),
    decreases b.len(),
{
    if b.len() == 0 {
        assert(a + b =~= a);
        assert(written_all(a) + written_all(b) =~= written_all(a));
    } else {
        lemma_written_concat(a, b.drop_last());
        assert((a + b).drop_last() =~= a + b.drop_last());
        assert((a + b).last() == b.last());
        assert(written_all(a + b) =~= written_all(a) + written_all(b));
    }
}

proof fn lemma_written_one(n: NodeModel)
    ensures
        written_all(seq![n]) == written(n),
{
    let s = seq![n];
    assert(s.last() == n);
    assert(s.drop_last() =~= Seq::<NodeModel>::empty());
    assert(written_all(s.drop_last()) =~= Seq::<char>::empty());
    assert(written_all(s) == written_all(s.drop_last()) + written(s.last()));
    assert(written_all(s) =~= written(n));
}

/// Joining neighbouring texts changes nothing of what was written.
proof fn lemma_written_merged(s: Seq<NodeModel>)
    ensures
        written_all(merged(s)) == written_all(s),
    decreases s.len(),
{
    if s.len() > 0 {
        lemma_written_merged(s.drop_last());
        let front = merged(s.drop_last());
        if front.len() > 0 && is_plain_text(front.last()) && is_plain_text(s.last()) {
            let x = text_node(front.last().value->Text_content + s.last().value->Text_content);
            let joined = front.update(front.len() - 1, x);
            assert(joined.drop_last() =~= front.drop_last());
            assert(joined.last() == x);
            assert(written_all(joined) == written_all(joined.drop_last()) + written(x));
            assert(written_all(front) == written_all(front.drop_last()) + written(front.last()));
            assert(written(x) == written(front.last()) + written(s.last()));
            assert(written_all(joined) =~= written_all(front) + written(s.last()));
        } else {
            let pushed = front.push(s.last());
            assert(pushed.drop_last() =~= front);
            assert(pushed.last() == s.last());
        }
    }
}

/// What was written for the items, each run taken as the text of its
/// markers.
pub open spec fn written_items(items: Seq<ItemModel>) -> Seq<char> {
    written_all(literals(items))
}

proof fn lemma_items_concat(a: Seq<ItemModel>, b: Seq<ItemModel>)
    ensures
        written_items(a + b) == written_items(a) + written_items(b),
{
    assert(literals(a + b) =~= literals(a) + literals(b));
    lemma_written_concat(literals(a), literals(b));
}

proof fn lemma_items_concat5(
    a: Seq<ItemModel>,
    b: Seq<ItemModel>,
    c: Seq<ItemModel>,
    d: Seq<ItemModel>,
    e: Seq<ItemModel>,
)
    ensures
        written_items(a + b + c + d + e) == written_items(a) + written_items(b) + written_items(c)
            + written_items(d) + written_items(e),
{
    lemma_items_concat(a + b + c + d, e);
    lemma_items_concat(a + b + c, d);
    lemma_items_concat(a + b, c);
    lemma_items_concat(a, b);
}

proof fn lemma_items_one(item: ItemModel)
    ensures
        written_items(seq![item]) == written(literal(item)),
{
    assert(literals(seq![item]) =~= seq![literal(item)]);
    lemma_written_one(literal(item));
}

proof fn lemma_repeated_sum(c: char, a: nat, b: nat)
    ensures
        repeated(c, a) + repeated(c, b) == repeated(c, a + b),
{
    assert(repeated(c, a) + repeated(c, b) =~= repeated(c, a + b));
}

/// A kind that is found for a length is written with that length.
proof fn lemma_pair_kind_length(cfg: Seq<PairConfig>, marker: char, length: nat, k: int)
    requires
        plainly_written(cfg),
        0 <= k,
        pair_kind(cfg, marker, length, k) is Some,
    ensures
        marker_count(pair_kind(cfg, marker, length, k)->0) == length,
    decreases cfg.len() - k,
{
    if k < cfg.len() && !(cfg[k].marker == marker && cfg[k].length == length) {
        lemma_pair_kind_length(cfg, marker, length, k + 1);
    }
}

/// What is left of a run after `used` of its markers, as text, is the run
/// without that many markers.
proof fn lemma_written_rest(r: DelimRun, used: nat)
    requires
        used <= r.length,
    ensures
        written_items(rest_of_run(r, used)) == repeated(r.marker, (r.length - used) as nat),
{
    if r.length > used {
        let left = DelimRun { length: (r.length - used) as usize, ..r };
        assert(rest_of_run(r, used) =~= seq![ItemModel::Run(left)]);
        lemma_items_one(ItemModel::Run(left));
    } else {
        assert(literals(rest_of_run(r, used)) =~= Seq::<NodeModel>::empty());
        assert(repeated(r.marker, 0) =~= Seq::<char>::empty());
    }
}

/// What was written for a wrapper of a kind that is written with `used`
/// markers.
proof fn lemma_written_wrapper(kind: PairKind, m: char, used: nat, children: Seq<NodeModel>)
    requires
        marker_count(kind) == used,
    ensures
        written(wrapper_node(kind, m, children)) == repeated(m, used) + written_all(children)
            + repeated(m, used),
{
}

/// Making a pair changes nothing of what was written.
proof fn lemma_written_after_pair(cfg: Seq<PairConfig>, items: Seq<ItemModel>, j: int, i: int)
    requires
        plainly_written(cfg),
        0 <= j < i < items.len(),
        items[i] is Run,
        opens_for(cfg, items[j], items[i]->Run_0),
    ensures
        written_items(after_pair(cfg, items, j, i)) == written_items(items),
{
    let opener = items[j]->Run_0;
    let closer = items[i]->Run_0;
    let used = use_length(cfg, closer.marker, opener.length as nat, closer.length as nat)->0;
    let kind = pair_kind(cfg, closer.marker, used, 0)->0;
    let m = closer.marker;
    let head = items.take(j);
    let inner = items.subrange(j + 1, i);
    let tail = items.skip(i + 1);
    let wrapper = wrapper_node(kind, m, merged(literals(inner)));
    let ro = rest_of_run(opener, used);
    let rc = rest_of_run(closer, used);
    let node = seq![ItemModel::Node(wrapper)];
    let w_inner = written_items(inner);

    // what was written before
    assert(items =~= head + seq![items[j]] + inner + seq![items[i]] + tail);
    lemma_items_concat5(head, seq![items[j]], inner, seq![items[i]], tail);
    lemma_items_one(items[j]);
    lemma_items_one(items[i]);
    assert(written_items(seq![items[j]]) == repeated(m, opener.length as nat));
    assert(written_items(seq![items[i]]) == repeated(m, closer.length as nat));

    // what is written after
    assert(after_pair(cfg, items, j, i) == head + ro + node + rc + tail);
    lemma_items_concat5(head, ro, node, rc, tail);
    lemma_items_one(ItemModel::Node(wrapper));
    lemma_pair_kind_length(cfg, m, used, 0);
    lemma_written_wrapper(kind, m, used, merged(literals(inner)));
    lemma_written_merged(literals(inner));
    lemma_written_rest(opener, used);
    lemma_written_rest(closer, used);
    lemma_repeated_sum(m, (opener.length - used) as nat, used);
    lemma_repeated_sum(m, used, (closer.length - used) as nat);
    let before_span = written_items(ro) + repeated(m, used);
    let after_span = repeated(m, used) + written_items(rc);
    assert(before_span == repeated(m, opener.length as nat));
    assert(after_span == repeated(m, closer.length as nat));
    assert(written_items(node) == repeated(m, used) + w_inner + repeated(m, used));
    assert(written_items(head) + written_items(ro) + (repeated(m, used) + w_inner + repeated(
        m,
        used,
    )) + written_items(rc) + written_items(tail) =~= written_items(head) + before_span + w_inner
        + after_span + written_items(tail));
}

proof fn lemma_written_paired_from(cfg: Seq<PairConfig>, items: Seq<ItemModel>, i: int)
    requires
        plainly_written(cfg),
    ensures
        written_items(paired_from(cfg, items, i)) == written_items(items),
    decreases items.len() - i, length_at(items, i),
{
    if 0 <= i < items.len() {
        match items[i] {
            ItemModel::Run(closer) => {
                if closer.can_close {
                    match find_opener(cfg, items, closer, i) {
                        Some(j) => {
                            if 0 <= j < i && opens_for(cfg, items[j], closer) {
                                lemma_written_after_pair(cfg, items, j, i);
                                lemma_written_paired_from(
                                    cfg,
                                    after_pair(cfg, items, j, i),
                                    closer_after_pair(cfg, items, j, i),
                                );
                            } else {
                                lemma_written_paired_from(cfg, items, i + 1);
                            }
                        },
                        None => {
                            lemma_written_paired_from(cfg, items, i + 1);
                        },
                    }
                } else {
                    lemma_written_paired_from(cfg, items, i + 1);
                }
            },
            ItemModel::Node(_) => {
                lemma_written_paired_from(cfg, items, i + 1);
            },
        }
    }
}

/// Pairing neither loses nor invents a character: what was written for the
/// nodes that the items make is what was written for the items, each run
/// taken as the text of its markers. A run that finds no partner stays as
/// that text.
pub proof fn lemma_pairing_keeps_what_was_written(cfg: Seq<PairConfig>, items: Seq<ItemModel>)
    requires
        plainly_written(cfg),
    ensures
        written_all(paired(cfg, items)) == written_items(items),
{
    lemma_written_paired_from(cfg, items, 0);
    lemma_written_merged(literals(paired_from(cfg, items, 0)));
}

/// What wraps a span between runs of `length` markers `marker`.
pub fn lookup_kind(cfg: &Vec<PairConfig>, marker: char, length: u8) -> (r: Option<PairKind>)
    ensures
        r == pair_kind(cfg@, marker, length as nat, 0),
{
    let mut k: usize = 0;
    while k < cfg.len()
        invariant
            k <= cfg@.len(),
            pair_kind(cfg@, marker, length as nat, 0) == pair_kind(cfg@, marker, length as nat, k as int),
        decreases cfg.len() - k,
    {
        if cfg[k].marker == marker && cfg[k].length == length {
            return Some(cfg[k].kind);
        }
        k = k + 1;
    }
    None
}

/// How many markers a pair of runs of lengths `a` and `b` uses on each side.
pub fn pick_length(cfg: &Vec<PairConfig>, marker: char, a: usize, b: usize) -> (r: Option<u8>)
    ensures
        match r {
            Some(n) => use_length(cfg@, marker, a as nat, b as nat) == Some(n as nat) && 1 <= n <= 2
                && n <= a && n <= b,
            None => use_length(cfg@, marker, a as nat, b as nat) is None,
        },
{
    if a >= 2 && b >= 2 && lookup_kind(cfg, marker, 2).is_some() {
        Some(2)
    } else if a >= 1 && b >= 1 && lookup_kind(cfg, marker, 1).is_some() {
        Some(1)
    } else {
        None
    }
}

/// Whether the rule of three forbids the pair.
pub fn forbidden_by_three(opener: &DelimRun, closer: &DelimRun) -> (r: bool)
    ensures
        r == rule_of_three_forbids(*opener, *closer),
{
    (opener.can_close || closer.can_open) && (opener.length % 3 + closer.length % 3) % 3 == 0 && !(
    opener.length % 3 == 0 && closer.length % 3 == 0)
}

/// The nearest item before `i` that opens the span that `closer` closes.
pub fn nearest_opener(
    cfg: &Vec<PairConfig>,
    items: &Vec<InlineItem>,
    closer: &DelimRun,
    i: usize,
) -> (r: Option<usize>)
    requires
        i <= items@.len(),
    ensures
        match r {
            Some(j) => find_opener(cfg@, items_model(items@), *closer, i as int) == Some(j as int)
                && j < i && opens_for(cfg@, items_model(items@)[j as int], *closer),
            None => find_opener(cfg@, items_model(items@), *closer, i as int) is None,
        },
{
    let mut j: usize = i;
    while j > 0
        invariant
            j <= i <= items@.len(),
            find_opener(cfg@, items_model(items@), *closer, i as int) == find_opener(
                cfg@,
                items_model(items@),
                *closer,
                j as int,
            ),
        decreases j,
    {
        let opens = match &items[j - 1] {
            InlineItem::Run(opener) => opener.can_open && opener.marker == closer.marker
                && !forbidden_by_three(opener, closer) && pick_length(
                cfg,
                closer.marker,
                opener.length,
                closer.length,
            ).is_some(),
            InlineItem::Node(_) => false,
        };
        if opens {
            return Some(j - 1);
        }
        j = j - 1;
    }
    None
}

/// `n` times the character `c`.
pub fn repeat_char(c: char, n: usize) -> (r: Vec<char>)
    ensures
        r@ == repeated(c, n as nat),
{
    let mut r: Vec<char> = Vec::new();
    while r.len() < n
        invariant
            r@.len() <= n,
            forall|i: int| 0 <= i < r@.len() ==> r@[i] == c,
        decreases n - r.len(),
    {
        r.push(c);
    }
    assert(r@ =~= repeated(c, n as nat));
    r
}

/// A node of plain text `content`.
pub fn make_text(content: Vec<char>) -> (r: Node)
    ensures
        r@ == text_node(content@),
{
    Node::new(NodeValue::Text(Text { content: string_from_chars(content) }))
}

/// The items as nodes, in order: a run that was not used up becomes the
/// text of its markers.
pub fn literal_nodes(items: Vec<InlineItem>) -> (r: Vec<Node>)
    ensures
        models_of(r@) == literals(items_model(items@)),
{
    let ghost all = items@;
    let n = items.len();
    let mut rest = items;
    let mut rev: Vec<InlineItem> = Vec::new();
    while rest.len() > 0
        invariant
            n == all.len(),
            rest@.len() + rev@.len() == n,
            rest@ == all.take(rest@.len() as int),
            forall|j: int| 0 <= j < rev@.len() ==> #[trigger] rev@[j] == all[n - 1 - j],
        decreases rest@.len(),
    {
        match rest.pop() {
            Some(item) => {
                rev.push(item);
            },
            None => {},
        }
    }
    let mut r: Vec<Node> = Vec::new();
    while rev.len() > 0
        invariant
            n == all.len(),
            rev@.len() <= n,
            forall|j: int| 0 <= j < rev@.len() ==> #[trigger] rev@[j] == all[n - 1 - j],
            models_of(r@) == literals(items_model(all.take(n - rev@.len()))),
        decreases rev@.len(),
    {
        let ghost k = n - rev@.len();
        let ghost before = r@;
        match rev.pop() {
            Some(item) => {
                assert(item == all[k]);
                let node = match item {
                    InlineItem::Node(node) => node,
                    InlineItem::Run(run) => make_text(repeat_char(run.marker, run.length)),
                };
                r.push(node);
                proof {
                    assert(all.take(k + 1) =~= all.take(k).push(all[k]));
                    assert(models_of(r@) =~= models_of(before).push(literal(all[k]@)));
                    assert(literals(items_model(all.take(k + 1))) =~= literals(
                        items_model(all.take(k)),
                    ).push(literal(all[k]@)));
                }
            },
            None => {},
        }
    }
    assert(all.take(n as int) =~= all);
    r
}

/// Whether `node` is a node of plain text and nothing else.
pub fn plain_text(node: &Node) -> (r: bool)
    ensures
        r == is_plain_text(node@),
{
    proof {
        lemma_model_children(*node);
    }
    node.is::<Text>() && node.children.len() == 0 && node.attrs.len()
        == 0 && node.srcmap.is_none()
}

/// The nodes with each run of neighbouring plain texts joined into one.
pub fn merge_nodes(nodes: Vec<Node>) -> (r: Vec<Node>)
    ensures
        models_of(r@) == merged(models_of(nodes@)),
{
    let ghost all = nodes@;
    let n = nodes.len();
    let mut rest = nodes;
    let mut rev: Vec<Node> = Vec::new();
    while rest.len() > 0
        invariant
            n == all.len(),
            rest@.len() + rev@.len() == n,
            rest@ == all.take(rest@.len() as int),
            forall|j: int| 0 <= j < rev@.len() ==> #[trigger] rev@[j] == all[n - 1 - j],
        decreases rest@.len(),
    {
        match rest.pop() {
            Some(node) => {
                rev.push(node);
            },
            None => {},
        }
    }
    let mut r: Vec<Node> = Vec::new();
    while rev.len() > 0
        invariant
            n == all.len(),
            rev@.len() <= n,
            forall|j: int| 0 <= j < rev@.len() ==> #[trigger] rev@[j] == all[n - 1 - j],
            models_of(r@) == merged(models_of(all.take(n - rev@.len()))),
        decreases rev@.len(),
    {
        let ghost k = n - rev@.len();
        let ghost before = r@;
        match rev.pop() {
            Some(node) => {
                proof {
                    assert(node == all[k]);
                    let s = models_of(all.take(k + 1));
                    assert(s.drop_last() =~= models_of(all.take(k)));
                    assert(s.last() == node@);
                }
                let m = r.len();
                let joins = m > 0 && plain_text(&r[m - 1]) && plain_text(&node);
                if joins {
                    let mut content: Vec<char> = Vec::new();
                    match (&r[m - 1].value, &node.value) {
                        (NodeValue::Text(a), NodeValue::Text(b)) => {
                            crate::text::push_str(&mut content, a.content.as_str());
                            crate::text::push_str(&mut content, b.content.as_str());
                        },
                        _ => {},
                    }
                    let joined = make_text(content);
                    r.set(m - 1, joined);
                    assert(models_of(r@) =~= models_of(before).update(m - 1, joined@));
                } else {
                    r.push(node);
                    assert(models_of(r@) =~= models_of(before).push(node@));
                }
            },
            None => {},
        }
    }
    assert(all.take(n as int) =~= all);
    r
}

/// The node that wraps `children` in `kind`, written with `marker`.
pub fn make_wrapper(kind: PairKind, marker: char, children: Vec<Node>) -> (r: Node)
    ensures
        r@ == wrapper_node(kind, marker, models_of(children@)),
{
    let value = match kind {
        PairKind::Em => NodeValue::Em(Em { marker }),
        PairKind::Strong => NodeValue::Strong(Strong { marker }),
        PairKind::Strikethrough => NodeValue::Strikethrough(Strikethrough { marker }),
    };
    let mut node = Node::new(value);
    node.children = children;
    proof {
        lemma_model_children(node);
    }
    node
}

/// Makes the pair of the opener at `j` and the closer at `i`, and returns
/// where the closer stands after that, or what follows it where it is used
/// up.
pub fn make_pair(cfg: &Vec<PairConfig>, items: &mut Vec<InlineItem>, j: usize, i: usize) -> (r:
    usize)
    requires
        j < i < old(items)@.len(),
        old(items)@[i as int] is Run,
        opens_for(cfg@, old(items)@[j as int]@, old(items)@[i as int]->Run_0),
    ensures
        items_model(final(items)@) == after_pair(
            cfg@,
            items_model(old(items)@),
            j as int,
            i as int,
        ),
        r == closer_after_pair(cfg@, items_model(old(items)@), j as int, i as int),
        r <= final(items)@.len(),
{
    let ghost all = items_model(items@);
    let ghost want = after_pair(cfg@, all, j as int, i as int);
    assert(i < items.len());
    let mut tail = items.split_off(i + 1);
    let closer_item = items.pop();
    let inner = items.split_off(j + 1);
    let opener_item = items.pop();
    let ghost head = items@;
    assert(items_model(head) =~= all.take(j as int));
    assert(items_model(inner@) =~= all.subrange(j + 1, i as int));
    assert(items_model(tail@) =~= all.skip(i + 1));
    match (opener_item, closer_item) {
        (Some(InlineItem::Run(opener)), Some(InlineItem::Run(closer))) => {
            match pick_length(cfg, closer.marker, opener.length, closer.length) {
                Some(used) => {
                    match lookup_kind(cfg, closer.marker, used) {
                        Some(kind) => {
                            let wrapper = make_wrapper(
                                kind,
                                closer.marker,
                                merge_nodes(literal_nodes(inner)),
                            );
                            if opener.length > used as usize {
                                items.push(
                                    InlineItem::Run(
                                        DelimRun { length: opener.length - used as usize, ..opener },
                                    ),
                                );
                            }
                            items.push(InlineItem::Node(wrapper));
                            let at = items.len();
                            if closer.length > used as usize {
                                items.push(
                                    InlineItem::Run(
                                        DelimRun { length: closer.length - used as usize, ..closer },
                                    ),
                                );
                            }
                            let ghost mid = items@;
                            assert(items_model(mid) =~= all.take(j as int) + rest_of_run(
                                opener,
                                used as nat,
                            ) + seq![
                                ItemModel::Node(
                                    wrapper_node(
                                        kind,
                                        closer.marker,
                                        merged(literals(all.subrange(j + 1, i as int))),
                                    ),
                                ),
                            ] + rest_of_run(closer, used as nat));
                            items.append(&mut tail);
                            assert(items_model(items@) =~= items_model(mid) + all.skip(i + 1));
                            at
                        },
                        None => {
                            proof {
                                assert(false);
                            }
                            0
                        },
                    }
                },
                None => {
                    proof {
                        assert(false);
                    }
                    0
                },
            }
        },
        _ => {
            proof {
                assert(false);
            }
            0
        },
    }
}

/// Makes the pairs of the items: every run closes what it can.
pub fn pair_items(cfg: &Vec<PairConfig>, items: Vec<InlineItem>) -> (r: Vec<InlineItem>)
    ensures
        items_model(r@) == paired_from(cfg@, items_model(items@), 0),
{
    let ghost whole = paired_from(cfg@, items_model(items@), 0);
    let mut items = items;
    let mut i: usize = 0;
    while i < items.len()
        invariant
            i <= items@.len(),
            whole == paired_from(cfg@, items_model(items@), i as int),
        decreases items@.len() - i, length_at(items_model(items@), i as int),
    {
        let closer = match &items[i] {
            InlineItem::Run(run) => if run.can_close {
                Some(*run)
            } else {
                None
            },
            InlineItem::Node(_) => None,
        };
        match closer {
            Some(closer) => {
                match nearest_opener(cfg, &items, &closer, i) {
                    Some(j) => {
                        i = make_pair(cfg, &mut items, j, i);
                    },
                    None => {
                        i = i + 1;
                    },
                }
            },
            None => {
                i = i + 1;
            },
        }
    }
    items
}

/// The nodes that the items make: every run closes what it can, the runs
/// that stay are text, and neighbouring texts are joined.
pub fn pair_nodes(cfg: &Vec<PairConfig>, items: Vec<InlineItem>) -> (r: Vec<Node>)
    ensures
        models_of(r@) == paired(cfg@, items_model(items@)),
{
    merge_nodes(literal_nodes(pair_items(cfg, items)))
}

} // verus!
