//! Gives each heading a slug, as an `id`, and a link to itself.
use vstd::prelude::*;
use std::collections::HashMap;
use github_slugger::Slugger;
use crate::parser::cache::Cache;
use crate::parser::engine::{core_rule_added, rule_after, MarkdownIt};
use crate::parser::node::{
    attrs_model, lemma_model_children, models_of, opt_chars, text_of, Node, NodeModel, NodeValue,
    ValueModel,
};
use crate::parser::renderer::{anchor_attrs, clone_attrs, lemma_attrs_push, render_onto, Renderer};
use crate::parser::ruler::RuleId;
use crate::plugins::html::HtmlInline;
use crate::text::{decimal, lemma_decimal_injective, push_str, string_from_chars};

verus! {

/// Where the anchor goes among the heading's children.
#[derive(Debug, Clone, Copy, PartialEq, Eq, Structural)]
pub enum AnchorPosition {
    /// Before the heading's own children.
    Start,
    /// After the heading's own children.
    End,
    /// No anchor at all: the heading only gets its `id`, if it gets one.
    NoAnchor,
}

/// Options of the heading anchors.
#[derive(Debug)]
pub struct HeadingAnchorOptions {
    /// Lowest heading level that gets an anchor.
    pub min_level: u8,
    /// Highest heading level that gets an anchor.
    pub max_level: u8,
    /// Whether the `id` goes on the heading itself rather than on the anchor.
    pub id_on_heading: bool,
    /// Where the anchor goes.
    pub position: AnchorPosition,
    /// Classes of the anchor.
    pub classes: Vec<String>,
    /// What the anchor holds, as raw HTML.
    pub inner_html: String,
}

/// The link that a heading gets to itself.
#[derive(Debug)]
pub struct HeadingAnchor {
    /// The slug of the heading, which the link leads to.
    pub href: String,
    /// The slug again, where the anchor rather than the heading carries it.
    pub id: Option<String>,
}

/// The mathematical content of [`HeadingAnchorOptions`].
pub struct HeadingAnchorOptionsModel {
    pub min_level: u8,
    pub max_level: u8,
    pub id_on_heading: bool,
    pub position: AnchorPosition,
    pub classes: Seq<Seq<char>>,
    pub inner_html: Seq<char>,
}

impl View for HeadingAnchorOptions {
    type V = HeadingAnchorOptionsModel;

    open spec fn view(&self) -> HeadingAnchorOptionsModel {
        HeadingAnchorOptionsModel {
            min_level: self.min_level,
            max_level: self.max_level,
            id_on_heading: self.id_on_heading,
            position: self.position,
            classes: self.classes@.map_values(|c: String| c@),
            inner_html: self.inner_html@,
        }
    }
}

/// The link icon that an anchor holds unless told otherwise.
pub open spec fn default_inner_html() -> Seq<char> {
    r#"<svg class="octicon octicon-link" viewBox="0 0 16 16" version="1.1" width="16" height="16" aria-hidden="true"><path d="m7.775 3.275 1.25-1.25a3.5 3.5 0 1 1 4.95 4.95l-2.5 2.5a3.5 3.5 0 0 1-4.95 0 .751.751 0 0 1 .018-1.042.751.751 0 0 1 1.042-.018 1.998 1.998 0 0 0 2.83 0l2.5-2.5a2.002 2.002 0 0 0-2.83-2.83l-1.25 1.25a.751.751 0 0 1-1.042-.018.751.751 0 0 1-.018-1.042Zm-4.69 9.64a1.998 1.998 0 0 0 2.83 0l1.25-1.25a.751.751 0 0 1 1.042.018.751.751 0 0 1 .018 1.042l-1.25 1.25a3.5 3.5 0 1 1-4.95-4.95l2.5-2.5a3.5 3.5 0 0 1 4.95 0 .751.751 0 0 1-.018 1.042.751.751 0 0 1-1.042.018 1.998 1.998 0 0 0-2.83 0l-2.5 2.5a1.998 1.998 0 0 0 0 2.83Z"></path></svg>"#@
}

impl HeadingAnchorOptionsModel {
    /// Anchors on every heading level, at the start of the heading, of class
    /// `anchor`, holding the link icon, with the `id` on the anchor.
    pub open spec fn default_value() -> HeadingAnchorOptionsModel {
        HeadingAnchorOptionsModel {
            min_level: 1,
            max_level: 6,
            id_on_heading: false,
            position: AnchorPosition::Start,
            classes: seq!["anchor"@],
            inner_html: default_inner_html(),
        }
    }
}

impl Default for HeadingAnchorOptions {
    fn default() -> (r: HeadingAnchorOptions)
        ensures
            r@ == HeadingAnchorOptionsModel::default_value(),
    {
        let mut classes: Vec<String> = Vec::new();
        classes.push("anchor".to_owned());
        let r = HeadingAnchorOptions {
            min_level: 1,
            max_level: 6,
            id_on_heading: false,
            position: AnchorPosition::Start,
            classes,
            inner_html: r#"<svg class="octicon octicon-link" viewBox="0 0 16 16" version="1.1" width="16" height="16" aria-hidden="true"><path d="m7.775 3.275 1.25-1.25a3.5 3.5 0 1 1 4.95 4.95l-2.5 2.5a3.5 3.5 0 0 1-4.95 0 .751.751 0 0 1 .018-1.042.751.751 0 0 1 1.042-.018 1.998 1.998 0 0 0 2.83 0l2.5-2.5a2.002 2.002 0 0 0-2.83-2.83l-1.25 1.25a.751.751 0 0 1-1.042-.018.751.751 0 0 1-.018-1.042Zm-4.69 9.64a1.998 1.998 0 0 0 2.83 0l1.25-1.25a.751.751 0 0 1 1.042.018.751.751 0 0 1 .018 1.042l-1.25 1.25a3.5 3.5 0 1 1-4.95-4.95l2.5-2.5a3.5 3.5 0 0 1 4.95 0 .751.751 0 0 1-.018 1.042.751.751 0 0 1-1.042.018 1.998 1.998 0 0 0-2.83 0l-2.5 2.5a1.998 1.998 0 0 0 0 2.83Z"></path></svg>"#.to_owned(),
        };
        assert(r@.classes =~= seq!["anchor"@]);
        r
    }
}

impl HeadingAnchor {
    /// Renders `node`, whose value this is: its children inside `<a>`, with
    /// a link to the slug and, where the anchor carries it, the slug as `id`.
    pub fn render(
        &self,
        node: &Node,
        fmt: &mut Renderer,
        options: &HashMap<String, String>,
        cache: &mut Cache,
    )
        requires
            node.value == NodeValue::HeadingAnchor(*self),
        ensures
            final(fmt)@ == render_onto(old(fmt)@, node@),
            *final(cache) == *old(cache),
        decreases *node, 0nat,
    {
        proof {
            crate::parser::node::lemma_model_children(*node);
        }
        let mut attrs = clone_attrs(&node.attrs);
        if let Some(id) = &self.id {
            let ghost own = attrs@;
            attrs.push(("id", id.clone()));
            proof {
                lemma_attrs_push(own, ("id", *id));
            }
        }
        let mut href: Vec<char> = Vec::new();
        href.push('#');
        push_str(&mut href, self.href.as_str());
        let href = string_from_chars(href);
        assert(href@ =~= seq!['#'] + self.href@);
        let ghost with_id = attrs@;
        attrs.push(("href", href));
        proof {
            lemma_attrs_push(with_id, ("href", href));
        }
        assert(attrs_model(attrs@) =~= node@.attrs + anchor_attrs(self.href@, opt_chars(self.id)));
        fmt.open("a", &attrs);
        fmt.contents(&node.children, options, cache);
        fmt.close("a");
    }
}

/// Adds the heading anchors to `md`, with the options that `md` holds for
/// them, or with the default options where it holds none: the rule runs
/// after the inline phase.
pub fn add(md: &mut MarkdownIt)
    ensures
        core_rule_added(*old(md), *final(md), rule_after(RuleId::HeadingAnchors, RuleId::InlineParser)),
        final(md).ext.pairs == old(md).ext.pairs,
        match old(md).ext.heading_anchors {
            Some(o) => final(md).ext.heading_anchors == Some(o),
            None => final(md).ext.heading_anchors is Some && final(md).ext.heading_anchors->0@
                == HeadingAnchorOptionsModel::default_value(),
        },
{
    md.ext.get_or_insert_default::<HeadingAnchorOptions>();
    md.add_rule(RuleId::HeadingAnchors).after(RuleId::InlineParser);
    assert(seq![RuleId::InlineParser] =~= Seq::<RuleId>::empty().push(RuleId::InlineParser));
}

/// Adds the heading anchors to `md`, with `options`: the rule runs after the
/// inline phase.
pub fn add_with_options(md: &mut MarkdownIt, options: HeadingAnchorOptions)
    ensures
        core_rule_added(*old(md), *final(md), rule_after(RuleId::HeadingAnchors, RuleId::InlineParser)),
        final(md).ext.pairs == old(md).ext.pairs,
        final(md).ext.heading_anchors == Some(options),
{
    md.ext.insert(options);
    md.add_rule(RuleId::HeadingAnchors).after(RuleId::InlineParser);
    assert(seq![RuleId::InlineParser] =~= Seq::<RuleId>::empty().push(RuleId::InlineParser));
}

/// The slugger of the `github_slugger` crate: it remembers the slugs that it
/// gave out.
#[verifier::external_type_specification]
#[verifier::external_body]
pub struct ExSlugger(Slugger);

/// The slugs that `s` gave out so far.
pub uninterp spec fn slugger_seen(s: Slugger) -> Set<Seq<char>>;

/// The slug of `text` by itself: what `github_slugger::slug` returns for
/// it. The crate puts the text in lower case, then goes through the
/// characters that one fixed expression matches (punctuation, symbols,
/// separators, controls and the like): a space or `-` becomes `-`, a
/// matched character that is alphabetic stays, any other is dropped; at
/// last each white space that is left becomes `-`. The result is named,
/// not spelled out.
pub uninterp spec fn slug_of(text: Seq<char>) -> Seq<char>;

/// The `i`-th way to tell a slug `base` from an equal one: `base-i`.
pub open spec fn numbered_slug(base: Seq<char>, i: nat) -> Seq<char> {
    base + seq!['-'] + decimal(i)
}

/// Whether `i` is the first number from 1 on with which `base` is not among
/// `seen`.
pub open spec fn first_free(seen: Set<Seq<char>>, base: Seq<char>, i: nat) -> bool {
    &&& i >= 1
    &&& !seen.contains(numbered_slug(base, i))
    &&& forall|j: nat| 1 <= j < i ==> seen.contains(#[trigger] numbered_slug(base, j))
}

/// The slug that a text of slug `base` gets when the slugs `seen` are taken:
/// `base` itself where it is free, else `base` with the first number from 1
/// on that makes it free.
pub open spec fn unique_slug(seen: Set<Seq<char>>, base: Seq<char>) -> Seq<char> {
    if !seen.contains(base) {
        base
    } else {
        numbered_slug(base, choose|i: nat| first_free(seen, base, i))
    }
}

/// Two numbers make two different slugs of one text.
pub proof fn lemma_numbered_slug_injective(base: Seq<char>, a: nat, b: nat)
    requires
        numbered_slug(base, a) == numbered_slug(base, b),
    ensures
        a == b,
{
    let x = numbered_slug(base, a);
    let y = numbered_slug(base, b);
    assert(decimal(a) =~= x.subrange(base.len() as int + 1, x.len() as int));
    assert(decimal(b) =~= y.subrange(base.len() as int + 1, y.len() as int));
    lemma_decimal_injective(a, b);
}

/// Where the slugs of `base` with the numbers from 1 up to `m` are all
/// taken, at least `m` slugs are taken.
proof fn lemma_taken_numbers(seen: Set<Seq<char>>, base: Seq<char>, m: nat)
    requires
        seen.finite(),
        forall|k: nat| 1 <= k <= m ==> seen.contains(#[trigger] numbered_slug(base, k)),
    ensures
        seen.len() >= m,
    decreases m,
{
    if m > 0 {
        let x = numbered_slug(base, m);
        let less = seen.remove(x);
        assert forall|k: nat| 1 <= k <= m - 1 implies less.contains(
            #[trigger] numbered_slug(base, k),
        ) by {
            if numbered_slug(base, k) == x {
                lemma_numbered_slug_injective(base, k, m);
            }
        }
        lemma_taken_numbers(less, base, (m - 1) as nat);
    }
}

/// Where some number from 1 up to `k` makes a free slug, there is a first
/// one that does.
proof fn lemma_first_free_exists(seen: Set<Seq<char>>, base: Seq<char>, k: nat)
    requires
        k >= 1,
        !seen.contains(numbered_slug(base, k)),
    ensures
        exists|i: nat| first_free(seen, base, i),
    decreases k,
{
    if forall|j: nat| 1 <= j < k ==> seen.contains(#[trigger] numbered_slug(base, j)) {
        assert(first_free(seen, base, k));
    } else {
        let j = choose|j: nat| 1 <= j < k && !seen.contains(#[trigger] numbered_slug(base, j));
        lemma_first_free_exists(seen, base, j);
    }
}

/// The slug that a text gets is not among the slugs that are taken: no two
/// texts get the same slug from one slugger.
pub proof fn lemma_unique_slug_is_free(seen: Set<Seq<char>>, base: Seq<char>)
    requires
        seen.finite(),
    ensures
        !seen.contains(unique_slug(seen, base)),
{
    if seen.contains(base) {
        let m = seen.len() + 1;
        if forall|k: nat| 1 <= k <= m ==> seen.contains(#[trigger] numbered_slug(base, k)) {
            lemma_taken_numbers(seen, base, m);
        }
        let k = choose|k: nat| 1 <= k <= m && !seen.contains(#[trigger] numbered_slug(base, k));
        lemma_first_free_exists(seen, base, k);
    }
}

/// How many slugs one slugger can give out: it counts in 32 bits.
pub const SLUG_LIMIT: usize = 0x7fff_ffff;

/// `Slugger::default`: a slugger that gave out nothing yet.
#[verifier::external_body]
fn slugger_new() -> (s: Slugger)
    ensures
        slugger_seen(s) == Set::<Seq<char>>::empty(),
{
    Slugger::default()
}

/// `Slugger::slug`: the slug of `text`, told apart from the slugs given out
/// before by the first number that does so, is given out and remembered.
/// The slugger counts up from 1 past every taken number, so it must have
/// room to count as far as it has slugs.
#[verifier::external_body]
fn slugger_slug(slugger: &mut Slugger, text: &str) -> (r: String)
    requires
        slugger_seen(*old(slugger)).finite(),
        slugger_seen(*old(slugger)).len() < SLUG_LIMIT,
    ensures
        r@ == unique_slug(slugger_seen(*old(slugger)), slug_of(text@)),
        slugger_seen(*final(slugger)) == slugger_seen(*old(slugger)).insert(r@),
{
    slugger.slug(text)
}

/// Whether a node of value `v` is a heading that gets an anchor under `o`:
/// a heading whose level is within the configured range.
pub open spec fn gets_anchor(v: ValueModel, o: HeadingAnchorOptionsModel) -> bool {
    match v {
        ValueModel::ATXHeading { level } => o.min_level <= level <= o.max_level,
        ValueModel::SetextHeader { level, .. } => o.min_level <= level <= o.max_level,
        _ => false,
    }
}

/// The anchor of a heading of slug `id` under `o`.
pub open spec fn anchor_node(id: Seq<char>, o: HeadingAnchorOptionsModel) -> NodeModel {
    NodeModel {
        value: ValueModel::HeadingAnchor {
            href: id,
            id: if o.id_on_heading {
                None
            } else {
                Some(id)
            },
        },
        children: seq![
            NodeModel {
                value: ValueModel::HtmlInline { content: o.inner_html },
                children: Seq::empty(),
                attrs: Seq::empty(),
                srcmap: None,
            },
        ],
        attrs: seq![("aria-hidden"@, "true"@)] + o.classes.map_values(
            |c: Seq<char>| ("class"@, c),
        ),
        srcmap: None,
    }
}

/// The children of a heading with its anchor put where `o` says.
pub open spec fn with_anchor(
    kids: Seq<NodeModel>,
    id: Seq<char>,
    o: HeadingAnchorOptionsModel,
) -> Seq<NodeModel> {
    match o.position {
        AnchorPosition::Start => seq![anchor_node(id, o)] + kids,
        AnchorPosition::End => kids.push(anchor_node(id, o)),
        AnchorPosition::NoAnchor => kids,
    }
}

/// The tree `n` with its headings anchored under `o`, and the slugs taken
/// after that, where the slugs `seen` are taken before.
///
/// The tree is gone through in pre-order. A heading whose level is in range
/// gets the slug of its text, told apart from the slugs taken so far; the
/// slug goes on the heading or on the anchor, and the anchor among the
/// heading's children. A slugger that is full gives no more slugs, and the
/// headings from there on stay as they are.
pub open spec fn anchored(n: NodeModel, o: HeadingAnchorOptionsModel, seen: Set<Seq<char>>) -> (
    NodeModel,
    Set<Seq<char>>,
)
    decreases n,
{
    if gets_anchor(n.value, o) && seen.len() < SLUG_LIMIT {
        let id = unique_slug(seen, slug_of(text_of(n)));
        let below = anchored_all(n.children, o, seen.insert(id));
        (
            NodeModel {
                value: n.value,
                children: with_anchor(below.0, id, o),
                attrs: if o.id_on_heading {
                    n.attrs.push(("id"@, id))
                } else {
                    n.attrs
                },
                srcmap: n.srcmap,
            },
            below.1,
        )
    } else {
        let below = anchored_all(n.children, o, seen);
        (
            NodeModel { value: n.value, children: below.0, attrs: n.attrs, srcmap: n.srcmap },
            below.1,
        )
    }
}

/// The trees of `s` with their headings anchored, one tree after the other,
/// and the slugs taken after that.
pub open spec fn anchored_all(
    s: Seq<NodeModel>,
    o: HeadingAnchorOptionsModel,
    seen: Set<Seq<char>>,
) -> (Seq<NodeModel>, Set<Seq<char>>)
    decreases s,
{
    if s.len() == 0 {
        (Seq::empty(), seen)
    } else {
        let front = anchored_all(s.drop_last(), o, seen);
        let last = anchored(s.last(), o, front.1);
        (front.0.push(last.0), last.1)
    }
}

/// Anchors appear only on headings whose level is in range: any other node
/// keeps its value and its attributes, and its children are its old
/// children, each anchored in turn, with no anchor among them.
pub proof fn lemma_anchor_only_in_range(
    n: NodeModel,
    o: HeadingAnchorOptionsModel,
    seen: Set<Seq<char>>,
)
    requires
        !gets_anchor(n.value, o),
    ensures
        anchored(n, o, seen).0.value == n.value,
        anchored(n, o, seen).0.attrs == n.attrs,
        anchored(n, o, seen).0.children == anchored_all(n.children, o, seen).0,
        anchored(n, o, seen).0.children.len() == n.children.len(),
{
    lemma_anchored_all_len(n.children, o, seen);
}

/// The slugs that were taken stay taken, and only finitely many are taken.
pub proof fn lemma_anchored_keeps_slugs(
    n: NodeModel,
    o: HeadingAnchorOptionsModel,
    seen: Set<Seq<char>>,
)
    requires
        seen.finite(),
    ensures
        seen.subset_of(anchored(n, o, seen).1),
        anchored(n, o, seen).1.finite(),
    decreases n, 1nat,
{
    if gets_anchor(n.value, o) && seen.len() < SLUG_LIMIT {
        let id = unique_slug(seen, slug_of(text_of(n)));
        lemma_anchored_all_keeps_slugs(n.children, o, seen.insert(id));
    } else {
        lemma_anchored_all_keeps_slugs(n.children, o, seen);
    }
}

proof fn lemma_anchored_all_keeps_slugs(
    s: Seq<NodeModel>,
    o: HeadingAnchorOptionsModel,
    seen: Set<Seq<char>>,
)
    requires
        seen.finite(),
    ensures
        seen.subset_of(anchored_all(s, o, seen).1),
        anchored_all(s, o, seen).1.finite(),
    decreases s, 0nat,
{
    if s.len() > 0 {
        lemma_anchored_all_keeps_slugs(s.drop_last(), o, seen);
        lemma_anchored_keeps_slugs(s.last(), o, anchored_all(s.drop_last(), o, seen).1);
    }
}

/// No two headings get the same slug: the slug of a heading is none of the
/// slugs that were taken before it, and it is taken for every heading after
/// it.
pub proof fn lemma_heading_slug_is_new(
    n: NodeModel,
    o: HeadingAnchorOptionsModel,
    seen: Set<Seq<char>>,
)
    requires
        seen.finite(),
        gets_anchor(n.value, o),
        seen.len() < SLUG_LIMIT,
    ensures
        !seen.contains(unique_slug(seen, slug_of(text_of(n)))),
        anchored(n, o, seen).1.contains(unique_slug(seen, slug_of(text_of(n)))),
{
    let id = unique_slug(seen, slug_of(text_of(n)));
    lemma_unique_slug_is_free(seen, slug_of(text_of(n)));
    lemma_anchored_all_keeps_slugs(n.children, o, seen.insert(id));
    assert(seen.insert(id).contains(id));
}

/// The slugs that the headings of the tree `n` get, in the order of the
/// document, where the slugs `seen` are taken before.
pub open spec fn slugs_given(n: NodeModel, o: HeadingAnchorOptionsModel, seen: Set<Seq<char>>) -> Seq<
    Seq<char>,
>
    decreases n, 1nat,
{
    if gets_anchor(n.value, o) && seen.len() < SLUG_LIMIT {
        let id = unique_slug(seen, slug_of(text_of(n)));
        seq![id] + slugs_given_all(n.children, o, seen.insert(id))
    } else {
        slugs_given_all(n.children, o, seen)
    }
}

/// The slugs that the headings of the trees of `s` get, one tree after the
/// other.
pub open spec fn slugs_given_all(
    s: Seq<NodeModel>,
    o: HeadingAnchorOptionsModel,
    seen: Set<Seq<char>>,
) -> Seq<Seq<char>>
    decreases s, 0nat,
{
    if s.len() == 0 {
        Seq::empty()
    } else {
        slugs_given_all(s.drop_last(), o, seen) + slugs_given(
            s.last(),
            o,
            anchored_all(s.drop_last(), o, seen).1,
        )
    }
}

/// Whether the slugs `given` are new to `seen`, differ from each other, and
/// make `after` together with `seen`.
pub open spec fn all_new(given: Seq<Seq<char>>, seen: Set<Seq<char>>, after: Set<Seq<char>>) -> bool {
    &&& forall|i: int| 0 <= i < given.len() ==> !seen.contains(#[trigger] given[i])
    &&& forall|i: int, j: int| 0 <= i < j < given.len() ==> given[i] != given[j]
    &&& forall|x: Seq<char>| after.contains(x) <==> seen.contains(x) || given.contains(x)
}

/// All the slugs that one run gives differ from each other, and from the
/// slugs that were taken before: no two headings of a document get the same
/// slug, however often a text is repeated and wherever the headings stand.
pub proof fn lemma_slugs_differ(n: NodeModel, o: HeadingAnchorOptionsModel, seen: Set<Seq<char>>)
    requires
        seen.finite(),
    ensures
        all_new(slugs_given(n, o, seen), seen, anchored(n, o, seen).1),
    decreases n, 1nat,
{
    let given = slugs_given(n, o, seen);
    let after = anchored(n, o, seen).1;
    if gets_anchor(n.value, o) && seen.len() < SLUG_LIMIT {
        let id = unique_slug(seen, slug_of(text_of(n)));
        let taken = seen.insert(id);
        let below = slugs_given_all(n.children, o, taken);
        lemma_unique_slug_is_free(seen, slug_of(text_of(n)));
        lemma_slugs_differ_all(n.children, o, taken);
        assert(given == seq![id] + below);
        assert forall|i: int| 0 <= i < given.len() implies !seen.contains(#[trigger] given[i]) by {
            if i > 0 {
                assert(given[i] == below[i - 1]);
                assert(!taken.contains(below[i - 1]));
            }
        }
        assert forall|i: int, j: int| 0 <= i < j < given.len() implies given[i] != given[j] by {
            assert(given[j] == below[j - 1]);
            assert(!taken.contains(below[j - 1]));
            if i > 0 {
                assert(given[i] == below[i - 1]);
            }
        }
        assert forall|x: Seq<char>| after.contains(x) <==> seen.contains(x) || given.contains(
            x,
        ) by {
            if below.contains(x) {
                let k = choose|k: int| 0 <= k < below.len() && below[k] == x;
                assert(given[k + 1] == x);
            }
            if given.contains(x) {
                let k = choose|k: int| 0 <= k < given.len() && given[k] == x;
                if k > 0 {
                    assert(below[k - 1] == x);
                }
            }
            assert(given[0] == id);
        }
    } else {
        lemma_slugs_differ_all(n.children, o, seen);
    }
}

proof fn lemma_slugs_differ_all(
    s: Seq<NodeModel>,
    o: HeadingAnchorOptionsModel,
    seen: Set<Seq<char>>,
)
    requires
        seen.finite(),
    ensures
        all_new(slugs_given_all(s, o, seen), seen, anchored_all(s, o, seen).1),
    decreases s, 0nat,
{
    let given = slugs_given_all(s, o, seen);
    let after = anchored_all(s, o, seen).1;
    if s.len() > 0 {
        let front = slugs_given_all(s.drop_last(), o, seen);
        let mid = anchored_all(s.drop_last(), o, seen).1;
        let last = slugs_given(s.last(), o, mid);
        lemma_slugs_differ_all(s.drop_last(), o, seen);
        lemma_anchored_all_keeps_slugs(s.drop_last(), o, seen);
        lemma_slugs_differ(s.last(), o, mid);
        assert(given == front + last);
        assert forall|i: int| 0 <= i < given.len() implies !seen.contains(#[trigger] given[i]) by {
            if i >= front.len() {
                assert(given[i] == last[i - front.len()]);
                assert(!mid.contains(last[i - front.len()]));
            } else {
                assert(given[i] == front[i]);
            }
        }
        assert forall|i: int, j: int| 0 <= i < j < given.len() implies given[i] != given[j] by {
            if j >= front.len() {
                assert(given[j] == last[j - front.len()]);
                assert(!mid.contains(last[j - front.len()]));
                if i >= front.len() {
                    assert(given[i] == last[i - front.len()]);
                } else {
                    assert(given[i] == front[i]);
                    assert(front.contains(front[i]));
                }
            } else {
                assert(given[i] == front[i]);
                assert(given[j] == front[j]);
            }
        }
        assert forall|x: Seq<char>| after.contains(x) <==> seen.contains(x) || given.contains(
            x,
        ) by {
            if front.contains(x) {
                let k = choose|k: int| 0 <= k < front.len() && front[k] == x;
                assert(given[k] == x);
            }
            if last.contains(x) {
                let k = choose|k: int| 0 <= k < last.len() && last[k] == x;
                assert(given[front.len() + k] == x);
            }
            if given.contains(x) {
                let k = choose|k: int| 0 <= k < given.len() && given[k] == x;
                if k >= front.len() {
                    assert(last[k - front.len()] == x);
                } else {
                    assert(front[k] == x);
                }
            }
        }
    }
}

/// Whether the tree `new` is the tree `old` with anchors on headings in
/// range and nothing else changed, at every depth.
///
/// Every node keeps its value. A node that is no heading in range keeps its
/// attributes and the number of its children, each of which follows the
/// range in turn. A heading in range gets the slug, as `id` where the
/// options put it on the heading, and the one anchor among its children,
/// where the options say; only where no slug is left it stays bare.
pub open spec fn follows_range(old: NodeModel, new: NodeModel, o: HeadingAnchorOptionsModel) -> bool
    decreases old, 1nat,
{
    &&& new.value == old.value
    &&& new.srcmap == old.srcmap
    &&& if gets_anchor(old.value, o) {
        (new.attrs == old.attrs && all_follow_range(old.children, new.children, o)) || (exists|
            id: Seq<char>,
            kids: Seq<NodeModel>,
        |
            new.children == #[trigger] with_anchor(kids, id, o) && all_follow_range(
                old.children,
                kids,
                o,
            ) && new.attrs == (if o.id_on_heading {
                old.attrs.push(("id"@, id))
            } else {
                old.attrs
            }))
    } else {
        new.attrs == old.attrs && all_follow_range(old.children, new.children, o)
    }
}

/// Whether the trees of `new` are the trees of `old`, one for one, each
/// with anchors on headings in range and nothing else changed.
pub open spec fn all_follow_range(
    old: Seq<NodeModel>,
    new: Seq<NodeModel>,
    o: HeadingAnchorOptionsModel,
) -> bool
    decreases old, 0nat,
{
    &&& old.len() == new.len()
    &&& forall|i: int| 0 <= i < old.len() ==> follows_range(#[trigger] old[i], new[i], o)
}

/// Anchors appear only on headings whose level is in range, wherever in
/// the tree they stand: at every depth a node that is no heading in range
/// keeps its value, its attributes and the number of its children, and a
/// heading in range gets its slug and its one anchor.
pub proof fn lemma_anchored_follows_range(
    n: NodeModel,
    o: HeadingAnchorOptionsModel,
    seen: Set<Seq<char>>,
)
    ensures
        follows_range(n, anchored(n, o, seen).0, o),
    decreases n, 1nat,
{
    let new = anchored(n, o, seen).0;
    if gets_anchor(n.value, o) && seen.len() < SLUG_LIMIT {
        let id = unique_slug(seen, slug_of(text_of(n)));
        let kids = anchored_all(n.children, o, seen.insert(id)).0;
        lemma_anchored_all_follows_range(n.children, o, seen.insert(id));
        assert(new.children == with_anchor(kids, id, o));
        assert(all_follow_range(n.children, kids, o));
        assert(follows_range(n, new, o));
    } else {
        lemma_anchored_all_follows_range(n.children, o, seen);
        assert(new.attrs == n.attrs);
        assert(all_follow_range(n.children, new.children, o));
        assert(follows_range(n, new, o));
    }
}

proof fn lemma_anchored_all_follows_range(
    s: Seq<NodeModel>,
    o: HeadingAnchorOptionsModel,
    seen: Set<Seq<char>>,
)
    ensures
        all_follow_range(s, anchored_all(s, o, seen).0, o),
    decreases s, 0nat,
{
    lemma_anchored_all_len(s, o, seen);
    if s.len() > 0 {
        let front = anchored_all(s.drop_last(), o, seen);
        lemma_anchored_all_follows_range(s.drop_last(), o, seen);
        lemma_anchored_follows_range(s.last(), o, front.1);
        lemma_anchored_all_len(s.drop_last(), o, seen);
        let new = anchored_all(s, o, seen).0;
        assert forall|i: int| 0 <= i < s.len() implies follows_range(#[trigger] s[i], new[i], o) by {
            if i < s.len() - 1 {
                assert(s[i] == s.drop_last()[i]);
                assert(new[i] == front.0[i]);
            }
        }
    }
}

/// A heading in range, while a slug is left, gets the slug of its text and
/// its one anchor: the anchor is the only child that it gains.
pub proof fn lemma_heading_in_range_gets_anchor(
    n: NodeModel,
    o: HeadingAnchorOptionsModel,
    seen: Set<Seq<char>>,
)
    requires
        gets_anchor(n.value, o),
        seen.len() < SLUG_LIMIT,
    ensures
        ({
            let id = unique_slug(seen, slug_of(text_of(n)));
            let new = anchored(n, o, seen).0;
            let kids = anchored_all(n.children, o, seen.insert(id)).0;
            &&& new.value == n.value
            &&& kids.len() == n.children.len()
            &&& new.children == with_anchor(kids, id, o)
            &&& o.position == AnchorPosition::Start ==> new.children.len() == n.children.len() + 1
                && new.children[0] == anchor_node(id, o)
            &&& o.position == AnchorPosition::End ==> new.children.len() == n.children.len() + 1
                && new.children.last() == anchor_node(id, o)
            &&& o.position == AnchorPosition::NoAnchor ==> new.children.len() == n.children.len()
            &&& new.attrs == (if o.id_on_heading {
                n.attrs.push(("id"@, id))
            } else {
                n.attrs
            })
        }),
{
    let id = unique_slug(seen, slug_of(text_of(n)));
    lemma_anchored_all_len(n.children, o, seen.insert(id));
}

/// Anchoring a list of trees keeps their number.
pub proof fn lemma_anchored_all_len(
    s: Seq<NodeModel>,
    o: HeadingAnchorOptionsModel,
    seen: Set<Seq<char>>,
)
    ensures
        anchored_all(s, o, seen).0.len() == s.len(),
    decreases s.len(),
{
    if s.len() > 0 {
        lemma_anchored_all_len(s.drop_last(), o, seen);
    }
}

/// The anchor of a heading of slug `id`.
fn make_anchor(id: &String, options: &HeadingAnchorOptions) -> (r: Node)
    ensures
        r@ == anchor_node(id@, options@),
{
    let anchor = HeadingAnchor {
        href: id.clone(),
        id: if options.id_on_heading {
            None
        } else {
            Some(id.clone())
        },
    };
    let mut link_node = Node::new(NodeValue::HeadingAnchor(anchor));
    link_node.attrs.push(("aria-hidden", "true".to_owned()));
    link_node.children.push(
        Node::new(NodeValue::HtmlInline(HtmlInline { content: options.inner_html.clone() })),
    );
    let mut i: usize = 0;
    while i < options.classes.len()
        invariant
            i <= options.classes@.len(),
            link_node.attrs@.len() == i + 1,
            link_node.attrs@[0].0@ == "aria-hidden"@,
            link_node.attrs@[0].1@ == "true"@,
            forall|j: int|
                0 <= j < i ==> (#[trigger] link_node.attrs@[j + 1]).0@ == "class"@
                    && link_node.attrs@[j + 1].1@ == options.classes@[j]@,
            link_node.children@.len() == 1,
            link_node.children@[0]@ == anchor_node(id@, options@).children[0],
            link_node.value@ == anchor_node(id@, options@).value,
            link_node.srcmap is None,
        decreases options.classes.len() - i,
    {
        link_node.attrs.push(("class", options.classes[i].clone()));
        i = i + 1;
    }
    proof {
        lemma_model_children(link_node);
        let want = anchor_node(id@, options@);
        assert(link_node@.children =~= want.children);
        assert(link_node@.attrs.len() == want.attrs.len());
        assert forall|k: int| 0 <= k < want.attrs.len() implies link_node@.attrs[k]
            == want.attrs[k] by {
            if k > 0 {
                let j = k - 1;
                assert(link_node.attrs@[j + 1].0@ == "class"@);
            }
        }
        assert(link_node@.attrs =~= want.attrs);
    }
    link_node
}

/// Anchors the headings of the tree `node`, with the slugs of `slugger`;
/// `count` is how many slugs the slugger gave out.
fn anchor_headings(
    node: &mut Node,
    options: &HeadingAnchorOptions,
    slugger: &mut Slugger,
    count: &mut usize,
)
    requires
        slugger_seen(*old(slugger)).finite(),
        slugger_seen(*old(slugger)).len() == *old(count),
        *old(count) <= SLUG_LIMIT,
    ensures
        ((*final(node))@, slugger_seen(*final(slugger))) == anchored(
            (*old(node))@,
            options@,
            slugger_seen(*old(slugger)),
        ),
        slugger_seen(*final(slugger)).finite(),
        slugger_seen(*final(slugger)).len() == *final(count),
        *final(count) <= SLUG_LIMIT,
    decreases *old(node),
{
    let ghost o = options@;
    let ghost seen0 = slugger_seen(*slugger);
    let ghost before = (*old(node))@;
    proof {
        lemma_model_children(*old(node));
    }
    let in_range = match &node.value {
        NodeValue::ATXHeading(v) => options.min_level <= v.level && v.level <= options.max_level,
        NodeValue::SetextHeader(v) => options.min_level <= v.level && v.level <= options.max_level,
        _ => false,
    };
    assert(in_range == gets_anchor(before.value, o));
    let mut id: Option<String> = None;
    if in_range && *count < SLUG_LIMIT {
        let text = node.collect_text();
        let slug = slugger_slug(slugger, text.as_str());
        proof {
            lemma_unique_slug_is_free(seen0, slug_of(text@));
        }
        *count = *count + 1;
        if options.id_on_heading {
            let ghost own = node.attrs@;
            node.attrs.push(("id", slug.clone()));
            proof {
                crate::parser::renderer::lemma_attrs_push(own, ("id", slug));
            }
        }
        id = Some(slug);
    }
    let ghost seen1 = slugger_seen(*slugger);
    let ghost kids = before.children;
    let ghost attrs1 = node.attrs@;
    let n = node.children.len();
    let mut i: usize = 0;
    while i < n
        invariant
            i <= n,
            n == node.children@.len(),
            n == old(node).children@.len(),
            kids == models_of(old(node).children@),
            o == options@,
            node.value == old(node).value,
            node.srcmap == old(node).srcmap,
            node.attrs@ == attrs1,
            forall|j: int| i <= j < n ==> #[trigger] node.children@[j] == old(node).children@[j],
            anchored_all(kids.take(i as int), o, seen1) == (
                models_of(node.children@.take(i as int)),
                slugger_seen(*slugger),
            ),
            slugger_seen(*slugger).finite(),
            slugger_seen(*slugger).len() == *count,
            *count <= SLUG_LIMIT,
        decreases n - i,
    {
        let ghost done = node.children@.take(i as int);
        anchor_headings(&mut node.children[i], options, slugger, count);
        proof {
            let s = kids.take(i + 1);
            assert(s.drop_last() =~= kids.take(i as int));
            assert(s.last() == old(node).children@[i as int]@);
            assert(node.children@.take(i as int) =~= done);
            assert(models_of(node.children@.take(i + 1)) =~= models_of(done).push(
                node.children@[i as int]@,
            ));
        }
        i = i + 1;
    }
    proof {
        assert(kids.take(n as int) =~= kids);
        assert(node.children@.take(n as int) =~= node.children@);
    }
    let ghost below = models_of(node.children@);
    match id {
        Some(slug) => {
            match options.position {
                AnchorPosition::Start => {
                    let anchor = make_anchor(&slug, options);
                    node.children.insert(0, anchor);
                    assert(models_of(node.children@) =~= seq![anchor_node(slug@, o)] + below);
                },
                AnchorPosition::End => {
                    let anchor = make_anchor(&slug, options);
                    node.children.push(anchor);
                    assert(models_of(node.children@) =~= below.push(anchor_node(slug@, o)));
                },
                AnchorPosition::NoAnchor => {},
            }
            proof {
                lemma_model_children(*node);
            }
        },
        None => {
            proof {
                lemma_model_children(*node);
            }
        },
    }
}

/// The rule that anchors the headings.
pub struct AddHeadingAnchors;

impl AddHeadingAnchors {
    /// Anchors the headings of the document with the options that `md`
    /// holds for them: each heading whose level is in range gets the slug of
    /// its text, and no two headings get the same slug.
    pub fn run(root: &mut Node, md: &MarkdownIt)
        requires
            md.ext.heading_anchors is Some,
        ensures
            (*final(root))@ == anchored(
                (*old(root))@,
                md.ext.heading_anchors->0@,
                Set::<Seq<char>>::empty(),
            ).0,
    {
        match md.ext.get::<HeadingAnchorOptions>() {
            Some(options) => {
                let mut slugger = slugger_new();
                let mut count: usize = 0;
                anchor_headings(root, options, &mut slugger, &mut count);
            },
            None => {},
        }
    }
}

} // verus!
