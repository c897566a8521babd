//! The syntax tree.
//!
//! A [`Node`] owns its children, so a document is a strict tree. What a node
//! is, is said by its [`NodeValue`]; [`NodeKind`] names the kinds, so that a
//! rule can ask for one without looking at the payload.
//!
//! Contracts speak of a tree through its [`NodeModel`], which holds the same
//! data as sequences of characters and of child models.
use vstd::prelude::*;
use crate::parser::extset::RootExtModel;
use crate::parser::inline::{InlineRoot, Text};
use crate::parser::root::Root;
use crate::plugins::cmark::block::{ATXHeading, Paragraph, SetextHeader};
use crate::plugins::cmark::inline::backticks::CodeInline;
use crate::plugins::cmark::inline::emphasis::{Em, Strong};
use crate::plugins::cmark::inline::link::Link;
use crate::plugins::extra::strikethrough::Strikethrough;
use crate::plugins::gfm::heading_anchors::HeadingAnchor;
use crate::plugins::html::{HtmlBlock, HtmlInline};
use crate::plugins::pandoc::footnote::back_refs::FootnoteRefAnchor;
use crate::plugins::pandoc::footnote::collect::FootnotesContainerNode;
use crate::plugins::pandoc::footnote::definitions::FootnoteDefinition;
use crate::plugins::pandoc::footnote::references::FootnoteReference;

verus! {

/// The kinds of node.
#[derive(Debug, Clone, Copy, PartialEq, Eq, Structural)]
pub enum NodeKind {
    Root,
    Paragraph,
    ATXHeading,
    SetextHeader,
    Text,
    InlineRoot,
    HtmlBlock,
    HtmlInline,
    Em,
    Strong,
    Strikethrough,
    CodeInline,
    Link,
    HeadingAnchor,
    FootnoteDefinition,
    FootnoteReference,
    FootnoteRefAnchor,
    FootnotesContainerNode,
}

/// What a node is, with the data of its kind.
#[derive(Debug)]
pub enum NodeValue {
    Root(Root),
    Paragraph(Paragraph),
    ATXHeading(ATXHeading),
    SetextHeader(SetextHeader),
    Text(Text),
    InlineRoot(InlineRoot),
    HtmlBlock(HtmlBlock),
    HtmlInline(HtmlInline),
    Em(Em),
    Strong(Strong),
    Strikethrough(Strikethrough),
    CodeInline(CodeInline),
    Link(Link),
    HeadingAnchor(HeadingAnchor),
    FootnoteDefinition(FootnoteDefinition),
    FootnoteReference(FootnoteReference),
    FootnoteRefAnchor(FootnoteRefAnchor),
    FootnotesContainerNode(FootnotesContainerNode),
}

/// The mathematical content of a [`NodeValue`].
#[allow(inconsistent_fields)]
pub enum ValueModel {
    Root { content: Seq<char>, ext: RootExtModel },
    Paragraph,
    ATXHeading { level: u8 },
    SetextHeader { level: u8, marker: char },
    Text { content: Seq<char> },
    InlineRoot { content: Seq<char> },
    HtmlBlock { content: Seq<char> },
    HtmlInline { content: Seq<char> },
    Em { marker: char },
    Strong { marker: char },
    Strikethrough { marker: char },
    CodeInline { marker: char, marker_len: usize },
    Link { url: Seq<char>, title: Option<Seq<char>> },
    HeadingAnchor { href: Seq<char>, id: Option<Seq<char>> },
    FootnoteDefinition { label: Option<Seq<char>>, def_id: Option<usize>, inline: bool },
    FootnoteReference { label: Option<Seq<char>>, ref_id: usize, def_id: usize },
    FootnoteRefAnchor { ref_ids: Seq<usize> },
    FootnotesContainerNode,
}

/// The characters of a string that may be absent.
pub open spec fn opt_chars(s: Option<String>) -> Option<Seq<char>> {
    match s {
        Some(s) => Some(s@),
        None => None,
    }
}

impl View for NodeValue {
    type V = ValueModel;

    open spec fn view(&self) -> ValueModel {
        match *self {
            NodeValue::Root(v) => ValueModel::Root { content: v.content@, ext: v.ext@ },
            NodeValue::Paragraph(_) => ValueModel::Paragraph,
            NodeValue::ATXHeading(v) => ValueModel::ATXHeading { level: v.level },
            NodeValue::SetextHeader(v) => ValueModel::SetextHeader {
                level: v.level,
                marker: v.marker,
            },
            NodeValue::Text(v) => ValueModel::Text { content: v.content@ },
            NodeValue::InlineRoot(v) => ValueModel::InlineRoot { content: v.content@ },
            NodeValue::HtmlBlock(v) => ValueModel::HtmlBlock { content: v.content@ },
            NodeValue::HtmlInline(v) => ValueModel::HtmlInline { content: v.content@ },
            NodeValue::Em(v) => ValueModel::Em { marker: v.marker },
            NodeValue::Strong(v) => ValueModel::Strong { marker: v.marker },
            NodeValue::Strikethrough(v) => ValueModel::Strikethrough { marker: v.marker },
            NodeValue::CodeInline(v) => ValueModel::CodeInline {
                marker: v.marker,
                marker_len: v.marker_len,
            },
            NodeValue::Link(v) => ValueModel::Link { url: v.url@, title: opt_chars(v.title) },
            NodeValue::HeadingAnchor(v) => ValueModel::HeadingAnchor {
                href: v.href@,
                id: opt_chars(v.id),
            },
            NodeValue::FootnoteDefinition(v) => ValueModel::FootnoteDefinition {
                label: opt_chars(v.label),
                def_id: v.def_id,
                inline: v.inline,
            },
            NodeValue::FootnoteReference(v) => ValueModel::FootnoteReference {
                label: opt_chars(v.label),
                ref_id: v.ref_id,
                def_id: v.def_id,
            },
            NodeValue::FootnoteRefAnchor(v) => ValueModel::FootnoteRefAnchor {
                ref_ids: v.ref_ids@,
            },
            NodeValue::FootnotesContainerNode(_) => ValueModel::FootnotesContainerNode,
        }
    }
}

impl ValueModel {
    /// The kind of the value.
    pub open spec fn kind(self) -> NodeKind {
        match self {
            ValueModel::Root { .. } => NodeKind::Root,
            ValueModel::Paragraph => NodeKind::Paragraph,
            ValueModel::ATXHeading { .. } => NodeKind::ATXHeading,
            ValueModel::SetextHeader { .. } => NodeKind::SetextHeader,
            ValueModel::Text { .. } => NodeKind::Text,
            ValueModel::InlineRoot { .. } => NodeKind::InlineRoot,
            ValueModel::HtmlBlock { .. } => NodeKind::HtmlBlock,
            ValueModel::HtmlInline { .. } => NodeKind::HtmlInline,
            ValueModel::Em { .. } => NodeKind::Em,
            ValueModel::Strong { .. } => NodeKind::Strong,
            ValueModel::Strikethrough { .. } => NodeKind::Strikethrough,
            ValueModel::CodeInline { .. } => NodeKind::CodeInline,
            ValueModel::Link { .. } => NodeKind::Link,
            ValueModel::HeadingAnchor { .. } => NodeKind::HeadingAnchor,
            ValueModel::FootnoteDefinition { .. } => NodeKind::FootnoteDefinition,
            ValueModel::FootnoteReference { .. } => NodeKind::FootnoteReference,
            ValueModel::FootnoteRefAnchor { .. } => NodeKind::FootnoteRefAnchor,
            ValueModel::FootnotesContainerNode => NodeKind::FootnotesContainerNode,
        }
    }
}

impl NodeValue {
    /// The kind of the value.
    pub fn kind(&self) -> (k: NodeKind)
        ensures
            k == self@.kind(),
    {
        match self {
            NodeValue::Root(_) => NodeKind::Root,
            NodeValue::Paragraph(_) => NodeKind::Paragraph,
            NodeValue::ATXHeading(_) => NodeKind::ATXHeading,
            NodeValue::SetextHeader(_) => NodeKind::SetextHeader,
            NodeValue::Text(_) => NodeKind::Text,
            NodeValue::InlineRoot(_) => NodeKind::InlineRoot,
            NodeValue::HtmlBlock(_) => NodeKind::HtmlBlock,
            NodeValue::HtmlInline(_) => NodeKind::HtmlInline,
            NodeValue::Em(_) => NodeKind::Em,
            NodeValue::Strong(_) => NodeKind::Strong,
            NodeValue::Strikethrough(_) => NodeKind::Strikethrough,
            NodeValue::CodeInline(_) => NodeKind::CodeInline,
            NodeValue::Link(_) => NodeKind::Link,
            NodeValue::HeadingAnchor(_) => NodeKind::HeadingAnchor,
            NodeValue::FootnoteDefinition(_) => NodeKind::FootnoteDefinition,
            NodeValue::FootnoteReference(_) => NodeKind::FootnoteReference,
            NodeValue::FootnoteRefAnchor(_) => NodeKind::FootnoteRefAnchor,
            NodeValue::FootnotesContainerNode(_) => NodeKind::FootnotesContainerNode,
        }
    }
}

/// A type of node value: one of the kinds of node.
pub trait NodeType: Sized {
    /// The kind of the nodes that hold a value of this type.
    spec fn kind_of() -> NodeKind;

    /// The node value that holds `v`.
    spec fn wrapped(v: Self) -> NodeValue;

    /// A value that is wrapped is of the kind of its type.
    proof fn lemma_wrapped(v: Self)
        ensures
            Self::wrapped(v)@.kind() == Self::kind_of(),
    ;

    /// The value of this type that `value` holds, if it is of this type.
    fn cast(value: &NodeValue) -> (r: Option<&Self>)
        ensures
            r is Some <==> value@.kind() == Self::kind_of(),
            r matches Some(v) ==> Self::wrapped(*v) == *value,
    ;

    /// The value of this type that `value` holds, for reading and writing,
    /// if it is of this type.
    fn cast_mut(value: &mut NodeValue) -> (r: Option<&mut Self>)
        ensures
            r is Some <==> old(value)@.kind() == Self::kind_of(),
            match r {
                Some(v) => Self::wrapped(*v) == *old(value) && *final(value) == Self::wrapped(
                    *final(v),
                ),
                None => *final(value) == *old(value),
            },
    ;
}

impl NodeType for Root {
    open spec fn kind_of() -> NodeKind {
        NodeKind::Root
    }

    open spec fn wrapped(v: Root) -> NodeValue {
        NodeValue::Root(v)
    }

    proof fn lemma_wrapped(v: Root) {
    }

    fn cast(value: &NodeValue) -> (r: Option<&Root>) {
        match value {
            NodeValue::Root(v) => Some(v),
            _ => None,
        }
    }

    fn cast_mut(value: &mut NodeValue) -> (r: Option<&mut Root>) {
        match value {
            NodeValue::Root(v) => Some(v),
            _ => None,
        }
    }
}

impl NodeType for Paragraph {
    open spec fn kind_of() -> NodeKind {
        NodeKind::Paragraph
    }

    open spec fn wrapped(v: Paragraph) -> NodeValue {
        NodeValue::Paragraph(v)
    }

    proof fn lemma_wrapped(v: Paragraph) {
    }

    fn cast(value: &NodeValue) -> (r: Option<&Paragraph>) {
        match value {
            NodeValue::Paragraph(v) => Some(v),
            _ => None,
        }
    }

    fn cast_mut(value: &mut NodeValue) -> (r: Option<&mut Paragraph>) {
        match value {
            NodeValue::Paragraph(v) => Some(v),
            _ => None,
        }
    }
}

impl NodeType for ATXHeading {
    open spec fn kind_of() -> NodeKind {
        NodeKind::ATXHeading
    }

    open spec fn wrapped(v: ATXHeading) -> NodeValue {
        NodeValue::ATXHeading(v)
    }

    proof fn lemma_wrapped(v: ATXHeading) {
    }

    fn cast(value: &NodeValue) -> (r: Option<&ATXHeading>) {
        match value {
            NodeValue::ATXHeading(v) => Some(v),
            _ => None,
        }
    }

    fn cast_mut(value: &mut NodeValue) -> (r: Option<&mut ATXHeading>) {
        match value {
            NodeValue::ATXHeading(v) => Some(v),
            _ => None,
        }
    }
}

impl NodeType for SetextHeader {
    open spec fn kind_of() -> NodeKind {
        NodeKind::SetextHeader
    }

    open spec fn wrapped(v: SetextHeader) -> NodeValue {
        NodeValue::SetextHeader(v)
    }

    proof fn lemma_wrapped(v: SetextHeader) {
    }

    fn cast(value: &NodeValue) -> (r: Option<&SetextHeader>) {
        match value {
            NodeValue::SetextHeader(v) => Some(v),
            _ => None,
        }
    }

    fn cast_mut(value: &mut NodeValue) -> (r: Option<&mut SetextHeader>) {
        match value {
            NodeValue::SetextHeader(v) => Some(v),
            _ => None,
        }
    }
}

impl NodeType for Text {
    open spec fn kind_of() -> NodeKind {
        NodeKind::Text
    }

    open spec fn wrapped(v: Text) -> NodeValue {
        NodeValue::Text(v)
    }

    proof fn lemma_wrapped(v: Text) {
    }

    fn cast(value: &NodeValue) -> (r: Option<&Text>) {
        match value {
            NodeValue::Text(v) => Some(v),
            _ => None,
        }
    }

    fn cast_mut(value: &mut NodeValue) -> (r: Option<&mut Text>) {
        match value {
            NodeValue::Text(v) => Some(v),
            _ => None,
        }
    }
}

impl NodeType for InlineRoot {
    open spec fn kind_of() -> NodeKind {
        NodeKind::InlineRoot
    }

    open spec fn wrapped(v: InlineRoot) -> NodeValue {
        NodeValue::InlineRoot(v)
    }

    proof fn lemma_wrapped(v: InlineRoot) {
    }

    fn cast(value: &NodeValue) -> (r: Option<&InlineRoot>) {
        match value {
            NodeValue::InlineRoot(v) => Some(v),
            _ => None,
        }
    }

    fn cast_mut(value: &mut NodeValue) -> (r: Option<&mut InlineRoot>) {
        match value {
            NodeValue::InlineRoot(v) => Some(v),
            _ => None,
        }
    }
}

impl NodeType for HtmlBlock {
    open spec fn kind_of() -> NodeKind {
        NodeKind::HtmlBlock
    }

    open spec fn wrapped(v: HtmlBlock) -> NodeValue {
        NodeValue::HtmlBlock(v)
    }

    proof fn lemma_wrapped(v: HtmlBlock) {
    }

    fn cast(value: &NodeValue) -> (r: Option<&HtmlBlock>) {
        match value {
            NodeValue::HtmlBlock(v) => Some(v),
            _ => None,
        }
    }

    fn cast_mut(value: &mut NodeValue) -> (r: Option<&mut HtmlBlock>) {
        match value {
            NodeValue::HtmlBlock(v) => Some(v),
            _ => None,
        }
    }
}

impl NodeType for HtmlInline {
    open spec fn kind_of() -> NodeKind {
        NodeKind::HtmlInline
    }

    open spec fn wrapped(v: HtmlInline) -> NodeValue {
        NodeValue::HtmlInline(v)
    }

    proof fn lemma_wrapped(v: HtmlInline) {
    }

    fn cast(value: &NodeValue) -> (r: Option<&HtmlInline>) {
        match value {
            NodeValue::HtmlInline(v) => Some(v),
            _ => None,
        }
    }

    fn cast_mut(value: &mut NodeValue) -> (r: Option<&mut HtmlInline>) {
        match value {
            NodeValue::HtmlInline(v) => Some(v),
            _ => None,
        }
    }
}

impl NodeType for Em {
    open spec fn kind_of() -> NodeKind {
        NodeKind::Em
    }

    open spec fn wrapped(v: Em) -> NodeValue {
        NodeValue::Em(v)
    }

    proof fn lemma_wrapped(v: Em) {
    }

    fn cast(value: &NodeValue) -> (r: Option<&Em>) {
        match value {
            NodeValue::Em(v) => Some(v),
            _ => None,
        }
    }

    fn cast_mut(value: &mut NodeValue) -> (r: Option<&mut Em>) {
        match value {
            NodeValue::Em(v) => Some(v),
            _ => None,
        }
    }
}

impl NodeType for Strong {
    open spec fn kind_of() -> NodeKind {
        NodeKind::Strong
    }

    open spec fn wrapped(v: Strong) -> NodeValue {
        NodeValue::Strong(v)
    }

    proof fn lemma_wrapped(v: Strong) {
    }

    fn cast(value: &NodeValue) -> (r: Option<&Strong>) {
        match value {
            NodeValue::Strong(v) => Some(v),
            _ => None,
        }
    }

    fn cast_mut(value: &mut NodeValue) -> (r: Option<&mut Strong>) {
        match value {
            NodeValue::Strong(v) => Some(v),
            _ => None,
        }
    }
}

impl NodeType for Strikethrough {
    open spec fn kind_of() -> NodeKind {
        NodeKind::Strikethrough
    }

    open spec fn wrapped(v: Strikethrough) -> NodeValue {
        NodeValue::Strikethrough(v)
    }

    proof fn lemma_wrapped(v: Strikethrough) {
    }

    fn cast(value: &NodeValue) -> (r: Option<&Strikethrough>) {
        match value {
            NodeValue::Strikethrough(v) => Some(v),
            _ => None,
        }
    }

    fn cast_mut(value: &mut NodeValue) -> (r: Option<&mut Strikethrough>) {
        match value {
            NodeValue::Strikethrough(v) => Some(v),
            _ => None,
        }
    }
}

impl NodeType for CodeInline {
    open spec fn kind_of() -> NodeKind {
        NodeKind::CodeInline
    }

    open spec fn wrapped(v: CodeInline) -> NodeValue {
        NodeValue::CodeInline(v)
    }

    proof fn lemma_wrapped(v: CodeInline) {
    }

    fn cast(value: &NodeValue) -> (r: Option<&CodeInline>) {
        match value {
            NodeValue::CodeInline(v) => Some(v),
            _ => None,
        }
    }

    fn cast_mut(value: &mut NodeValue) -> (r: Option<&mut CodeInline>) {
        match value {
            NodeValue::CodeInline(v) => Some(v),
            _ => None,
        }
    }
}

impl NodeType for Link {
    open spec fn kind_of() -> NodeKind {
        NodeKind::Link
    }

    open spec fn wrapped(v: Link) -> NodeValue {
        NodeValue::Link(v)
    }

    proof fn lemma_wrapped(v: Link) {
    }

    fn cast(value: &NodeValue) -> (r: Option<&Link>) {
        match value {
            NodeValue::Link(v) => Some(v),
            _ => None,
        }
    }

    fn cast_mut(value: &mut NodeValue) -> (r: Option<&mut Link>) {
        match value {
            NodeValue::Link(v) => Some(v),
            _ => None,
        }
    }
}

impl NodeType for HeadingAnchor {
    open spec fn kind_of() -> NodeKind {
        NodeKind::HeadingAnchor
    }

    open spec fn wrapped(v: HeadingAnchor) -> NodeValue {
        NodeValue::HeadingAnchor(v)
    }

    proof fn lemma_wrapped(v: HeadingAnchor) {
    }

    fn cast(value: &NodeValue) -> (r: Option<&HeadingAnchor>) {
        match value {
            NodeValue::HeadingAnchor(v) => Some(v),
            _ => None,
        }
    }

    fn cast_mut(value: &mut NodeValue) -> (r: Option<&mut HeadingAnchor>) {
        match value {
            NodeValue::HeadingAnchor(v) => Some(v),
            _ => None,
        }
    }
}

impl NodeType for FootnoteDefinition {
    open spec fn kind_of() -> NodeKind {
        NodeKind::FootnoteDefinition
    }

    open spec fn wrapped(v: FootnoteDefinition) -> NodeValue {
        NodeValue::FootnoteDefinition(v)
    }

    proof fn lemma_wrapped(v: FootnoteDefinition) {
    }

    fn cast(value: &NodeValue) -> (r: Option<&FootnoteDefinition>) {
        match value {
            NodeValue::FootnoteDefinition(v) => Some(v),
            _ => None,
        }
    }

    fn cast_mut(value: &mut NodeValue) -> (r: Option<&mut FootnoteDefinition>) {
        match value {
            NodeValue::FootnoteDefinition(v) => Some(v),
            _ => None,
        }
    }
}

impl NodeType for FootnoteReference {
    open spec fn kind_of() -> NodeKind {
        NodeKind::FootnoteReference
    }

    open spec fn wrapped(v: FootnoteReference) -> NodeValue {
        NodeValue::FootnoteReference(v)
    }

    proof fn lemma_wrapped(v: FootnoteReference) {
    }

    fn cast(value: &NodeValue) -> (r: Option<&FootnoteReference>) {
        match value {
            NodeValue::FootnoteReference(v) => Some(v),
            _ => None,
        }
    }

    fn cast_mut(value: &mut NodeValue) -> (r: Option<&mut FootnoteReference>) {
        match value {
            NodeValue::FootnoteReference(v) => Some(v),
            _ => None,
        }
    }
}

impl NodeType for FootnoteRefAnchor {
    open spec fn kind_of() -> NodeKind {
        NodeKind::FootnoteRefAnchor
    }

    open spec fn wrapped(v: FootnoteRefAnchor) -> NodeValue {
        NodeValue::FootnoteRefAnchor(v)
    }

    proof fn lemma_wrapped(v: FootnoteRefAnchor) {
    }

    fn cast(value: &NodeValue) -> (r: Option<&FootnoteRefAnchor>) {
        match value {
            NodeValue::FootnoteRefAnchor(v) => Some(v),
            _ => None,
        }
    }

    fn cast_mut(value: &mut NodeValue) -> (r: Option<&mut FootnoteRefAnchor>) {
        match value {
            NodeValue::FootnoteRefAnchor(v) => Some(v),
            _ => None,
        }
    }
}

impl NodeType for FootnotesContainerNode {
    open spec fn kind_of() -> NodeKind {
        NodeKind::FootnotesContainerNode
    }

    open spec fn wrapped(v: FootnotesContainerNode) -> NodeValue {
        NodeValue::FootnotesContainerNode(v)
    }

    proof fn lemma_wrapped(v: FootnotesContainerNode) {
    }

    fn cast(value: &NodeValue) -> (r: Option<&FootnotesContainerNode>) {
        match value {
            NodeValue::FootnotesContainerNode(v) => Some(v),
            _ => None,
        }
    }

    fn cast_mut(value: &mut NodeValue) -> (r: Option<&mut FootnotesContainerNode>) {
        match value {
            NodeValue::FootnotesContainerNode(v) => Some(v),
            _ => None,
        }
    }
}

/// The mathematical content of a [`Node`]: a finite tree.
pub struct NodeModel {
    pub value: ValueModel,
    pub children: Seq<NodeModel>,
    /// The render attributes, as pairs of name and value.
    pub attrs: Seq<(Seq<char>, Seq<char>)>,
    /// Where in the source the node came from, as a range of characters.
    pub srcmap: Option<(usize, usize)>,
}

/// One element of a syntax tree.
#[derive(Debug)]
pub struct Node {
    /// The children, in document order.
    pub children: Vec<Node>,
    /// Where in the source the node came from, as a range of characters.
    pub srcmap: Option<(usize, usize)>,
    /// Attributes to render the node with, as pairs of name and value.
    pub attrs: Vec<(&'static str, String)>,
    /// What the node is.
    pub value: NodeValue,
}

/// The mathematical content of a list of attributes.
pub open spec fn attrs_model(attrs: Seq<(&'static str, String)>) -> Seq<(Seq<char>, Seq<char>)> {
    attrs.map_values(|a: (&'static str, String)| (a.0@, a.1@))
}

/// The tree that `n` stands for.
pub open spec fn model_of(n: Node) -> NodeModel
    decreases n,
{
    NodeModel {
        value: n.value@,
        children: Seq::new(
            n.children@.len(),
            |i: int|
                if 0 <= i < n.children@.len() {
                    model_of(n.children@[i])
                } else {
                    arbitrary()
                },
        ),
        attrs: attrs_model(n.attrs@),
        srcmap: n.srcmap,
    }
}

/// The trees that the nodes of `s` stand for.
pub open spec fn models_of(s: Seq<Node>) -> Seq<NodeModel> {
    s.map_values(|n: Node| model_of(n))
}

/// The children of a node's model are the models of its children.
pub proof fn lemma_model_children(n: Node)
    ensures
        model_of(n).children == models_of(n.children@),
        model_of(n).value == n.value@,
        model_of(n).attrs == attrs_model(n.attrs@),
        model_of(n).srcmap == n.srcmap,
{
    assert(model_of(n).children =~= models_of(n.children@));
}

impl View for Node {
    type V = NodeModel;

    open spec fn view(&self) -> NodeModel {
        model_of(*self)
    }
}

/// The text of a value: what a text node holds, and nothing for any other.
pub open spec fn own_text(v: ValueModel) -> Seq<char> {
    match v {
        ValueModel::Text { content } => content,
        _ => Seq::empty(),
    }
}

/// The text of a tree: the content of its text nodes, depth first, in
/// document order.
pub open spec fn text_of(n: NodeModel) -> Seq<char>
    decreases n,
{
    own_text(n.value) + texts_of(n.children)
}

/// The text of a list of trees, one after the other.
pub open spec fn texts_of(s: Seq<NodeModel>) -> Seq<char>
    decreases s,
{
    if s.len() == 0 {
        Seq::empty()
    } else {
        texts_of(s.drop_last()) + text_of(s.last())
    }
}

/// The kinds of the nodes of a tree, in pre-order: a node, then its children
/// with all that is below them, in document order.
pub open spec fn kinds_of(n: NodeModel) -> Seq<NodeKind>
    decreases n,
{
    seq![n.value.kind()] + kinds_of_all(n.children)
}

/// The kinds of the nodes of a list of trees, one tree after the other.
pub open spec fn kinds_of_all(s: Seq<NodeModel>) -> Seq<NodeKind>
    decreases s,
{
    if s.len() == 0 {
        Seq::empty()
    } else {
        kinds_of_all(s.drop_last()) + kinds_of(s.last())
    }
}

impl Node {
    /// A node of the given value, with no children, no attributes and no
    /// source position.
    pub fn new(value: NodeValue) -> (n: Node)
        ensures
            n@ == (NodeModel {
                value: value@,
                children: Seq::empty(),
                attrs: Seq::empty(),
                srcmap: None,
            }),
            n.value == value,
            n.children@.len() == 0,
            n.attrs@.len() == 0,
            n.srcmap is None,
    {
        let n = Node { children: Vec::new(), srcmap: None, attrs: Vec::new(), value };
        assert(n@.children =~= Seq::<NodeModel>::empty());
        assert(n@.attrs =~= Seq::<(Seq<char>, Seq<char>)>::empty());
        n
    }

    /// Whether the node holds a value of type `T`.
    pub fn is<T: NodeType>(&self) -> (b: bool)
        ensures
            b == (self@.value.kind() == T::kind_of()),
    {
        T::cast(&self.value).is_some()
    }

    /// The value of the node as a `T`; `None` where it is of another type.
    pub fn cast<T: NodeType>(&self) -> (r: Option<&T>)
        ensures
            r is Some <==> self@.value.kind() == T::kind_of(),
            r matches Some(v) ==> T::wrapped(*v) == self.value,
    {
        T::cast(&self.value)
    }

    /// The value of the node as a `T`, for reading and writing; `None`
    /// where it is of another type. The rest of the node stays as it is.
    pub fn cast_mut<T: NodeType>(&mut self) -> (r: Option<&mut T>)
        ensures
            r is Some <==> old(self)@.value.kind() == T::kind_of(),
            match r {
                Some(v) => T::wrapped(*v) == old(self).value && final(self).value == T::wrapped(
                    *final(v),
                ),
                None => final(self).value == old(self).value,
            },
            final(self).children == old(self).children,
            final(self).attrs == old(self).attrs,
            final(self).srcmap == old(self).srcmap,
    {
        T::cast_mut(&mut self.value)
    }

    /// The kind of the node.
    pub fn kind(&self) -> (k: NodeKind)
        ensures
            k == self@.value.kind(),
    {
        self.value.kind()
    }

    /// Appends the text of the tree to `out`.
    fn collect_text_into(&self, out: &mut Vec<char>)
        ensures
            final(out)@ == old(out)@ + text_of(self@),
        decreases *self,
    {
        match &self.value {
            NodeValue::Text(t) => {
                crate::text::push_str(out, t.content.as_str());
            },
            _ => {},
        }
        let ghost base = out@;
        assert(base == old(out)@ + own_text(self@.value));
        let mut i: usize = 0;
        while i < self.children.len()
            invariant
                i <= self.children@.len(),
                out@ == base + texts_of(self@.children.take(i as int)),
            decreases self.children.len() - i,
        {
            self.children[i].collect_text_into(out);
            proof {
                let s = self@.children.take(i + 1);
                assert(s.drop_last() =~= self@.children.take(i as int));
                assert(s.last() == self.children@[i as int]@);
            }
            i = i + 1;
        }
        assert(self@.children.take(i as int) =~= self@.children);
    }

    /// The text of the tree: the content of its text nodes, depth first, in
    /// document order.
    pub fn collect_text(&self) -> (r: String)
        ensures
            r@ == text_of(self@),
    {
        let mut out: Vec<char> = Vec::new();
        self.collect_text_into(&mut out);
        assert(out@ =~= text_of(self@));
        crate::text::string_from_chars(out)
    }

    /// Appends the kinds of the nodes of the tree, in pre-order, to `out`.
    fn walk_into(&self, out: &mut Vec<NodeKind>)
        ensures
            final(out)@ == old(out)@ + kinds_of(self@),
        decreases *self,
    {
        out.push(self.value.kind());
        let ghost base = out@;
        let mut i: usize = 0;
        while i < self.children.len()
            invariant
                i <= self.children@.len(),
                out@ == base + kinds_of_all(self@.children.take(i as int)),
            decreases self.children.len() - i,
        {
            self.children[i].walk_into(out);
            proof {
                let s = self@.children.take(i + 1);
                assert(s.drop_last() =~= self@.children.take(i as int));
                assert(s.last() == self.children@[i as int]@);
            }
            i = i + 1;
        }
        assert(self@.children.take(i as int) =~= self@.children);
        assert(out@ =~= old(out)@ + kinds_of(self@));
    }

    /// Walks the tree in pre-order, depth first, and returns the kind of
    /// each node in the order of the visit.
    pub fn walk(&self) -> (r: Vec<NodeKind>)
        ensures
            r@ == kinds_of(self@),
    {
        let mut out: Vec<NodeKind> = Vec::new();
        self.walk_into(&mut out);
        assert(out@ =~= kinds_of(self@));
        out
    }
}

} // verus!
