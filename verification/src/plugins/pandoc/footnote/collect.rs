//! Gathers the footnote definitions of a document at its end: every
//! definition is taken out of its place, at whatever depth it stands, and
//! those that are referred to are kept, in the order of the document.
use vstd::prelude::*;
use std::collections::HashMap;
use crate::parser::cache::Cache;
use crate::parser::engine::{core_rule_added, plain_rule, MarkdownIt};
use crate::parser::node::{
    attrs_model, lemma_model_children, models_of, Node, NodeModel, NodeValue, ValueModel,
};
use crate::parser::renderer::{clone_attrs, lemma_attrs_push, render_onto, Renderer};
use crate::parser::ruler::RuleId;
use crate::plugins::cmark::block::Paragraph;
use crate::plugins::pandoc::footnote::{FootnoteMap, FootnoteMapModel};
use crate::plugins::pandoc::footnote::definitions::FootnoteDefinition;

verus! {

/// The section at the end of a document that holds its footnotes.
#[derive(Debug)]
pub struct FootnotesContainerNode;

/// A list of attributes that holds only a class.
fn class_only(class: &str) -> (r: Vec<(&'static str, String)>)
    ensures
        attrs_model(r@) == seq![("class"@, class@)],
{
    let mut r: Vec<(&'static str, String)> = Vec::new();
    r.push(("class", class.to_owned()));
    assert(attrs_model(r@) =~= seq![("class"@, class@)]);
    r
}

impl FootnotesContainerNode {
    /// Renders `node`, whose value this is: a rule, then a section of class
    /// `footnotes` that holds the children as an ordered list.
    pub fn render(
        &self,
        node: &Node,
        fmt: &mut Renderer,
        options: &HashMap<String, String>,
        cache: &mut Cache,
    )
        requires
            node.value == NodeValue::FootnotesContainerNode(*self),
        ensures
            final(fmt)@ == render_onto(old(fmt)@, node@),
            *final(cache) == *old(cache),
        decreases *node, 0nat,
    {
        proof {
            crate::parser::node::lemma_model_children(*node);
        }
        let mut attrs = clone_attrs(&node.attrs);
        let class = "footnotes".to_owned();
        let ghost own = attrs@;
        attrs.push(("class", class));
        proof {
            lemma_attrs_push(own, ("class", class));
        }
        fmt.cr();
        fmt.self_close("hr", &class_only("footnotes-sep"));
        fmt.cr();
        fmt.open("section", &attrs);
        fmt.cr();
        fmt.open("ol", &class_only("footnotes-list"));
        fmt.cr();
        fmt.contents(&node.children, options, cache);
        fmt.cr();
        fmt.close("ol");
        fmt.cr();
        fmt.close("section");
        fmt.cr();
    }
}

/// Adds the collecting of the definitions to `md`.
pub fn add(md: &mut MarkdownIt)
    ensures
        core_rule_added(*old(md), *final(md), plain_rule(RuleId::FootnoteCollect)),
        final(md).ext == old(md).ext,
{
    md.add_rule(RuleId::FootnoteCollect);
}

/// Whether a definition of value `v` is kept under `m`: it has an id, and
/// the id is referred to.
pub open spec fn is_referenced(v: ValueModel, m: FootnoteMapModel) -> bool {
    match v {
        ValueModel::FootnoteDefinition { def_id: Some(d), .. } => m.referenced_by(d).len() > 0,
        _ => false,
    }
}

/// A kept definition in the shape in which it is collected: the content of
/// one that was written at its reference is wrapped in a paragraph.
pub open spec fn normalized(def: NodeModel) -> NodeModel {
    match def.value {
        ValueModel::FootnoteDefinition { inline: true, .. } => NodeModel {
            children: seq![
                NodeModel {
                    value: ValueModel::Paragraph,
                    children: def.children,
                    attrs: Seq::empty(),
                    srcmap: None,
                },
            ],
            ..def
        },
        _ => def,
    }
}

/// The tree `n` without the footnote definitions below it: each definition
/// among the children of a node, at any depth, is taken out of its place.
pub open spec fn stripped(n: NodeModel) -> NodeModel
    decreases n,
{
    NodeModel { children: stripped_all(n.children), ..n }
}

/// The trees of `s` that are no definitions, each without the definitions
/// below it.
pub open spec fn stripped_all(s: Seq<NodeModel>) -> Seq<NodeModel>
    decreases s,
{
    if s.len() == 0 {
        Seq::empty()
    } else if s.last().value is FootnoteDefinition {
        stripped_all(s.drop_last())
    } else {
        stripped_all(s.drop_last()).push(stripped(s.last()))
    }
}

/// The definition `def` as it is collected: without the definitions that
/// stood below it, which are collected by themselves, and in the shape of a
/// collected definition.
pub open spec fn taken_out(def: NodeModel) -> NodeModel {
    normalized(stripped(def))
}

/// The definitions that are collected from below the tree `n`, in the order
/// in which they stand in the document.
pub open spec fn collected(n: NodeModel, m: FootnoteMapModel) -> Seq<NodeModel>
    decreases n, 0nat,
{
    collected_all(n.children, m)
}

/// The definitions that are collected from the trees of `s`, tree by tree.
pub open spec fn collected_all(s: Seq<NodeModel>, m: FootnoteMapModel) -> Seq<NodeModel>
    decreases s, 1nat,
{
    if s.len() == 0 {
        Seq::empty()
    } else {
        collected_all(s.drop_last(), m) + collected_from(s.last(), m)
    }
}

/// The definitions that are collected from the tree `c`: `c` itself where
/// it is a definition that is referred to, and then those from below it,
/// whether `c` is kept or not.
pub open spec fn collected_from(c: NodeModel, m: FootnoteMapModel) -> Seq<NodeModel>
    decreases c, 1nat,
{
    if is_referenced(c.value, m) {
        seq![taken_out(c)] + collected(c, m)
    } else {
        collected(c, m)
    }
}

/// The section that holds the definitions `defs`.
pub open spec fn container_node(defs: Seq<NodeModel>) -> NodeModel {
    NodeModel {
        value: ValueModel::FootnotesContainerNode,
        children: defs,
        attrs: Seq::empty(),
        srcmap: None,
    }
}

/// The document `n` with its footnote definitions collected under `m`:
/// every definition is taken out of the tree, from wherever it stands, also
/// from inside another definition; those that are referred to are gathered,
/// in the order in which they stood in the document, in one section at the
/// end of the document; the others are dropped. Where none is left, there
/// is no section.
pub open spec fn with_footnotes_collected(n: NodeModel, m: FootnoteMapModel) -> NodeModel {
    let tree = stripped(n);
    let defs = collected(n, m);
    if defs.len() == 0 {
        tree
    } else {
        NodeModel { children: tree.children.push(container_node(defs)), ..tree }
    }
}

/// Whether no node of the tree `n` has a footnote definition among its
/// children.
pub open spec fn free_of_definitions(n: NodeModel) -> bool
    decreases n,
{
    forall|i: int|
        0 <= i < n.children.len() ==> !((#[trigger] n.children[i]).value is FootnoteDefinition)
            && free_of_definitions(n.children[i])
}

/// Once the definitions are taken out, none is left where it was written.
pub proof fn lemma_stripped_is_free_of_definitions(n: NodeModel)
    ensures
        free_of_definitions(stripped(n)),
    decreases n, 1nat,
{
    lemma_stripped_all_is_free(n.children);
}

proof fn lemma_stripped_all_is_free(s: Seq<NodeModel>)
    ensures
        forall|i: int|
            0 <= i < stripped_all(s).len() ==> !((#[trigger] stripped_all(s)[i]).value
                is FootnoteDefinition) && free_of_definitions(stripped_all(s)[i]),
    decreases s, 0nat,
{
    if s.len() > 0 {
        lemma_stripped_all_is_free(s.drop_last());
        if !(s.last().value is FootnoteDefinition) {
            lemma_stripped_is_free_of_definitions(s.last());
        }
    }
}

/// A definition that is taken out holds no definition below it.
pub proof fn lemma_taken_out_is_free_of_definitions(def: NodeModel)
    ensures
        free_of_definitions(taken_out(def)),
        taken_out(def).value == def.value,
{
    lemma_stripped_is_free_of_definitions(def);
    let t = taken_out(def);
    assert forall|i: int| 0 <= i < t.children.len() implies !((#[trigger] t.children[i]).value
        is FootnoteDefinition) && free_of_definitions(t.children[i]) by {
        let inner = stripped(def);
        if t.children != inner.children {
            // the one child is the paragraph that wraps the content
            assert(t.children[i].children == inner.children);
            assert forall|j: int| 0 <= j < t.children[i].children.len() implies !((
            #[trigger] t.children[i].children[j]).value is FootnoteDefinition)
                && free_of_definitions(t.children[i].children[j]) by {
                assert(inner.children[j] == t.children[i].children[j]);
            }
        }
    }
}

/// Whether every tree of `defs` is a footnote definition that is referred to
/// under `m`, and holds no definition below it.
pub open spec fn all_referenced(defs: Seq<NodeModel>, m: FootnoteMapModel) -> bool {
    forall|i: int|
        0 <= i < defs.len() ==> is_referenced((#[trigger] defs[i]).value, m) && free_of_definitions(
            defs[i],
        )
}

/// Every definition that is collected is referred to: one without
/// references does not reach the section of the footnotes.
pub proof fn lemma_collected_are_referenced(n: NodeModel, m: FootnoteMapModel)
    ensures
        all_referenced(collected(n, m), m),
    decreases n, 0nat,
{
    lemma_collected_all_are_referenced(n.children, m);
}

proof fn lemma_collected_all_are_referenced(s: Seq<NodeModel>, m: FootnoteMapModel)
    ensures
        all_referenced(collected_all(s, m), m),
    decreases s, 1nat,
{
    if s.len() > 0 {
        lemma_collected_all_are_referenced(s.drop_last(), m);
        lemma_collected_are_referenced(s.last(), m);
        lemma_taken_out_is_free_of_definitions(s.last());
        let front = collected_all(s.drop_last(), m);
        let last = collected_from(s.last(), m);
        let below = collected(s.last(), m);
        assert(collected_all(s, m) == front + last);
        assert forall|i: int| 0 <= i < last.len() implies is_referenced(
            (#[trigger] last[i]).value,
            m,
        ) && free_of_definitions(last[i]) by {
            if is_referenced(s.last().value, m) {
                assert(last == seq![taken_out(s.last())] + below);
                if i > 0 {
                    assert(last[i] == below[i - 1]);
                }
            } else {
                assert(last == below);
            }
        }
        assert forall|i: int| 0 <= i < (front + last).len() implies is_referenced(
            (#[trigger] (front + last)[i]).value,
            m,
        ) && free_of_definitions((front + last)[i]) by {
            if i >= front.len() {
                assert((front + last)[i] == last[i - front.len()]);
            } else {
                assert((front + last)[i] == front[i]);
            }
        }
    }
}

/// The nodes below the tree `n`, at every depth, in the order of the
/// document: a node stands before what is below it, and before what follows
/// it.
pub open spec fn descendants(n: NodeModel) -> Seq<NodeModel>
    decreases n, 0nat,
{
    descendants_all(n.children)
}

/// The trees of `s` and the nodes below them, in the order of the document.
pub open spec fn descendants_all(s: Seq<NodeModel>) -> Seq<NodeModel>
    decreases s, 1nat,
{
    if s.len() == 0 {
        Seq::empty()
    } else {
        descendants_all(s.drop_last()) + (seq![s.last()] + descendants(s.last()))
    }
}

/// The definitions among `nodes` that are referred to under `m`, in order,
/// each taken out.
pub open spec fn referenced_definitions(nodes: Seq<NodeModel>, m: FootnoteMapModel) -> Seq<
    NodeModel,
>
    decreases nodes.len(),
{
    if nodes.len() == 0 {
        Seq::empty()
    } else if is_referenced(nodes.last().value, m) {
        referenced_definitions(nodes.drop_last(), m).push(taken_out(nodes.last()))
    } else {
        referenced_definitions(nodes.drop_last(), m)
    }
}

proof fn lemma_referenced_definitions_concat(
    a: Seq<NodeModel>,
    b: Seq<NodeModel>,
    m: FootnoteMapModel,
)
    ensures
        referenced_definitions(a + b, m) == referenced_definitions(a, m) + referenced_definitions(
            b,
            m,
        ),
    decreases b.len(),
{
    if b.len() == 0 {
        assert(a + b =~= a);
        assert(referenced_definitions(a, m) + referenced_definitions(b, m)
            =~= referenced_definitions(a, m));
    } else {
        lemma_referenced_definitions_concat(a, b.drop_last(), m);
        assert((a + b).drop_last() =~= a + b.drop_last());
        assert((a + b).last() == b.last());
        assert(referenced_definitions(a + b, m) =~= referenced_definitions(a, m)
            + referenced_definitions(b, m));
    }
}

/// What is collected is every definition of the tree that is referred to,
/// from whatever depth, also from inside another definition, each once and
/// in the order in which they stand in the document.
pub proof fn lemma_collected_in_document_order(n: NodeModel, m: FootnoteMapModel)
    ensures
        collected(n, m) == referenced_definitions(descendants(n), m),
    decreases n, 0nat,
{
    lemma_collected_all_in_document_order(n.children, m);
}

proof fn lemma_collected_all_in_document_order(s: Seq<NodeModel>, m: FootnoteMapModel)
    ensures
        collected_all(s, m) == referenced_definitions(descendants_all(s), m),
    decreases s, 1nat,
{
    if s.len() > 0 {
        let c = s.last();
        lemma_collected_all_in_document_order(s.drop_last(), m);
        lemma_collected_in_document_order(c, m);
        lemma_referenced_definitions_concat(
            descendants_all(s.drop_last()),
            seq![c] + descendants(c),
            m,
        );
        lemma_referenced_definitions_concat(seq![c], descendants(c), m);
        assert(seq![c].drop_last() =~= Seq::<NodeModel>::empty());
        assert(referenced_definitions(seq![c].drop_last(), m) =~= Seq::<NodeModel>::empty());
        assert(referenced_definitions(seq![c], m) =~= (if is_referenced(c.value, m) {
            seq![taken_out(c)]
        } else {
            Seq::empty()
        }));
        assert(collected_from(c, m) =~= referenced_definitions(seq![c] + descendants(c), m));
    }
}

/// Each definition among `nodes` that is referred to stands, taken out,
/// among the referenced definitions of `nodes`.
pub proof fn lemma_referenced_definition_is_kept(nodes: Seq<NodeModel>, m: FootnoteMapModel, i: int)
    requires
        0 <= i < nodes.len(),
        is_referenced(nodes[i].value, m),
    ensures
        referenced_definitions(nodes, m).contains(taken_out(nodes[i])),
    decreases nodes.len(),
{
    let kept = referenced_definitions(nodes, m);
    if i == nodes.len() - 1 {
        assert(kept.last() == taken_out(nodes[i]));
    } else {
        lemma_referenced_definition_is_kept(nodes.drop_last(), m, i);
        let before = referenced_definitions(nodes.drop_last(), m);
        let j = choose|j: int| 0 <= j < before.len() && before[j] == taken_out(nodes[i]);
        assert(kept[j] == taken_out(nodes[i]));
    }
}

/// After the collecting, a footnote definition stands nowhere but in the
/// section of the footnotes. The section holds every definition of the
/// document that is referred to, from whatever depth, in the order of the
/// document, and no other: a definition without references is absent.
pub proof fn lemma_collected_document(n: NodeModel, m: FootnoteMapModel)
    ensures
        ({
            let d = with_footnotes_collected(n, m);
            let defs = collected(n, m);
            &&& defs == referenced_definitions(descendants(n), m)
            &&& all_referenced(defs, m)
            &&& forall|i: int|
                0 <= i < descendants(n).len() && is_referenced(
                    (#[trigger] descendants(n)[i]).value,
                    m,
                ) ==> defs.contains(taken_out(descendants(n)[i]))
            &&& forall|i: int|
                0 <= i < d.children.len() ==> !((#[trigger] d.children[i]).value
                    is FootnoteDefinition)
            &&& forall|i: int|
                0 <= i < d.children.len() ==> free_of_definitions(#[trigger] d.children[i]) || (i
                    == d.children.len() - 1 && d.children[i] == container_node(defs))
        }),
{
    lemma_collected_in_document_order(n, m);
    lemma_collected_are_referenced(n, m);
    lemma_stripped_is_free_of_definitions(n);
    let tree = stripped(n);
    let d = with_footnotes_collected(n, m);
    assert forall|i: int|
        0 <= i < descendants(n).len() && is_referenced(
            (#[trigger] descendants(n)[i]).value,
            m,
        ) implies collected(n, m).contains(taken_out(descendants(n)[i])) by {
        lemma_referenced_definition_is_kept(descendants(n), m, i);
    }
    assert forall|i: int| 0 <= i < d.children.len() implies !((#[trigger] d.children[i]).value
        is FootnoteDefinition) && (free_of_definitions(d.children[i]) || (i == d.children.len() - 1
        && d.children[i] == container_node(collected(n, m)))) by {
        if i < tree.children.len() {
            assert(d.children[i] == tree.children[i]);
        }
    }
}

/// Whether a definition is kept under `map`.
fn referenced(def: &FootnoteDefinition, map: &FootnoteMap) -> (r: bool)
    ensures
        r == is_referenced(NodeValue::FootnoteDefinition(*def)@, map@),
{
    match def.def_id {
        Some(def_id) => map.referenced_by(def_id).len() > 0,
        None => false,
    }
}

/// Takes every footnote definition out of the tree `node`, from whatever
/// depth, and returns those that are referred to under `map`, in the order
/// in which they stood in the document.
pub fn collect_defs(node: &mut Node, map: &FootnoteMap) -> (defs: Vec<Node>)
    ensures
        (*final(node))@ == stripped((*old(node))@),
        models_of(defs@) == collected((*old(node))@, map@),
    decreases *old(node),
{
    let ghost m = map@;
    let ghost kids = old(node)@.children;
    let ghost all = old(node).children@;
    proof {
        lemma_model_children(*old(node));
    }
    let mut rest: Vec<Node> = Vec::new();
    core::mem::swap(&mut rest, &mut node.children);
    let n = rest.len();
    // turn the children round, so that they can be taken from the front
    let mut rev: Vec<Node> = Vec::new();
    while rest.len() > 0
        invariant
            n == all.len(),
            rest@.len() + rev@.len() == n,
            rest@ == all.take(rest@.len() as int),
            forall|j: int| 0 <= j < rev@.len() ==> #[trigger] rev@[j] == all[n - 1 - j],
        decreases rest@.len(),
    {
        match rest.pop() {
            Some(child) => {
                rev.push(child);
            },
            None => {},
        }
    }
    let mut defs: Vec<Node> = Vec::new();
    while rev.len() > 0
        invariant
            m == map@,
            n == all.len(),
            all == old(node).children@,
            kids == models_of(all),
            rev@.len() <= n,
            forall|j: int| 0 <= j < rev@.len() ==> #[trigger] rev@[j] == all[n - 1 - j],
            models_of(node.children@) == stripped_all(kids.take(n - rev@.len())),
            models_of(defs@) == collected_all(kids.take(n - rev@.len()), m),
            node.value == old(node).value,
            node.attrs == old(node).attrs,
            node.srcmap == old(node).srcmap,
        decreases rev@.len(),
    {
        let ghost k = n - rev@.len();
        let ghost prefix = kids.take(k + 1);
        let ghost kept = node.children@;
        let ghost d = defs@;
        match rev.pop() {
            Some(mut child) => {
                proof {
                    assert(child == all[k]);
                    assert(prefix.drop_last() =~= kids.take(k));
                    assert(prefix.last() == child@);
                    lemma_model_children(child);
                }
                let ghost before = child@;
                // what stands below the child is collected by itself
                assert(decreases_to!(*old(node) => child));
                let mut below = collect_defs(&mut child, map);
                let ghost b = below@;
                proof {
                    lemma_model_children(child);
                    assert(child@.value == before.value);
                    assert(models_of(b) == collected(before, m));
                    assert(collected_all(prefix, m) == collected_all(kids.take(k), m)
                        + collected_from(before, m));
                    assert(collected_from(before, m) == (if is_referenced(before.value, m) {
                        seq![taken_out(before)] + collected(before, m)
                    } else {
                        collected(before, m)
                    }));
                }
                let keep = match &child.value {
                    NodeValue::FootnoteDefinition(def) => Some(referenced(def, map)),
                    _ => None,
                };
                match keep {
                    Some(true) => {
                        let inline = match &child.value {
                            NodeValue::FootnoteDefinition(def) => def.inline,
                            _ => false,
                        };
                        if inline {
                            let mut para = Node::new(NodeValue::Paragraph(Paragraph));
                            core::mem::swap(&mut para.children, &mut child.children);
                            child.children.push(para);
                            proof {
                                lemma_model_children(child);
                                lemma_model_children(child.children@[0]);
                                assert(child.children@[0]@.children =~= stripped(before).children);
                                assert(child@.children =~= taken_out(before).children);
                            }
                        }
                        assert(child@ == taken_out(before));
                        defs.push(child);
                        defs.append(&mut below);
                        assert(models_of(defs@) =~= models_of(d) + (seq![taken_out(before)]
                            + models_of(b)));
                    },
                    Some(false) => {
                        defs.append(&mut below);
                        assert(models_of(defs@) =~= models_of(d) + models_of(b));
                    },
                    None => {
                        node.children.push(child);
                        defs.append(&mut below);
                        proof {
                            assert(models_of(node.children@) =~= models_of(kept).push(
                                stripped(before),
                            ));
                            assert(models_of(defs@) =~= models_of(d) + models_of(b));
                        }
                    },
                }
            },
            None => {},
        }
    }
    proof {
        assert(kids.take(n as int) =~= kids);
        lemma_model_children(*node);
    }
    defs
}

/// The rule that collects the footnote definitions.
pub struct FootnoteCollectRule;

impl FootnoteCollectRule {
    /// Collects the footnote definitions of the document at its end, as the
    /// footnote map of the document knows them: every definition is taken
    /// out of the tree, also out of another definition; those that are
    /// referred to go into one section at the end, in the order in which
    /// they stood in the document, and the others are dropped. A document
    /// without footnote map stays as it is.
    ///
    /// The map is taken out of the document while the tree is changed, and
    /// put back after.
    pub fn run(root: &mut Node, md: &MarkdownIt)
        requires
            old(root)@.value is Root,
        ensures
            (*final(root))@ == (match old(root)@.value->ext.footnotes {
                Some(m) => with_footnotes_collected((*old(root))@, m),
                None => (*old(root))@,
            }),
    {
        proof {
            lemma_model_children(*old(root));
        }
        let taken = match &mut root.value {
            NodeValue::Root(data) => data.ext.take::<FootnoteMap>(),
            _ => None,
        };
        match taken {
            Some(map) => {
                let ghost emptied = (*root)@;
                proof {
                    lemma_model_children(*root);
                }
                let defs = collect_defs(root, &map);
                let ghost tree = (*root)@;
                if defs.len() > 0 {
                    let mut wrapper = Node::new(NodeValue::FootnotesContainerNode(FootnotesContainerNode));
                    let ghost d = models_of(defs@);
                    wrapper.children = defs;
                    proof {
                        lemma_model_children(wrapper);
                        lemma_model_children(*root);
                    }
                    assert(wrapper@ == container_node(d));
                    root.children.push(wrapper);
                    proof {
                        lemma_model_children(*root);
                        assert((*root)@.children =~= tree.children.push(container_node(d)));
                    }
                }
                match &mut root.value {
                    NodeValue::Root(data) => {
                        data.ext.insert(map);
                    },
                    _ => {},
                }
                proof {
                    lemma_model_children(*root);
                    let want = with_footnotes_collected((*old(root))@, map@);
                    assert(stripped(emptied).children == stripped((*old(root))@).children);
                    assert(collected(emptied, map@) == collected((*old(root))@, map@));
                    assert((*root)@.value == want.value);
                    assert((*root)@.attrs == want.attrs);
                    assert((*root)@.srcmap == want.srcmap);
                    assert((*root)@.children == want.children);
                }
            },
            None => {},
        }
    }
}

} // verus!
