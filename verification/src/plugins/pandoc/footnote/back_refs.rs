//! Links from each footnote definition back to the references to it.
use vstd::prelude::*;
use std::collections::HashMap;
use crate::parser::cache::Cache;
use crate::parser::engine::{core_rule_added, rule_before, MarkdownIt};
use crate::parser::node::{
    attrs_model, lemma_model_children, models_of, Node, NodeModel, NodeValue, ValueModel,
};
use crate::parser::renderer::{backrefs_html, render_onto, Renderer};
use crate::parser::ruler::RuleId;
use crate::plugins::pandoc::footnote::{FootnoteMap, FootnoteMapModel};
use crate::plugins::pandoc::footnote::references::numbered;
use crate::text::decimal;

verus! {

/// The links of one footnote definition back to its references.
#[derive(Debug)]
pub struct FootnoteRefAnchor {
    pub ref_ids: Vec<usize>,
}

impl FootnoteRefAnchor {
    /// Renders `node`, whose value this is: for each reference, in order, a
    /// space and a link back to it.
    pub fn render(
        &self,
        node: &Node,
        fmt: &mut Renderer,
        options: &HashMap<String, String>,
        cache: &mut Cache,
    )
        requires
            node.value == NodeValue::FootnoteRefAnchor(*self),
        ensures
            final(fmt)@ == render_onto(old(fmt)@, node@),
            *final(cache) == *old(cache),
        decreases *node, 0nat,
    {
        proof {
            crate::parser::node::lemma_model_children(*node);
        }
        let mut i: usize = 0;
        while i < self.ref_ids.len()
            invariant
                i <= self.ref_ids@.len(),
                fmt@ == backrefs_html(old(fmt)@, self.ref_ids@.take(i as int)),
            decreases self.ref_ids.len() - i,
        {
            let ref_id = self.ref_ids[i];
            fmt.text(" ");
            let mut link: Vec<(&'static str, String)> = Vec::new();
            let href = numbered("#fnref", ref_id);
            let class = "footnote-backref".to_owned();
            link.push(("href", href));
            link.push(("class", class));
            assert(attrs_model(link@) =~= seq![
                ("href"@, "#fnref"@ + decimal(ref_id as nat)),
                ("class"@, "footnote-backref"@),
            ]);
            fmt.open("a", &link);
            fmt.text("\u{21a9}\u{FE0E}");
            fmt.close("a");
            proof {
                let s = self.ref_ids@.take(i + 1);
                assert(s.drop_last() =~= self.ref_ids@.take(i as int));
                assert(s.last() == ref_id);
            }
            i = i + 1;
        }
        assert(self.ref_ids@.take(i as int) =~= self.ref_ids@);
    }
}

/// Adds the links back from the definitions to `md`: the rule runs before
/// the definitions are collected, while they still stand where they were
/// written.
pub fn add(md: &mut MarkdownIt)
    ensures
        core_rule_added(*old(md), *final(md), rule_before(RuleId::FootnoteBackrefs, RuleId::FootnoteCollect)),
        final(md).ext == old(md).ext,
{
    md.add_rule(RuleId::FootnoteBackrefs).before(RuleId::FootnoteCollect);
    assert(seq![RuleId::FootnoteCollect] =~= Seq::<RuleId>::empty().push(RuleId::FootnoteCollect));
}

/// The node that links a definition back to the references `ref_ids`.
pub open spec fn backref_node(ref_ids: Seq<usize>) -> NodeModel {
    NodeModel {
        value: ValueModel::FootnoteRefAnchor { ref_ids },
        children: Seq::empty(),
        attrs: Seq::empty(),
        srcmap: None,
    }
}

/// The references to the definition of value `v` under `m`, in order of
/// occurrence: none for a value that is no definition, or a definition
/// without id.
pub open spec fn refs_of(v: ValueModel, m: FootnoteMapModel) -> Seq<usize> {
    match v {
        ValueModel::FootnoteDefinition { def_id: Some(d), .. } => m.referenced_by(d),
        _ => Seq::empty(),
    }
}

/// The children `kids` of a definition with the links back to `refs` added:
/// inside the last child where that is a paragraph, else as a new last
/// child.
pub open spec fn with_backref(kids: Seq<NodeModel>, refs: Seq<usize>) -> Seq<NodeModel> {
    if kids.len() > 0 && kids.last().value is Paragraph {
        kids.update(
            kids.len() - 1,
            NodeModel { children: kids.last().children.push(backref_node(refs)), ..kids.last() },
        )
    } else {
        kids.push(backref_node(refs))
    }
}

/// The tree `n` with each footnote definition linked back to its references
/// under `m`: a definition that is referred to gets one node that holds the
/// ids of all the references to it, in order of occurrence; one that is not
/// stays as it is.
pub open spec fn with_backrefs(n: NodeModel, m: FootnoteMapModel) -> NodeModel
    decreases n,
{
    let kids = Seq::new(
        n.children.len(),
        |i: int|
            if 0 <= i < n.children.len() {
                with_backrefs(n.children[i], m)
            } else {
                arbitrary()
            },
    );
    NodeModel {
        children: if refs_of(n.value, m).len() > 0 {
            with_backref(kids, refs_of(n.value, m))
        } else {
            kids
        },
        ..n
    }
}

/// A definition gets as many links back as there are references to it, in
/// the order of the references, and a definition without references gets
/// none: its children are its old children, each treated in turn.
pub proof fn lemma_backrefs_follow_references(n: NodeModel, m: FootnoteMapModel)
    ensures
        refs_of(n.value, m).len() == 0 ==> with_backrefs(n, m).children.len() == n.children.len(),
        refs_of(n.value, m).len() > 0 ==> {
            let kids = with_backrefs(n, m).children;
            let last = kids.last();
            &&& kids.len() > 0
            &&& (last == backref_node(refs_of(n.value, m)) || (last.value is Paragraph
                && last.children.len() > 0 && last.children.last() == backref_node(
                refs_of(n.value, m),
            )))
        },
{
}

/// Links each footnote definition of the tree `node` back to its references
/// under `map`.
pub fn add_backrefs(node: &mut Node, map: &FootnoteMap)
    ensures
        (*final(node))@ == with_backrefs((*old(node))@, map@),
    decreases *old(node),
{
    let ghost m = map@;
    proof {
        lemma_model_children(*old(node));
    }
    let n = node.children.len();
    let mut i: usize = 0;
    while i < n
        invariant
            i <= n,
            n == node.children@.len(),
            n == old(node).children@.len(),
            m == map@,
            node.value == old(node).value,
            node.srcmap == old(node).srcmap,
            node.attrs == old(node).attrs,
            forall|j: int|
                0 <= j < i ==> (#[trigger] node.children@[j])@ == with_backrefs(
                    old(node).children@[j]@,
                    m,
                ),
            forall|j: int| i <= j < n ==> #[trigger] node.children@[j] == old(node).children@[j],
        decreases n - i,
    {
        add_backrefs(&mut node.children[i], map);
        i = i + 1;
    }
    let ghost kids = models_of(node.children@);
    proof {
        let want = Seq::new(
            old(node)@.children.len(),
            |i: int|
                if 0 <= i < old(node)@.children.len() {
                    with_backrefs(old(node)@.children[i], m)
                } else {
                    arbitrary()
                },
        );
        assert(kids =~= want);
    }
    let ref_ids = match &node.value {
        NodeValue::FootnoteDefinition(def) => match def.def_id {
            Some(def_id) => map.referenced_by(def_id),
            None => Vec::new(),
        },
        _ => Vec::new(),
    };
    assert(ref_ids@ =~= refs_of(old(node)@.value, m));
    if ref_ids.len() > 0 {
        let ghost refs = ref_ids@;
        let anchor = Node::new(NodeValue::FootnoteRefAnchor(FootnoteRefAnchor { ref_ids }));
        assert(anchor@ == backref_node(refs));
        let last_is_paragraph = n > 0 && node.children[n - 1].is::<crate::plugins::cmark::block::Paragraph>();
        if last_is_paragraph {
            let last = &mut node.children[n - 1];
            let ghost before = *last;
            last.children.push(anchor);
            proof {
                lemma_model_children(before);
                lemma_model_children(node.children@[n - 1]);
                assert(node.children@[n - 1]@.children =~= before@.children.push(backref_node(refs)));
                assert(models_of(node.children@) =~= with_backref(kids, refs));
            }
        } else {
            node.children.push(anchor);
            assert(models_of(node.children@) =~= with_backref(kids, refs));
        }
    }
    proof {
        lemma_model_children(*node);
        let want = with_backrefs((*old(node))@, m);
        assert((*node)@.value == want.value);
        assert((*node)@.attrs == want.attrs);
        assert((*node)@.srcmap == want.srcmap);
        assert((*node)@.children == want.children);
    }
}

/// The rule that links the footnote definitions back to their references.
pub struct FootnoteBackrefRule;

impl FootnoteBackrefRule {
    /// Links each footnote definition of the document back to the references
    /// to it, as the footnote map of the document knows them. A document
    /// without footnote map stays as it is.
    ///
    /// The map is taken out of the document while the tree is changed, and
    /// put back after.
    pub fn run(root: &mut Node, md: &MarkdownIt)
        requires
            old(root)@.value is Root,
        ensures
            (*final(root))@ == (match old(root)@.value->ext.footnotes {
                Some(m) => with_backrefs((*old(root))@, m),
                None => (*old(root))@,
            }),
    {
        proof {
            lemma_model_children(*old(root));
        }
        let taken = match &mut root.value {
            NodeValue::Root(data) => data.ext.take::<FootnoteMap>(),
            _ => None,
        };
        match taken {
            Some(map) => {
                let ghost emptied = (*root)@;
                proof {
                    lemma_model_children(*root);
                }
                add_backrefs(root, &map);
                match &mut root.value {
                    NodeValue::Root(data) => {
                        data.ext.insert(map);
                    },
                    _ => {},
                }
                proof {
                    lemma_model_children(*root);
                    let want = with_backrefs((*old(root))@, map@);
                    let got = with_backrefs(emptied, map@);
                    assert(got.children =~= want.children);
                    assert((*root)@.value == old(root)@.value);
                }
            },
            None => {},
        }
    }
}

} // verus!
