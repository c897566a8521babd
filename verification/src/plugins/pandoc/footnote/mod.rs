//! Footnotes: definitions, references to them, and the passes that move the
//! definitions to the end of the document.
//!
//! The passes talk to each other through a [`FootnoteMap`] kept in the
//! document's extension store.
use vstd::prelude::*;
use crate::parser::engine::{plain_rule, rule_before, MarkdownIt};
use crate::parser::ruler::RuleId;
use self::definitions::definition_rule;

pub mod back_refs;
pub mod collect;
pub mod definitions;
pub mod inline;
pub mod references;

verus! {

/// What the map knows of one definition.
pub struct DefModel {
    /// Its label; `None` for a definition written at its reference.
    pub label: Option<Seq<char>>,
    /// The ids of the references to it, in order of occurrence.
    pub refs: Seq<usize>,
}

/// The mathematical content of a [`FootnoteMap`]: definition `id` is
/// `defs[id - 1]`, so ids are handed out in order of first sight, from 1.
pub struct FootnoteMapModel {
    pub defs: Seq<DefModel>,
    /// How many references were counted so far; the last reference id.
    pub ref_counter: usize,
}

/// The index of the first definition in `defs` labelled `label`, if any.
pub open spec fn find_label(defs: Seq<DefModel>, label: Seq<char>) -> Option<int>
    decreases defs.len(),
{
    if defs.len() == 0 {
        None
    } else {
        match find_label(defs.drop_last(), label) {
            Some(i) => Some(i),
            None => if defs.last().label == Some(label) {
                Some(defs.len() - 1)
            } else {
                None
            },
        }
    }
}

/// `find_label` finds a definition with the label, the first one, and finds
/// one whenever there is any.
pub proof fn lemma_find_label(defs: Seq<DefModel>, label: Seq<char>)
    ensures
        match find_label(defs, label) {
            Some(i) => 0 <= i < defs.len() && defs[i].label == Some(label) && forall|j: int|
                0 <= j < i ==> (#[trigger] defs[j]).label != Some(label),
            None => forall|j: int| 0 <= j < defs.len() ==> (#[trigger] defs[j]).label != Some(label),
        },
    decreases defs.len(),
{
    if defs.len() > 0 {
        lemma_find_label(defs.drop_last(), label);
        assert(forall|j: int| 0 <= j < defs.len() - 1 ==> defs.drop_last()[j] == defs[j]);
    }
}

impl FootnoteMapModel {
    /// The map of a document in which nothing was seen yet.
    pub open spec fn empty() -> FootnoteMapModel {
        FootnoteMapModel { defs: Seq::empty(), ref_counter: 0 }
    }

    /// The id under which `label` is defined, if it is.
    pub open spec fn def_id_of(self, label: Seq<char>) -> Option<usize> {
        match find_label(self.defs, label) {
            Some(i) => Some((i + 1) as usize),
            None => None,
        }
    }

    /// The ids of the references to definition `def_id`, in order of
    /// occurrence; empty for an id that was never handed out.
    pub open spec fn referenced_by(self, def_id: usize) -> Seq<usize> {
        if 1 <= def_id <= self.defs.len() {
            self.defs[def_id - 1].refs
        } else {
            Seq::empty()
        }
    }

    /// The map after a definition labelled `label` was seen. A label seen
    /// before changes nothing.
    pub open spec fn with_def(self, label: Seq<char>) -> FootnoteMapModel {
        if self.def_id_of(label) is Some {
            self
        } else {
            FootnoteMapModel {
                defs: self.defs.push(DefModel { label: Some(label), refs: Seq::empty() }),
                ..self
            }
        }
    }

    /// The map after a reference to `label` was seen. A reference to a label
    /// without a definition changes nothing.
    pub open spec fn with_ref(self, label: Seq<char>) -> FootnoteMapModel {
        match find_label(self.defs, label) {
            Some(i) => {
                let id = (self.ref_counter + 1) as usize;
                FootnoteMapModel {
                    defs: self.defs.update(
                        i,
                        DefModel { label: self.defs[i].label, refs: self.defs[i].refs.push(id) },
                    ),
                    ref_counter: id,
                }
            },
            None => self,
        }
    }

    /// The map after a definition written at its own reference was seen.
    pub open spec fn with_inline_def(self) -> FootnoteMapModel {
        let id = (self.ref_counter + 1) as usize;
        FootnoteMapModel {
            defs: self.defs.push(DefModel { label: None, refs: seq![id] }),
            ref_counter: id,
        }
    }
}

#[derive(Debug)]
struct DefEntry {
    label: Option<String>,
    refs: Vec<usize>,
}

impl View for DefEntry {
    type V = DefModel;

    closed spec fn view(&self) -> DefModel {
        DefModel {
            label: match self.label {
                Some(l) => Some(l@),
                None => None,
            },
            refs: self.refs@,
        }
    }
}

/// The labels of the footnote definitions seen in one document, the ids they
/// were given, and for each id the references to it.
#[derive(Debug)]
pub struct FootnoteMap {
    defs: Vec<DefEntry>,
    ref_counter: usize,
}

impl View for FootnoteMap {
    type V = FootnoteMapModel;

    closed spec fn view(&self) -> FootnoteMapModel {
        FootnoteMapModel {
            defs: Seq::new(self.defs@.len(), |i: int| self.defs@[i]@),
            ref_counter: self.ref_counter,
        }
    }
}

impl Default for FootnoteMap {
    fn default() -> (r: FootnoteMap)
        ensures
            r@ == FootnoteMapModel::empty(),
    {
        FootnoteMap::new()
    }
}

impl FootnoteMap {
    /// A map in which nothing was seen yet.
    pub fn new() -> (r: FootnoteMap)
        ensures
            r@ == FootnoteMapModel::empty(),
    {
        let r = FootnoteMap { defs: Vec::new(), ref_counter: 0 };
        assert(r@.defs =~= Seq::<DefModel>::empty());
        r
    }

    /// The index of the first definition labelled `label`.
    fn find(&self, label: &String) -> (r: Option<usize>)
        ensures
            match r {
                Some(i) => find_label(self@.defs, label@) == Some(i as int) && i < self.defs@.len(),
                None => find_label(self@.defs, label@) is None,
            },
    {
        let mut i: usize = 0;
        while i < self.defs.len()
            invariant
                i <= self.defs@.len(),
                find_label(self@.defs.take(i as int), label@) is None,
            decreases self.defs.len() - i,
        {
            let found = match &self.defs[i].label {
                Some(l) => *l == *label,
                None => false,
            };
            proof {
                let all = self@.defs;
                assert(all.take(i + 1).drop_last() =~= all.take(i as int));
                assert(all.take(i + 1).last() == self.defs@[i as int]@);
                lemma_find_label_prefix(all, i + 1, label@);
            }
            if found {
                proof {
                    lemma_find_label_extends(self@.defs, i + 1, label@);
                }
                return Some(i);
            }
            i = i + 1;
        }
        assert(self@.defs.take(i as int) =~= self@.defs);
        None
    }

    /// Records a definition labelled `label` and returns its new id. A label
    /// that already has a definition keeps it: nothing changes, and `None`
    /// comes back.
    pub fn add_def(&mut self, label: &str) -> (r: Option<usize>)
        ensures
            final(self)@ == old(self)@.with_def(label@),
            match r {
                Some(id) => old(self)@.def_id_of(label@) is None && id == old(self)@.defs.len() + 1,
                None => old(self)@.def_id_of(label@) is Some,
            },
    {
        let owned = label.to_owned();
        if self.find(&owned).is_some() {
            return None;
        }
        self.defs.push(DefEntry { label: Some(owned), refs: Vec::new() });
        assert(self@.defs =~= old(self)@.with_def(label@).defs);
        Some(self.defs.len())
    }

    /// Records a reference to `label`. Where the label has a definition, the
    /// reference gets the next reference id, and the definition's id and the
    /// reference's come back; else nothing changes.
    pub fn add_ref(&mut self, label: &str) -> (r: Option<(usize, usize)>)
        requires
            old(self)@.ref_counter < usize::MAX,
        ensures
            final(self)@ == old(self)@.with_ref(label@),
            match r {
                Some((def_id, ref_id)) => old(self)@.def_id_of(label@) == Some(def_id) && ref_id
                    == old(self)@.ref_counter + 1,
                None => old(self)@.def_id_of(label@) is None,
            },
    {
        let owned = label.to_owned();
        match self.find(&owned) {
            Some(i) => {
                assert(i < self.defs.len());
                let def_id = i + 1;
                self.ref_counter = self.ref_counter + 1;
                let id = self.ref_counter;
                self.defs[i].refs.push(id);
                assert(self@.defs =~= old(self)@.with_ref(label@).defs);
                Some((def_id, id))
            },
            None => None,
        }
    }

    /// Records a definition written at its own reference, and returns the
    /// new definition id and the new reference id.
    pub fn add_inline_def(&mut self) -> (r: (usize, usize))
        requires
            old(self)@.ref_counter < usize::MAX,
        ensures
            final(self)@ == old(self)@.with_inline_def(),
            r.0 == old(self)@.defs.len() + 1,
            r.1 == old(self)@.ref_counter + 1,
    {
        self.ref_counter = self.ref_counter + 1;
        let id = self.ref_counter;
        let mut refs: Vec<usize> = Vec::new();
        refs.push(id);
        self.defs.push(DefEntry { label: None, refs });
        assert(self@.defs =~= old(self)@.with_inline_def().defs);
        (self.defs.len(), id)
    }

    /// The ids of the references to definition `def_id`, in order of
    /// occurrence.
    pub fn referenced_by(&self, def_id: usize) -> (r: Vec<usize>)
        ensures
            r@ == self@.referenced_by(def_id),
    {
        let mut r: Vec<usize> = Vec::new();
        if 1 <= def_id && def_id <= self.defs.len() {
            let refs = &self.defs[def_id - 1].refs;
            let mut i: usize = 0;
            while i < refs.len()
                invariant
                    i <= refs.len(),
                    r@ == refs@.take(i as int),
                decreases refs.len() - i,
            {
                r.push(refs[i]);
                i = i + 1;
                assert(r@ =~= refs@.take(i as int));
            }
            assert(refs@.take(i as int) =~= refs@);
        }
        r
    }

    /// How many references were counted so far.
    pub fn ref_count(&self) -> (r: usize)
        ensures
            r == self@.ref_counter,
    {
        self.ref_counter
    }
}

/// Searching a longer prefix: what was found stays found, and else the new
/// last entry decides.
proof fn lemma_find_label_prefix(defs: Seq<DefModel>, n: int, label: Seq<char>)
    requires
        1 <= n <= defs.len(),
    ensures
        find_label(defs.take(n), label) == (match find_label(defs.take(n - 1), label) {
            Some(i) => Some(i),
            None => if defs[n - 1].label == Some(label) {
                Some(n - 1)
            } else {
                None
            },
        }),
{
    assert(defs.take(n).drop_last() =~= defs.take(n - 1));
}

/// What was found in a prefix is what is found in the whole.
proof fn lemma_find_label_extends(defs: Seq<DefModel>, n: int, label: Seq<char>)
    requires
        0 <= n <= defs.len(),
        find_label(defs.take(n), label) is Some,
    ensures
        find_label(defs, label) == find_label(defs.take(n), label),
    decreases defs.len() - n,
{
    if n < defs.len() {
        lemma_find_label_prefix(defs, n + 1, label);
        lemma_find_label_extends(defs, n + 1, label);
    } else {
        assert(defs.take(n) =~= defs);
    }
}

/// Adds footnotes to `md`: the definitions, the references, the footnotes
/// written at their reference, the collecting of the definitions at the end
/// of the document, and the links back from the definitions.
pub fn add(md: &mut MarkdownIt)
    ensures
        final(md).block@ == old(md).block@.push(definition_rule()),
        final(md).inline@ == old(md).inline@.push(plain_rule(RuleId::FootnoteReference)).push(
            plain_rule(RuleId::FootnoteInline),
        ),
        final(md).ruler@ == old(md).ruler@.push(plain_rule(RuleId::FootnoteCollect)).push(
            rule_before(RuleId::FootnoteBackrefs, RuleId::FootnoteCollect),
        ),
        final(md).ext == old(md).ext,
        final(md).max_indent == old(md).max_indent,
{
    definitions::add(md);
    references::add(md);
    inline::add(md);
    collect::add(md);
    back_refs::add(md);
}

/// References do not touch the labels: a list of definitions that differs
/// from another only in the references finds each label at the same place.
proof fn lemma_find_label_ignores_refs(a: Seq<DefModel>, b: Seq<DefModel>, label: Seq<char>)
    requires
        a.len() == b.len(),
        forall|i: int| 0 <= i < a.len() ==> (#[trigger] a[i]).label == b[i].label,
    ensures
        find_label(a, label) == find_label(b, label),
    decreases a.len(),
{
    if a.len() > 0 {
        lemma_find_label_ignores_refs(a.drop_last(), b.drop_last(), label);
    }
}

/// The id of a label depends on the order in which the labels were first
/// seen, and not on how often anything was referred to: a reference changes
/// neither the id of any label nor the id that the next new label gets.
pub proof fn lemma_ids_ignore_references(m: FootnoteMapModel, referred: Seq<char>, label: Seq<char>)
    ensures
        m.with_ref(referred).def_id_of(label) == m.def_id_of(label),
        m.with_ref(referred).defs.len() == m.defs.len(),
        m.with_ref(referred).with_def(label).def_id_of(label) == m.with_def(label).def_id_of(label),
{
    let r = m.with_ref(referred);
    lemma_find_label(m.defs, referred);
    lemma_find_label_ignores_refs(m.defs, r.defs, label);
    lemma_def_then_found(m, label);
    lemma_def_then_found(r, label);
}

/// Once a label is defined it has an id, and the id of a new label is the
/// number of definitions seen with it.
pub proof fn lemma_def_then_found(m: FootnoteMapModel, label: Seq<char>)
    ensures
        m.with_def(label).def_id_of(label) is Some,
        m.def_id_of(label) is Some ==> m.with_def(label) == m,
        m.def_id_of(label) is None ==> m.with_def(label).def_id_of(label) == Some(
            (m.defs.len() + 1) as usize,
        ),
{
    if m.def_id_of(label) is None {
        let d = m.with_def(label).defs;
        assert(d.drop_last() =~= m.defs);
    }
}

/// A label keeps its id: a later definition, of this label or of another,
/// does not change it.
pub proof fn lemma_id_is_stable(m: FootnoteMapModel, label: Seq<char>, later: Seq<char>)
    requires
        m.def_id_of(label) is Some,
    ensures
        m.with_def(later).def_id_of(label) == m.def_id_of(label),
{
    if m.def_id_of(later) is None {
        let d = m.with_def(later).defs;
        assert(d.drop_last() =~= m.defs);
    }
}

/// Whether the map `after` is the map `before` with more definitions at its
/// end, and nothing else changed: no definition is taken away or changed,
/// and no reference is counted.
pub open spec fn only_adds_definitions(before: FootnoteMapModel, after: FootnoteMapModel) -> bool {
    &&& before.defs.len() <= after.defs.len()
    &&& after.defs.take(before.defs.len() as int) == before.defs
    &&& after.ref_counter == before.ref_counter
}

/// A label keeps its id when more definitions are seen: one label never has
/// two ids.
pub proof fn lemma_more_definitions_keep_ids(
    before: FootnoteMapModel,
    after: FootnoteMapModel,
    label: Seq<char>,
)
    requires
        only_adds_definitions(before, after),
        before.def_id_of(label) is Some,
    ensures
        after.def_id_of(label) == before.def_id_of(label),
{
    lemma_find_label_extends(after.defs, before.defs.len() as int, label);
}

/// A label that is new when more definitions were seen gets an id above
/// every id that was given before.
pub proof fn lemma_new_label_gets_next_id(
    before: FootnoteMapModel,
    after: FootnoteMapModel,
    label: Seq<char>,
)
    requires
        only_adds_definitions(before, after),
        after.def_id_of(label) is None,
        after.defs.len() < usize::MAX,
    ensures
        after.with_def(label).def_id_of(label) == Some((after.defs.len() + 1) as usize),
        before.defs.len() < after.defs.len() + 1,
        forall|other: Seq<char>|
            before.def_id_of(other) is Some ==> #[trigger] before.def_id_of(other)->0
                < after.defs.len() + 1,
{
    lemma_def_then_found(after, label);
    assert forall|other: Seq<char>| before.def_id_of(other) is Some implies #[trigger]
        before.def_id_of(other)->0 < after.defs.len() + 1 by {
        lemma_find_label(before.defs, other);
    }
}

/// Two labels have two ids: in one map, labels that differ have ids that
/// differ.
pub proof fn lemma_labels_have_their_own_ids(m: FootnoteMapModel, a: Seq<char>, b: Seq<char>)
    requires
        a != b,
        m.def_id_of(a) is Some,
        m.def_id_of(b) is Some,
        m.defs.len() < usize::MAX,
    ensures
        m.def_id_of(a) != m.def_id_of(b),
{
    lemma_find_label(m.defs, a);
    lemma_find_label(m.defs, b);
}

/// The references to a definition are kept in the order in which they were
/// seen: a reference to a defined label gets the next reference id, which
/// goes after the references that its definition had; the references to
/// every other definition stay as they were.
pub proof fn lemma_references_in_order(m: FootnoteMapModel, label: Seq<char>, def_id: usize)
    requires
        m.def_id_of(label) is Some,
        m.ref_counter < usize::MAX,
        m.defs.len() <= usize::MAX,
    ensures
        m.with_ref(label).referenced_by(def_id) == (if m.def_id_of(label) == Some(def_id) {
            m.referenced_by(def_id).push((m.ref_counter + 1) as usize)
        } else {
            m.referenced_by(def_id)
        }),
{
    lemma_find_label(m.defs, label);
}

/// A reference to a label that has no definition changes nothing: it is not
/// counted, and no definition is made for it.
pub proof fn lemma_dangling_reference(m: FootnoteMapModel, label: Seq<char>)
    requires
        m.def_id_of(label) is None,
    ensures
        m.with_ref(label) == m,
{
}

} // verus!
