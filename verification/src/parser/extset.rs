//! Stores of extension data, keyed by the type of the value: one slot for
//! each type, empty until something is put there.
//!
//! A [`MarkdownItExtSet`] belongs to a parser and holds what its rules were
//! configured with. A [`RootExtSet`] belongs to one document and holds what
//! the rules found while parsing it.
use vstd::prelude::*;
use crate::generics::inline::emph_pair::PairConfigs;
use crate::plugins::gfm::heading_anchors::HeadingAnchorOptions;
use crate::plugins::pandoc::footnote::{FootnoteMap, FootnoteMapModel};

verus! {

/// Extension data of one document.
#[derive(Debug)]
pub struct RootExtSet {
    pub footnotes: Option<FootnoteMap>,
}

/// The mathematical content of a [`RootExtSet`].
pub struct RootExtModel {
    pub footnotes: Option<FootnoteMapModel>,
}

impl View for RootExtSet {
    type V = RootExtModel;

    open spec fn view(&self) -> RootExtModel {
        RootExtModel {
            footnotes: match self.footnotes {
                Some(m) => Some(m@),
                None => None,
            },
        }
    }
}

/// A type that has a slot in a [`RootExtSet`].
pub trait RootExt: Sized {
    /// What the slot of this type holds in `set`.
    spec fn slot(set: RootExtSet) -> Option<Self>;

    /// `set` with the slot of this type holding `value`, and every other
    /// slot as it was.
    spec fn with_slot(set: RootExtSet, value: Option<Self>) -> RootExtSet;

    /// Whether `value` is what a slot of this type is first filled with.
    spec fn is_initial(value: Self) -> bool;

    /// A slot holds what was put there last.
    proof fn lemma_slot(set: RootExtSet, a: Option<Self>, b: Option<Self>)
        ensures
            Self::slot(Self::with_slot(set, a)) == a,
            Self::with_slot(set, Self::slot(set)) == set,
            Self::with_slot(Self::with_slot(set, a), b) == Self::with_slot(set, b),
    ;

    fn slot_ref(set: &RootExtSet) -> (r: &Option<Self>)
        ensures
            *r == Self::slot(*set),
    ;

    fn slot_mut(set: &mut RootExtSet) -> (r: &mut Option<Self>)
        ensures
            *r == Self::slot(*old(set)),
            *final(set) == Self::with_slot(*old(set), *final(r)),
    ;

    fn initial() -> (r: Self)
        ensures
            Self::is_initial(r),
    ;
}

impl RootExt for FootnoteMap {
    open spec fn slot(set: RootExtSet) -> Option<FootnoteMap> {
        set.footnotes
    }

    open spec fn with_slot(set: RootExtSet, value: Option<FootnoteMap>) -> RootExtSet {
        RootExtSet { footnotes: value }
    }

    open spec fn is_initial(value: FootnoteMap) -> bool {
        value@ == FootnoteMapModel::empty()
    }

    proof fn lemma_slot(set: RootExtSet, a: Option<FootnoteMap>, b: Option<FootnoteMap>) {
    }

    fn slot_ref(set: &RootExtSet) -> (r: &Option<FootnoteMap>) {
        &set.footnotes
    }

    fn slot_mut(set: &mut RootExtSet) -> (r: &mut Option<FootnoteMap>) {
        &mut set.footnotes
    }

    fn initial() -> (r: FootnoteMap) {
        FootnoteMap::new()
    }
}

impl RootExtSet {
    /// Whether every slot is empty.
    pub open spec fn is_empty(self) -> bool {
        self.footnotes is None
    }

    /// A store with every slot empty.
    pub fn new() -> (r: RootExtSet)
        ensures
            r.is_empty(),
    {
        RootExtSet { footnotes: None }
    }

    /// What the slot of `T` holds, if anything.
    pub fn get<T: RootExt>(&self) -> (r: Option<&T>)
        ensures
            match r {
                Some(v) => T::slot(*self) == Some(*v),
                None => T::slot(*self) is None,
            },
    {
        T::slot_ref(self).as_ref()
    }

    /// Puts `value` into the slot of `T`, and returns what was there.
    pub fn insert<T: RootExt>(&mut self, value: T) -> (r: Option<T>)
        ensures
            r == T::slot(*old(self)),
            *final(self) == T::with_slot(*old(self), Some(value)),
    {
        let slot = T::slot_mut(self);
        let before = slot.take();
        *slot = Some(value);
        before
    }

    /// Empties the slot of `T`, and returns what was there.
    pub fn take<T: RootExt>(&mut self) -> (r: Option<T>)
        ensures
            r == T::slot(*old(self)),
            *final(self) == T::with_slot(*old(self), None),
    {
        let slot = T::slot_mut(self);
        slot.take()
    }

    /// The value in the slot of `T`, for reading and writing; an empty slot
    /// is first filled with the initial value of `T`.
    pub fn get_or_insert_default<T: RootExt>(&mut self) -> (r: &mut T)
        ensures
            match T::slot(*old(self)) {
                Some(v) => *r == v,
                None => T::is_initial(*r),
            },
            *final(self) == T::with_slot(*old(self), Some(*final(r))),
    {
        let slot = T::slot_mut(self);
        if slot.is_none() {
            *slot = Some(T::initial());
        }
        match slot {
            Some(v) => v,
            None => unreached(),
        }
    }
}

/// Asking twice for the default-filled slot of one type gives the same value
/// both times, and the second request leaves the store as the first left it.
pub proof fn lemma_root_default_once<T: RootExt>(set: RootExtSet, first: T)
    ensures
        T::slot(T::with_slot(set, Some(first))) == Some(first),
        T::with_slot(T::with_slot(set, Some(first)), Some(first)) == T::with_slot(
            set,
            Some(first),
        ),
{
    T::lemma_slot(set, Some(first), Some(first));
}

/// Taking a value out of the store and putting it back leaves the store as it
/// was.
pub proof fn lemma_root_take_put_back<T: RootExt>(set: RootExtSet)
    ensures
        T::with_slot(T::with_slot(set, None), T::slot(set)) == set,
{
    T::lemma_slot(set, None, T::slot(set));
}

/// Extension data of one parser.
#[derive(Debug)]
pub struct MarkdownItExtSet {
    pub heading_anchors: Option<HeadingAnchorOptions>,
    pub pairs: Option<PairConfigs>,
}

/// A type that has a slot in a [`MarkdownItExtSet`].
pub trait MarkdownItExt: Sized {
    /// What the slot of this type holds in `set`.
    spec fn slot(set: MarkdownItExtSet) -> Option<Self>;

    /// `set` with the slot of this type holding `value`, and every other
    /// slot as it was.
    spec fn with_slot(set: MarkdownItExtSet, value: Option<Self>) -> MarkdownItExtSet;

    /// Whether `value` is what a slot of this type is first filled with.
    spec fn is_initial(value: Self) -> bool;

    /// A slot holds what was put there last.
    proof fn lemma_slot(set: MarkdownItExtSet, a: Option<Self>, b: Option<Self>)
        ensures
            Self::slot(Self::with_slot(set, a)) == a,
            Self::with_slot(set, Self::slot(set)) == set,
            Self::with_slot(Self::with_slot(set, a), b) == Self::with_slot(set, b),
    ;

    fn slot_ref(set: &MarkdownItExtSet) -> (r: &Option<Self>)
        ensures
            *r == Self::slot(*set),
    ;

    fn slot_mut(set: &mut MarkdownItExtSet) -> (r: &mut Option<Self>)
        ensures
            *r == Self::slot(*old(set)),
            *final(set) == Self::with_slot(*old(set), *final(r)),
    ;

    fn initial() -> (r: Self)
        ensures
            Self::is_initial(r),
    ;
}

impl MarkdownItExt for HeadingAnchorOptions {
    open spec fn slot(set: MarkdownItExtSet) -> Option<HeadingAnchorOptions> {
        set.heading_anchors
    }

    open spec fn with_slot(
        set: MarkdownItExtSet,
        value: Option<HeadingAnchorOptions>,
    ) -> MarkdownItExtSet {
        MarkdownItExtSet { heading_anchors: value, ..set }
    }

    open spec fn is_initial(value: HeadingAnchorOptions) -> bool {
        value@ == crate::plugins::gfm::heading_anchors::HeadingAnchorOptionsModel::default_value()
    }

    proof fn lemma_slot(
        set: MarkdownItExtSet,
        a: Option<HeadingAnchorOptions>,
        b: Option<HeadingAnchorOptions>,
    ) {
    }

    fn slot_ref(set: &MarkdownItExtSet) -> (r: &Option<HeadingAnchorOptions>) {
        &set.heading_anchors
    }

    fn slot_mut(set: &mut MarkdownItExtSet) -> (r: &mut Option<HeadingAnchorOptions>) {
        &mut set.heading_anchors
    }

    fn initial() -> (r: HeadingAnchorOptions) {
        HeadingAnchorOptions::default()
    }
}

impl MarkdownItExtSet {
    /// Whether every slot is empty.
    pub open spec fn is_empty(self) -> bool {
        self.heading_anchors is None && self.pairs is None
    }

    /// A store with every slot empty.
    pub fn new() -> (r: MarkdownItExtSet)
        ensures
            r.is_empty(),
    {
        MarkdownItExtSet { heading_anchors: None, pairs: None }
    }

    /// What the slot of `T` holds, if anything.
    pub fn get<T: MarkdownItExt>(&self) -> (r: Option<&T>)
        ensures
            match r {
                Some(v) => T::slot(*self) == Some(*v),
                None => T::slot(*self) is None,
            },
    {
        T::slot_ref(self).as_ref()
    }

    /// Puts `value` into the slot of `T`, and returns what was there.
    pub fn insert<T: MarkdownItExt>(&mut self, value: T) -> (r: Option<T>)
        ensures
            r == T::slot(*old(self)),
            *final(self) == T::with_slot(*old(self), Some(value)),
    {
        let slot = T::slot_mut(self);
        let before = slot.take();
        *slot = Some(value);
        before
    }

    /// Empties the slot of `T`, and returns what was there.
    pub fn take<T: MarkdownItExt>(&mut self) -> (r: Option<T>)
        ensures
            r == T::slot(*old(self)),
            *final(self) == T::with_slot(*old(self), None),
    {
        let slot = T::slot_mut(self);
        slot.take()
    }

    /// The value in the slot of `T`, for reading and writing; an empty slot
    /// is first filled with the initial value of `T`.
    pub fn get_or_insert_default<T: MarkdownItExt>(&mut self) -> (r: &mut T)
        ensures
            match T::slot(*old(self)) {
                Some(v) => *r == v,
                None => T::is_initial(*r),
            },
            *final(self) == T::with_slot(*old(self), Some(*final(r))),
    {
        let slot = T::slot_mut(self);
        if slot.is_none() {
            *slot = Some(T::initial());
        }
        match slot {
            Some(v) => v,
            None => unreached(),
        }
    }
}

/// Asking twice for the default-filled slot of one type gives the same value
/// both times, and the second request leaves the store as the first left it.
pub proof fn lemma_default_once<T: MarkdownItExt>(set: MarkdownItExtSet, first: T)
    ensures
        T::slot(T::with_slot(set, Some(first))) == Some(first),
        T::with_slot(T::with_slot(set, Some(first)), Some(first)) == T::with_slot(
            set,
            Some(first),
        ),
{
    T::lemma_slot(set, Some(first), Some(first));
}

} // verus!
