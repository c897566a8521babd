//! The parser: the rules of its three phases and what they were configured
//! with.
use vstd::prelude::*;
use crate::generics::inline::emph_pair::pairs_of;
use crate::parser::block::{block_phase, BlockCfg, BlockParserRule};
use crate::parser::extset::{MarkdownItExtSet, RootExtModel};
use crate::parser::inline::{inline_phase, InlineCfg, InlineParserRule};
use crate::parser::node::{Node, NodeModel, NodeValue, ValueModel};
use crate::parser::root::Root;
use crate::parser::ruler::{acyclic, rule_marks, RuleId, RuleItem, RuleModel, Ruler};
use crate::plugins::gfm::heading_anchors::{anchored, AddHeadingAnchors};
use crate::plugins::gfm::tag_filter::{denied_tags_filtered, TagFilter};
use crate::plugins::pandoc::footnote::back_refs::{with_backrefs, FootnoteBackrefRule};
use crate::plugins::pandoc::footnote::collect::{with_footnotes_collected, FootnoteCollectRule};
use crate::plugins::sourcepos::{source_positions_noted, SourcePosRule};

verus! {

/// A Markdown parser, made of the rules that were added to it.
#[derive(Debug)]
pub struct MarkdownIt {
    /// The rules of the core phase, which work on the whole document.
    pub ruler: Ruler,
    /// The rules of the block phase, which split the source into blocks.
    pub block: Ruler,
    /// The rules of the inline phase, which parse the text of a block.
    pub inline: Ruler,
    /// What the rules were configured with.
    pub ext: MarkdownItExtSet,
    /// From how many columns of indentation on a line cannot start a block.
    pub max_indent: usize,
}

/// The core rules of a parser to which nothing was added: the block phase,
/// and after it the inline phase.
pub open spec fn initial_rules() -> Seq<RuleModel> {
    seq![
        RuleModel { mark: RuleId::BlockParser, before: Seq::empty(), after: Seq::empty() },
        RuleModel { mark: RuleId::InlineParser, before: Seq::empty(), after: seq![RuleId::BlockParser] },
    ]
}

impl MarkdownIt {
    /// A parser with the two phases of parsing as its core rules, no block
    /// or inline rules, and nothing configured.
    pub fn new() -> (md: MarkdownIt)
        ensures
            md.ruler@ == initial_rules(),
            md.block@ == Seq::<RuleModel>::empty(),
            md.inline@ == Seq::<RuleModel>::empty(),
            md.ext.is_empty(),
            md.max_indent == usize::MAX,
    {
        let mut ruler = Ruler::new();
        ruler.add(RuleId::BlockParser);
        ruler.add(RuleId::InlineParser).after(RuleId::BlockParser);
        assert(ruler@ =~= initial_rules());
        MarkdownIt {
            ruler,
            block: Ruler::new(),
            inline: Ruler::new(),
            ext: MarkdownItExtSet::new(),
            max_indent: usize::MAX,
        }
    }

    /// Registers a core rule named `mark`, after those registered so far, and
    /// hands it out so that its constraints can be added.
    pub fn add_rule(&mut self, mark: RuleId) -> (r: &mut RuleItem)
        ensures
            r@ == (RuleModel { mark, before: Seq::empty(), after: Seq::empty() }),
            final(self).ruler@ == old(self).ruler@.push(final(r)@),
            final(self).block == old(self).block,
            final(self).inline == old(self).inline,
            final(self).ext == old(self).ext,
            final(self).max_indent == old(self).max_indent,
    {
        self.ruler.add(mark)
    }
}

/// Whether `after` is `before` with the core rule `rule` registered last,
/// its block and inline rules as they were, and as much indentation allowed.
pub open spec fn core_rule_added(before: MarkdownIt, after: MarkdownIt, rule: RuleModel) -> bool {
    &&& after.ruler@ == before.ruler@.push(rule)
    &&& after.block@ == before.block@
    &&& after.inline@ == before.inline@
    &&& after.max_indent == before.max_indent
}

/// Whether `after` is `before` with the block rule `rule` registered last,
/// its core and inline rules as they were, and as much indentation allowed.
pub open spec fn block_rule_added(before: MarkdownIt, after: MarkdownIt, rule: RuleModel) -> bool {
    &&& after.block@ == before.block@.push(rule)
    &&& after.ruler@ == before.ruler@
    &&& after.inline@ == before.inline@
    &&& after.max_indent == before.max_indent
}

/// Whether `after` is `before` with the inline rule `rule` registered last,
/// its core and block rules as they were, and as much indentation allowed.
pub open spec fn inline_rule_added(before: MarkdownIt, after: MarkdownIt, rule: RuleModel) -> bool {
    &&& after.inline@ == before.inline@.push(rule)
    &&& after.ruler@ == before.ruler@
    &&& after.block@ == before.block@
    &&& after.max_indent == before.max_indent
}

/// A rule named `mark` without constraints.
pub open spec fn plain_rule(mark: RuleId) -> RuleModel {
    RuleModel { mark, before: Seq::empty(), after: Seq::empty() }
}

/// A rule named `mark` that has to run after the rules named `other`.
pub open spec fn rule_after(mark: RuleId, other: RuleId) -> RuleModel {
    RuleModel { mark, before: Seq::empty(), after: seq![other] }
}

/// A rule named `mark` that has to run before the rules named `other`.
pub open spec fn rule_before(mark: RuleId, other: RuleId) -> RuleModel {
    RuleModel { mark, before: seq![other], after: Seq::empty() }
}

/// The document of source `src` before any rule ran: a root without
/// children, whose extension store is empty.
pub open spec fn document(src: Seq<char>) -> NodeModel {
    NodeModel {
        value: ValueModel::Root { content: src, ext: RootExtModel { footnotes: None } },
        children: Seq::empty(),
        attrs: Seq::empty(),
        srcmap: None,
    }
}

/// The footnote map of the document `n`, if it has one.
pub open spec fn footnotes_of(n: NodeModel) -> Option<crate::plugins::pandoc::footnote::FootnoteMapModel> {
    match n.value {
        ValueModel::Root { ext, .. } => ext.footnotes,
        _ => None,
    }
}

/// The document `n` after the core rule named `mark` of the parser `md` ran
/// on it. A name that is no core rule changes nothing.
pub open spec fn rule_applied(md: MarkdownIt, mark: RuleId, n: NodeModel) -> NodeModel {
    match mark {
        RuleId::BlockParser => block_phase(
            BlockCfg { rules: rule_marks(md.block@), max_indent: md.max_indent },
            n,
        ),
        RuleId::InlineParser => inline_phase(
            InlineCfg { rules: rule_marks(md.inline@), pairs: pairs_of(md.ext) },
            n,
        ),
        RuleId::TagFilter => denied_tags_filtered(n),
        RuleId::HeadingAnchors => match md.ext.heading_anchors {
            Some(options) => anchored(n, options@, Set::empty()).0,
            None => n,
        },
        RuleId::FootnoteBackrefs => match footnotes_of(n) {
            Some(m) => with_backrefs(n, m),
            None => n,
        },
        RuleId::FootnoteCollect => match footnotes_of(n) {
            Some(m) => with_footnotes_collected(n, m),
            None => n,
        },
        RuleId::SourcePos => source_positions_noted(n),
        _ => n,
    }
}

/// The document `n` after the core rules named `marks` ran on it, one after
/// the other.
pub open spec fn rules_applied(md: MarkdownIt, marks: Seq<RuleId>, n: NodeModel) -> NodeModel
    decreases marks.len(),
{
    if marks.len() == 0 {
        n
    } else {
        rule_applied(md, marks.last(), rules_applied(md, marks.drop_last(), n))
    }
}

/// The document that the parser `md` makes of the source `src`: its core
/// rules run once each, in their resolved order, on the document that holds
/// the source and nothing else.
pub open spec fn parsed(md: MarkdownIt, src: Seq<char>) -> NodeModel {
    rules_applied(md, rule_marks(md.ruler@), document(src))
}

/// A core rule leaves a document a document.
pub proof fn lemma_rule_keeps_root(md: MarkdownIt, mark: RuleId, n: NodeModel)
    requires
        n.value is Root,
    ensures
        rule_applied(md, mark, n).value is Root,
{
}

impl MarkdownIt {
    /// Whether the parser can parse: the constraints of the rules of each
    /// phase can all be met.
    pub open spec fn ready(self) -> bool {
        acyclic(self.ruler@) && acyclic(self.block@) && acyclic(self.inline@)
    }

    /// Whether the parser can parse.
    pub fn is_ready(&self) -> (r: bool)
        ensures
            r == self.ready(),
    {
        self.ruler.compile().is_ok() && self.block.compile().is_ok() && self.inline.compile().is_ok()
    }

    /// Parses `src` into a document.
    ///
    /// Parsing starts from a document that holds the source, no children,
    /// and an empty extension store: nothing of an earlier parse is left.
    /// The core rules run once each, in their resolved order.
    pub fn parse(&self, src: &str) -> (r: Node)
        requires
            self.ready(),
        ensures
            r@ == parsed(*self, src@),
    {
        let mut root = Node::new(NodeValue::Root(Root::new(src.to_owned())));
        assert(root@ == document(src@));
        let marks = match self.ruler.ordered_marks() {
            Some(marks) => marks,
            None => {
                return root;
            },
        };
        let block = match self.block.ordered_marks() {
            Some(marks) => marks,
            None => {
                return root;
            },
        };
        let inline = match self.inline.ordered_marks() {
            Some(marks) => marks,
            None => {
                return root;
            },
        };
        let mut k: usize = 0;
        assert(marks@.take(0) =~= Seq::<RuleId>::empty());
        while k < marks.len()
            invariant
                k <= marks@.len(),
                block@ == rule_marks(self.block@),
                inline@ == rule_marks(self.inline@),
                root@ == rules_applied(*self, marks@.take(k as int), document(src@)),
                root@.value is Root,
            decreases marks.len() - k,
        {
            let mark = marks[k];
            let ghost before = root@;
            proof {
                lemma_rule_keeps_root(*self, mark, before);
                assert(marks@.take(k + 1).drop_last() =~= marks@.take(k as int));
                assert(marks@.take(k + 1).last() == mark);
            }
            match mark {
                RuleId::BlockParser => {
                    BlockParserRule::run(&mut root, self, &block);
                },
                RuleId::InlineParser => {
                    InlineParserRule::run(&mut root, self, &inline);
                },
                RuleId::TagFilter => {
                    TagFilter::run(&mut root, self);
                },
                RuleId::HeadingAnchors => {
                    if self.ext.heading_anchors.is_some() {
                        AddHeadingAnchors::run(&mut root, self);
                    }
                },
                RuleId::FootnoteBackrefs => {
                    FootnoteBackrefRule::run(&mut root, self);
                },
                RuleId::FootnoteCollect => {
                    FootnoteCollectRule::run(&mut root, self);
                },
                RuleId::SourcePos => {
                    SourcePosRule::run(&mut root, self);
                },
                _ => {},
            }
            k = k + 1;
        }
        assert(marks@.take(k as int) =~= marks@);
        root
    }
}

} // verus!
