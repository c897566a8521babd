//! Disarms the raw HTML tags that may not pass: their `<` becomes `&lt;`.
use vstd::prelude::*;
use regex::Regex;
use crate::parser::engine::{core_rule_added, rule_after, MarkdownIt};
use crate::parser::node::{lemma_model_children, Node, NodeModel, NodeValue, ValueModel};
use crate::parser::ruler::RuleId;

verus! {

/// A compiled regular expression of the `regex` crate.
#[verifier::external_type_specification]
#[verifier::external_body]
pub struct ExRegex(Regex);

/// The error of the `regex` crate for an expression that does not compile.
#[verifier::external_type_specification]
#[verifier::external_body]
pub struct ExRegexError(regex::Error);

/// The expression that `Regex::new` compiles `pattern` to; `None` for a
/// pattern that does not compile.
pub uninterp spec fn compiled(pattern: Seq<char>) -> Option<Regex>;

/// What `Regex::replace_all` makes of `haystack`: each match of `re`, from
/// left to right and without overlap, replaced by `rep`, in which `$1`
/// stands for what the first group matched.
pub uninterp spec fn replaced_all(re: Regex, haystack: Seq<char>, rep: Seq<char>) -> Seq<char>;

/// `Regex::new`: compiles `pattern`. Whether a pattern compiles, and to
/// what, depends on the pattern alone.
#[verifier::external_body]
fn regex_new(pattern: &str) -> (r: Result<Regex, regex::Error>)
    ensures
        match r {
            Ok(re) => compiled(pattern@) == Some(re),
            Err(_) => compiled(pattern@) is None,
        },
{
    Regex::new(pattern)
}

/// `Regex::replace_all` with a replacement given as a string: the result is
/// named, not spelled out.
#[verifier::external_body]
fn regex_replace_all(re: &Regex, haystack: &str, rep: &str) -> (r: String)
    ensures
        r@ == replaced_all(*re, haystack@, rep@),
{
    re.replace_all(haystack, rep).into_owned()
}

/// The tags that may not pass, as a regular expression: `<` and the name of
/// the tag, in upper or lower case.
pub open spec fn denied_tags() -> Seq<char> {
    r#"<(?i)(iframe|noembed|noframes|plaintext|script|title|textarea|xmp)"#@
}

/// What a denied tag is replaced by: `&lt;` and the name as it was written.
pub open spec fn disarmed() -> Seq<char> {
    "&lt;$1"@
}

/// The value `v` with the matches of `re` disarmed in its raw HTML, if it
/// holds any.
pub open spec fn value_filtered(v: ValueModel, re: Regex) -> ValueModel {
    match v {
        ValueModel::HtmlBlock { content } => ValueModel::HtmlBlock {
            content: replaced_all(re, content, disarmed()),
        },
        ValueModel::HtmlInline { content } => ValueModel::HtmlInline {
            content: replaced_all(re, content, disarmed()),
        },
        _ => v,
    }
}

/// The tree `n` with the matches of `re` disarmed in all its raw HTML.
pub open spec fn tags_filtered(n: NodeModel, re: Regex) -> NodeModel
    decreases n,
{
    NodeModel {
        value: value_filtered(n.value, re),
        children: Seq::new(
            n.children.len(),
            |i: int|
                if 0 <= i < n.children.len() {
                    tags_filtered(n.children[i], re)
                } else {
                    arbitrary()
                },
        ),
        attrs: n.attrs,
        srcmap: n.srcmap,
    }
}

/// The tree `n` with the denied tags disarmed in all its raw HTML.
pub open spec fn denied_tags_filtered(n: NodeModel) -> NodeModel {
    match compiled(denied_tags()) {
        Some(re) => tags_filtered(n, re),
        None => n,
    }
}

/// Disarms the matches of `re` in all the raw HTML of the tree `node`:
/// nothing else in the tree changes.
pub fn filter_tags(node: &mut Node, re: &Regex)
    ensures
        (*final(node))@ == tags_filtered((*old(node))@, *re),
    decreases *old(node),
{
    match &mut node.value {
        NodeValue::HtmlBlock(v) => {
            v.content = regex_replace_all(re, v.content.as_str(), "&lt;$1");
        },
        NodeValue::HtmlInline(v) => {
            v.content = regex_replace_all(re, v.content.as_str(), "&lt;$1");
        },
        _ => {},
    }
    let n = node.children.len();
    let mut i: usize = 0;
    while i < n
        invariant
            i <= n,
            n == node.children@.len(),
            n == old(node).children@.len(),
            node.value@ == value_filtered(old(node).value@, *re),
            node.attrs == old(node).attrs,
            node.srcmap == old(node).srcmap,
            forall|j: int|
                0 <= j < i ==> (#[trigger] node.children@[j])@ == tags_filtered(
                    old(node).children@[j]@,
                    *re,
                ),
            forall|j: int| i <= j < n ==> #[trigger] node.children@[j] == old(node).children@[j],
        decreases n - i,
    {
        filter_tags(&mut node.children[i], re);
        i = i + 1;
    }
    proof {
        lemma_model_children(*node);
        lemma_model_children(*old(node));
        let want = tags_filtered((*old(node))@, *re);
        assert((*node)@.children =~= want.children);
    }
}

/// The rule that disarms the tags that may not pass.
pub struct TagFilter;

impl TagFilter {
    /// Disarms the denied tags in all the raw HTML of the document.
    ///
    /// The expression of the denied tags is compiled first. What comes of
    /// the tree with the compiled expression is said by [`filter_tags`];
    /// were the expression not to compile, the tree would stay as it is.
    pub fn run(root: &mut Node, md: &MarkdownIt)
        ensures
            (*final(root))@ == denied_tags_filtered((*old(root))@),
    {
        match regex_new(r#"<(?i)(iframe|noembed|noframes|plaintext|script|title|textarea|xmp)"#) {
            Ok(re) => {
                filter_tags(root, &re);
            },
            Err(_) => {},
        }
    }
}

/// Adds the tag filter to `md`: the rule runs after the inline phase.
pub fn add(md: &mut MarkdownIt)
    ensures
        core_rule_added(*old(md), *final(md), rule_after(RuleId::TagFilter, RuleId::InlineParser)),
        final(md).ext == old(md).ext,
{
    md.add_rule(RuleId::TagFilter).after(RuleId::InlineParser);
    assert(seq![RuleId::InlineParser] =~= Seq::<RuleId>::empty().push(RuleId::InlineParser));
}

} // verus!
