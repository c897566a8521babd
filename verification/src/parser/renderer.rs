//! The HTML renderer.
//!
//! The output is a text that only grows. Each operation is given twice: as a
//! spec function from the output so far to the output after it, and as a
//! method of [`Renderer`] that does just that.
use vstd::prelude::*;
use std::collections::HashMap;
use crate::parser::cache::Cache;
use crate::parser::node::{attrs_model, models_of, Node, NodeModel, NodeValue, ValueModel};
use crate::text::{chars_eq, decimal, push_chars, push_str, string_from_chars, to_chars};

verus! {

/// What stands in HTML for the character `c` of a text.
pub open spec fn escaped_char(c: char) -> Seq<char> {
    if c == '&' {
        "&amp;"@
    } else if c == '<' {
        "&lt;"@
    } else if c == '>' {
        "&gt;"@
    } else if c == '"' {
        "&quot;"@
    } else {
        seq![c]
    }
}

/// What stands in HTML for the text `s`.
pub open spec fn escaped(s: Seq<char>) -> Seq<char>
    decreases s.len(),
{
    if s.len() == 0 {
        Seq::empty()
    } else {
        escaped(s.drop_last()) + escaped_char(s.last())
    }
}

/// One attribute inside a tag: a space, the name, and the escaped value in
/// double quotes.
pub open spec fn attr_html(a: (Seq<char>, Seq<char>)) -> Seq<char> {
    seq![' '] + a.0 + seq!['=', '"'] + escaped(a.1) + seq!['"']
}

/// What stands between the values of the attributes named `name` when they
/// are written as one: a space for classes, a semicolon for styles; `None`
/// for a name whose attributes are written one by one.
pub open spec fn separator(name: Seq<char>) -> Option<char> {
    if name == "class"@ {
        Some(' ')
    } else if name == "style"@ {
        Some(';')
    } else {
        None
    }
}

/// The values of the first `k` attributes that are named `name`, one after
/// the other with `sep` between them.
pub open spec fn joined_values(
    attrs: Seq<(Seq<char>, Seq<char>)>,
    name: Seq<char>,
    sep: char,
    k: int,
) -> Seq<char>
    decreases k,
{
    if k <= 0 || k > attrs.len() {
        Seq::empty()
    } else if attrs[k - 1].0 == name {
        if named_before(attrs, name, k - 1) {
            joined_values(attrs, name, sep, k - 1) + seq![sep] + attrs[k - 1].1
        } else {
            attrs[k - 1].1
        }
    } else {
        joined_values(attrs, name, sep, k - 1)
    }
}

/// Whether one of the first `k` attributes is named `name`.
pub open spec fn named_before(attrs: Seq<(Seq<char>, Seq<char>)>, name: Seq<char>, k: int) -> bool {
    exists|j: int| 0 <= j < k && j < attrs.len() && (#[trigger] attrs[j]).0 == name
}

/// Where no attribute is named `name`, there are no values to join.
proof fn lemma_no_values(attrs: Seq<(Seq<char>, Seq<char>)>, name: Seq<char>, sep: char, k: int)
    requires
        0 <= k <= attrs.len(),
        !named_before(attrs, name, k),
    ensures
        joined_values(attrs, name, sep, k) == Seq::<char>::empty(),
    decreases k,
{
    if k > 0 {
        assert(attrs[k - 1].0 != name);
        assert(!named_before(attrs, name, k - 1)) by {
            if named_before(attrs, name, k - 1) {
                let j = choose|j: int|
                    0 <= j < k - 1 && j < attrs.len() && (#[trigger] attrs[j]).0 == name;
                assert(attrs[j].0 == name);
            }
        }
        lemma_no_values(attrs, name, sep, k - 1);
    }
}

/// What attribute `i` writes inside a tag. The classes of a tag are written
/// as one attribute, where the first of them stands, and so are its styles;
/// any other attribute is written by itself.
pub open spec fn attr_piece(attrs: Seq<(Seq<char>, Seq<char>)>, i: int) -> Seq<char> {
    match separator(attrs[i].0) {
        Some(sep) => if named_before(attrs, attrs[i].0, i) {
            Seq::empty()
        } else {
            attr_html((attrs[i].0, joined_values(attrs, attrs[i].0, sep, attrs.len() as int)))
        },
        None => attr_html(attrs[i]),
    }
}

/// What the first `k` attributes write inside a tag.
pub open spec fn attrs_html_upto(attrs: Seq<(Seq<char>, Seq<char>)>, k: int) -> Seq<char>
    decreases k,
{
    if k <= 0 || k > attrs.len() {
        Seq::empty()
    } else {
        attrs_html_upto(attrs, k - 1) + attr_piece(attrs, k - 1)
    }
}

/// The attributes inside a tag, in the order given.
pub open spec fn attrs_html(attrs: Seq<(Seq<char>, Seq<char>)>) -> Seq<char> {
    attrs_html_upto(attrs, attrs.len() as int)
}

/// The output after an opening tag.
pub open spec fn opened(out: Seq<char>, tag: Seq<char>, attrs: Seq<(Seq<char>, Seq<char>)>) -> Seq<
    char,
> {
    out + seq!['<'] + tag + attrs_html(attrs) + seq!['>']
}

/// The output after a closing tag.
pub open spec fn closed(out: Seq<char>, tag: Seq<char>) -> Seq<char> {
    out + seq!['<', '/'] + tag + seq!['>']
}

/// The output after a tag that has no content and no closing tag.
pub open spec fn self_closed(
    out: Seq<char>,
    tag: Seq<char>,
    attrs: Seq<(Seq<char>, Seq<char>)>,
) -> Seq<char> {
    out + seq!['<'] + tag + attrs_html(attrs) + seq!['>']
}

/// The output after a line break that is made only where the output is not
/// at the start of a line already: asked for twice, it comes once.
pub open spec fn line_started(out: Seq<char>) -> Seq<char> {
    if out.len() == 0 || out.last() == '\n' {
        out
    } else {
        out.push('\n')
    }
}

/// Asking for a line break again changes nothing.
pub proof fn lemma_line_started_once(out: Seq<char>)
    ensures
        line_started(line_started(out)) == line_started(out),
{
}

/// Writes HTML into a buffer.
pub struct Renderer {
    pub result: Vec<char>,
}

impl View for Renderer {
    type V = Seq<char>;

    open spec fn view(&self) -> Seq<char> {
        self.result@
    }
}

impl Renderer {
    /// A renderer that has written nothing.
    pub fn new() -> (r: Renderer)
        ensures
            r@ == Seq::<char>::empty(),
    {
        Renderer { result: Vec::new() }
    }

    /// Writes `text` as it is.
    pub fn text_raw(&mut self, text: &str)
        ensures
            final(self)@ == old(self)@ + text@,
    {
        push_str(&mut self.result, text);
    }

    /// Writes `text`, escaped.
    pub fn text(&mut self, text: &str)
        ensures
            final(self)@ == old(self)@ + escaped(text@),
    {
        for c in it: text.chars()
            invariant
                it.seq() == text@,
                self@ == old(self)@ + escaped(it.seq().take(it.index())),
        {
            let ghost before = self@;
            if c == '&' {
                push_str(&mut self.result, "&amp;");
            } else if c == '<' {
                push_str(&mut self.result, "&lt;");
            } else if c == '>' {
                push_str(&mut self.result, "&gt;");
            } else if c == '"' {
                push_str(&mut self.result, "&quot;");
            } else {
                self.result.push(c);
            }
            proof {
                let s = it.seq().take(it.index() + 1);
                assert(s.drop_last() =~= it.seq().take(it.index()));
                assert(s.last() == c);
                assert(self@ =~= before + escaped_char(c));
                assert(self@ =~= old(self)@ + escaped(s));
            }
        }
        assert(text@.take(text@.len() as int) =~= text@);
    }

    /// Appends the values of the attributes named `name`, with `sep`
    /// between them.
    fn join_values(attrs: &Vec<(&'static str, String)>, name: &Vec<char>, sep: char) -> (r: Vec<
        char,
    >)
        ensures
            r@ == joined_values(attrs_model(attrs@), name@, sep, attrs@.len() as int),
    {
        let ghost all = attrs_model(attrs@);
        let mut r: Vec<char> = Vec::new();
        let mut found = false;
        let mut k: usize = 0;
        while k < attrs.len()
            invariant
                k <= attrs@.len(),
                all == attrs_model(attrs@),
                r@ == joined_values(all, name@, sep, k as int),
                found == named_before(all, name@, k as int),
            decreases attrs.len() - k,
        {
            let this = to_chars(attrs[k].0);
            assert(all[k as int] == (attrs@[k as int].0@, attrs@[k as int].1@));
            let ghost before = r@;
            if chars_eq(&this, name) {
                if found {
                    r.push(sep);
                }
                push_str(&mut r, attrs[k].1.as_str());
                proof {
                    if found {
                        assert(r@ =~= before + seq![sep] + all[k as int].1);
                    } else {
                        lemma_no_values(all, name@, sep, k as int);
                        assert(r@ =~= all[k as int].1);
                    }
                    assert(named_before(all, name@, k + 1));
                }
                found = true;
            } else {
                proof {
                    if named_before(all, name@, k + 1) {
                        let j = choose|j: int|
                            0 <= j < k + 1 && j < all.len() && (#[trigger] all[j]).0 == name@;
                        assert(j < k);
                    }
                }
            }
            k = k + 1;
        }
        r
    }

    /// Writes the attributes of a tag.
    fn make_attrs(&mut self, attrs: &Vec<(&'static str, String)>)
        ensures
            final(self)@ == old(self)@ + attrs_html(attrs_model(attrs@)),
    {
        let ghost all = attrs_model(attrs@);
        let mut i: usize = 0;
        assert(self@ =~= old(self)@ + attrs_html_upto(all, 0));
        while i < attrs.len()
            invariant
                i <= attrs@.len(),
                all == attrs_model(attrs@),
                self@ == old(self)@ + attrs_html_upto(all, i as int),
            decreases attrs.len() - i,
        {
            let ghost before = self@;
            let name = to_chars(attrs[i].0);
            assert(all[i as int] == (attrs@[i as int].0@, attrs@[i as int].1@));
            let sep = if chars_eq(&name, &to_chars("class")) {
                Some(' ')
            } else if chars_eq(&name, &to_chars("style")) {
                Some(';')
            } else {
                None
            };
            assert(sep == separator(all[i as int].0));
            match sep {
                Some(sep) => {
                    // whether an attribute of this name stands before
                    let mut seen = false;
                    let mut j: usize = 0;
                    while j < i
                        invariant
                            j <= i <= attrs@.len(),
                            all == attrs_model(attrs@),
                            name@ == all[i as int].0,
                            seen == named_before(all, name@, j as int),
                        decreases i - j,
                    {
                        let other = to_chars(attrs[j].0);
                        assert(all[j as int] == (attrs@[j as int].0@, attrs@[j as int].1@));
                        if chars_eq(&other, &name) {
                            seen = true;
                        } else {
                            proof {
                                if named_before(all, name@, j + 1) {
                                    let w = choose|w: int|
                                        0 <= w < j + 1 && w < all.len() && (#[trigger] all[w]).0
                                            == name@;
                                    assert(w < j);
                                }
                            }
                        }
                        j = j + 1;
                    }
                    if !seen {
                        let value = Self::join_values(attrs, &name, sep);
                        self.result.push(' ');
                        push_chars(&mut self.result, &name);
                        self.result.push('=');
                        self.result.push('"');
                        self.text(string_from_chars(value).as_str());
                        self.result.push('"');
                    }
                },
                None => {
                    self.result.push(' ');
                    push_chars(&mut self.result, &name);
                    self.result.push('=');
                    self.result.push('"');
                    self.text(attrs[i].1.as_str());
                    self.result.push('"');
                },
            }
            proof {
                assert(self@ =~= before + attr_piece(all, i as int));
                assert(self@ =~= old(self)@ + attrs_html_upto(all, i + 1));
            }
            i = i + 1;
        }
    }

    /// Writes an opening tag.
    pub fn open(&mut self, tag: &str, attrs: &Vec<(&'static str, String)>)
        ensures
            final(self)@ == opened(old(self)@, tag@, attrs_model(attrs@)),
    {
        self.result.push('<');
        push_str(&mut self.result, tag);
        self.make_attrs(attrs);
        self.result.push('>');
        assert(self@ =~= opened(old(self)@, tag@, attrs_model(attrs@)));
    }

    /// Writes a closing tag.
    pub fn close(&mut self, tag: &str)
        ensures
            final(self)@ == closed(old(self)@, tag@),
    {
        self.result.push('<');
        self.result.push('/');
        push_str(&mut self.result, tag);
        self.result.push('>');
        assert(self@ =~= closed(old(self)@, tag@));
    }

    /// Writes a tag that has no content and no closing tag.
    pub fn self_close(&mut self, tag: &str, attrs: &Vec<(&'static str, String)>)
        ensures
            final(self)@ == self_closed(old(self)@, tag@, attrs_model(attrs@)),
    {
        self.result.push('<');
        push_str(&mut self.result, tag);
        self.make_attrs(attrs);
        self.result.push('>');
        assert(self@ =~= self_closed(old(self)@, tag@, attrs_model(attrs@)));
    }

    /// Breaks the line, unless the output is at the start of a line.
    pub fn cr(&mut self)
        ensures
            final(self)@ == line_started(old(self)@),
    {
        let n = self.result.len();
        if n > 0 && self.result[n - 1] != '\n' {
            self.result.push('\n');
        }
    }

    /// What was written, as a string.
    pub fn finish(self) -> (r: String)
        ensures
            r@ == self@,
    {
        crate::text::string_from_chars(self.result)
    }
}

/// The name of the tag of a heading of level `level`.
pub open spec fn heading_tag(level: u8) -> Seq<char> {
    seq!['h'] + decimal(level as nat)
}

/// The attributes that a link renders with, after the node's own.
pub open spec fn link_attrs(url: Seq<char>, title: Option<Seq<char>>) -> Seq<(Seq<char>, Seq<char>)> {
    match title {
        Some(t) => seq![("href"@, url), ("title"@, t)],
        None => seq![("href"@, url)],
    }
}

/// The attributes that a heading anchor renders with, after the node's own.
pub open spec fn anchor_attrs(href: Seq<char>, id: Option<Seq<char>>) -> Seq<(Seq<char>, Seq<char>)> {
    match id {
        Some(i) => seq![("id"@, i), ("href"@, seq!['#'] + href)],
        None => seq![("href"@, seq!['#'] + href)],
    }
}

/// The attributes that a footnote definition renders with, after the node's
/// own.
pub open spec fn definition_attrs(def_id: Option<usize>) -> Seq<(Seq<char>, Seq<char>)> {
    match def_id {
        Some(d) => seq![("id"@, "fn"@ + decimal(d as nat)), ("class"@, "footnote-item"@)],
        None => seq![("class"@, "footnote-item"@)],
    }
}

/// The output after a footnote reference: the definition's id in square
/// brackets, as a superscript link to the definition.
pub open spec fn reference_html(
    out: Seq<char>,
    attrs: Seq<(Seq<char>, Seq<char>)>,
    ref_id: usize,
    def_id: usize,
) -> Seq<char> {
    let a = opened(out, "sup"@, attrs.push(("class"@, "footnote-ref"@)));
    let b = opened(
        a,
        "a"@,
        seq![
            ("href"@, "#fn"@ + decimal(def_id as nat)),
            ("id"@, "fnref"@ + decimal(ref_id as nat)),
        ],
    );
    let c = b + escaped(seq!['['] + decimal(def_id as nat) + seq![']']);
    closed(closed(c, "a"@), "sup"@)
}

/// The output after one link from a definition back to reference `ref_id`.
pub open spec fn backref_html(out: Seq<char>, ref_id: usize) -> Seq<char> {
    let a = out + escaped(" "@);
    let b = opened(
        a,
        "a"@,
        seq![
            ("href"@, "#fnref"@ + decimal(ref_id as nat)),
            ("class"@, "footnote-backref"@),
        ],
    );
    closed(b + escaped("\u{21a9}\u{FE0E}"@), "a"@)
}

/// The output after the links back to the references `ref_ids`, in order.
pub open spec fn backrefs_html(out: Seq<char>, ref_ids: Seq<usize>) -> Seq<char>
    decreases ref_ids.len(),
{
    if ref_ids.len() == 0 {
        out
    } else {
        backref_html(backrefs_html(out, ref_ids.drop_last()), ref_ids.last())
    }
}

/// The output after the head of the footnotes section: a rule, then the
/// opening of the section and of its list.
pub open spec fn container_head(out: Seq<char>, attrs: Seq<(Seq<char>, Seq<char>)>) -> Seq<char> {
    let a = line_started(self_closed(line_started(out), "hr"@, seq![("class"@, "footnotes-sep"@)]));
    let b = line_started(opened(a, "section"@, attrs.push(("class"@, "footnotes"@))));
    line_started(opened(b, "ol"@, seq![("class"@, "footnotes-list"@)]))
}

/// The output after the foot of the footnotes section.
pub open spec fn container_foot(out: Seq<char>) -> Seq<char> {
    line_started(closed(line_started(closed(line_started(out), "ol"@)), "section"@))
}

/// The output after what a node writes before its children.
pub open spec fn before_children(out: Seq<char>, n: NodeModel) -> Seq<char> {
    match n.value {
        ValueModel::Root { .. } => out,
        ValueModel::Paragraph => opened(line_started(out), "p"@, n.attrs),
        ValueModel::ATXHeading { level } => opened(line_started(out), heading_tag(level), n.attrs),
        ValueModel::SetextHeader { level, .. } => opened(
            line_started(out),
            heading_tag(level),
            n.attrs,
        ),
        ValueModel::Text { content } => out + escaped(content),
        ValueModel::InlineRoot { content } => out + escaped(content),
        ValueModel::HtmlBlock { content } => line_started(line_started(out) + content),
        ValueModel::HtmlInline { content } => out + content,
        ValueModel::Em { .. } => opened(out, "em"@, n.attrs),
        ValueModel::Strong { .. } => opened(out, "strong"@, n.attrs),
        ValueModel::Strikethrough { .. } => opened(out, "s"@, n.attrs),
        ValueModel::CodeInline { .. } => opened(out, "code"@, n.attrs),
        ValueModel::Link { url, title } => opened(out, "a"@, n.attrs + link_attrs(url, title)),
        ValueModel::HeadingAnchor { href, id } => opened(
            out,
            "a"@,
            n.attrs + anchor_attrs(href, id),
        ),
        ValueModel::FootnoteDefinition { def_id, .. } => opened(
            line_started(out),
            "li"@,
            n.attrs + definition_attrs(def_id),
        ),
        ValueModel::FootnoteReference { ref_id, def_id, .. } => reference_html(
            out,
            n.attrs,
            ref_id,
            def_id,
        ),
        ValueModel::FootnoteRefAnchor { ref_ids } => backrefs_html(out, ref_ids),
        ValueModel::FootnotesContainerNode => container_head(out, n.attrs),
    }
}

/// Whether a node of this value writes its children.
pub open spec fn shows_children(v: ValueModel) -> bool {
    match v {
        ValueModel::Text { .. } => false,
        ValueModel::InlineRoot { .. } => false,
        ValueModel::HtmlBlock { .. } => false,
        ValueModel::HtmlInline { .. } => false,
        ValueModel::FootnoteReference { .. } => false,
        ValueModel::FootnoteRefAnchor { .. } => false,
        _ => true,
    }
}

/// The output after what a node writes after its children.
pub open spec fn after_children(out: Seq<char>, v: ValueModel) -> Seq<char> {
    match v {
        ValueModel::Paragraph => line_started(closed(out, "p"@)),
        ValueModel::ATXHeading { level } => line_started(closed(out, heading_tag(level))),
        ValueModel::SetextHeader { level, .. } => line_started(closed(out, heading_tag(level))),
        ValueModel::Em { .. } => closed(out, "em"@),
        ValueModel::Strong { .. } => closed(out, "strong"@),
        ValueModel::Strikethrough { .. } => closed(out, "s"@),
        ValueModel::CodeInline { .. } => closed(out, "code"@),
        ValueModel::Link { .. } => closed(out, "a"@),
        ValueModel::HeadingAnchor { .. } => closed(out, "a"@),
        ValueModel::FootnoteDefinition { .. } => line_started(closed(out, "li"@)),
        ValueModel::FootnotesContainerNode => container_foot(out),
        _ => out,
    }
}

/// The output after the tree `n` was rendered onto `out`: what the node
/// writes before its children, its children in order, and what it writes
/// after them.
pub open spec fn render_onto(out: Seq<char>, n: NodeModel) -> Seq<char>
    decreases n,
{
    let a = before_children(out, n);
    let b = if shows_children(n.value) {
        render_all(a, n.children)
    } else {
        a
    };
    after_children(b, n.value)
}

/// The output after the trees of `s` were rendered onto `out`, in order.
pub open spec fn render_all(out: Seq<char>, s: Seq<NodeModel>) -> Seq<char>
    decreases s,
{
    if s.len() == 0 {
        out
    } else {
        render_onto(render_all(out, s.drop_last()), s.last())
    }
}

/// The HTML of the tree `n`.
pub open spec fn html_of(n: NodeModel) -> Seq<char> {
    render_onto(Seq::empty(), n)
}

/// Equal trees render to equal output: the output depends on nothing but the
/// tree, so rendering a tree twice gives the same text both times.
pub proof fn lemma_render_deterministic(a: NodeModel, b: NodeModel)
    requires
        a == b,
    ensures
        html_of(a) == html_of(b),
{
}

/// A copy of a list of attributes.
pub fn clone_attrs(attrs: &Vec<(&'static str, String)>) -> (r: Vec<(&'static str, String)>)
    ensures
        r@ == attrs@,
{
    let mut r: Vec<(&'static str, String)> = Vec::new();
    let mut i: usize = 0;
    while i < attrs.len()
        invariant
            i <= attrs@.len(),
            r@ == attrs@.take(i as int),
        decreases attrs.len() - i,
    {
        r.push((attrs[i].0, attrs[i].1.clone()));
        i = i + 1;
        assert(r@ =~= attrs@.take(i as int));
    }
    assert(attrs@.take(i as int) =~= attrs@);
    r
}

/// The model of a list of attributes with one more at its end.
pub proof fn lemma_attrs_push(attrs: Seq<(&'static str, String)>, a: (&'static str, String))
    ensures
        attrs_model(attrs.push(a)) == attrs_model(attrs).push((a.0@, a.1@)),
{
    assert(attrs_model(attrs.push(a)) =~= attrs_model(attrs).push((a.0@, a.1@)));
}

impl Renderer {
    /// Renders `children`, in order.
    pub fn contents(
        &mut self,
        children: &Vec<Node>,
        options: &HashMap<String, String>,
        cache: &mut Cache,
    )
        ensures
            final(self)@ == render_all(old(self)@, models_of(children@)),
            *final(cache) == *old(cache),
        decreases *children, 0nat,
    {
        let ghost all = models_of(children@);
        let mut i: usize = 0;
        while i < children.len()
            invariant
                i <= children@.len(),
                all == models_of(children@),
                self@ == render_all(old(self)@, all.take(i as int)),
                *cache == *old(cache),
            decreases children.len() - i,
        {
            children[i].render_onto(self, options, cache);
            proof {
                let s = all.take(i + 1);
                assert(s.drop_last() =~= all.take(i as int));
                assert(s.last() == children@[i as int]@);
            }
            i = i + 1;
        }
        assert(all.take(i as int) =~= all);
    }
}

impl Node {
    /// Renders the tree onto what `fmt` has written.
    pub fn render_onto(
        &self,
        fmt: &mut Renderer,
        options: &HashMap<String, String>,
        cache: &mut Cache,
    )
        ensures
            final(fmt)@ == render_onto(old(fmt)@, self@),
            *final(cache) == *old(cache),
        decreases *self, 1nat,
    {
        match &self.value {
            NodeValue::Root(v) => v.render(self, fmt, options, cache),
            NodeValue::Paragraph(v) => v.render(self, fmt, options, cache),
            NodeValue::ATXHeading(v) => v.render(self, fmt, options, cache),
            NodeValue::SetextHeader(v) => v.render(self, fmt, options, cache),
            NodeValue::Text(v) => v.render(self, fmt, options, cache),
            NodeValue::InlineRoot(v) => v.render(self, fmt, options, cache),
            NodeValue::HtmlBlock(v) => v.render(self, fmt, options, cache),
            NodeValue::HtmlInline(v) => v.render(self, fmt, options, cache),
            NodeValue::Em(v) => v.render(self, fmt, options, cache),
            NodeValue::Strong(v) => v.render(self, fmt, options, cache),
            NodeValue::Strikethrough(v) => v.render(self, fmt, options, cache),
            NodeValue::CodeInline(v) => v.render(self, fmt, options, cache),
            NodeValue::Link(v) => v.render(self, fmt, options, cache),
            NodeValue::HeadingAnchor(v) => v.render(self, fmt, options, cache),
            NodeValue::FootnoteDefinition(v) => v.render(self, fmt, options, cache),
            NodeValue::FootnoteReference(v) => v.render(self, fmt, options, cache),
            NodeValue::FootnoteRefAnchor(v) => v.render(self, fmt, options, cache),
            NodeValue::FootnotesContainerNode(v) => v.render(self, fmt, options, cache),
        }
    }

    /// The HTML of the tree.
    pub fn render(&self, options: &HashMap<String, String>, cache: &mut Cache) -> (r: String)
        ensures
            r@ == html_of(self@),
            *final(cache) == *old(cache),
    {
        let mut fmt = Renderer::new();
        self.render_onto(&mut fmt, options, cache);
        fmt.finish()
    }
}

} // verus!
