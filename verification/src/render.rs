//! Rendering a tree as text: compact on one line, or pretty-printed.

use vstd::prelude::*;
use crate::chars::{append_chars, append_str, chars_of, string_of};
use crate::element::{element_views, lemma_view_contents, AttrView, ElementView, XMLElement};
use crate::text::{
    char_data, char_data_into, indent_block, indent_into, is_padding, lemma_unpadded_concat,
    lemma_unpadded_indent_block, lemma_unpadded_of_padding, lemma_unpadded_of_plain, unpadded,
};

verus! {

/// The attributes as they stand in an opening tag: each as a space, its
/// name, `="`, its value as it is, and `"`.
pub open spec fn attr_markup(attrs: Seq<AttrView>) -> Seq<char>
    decreases attrs.len(),
{
    if attrs.len() == 0 {
        Seq::empty()
    } else {
        let a = attrs.last();
        attr_markup(attrs.drop_last()) + seq![' '] + a.name + seq!['=', '"'] + a.value + seq!['"']
    }
}

/// The attributes without a value as they stand in an opening tag: each as a
/// space and its token.
pub open spec fn empty_attr_markup(tokens: Seq<Seq<char>>) -> Seq<char>
    decreases tokens.len(),
{
    if tokens.len() == 0 {
        Seq::empty()
    } else {
        empty_attr_markup(tokens.drop_last()) + seq![' '] + tokens.last()
    }
}

/// `Some(items)` as `items`, `None` as no items.
pub open spec fn items<A>(s: Option<Seq<A>>) -> Seq<A> {
    match s {
        Some(items) => items,
        None => Seq::empty(),
    }
}

/// `<?xml version="1.0" encoding="UTF-8"?>`
pub open spec fn prolog() -> Seq<char> {
    seq![
        '<', '?', 'x', 'm', 'l', ' ', 'v', 'e', 'r', 's', 'i', 'o', 'n', '=', '"', '1', '.', '0',
        '"', ' ', 'e', 'n', 'c', 'o', 'd', 'i', 'n', 'g', '=', '"', 'U', 'T', 'F', '-', '8', '"',
        '?', '>',
    ]
}

impl ElementView {
    /// The opening tag up to, but without, the `>` or `/>` that ends it.
    pub open spec fn tag_start(self) -> Seq<char> {
        seq!['<'] + self.name + attr_markup(items(self.attrs)) + empty_attr_markup(
            items(self.empty_attrs),
        )
    }

    /// `</name>`
    pub open spec fn tag_end(self) -> Seq<char> {
        seq!['<', '/'] + self.name + seq!['>']
    }

    /// An element without children and without text renders as one tag,
    /// closed in itself.
    pub open spec fn is_self_closing(self) -> bool {
        self.contents is None && self.text is None
    }

    /// The rendered text of the element, if it has text.
    pub open spec fn rendered_text(self) -> Seq<char> {
        match self.text {
            Some(t) => char_data(t),
            None => Seq::empty(),
        }
    }

    /// The compact rendering of the first `n` children, one behind the other.
    pub open spec fn render_children(self, n: nat) -> Seq<char>
        decreases self, 0nat, n,
    {
        if n == 0 || n > items(self.contents).len() {
            Seq::empty()
        } else {
            self.render_children((n - 1) as nat) + items(self.contents)[n - 1].render()
        }
    }

    /// The compact rendering: the opening tag with the attributes, then
    /// either `/>`, or `>`, the children in their order, the text, and the
    /// closing tag.
    pub open spec fn render(self) -> Seq<char>
        decreases self, 1nat, 0nat,
    {
        if self.is_self_closing() {
            self.tag_start() + seq!['/', '>']
        } else {
            self.tag_start() + seq!['>'] + self.render_children(items(self.contents).len())
                + self.rendered_text() + self.tag_end()
        }
    }

    /// The pretty rendering of the first `n` children, each with `newline`
    /// behind it.
    pub open spec fn render_children_pretty(
        self,
        n: nat,
        newline: Seq<char>,
        indent: Seq<char>,
    ) -> Seq<char>
        decreases self, 0nat, n,
    {
        if n == 0 || n > items(self.contents).len() {
            Seq::empty()
        } else {
            self.render_children_pretty((n - 1) as nat, newline, indent) + items(
                self.contents,
            )[n - 1].render_pretty(newline, indent) + newline
        }
    }

    /// What stands between the tags of a pretty-printed element before it is
    /// indented: the pretty rendering of each child with `newline` behind it,
    /// then the text.
    pub open spec fn pretty_body(self, newline: Seq<char>, indent: Seq<char>) -> Seq<char>
        decreases self, 1nat, 0nat,
    {
        self.render_children_pretty(items(self.contents).len(), newline, indent)
            + self.rendered_text()
    }

    /// The pretty rendering. An element without children and text renders as
    /// in the compact form. Otherwise every line of its body stands on a line
    /// of its own, one indent unit deeper than the element, between the
    /// opening tag and, on a last line, the closing tag. The body of a child
    /// was indented when the child was rendered and is indented once more
    /// here, so that depth adds up.
    pub open spec fn render_pretty(self, newline: Seq<char>, indent: Seq<char>) -> Seq<char>
        decreases self, 2nat, 0nat,
    {
        if self.is_self_closing() {
            self.tag_start() + seq!['/', '>']
        } else {
            self.tag_start() + seq!['>'] + indent_block(
                self.pretty_body(newline, indent),
                newline,
                indent,
            ) + newline + self.tag_end()
        }
    }
}

/// An element that has a name and nothing else renders, in both forms, as
/// `<name/>`.
pub proof fn lemma_bare_element_is_self_closed(
    e: ElementView,
    newline: Seq<char>,
    indent: Seq<char>,
)
    requires
        e.attrs is None,
        e.empty_attrs is None,
        e.contents is None,
        e.text is None,
    ensures
        e.render() == seq!['<'] + e.name + seq!['/', '>'],
        e.render_pretty(newline, indent) == e.render(),
{
    assert(e.tag_start() =~= seq!['<'] + e.name);
}

/// An attribute renders directly behind the attributes that were added
/// before it.
pub proof fn lemma_added_attr_renders_last(e: ElementView, attr: AttrView)
    ensures
        attr_markup(items(e.with_attr(attr).attrs)) == attr_markup(items(e.attrs)) + seq![' ']
            + attr.name + seq!['=', '"'] + attr.value + seq!['"'],
{
    let after = items(e.with_attr(attr).attrs);
    assert(after.drop_last() =~= items(e.attrs));
    assert(after.last() == attr);
}

/// An attribute without a value renders directly behind those that were
/// added before it.
pub proof fn lemma_added_empty_attr_renders_last(e: ElementView, token: Seq<char>)
    ensures
        empty_attr_markup(items(e.with_empty_attr(token).empty_attrs)) == empty_attr_markup(
            items(e.empty_attrs),
        ) + seq![' '] + token,
{
    let after = items(e.with_empty_attr(token).empty_attrs);
    assert(after.drop_last() =~= items(e.empty_attrs));
    assert(after.last() == token);
}

/// Two elements with the same first `n` children render them alike.
proof fn lemma_render_children_agree(
    a: ElementView,
    b: ElementView,
    n: nat,
    newline: Seq<char>,
    indent: Seq<char>,
)
    requires
        n <= items(a.contents).len(),
        n <= items(b.contents).len(),
        forall|i: int| 0 <= i < n ==> items(a.contents)[i] == items(b.contents)[i],
    ensures
        a.render_children(n) == b.render_children(n),
        a.render_children_pretty(n, newline, indent) == b.render_children_pretty(
            n,
            newline,
            indent,
        ),
    decreases n,
{
    if n > 0 {
        lemma_render_children_agree(a, b, (n - 1) as nat, newline, indent);
    }
}

/// A child renders directly behind the children that were added before it,
/// in the compact form and in the pretty form.
pub proof fn lemma_added_element_renders_last(
    e: ElementView,
    child: ElementView,
    newline: Seq<char>,
    indent: Seq<char>,
)
    ensures
        ({
            let n = items(e.contents).len();
            let grown = e.with_element(child);
            &&& items(grown.contents).len() == n + 1
            &&& grown.render_children(n + 1) == e.render_children(n) + child.render()
            &&& grown.render_children_pretty(n + 1, newline, indent) == e.render_children_pretty(
                n,
                newline,
                indent,
            ) + child.render_pretty(newline, indent) + newline
            &&& grown.render() == e.tag_start() + seq!['>'] + e.render_children(n)
                + child.render() + e.rendered_text() + e.tag_end()
        }),
{
    let n = items(e.contents).len();
    let grown = e.with_element(child);
    assert(items(grown.contents) =~= items(e.contents).push(child));
    lemma_render_children_agree(e, grown, n, newline, indent);
    assert(grown.tag_start() == e.tag_start());
}

/// The pretty rendering and the compact rendering of the first `n` children
/// are the same text but for padding.
proof fn lemma_children_pretty_is_compact_modulo_padding(
    e: ElementView,
    n: nat,
    newline: Seq<char>,
    indent: Seq<char>,
)
    ensures
        unpadded(e.render_children_pretty(n, newline, indent), newline, indent) == unpadded(
            e.render_children(n),
            newline,
            indent,
        ),
    decreases e, 0nat, n,
{
    if n == 0 || n > items(e.contents).len() {
    } else {
        let child = items(e.contents)[n - 1];
        let before_pretty = e.render_children_pretty((n - 1) as nat, newline, indent);
        let before = e.render_children((n - 1) as nat);
        lemma_children_pretty_is_compact_modulo_padding(e, (n - 1) as nat, newline, indent);
        lemma_pretty_is_compact_modulo_padding(child, newline, indent);
        lemma_newline_is_padding(newline, indent);
        lemma_unpadded_concat(
            before_pretty + child.render_pretty(newline, indent),
            newline,
            newline,
            indent,
        );
        lemma_unpadded_concat(before_pretty, child.render_pretty(newline, indent), newline, indent);
        lemma_unpadded_concat(before, child.render(), newline, indent);
        assert(unpadded(e.render_children_pretty(n, newline, indent), newline, indent) =~= unpadded(
            e.render_children(n),
            newline,
            indent,
        ));
    }
}

/// Nothing is left of `newline` once padding is taken out.
proof fn lemma_newline_is_padding(newline: Seq<char>, indent: Seq<char>)
    ensures
        unpadded(newline, newline, indent) == Seq::<char>::empty(),
{
    assert forall|i: int| 0 <= i < newline.len() implies is_padding(
        #[trigger] newline[i],
        newline,
        indent,
    ) by {
        assert(newline.contains(newline[i]));
    }
    lemma_unpadded_of_padding(newline, newline, indent);
}

/// Pretty printing only adds padding: with the padding characters taken out
/// of both, the pretty rendering and the compact rendering of an element are
/// the same text. Padding characters are those of `newline` and `indent`,
/// the line feed and the carriage return.
pub proof fn lemma_pretty_is_compact_modulo_padding(
    e: ElementView,
    newline: Seq<char>,
    indent: Seq<char>,
)
    ensures
        unpadded(e.render_pretty(newline, indent), newline, indent) == unpadded(
            e.render(),
            newline,
            indent,
        ),
    decreases e, 1nat, 0nat,
{
    if !e.is_self_closing() {
        let n = items(e.contents).len();
        let head = e.tag_start() + seq!['>'];
        let children_pretty = e.render_children_pretty(n, newline, indent);
        let children = e.render_children(n);
        let text = e.rendered_text();
        let body = e.pretty_body(newline, indent);
        let block = indent_block(body, newline, indent);
        lemma_children_pretty_is_compact_modulo_padding(e, n, newline, indent);
        lemma_newline_is_padding(newline, indent);
        lemma_unpadded_indent_block(body, newline, indent);
        // the pretty rendering, piece by piece
        lemma_unpadded_concat(head + block + newline, e.tag_end(), newline, indent);
        lemma_unpadded_concat(head + block, newline, newline, indent);
        lemma_unpadded_concat(head, block, newline, indent);
        lemma_unpadded_concat(children_pretty, text, newline, indent);
        // the compact rendering, piece by piece
        lemma_unpadded_concat(head + children + text, e.tag_end(), newline, indent);
        lemma_unpadded_concat(head + children, text, newline, indent);
        lemma_unpadded_concat(head, children, newline, indent);
        assert(unpadded(e.render_pretty(newline, indent), newline, indent) =~= unpadded(
            e.render(),
            newline,
            indent,
        ));
    }
}

/// Where the compact rendering of an element holds no padding character,
/// taking the padding out of the pretty rendering gives the compact rendering
/// itself.
pub proof fn lemma_unpadded_pretty_is_compact(
    e: ElementView,
    newline: Seq<char>,
    indent: Seq<char>,
)
    requires
        forall|i: int|
            0 <= i < e.render().len() ==> !is_padding(#[trigger] e.render()[i], newline, indent),
    ensures
        unpadded(e.render_pretty(newline, indent), newline, indent) == e.render(),
{
    lemma_pretty_is_compact_modulo_padding(e, newline, indent);
    lemma_unpadded_of_plain(e.render(), newline, indent);
}

impl XMLElement {
    /// Appends the opening tag, without the `>` or `/>` that ends it.
    fn tag_start_into(&self, out: &mut Vec<char>)
        ensures
            final(out)@ == old(out)@ + self@.tag_start(),
    {
        out.push('<');
        append_str(out, self.name.as_str());
        let ghost named = out@;
        assert(named =~= old(out)@ + (seq!['<'] + self@.name));
        if let Some(attrs) = &self.attrs {
            let ghost all = self@.attrs->0;
            let mut i: usize = 0;
            assert(attr_markup(all.take(0)) =~= Seq::<char>::empty());
            while i < attrs.len()
                invariant
                    i <= attrs.len(),
                    all.len() == attrs.len(),
                    forall|j: int| 0 <= j < all.len() ==> all[j] == attrs@[j]@,
                    out@ == named + attr_markup(all.take(i as int)),
                decreases attrs.len() - i,
            {
                let a = &attrs[i];
                let ghost before = out@;
                out.push(' ');
                append_str(out, a.name.as_str());
                out.push('=');
                out.push('"');
                append_str(out, a.value.as_str());
                out.push('"');
                i += 1;
                proof {
                    let done = all.take(i as int);
                    assert(done.drop_last() =~= all.take(i - 1));
                    assert(done.last() == a@);
                    assert(out@ =~= before + seq![' '] + a@.name + seq!['=', '"'] + a@.value
                        + seq!['"']);
                }
            }
            assert(all.take(all.len() as int) =~= all);
        }
        let ghost valued = out@;
        assert(valued == named + attr_markup(items(self@.attrs)));
        if let Some(tokens) = &self.empty_attrs {
            let ghost all = self@.empty_attrs->0;
            let mut i: usize = 0;
            assert(empty_attr_markup(all.take(0)) =~= Seq::<char>::empty());
            while i < tokens.len()
                invariant
                    i <= tokens.len(),
                    all.len() == tokens.len(),
                    forall|j: int| 0 <= j < all.len() ==> all[j] == tokens@[j]@,
                    out@ == valued + empty_attr_markup(all.take(i as int)),
                decreases tokens.len() - i,
            {
                let ghost before = out@;
                out.push(' ');
                append_str(out, tokens[i].as_str());
                i += 1;
                proof {
                    let done = all.take(i as int);
                    assert(done.drop_last() =~= all.take(i - 1));
                    assert(done.last() == tokens@[i - 1]@);
                    assert(out@ =~= before + seq![' '] + tokens@[i - 1]@);
                }
            }
            assert(all.take(all.len() as int) =~= all);
        }
        assert(out@ == valued + empty_attr_markup(items(self@.empty_attrs)));
        assert(out@ =~= old(out)@ + self@.tag_start());
    }

    /// Appends the closing tag.
    fn tag_end_into(&self, out: &mut Vec<char>)
        ensures
            final(out)@ == old(out)@ + self@.tag_end(),
    {
        out.push('<');
        out.push('/');
        append_str(out, self.name.as_str());
        out.push('>');
        assert(out@ =~= old(out)@ + self@.tag_end());
    }

    /// Appends the rendered text of the element, if it has text.
    fn text_into(&self, out: &mut Vec<char>)
        ensures
            final(out)@ == old(out)@ + self@.rendered_text(),
    {
        match &self.text {
            Some(text) => {
                char_data_into(out, text.as_str());
            },
            None => {
                assert(out@ =~= old(out)@ + self@.rendered_text());
            },
        }
    }

    /// Appends the compact rendering of the element.
    fn render_into(&self, out: &mut Vec<char>)
        ensures
            final(out)@ == old(out)@ + self@.render(),
        decreases self,
    {
        self.tag_start_into(out);
        if self.contents.is_none() && self.text.is_none() {
            out.push('/');
            out.push('>');
            assert(out@ =~= old(out)@ + self@.render());
        } else {
            out.push('>');
            let ghost opened = out@;
            proof {
                lemma_view_contents(*self);
                assert(self@.render_children(0) =~= Seq::<char>::empty());
            }
            if let Some(contents) = &self.contents {
                let mut i: usize = 0;
                while i < contents.len()
                    invariant
                        i <= contents.len(),
                        self.contents == Some(*contents),
                        self@.contents == Some(element_views(contents@)),
                        out@ == opened + self@.render_children(i as nat),
                    decreases contents.len() - i,
                {
                    proof {
                        assert(self.contents->0 == *contents);
                        assert(decreases_to!(self.contents => self.contents->0));
                        vstd::std_specs::vec::axiom_vec_index_decreases(*contents, i as int);
                    }
                    contents[i].render_into(out);
                    i += 1;
                    assert(out@ =~= opened + self@.render_children(i as nat));
                }
            }
            assert(out@ == opened + self@.render_children(items(self@.contents).len()));
            self.text_into(out);
            self.tag_end_into(out);
            assert(out@ =~= old(out)@ + self@.render());
        }
    }

    /// The compact rendering of the element: one line, no padding.
    pub fn to_string(&self) -> (r: String)
        ensures
            r@ == self@.render(),
    {
        let mut out: Vec<char> = Vec::new();
        self.render_into(&mut out);
        string_of(&out)
    }

    /// The pretty rendering of the element, as characters.
    fn pretty_chars(&self, newline: &Vec<char>, indent: &Vec<char>) -> (r: Vec<char>)
        ensures
            r@ == self@.render_pretty(newline@, indent@),
        decreases self,
    {
        let mut ret: Vec<char> = Vec::new();
        self.tag_start_into(&mut ret);
        if self.contents.is_none() && self.text.is_none() {
            ret.push('/');
            ret.push('>');
            assert(ret@ =~= self@.render_pretty(newline@, indent@));
        } else {
            ret.push('>');
            let mut body: Vec<char> = Vec::new();
            proof {
                lemma_view_contents(*self);
                assert(self@.render_children_pretty(0, newline@, indent@) =~= Seq::<char>::empty());
            }
            if let Some(contents) = &self.contents {
                let mut i: usize = 0;
                while i < contents.len()
                    invariant
                        i <= contents.len(),
                        self.contents == Some(*contents),
                        self@.contents == Some(element_views(contents@)),
                        body@ == self@.render_children_pretty(i as nat, newline@, indent@),
                    decreases contents.len() - i,
                {
                    proof {
                        assert(self.contents->0 == *contents);
                        assert(decreases_to!(self.contents => self.contents->0));
                        vstd::std_specs::vec::axiom_vec_index_decreases(*contents, i as int);
                    }
                    let block = contents[i].pretty_chars(newline, indent);
                    append_chars(&mut body, &block);
                    append_chars(&mut body, newline);
                    i += 1;
                }
            }
            assert(body@ == self@.render_children_pretty(
                items(self@.contents).len(),
                newline@,
                indent@,
            ));
            self.text_into(&mut body);
            assert(body@ == self@.pretty_body(newline@, indent@));
            indent_into(&mut ret, &body, newline, indent);
            append_chars(&mut ret, newline);
            self.tag_end_into(&mut ret);
            assert(ret@ =~= self@.render_pretty(newline@, indent@));
        }
        ret
    }

    /// The pretty rendering of the element: every nested element and the
    /// text on a line of its own, behind `newline` and one `indent` for each
    /// level of depth.
    pub fn to_string_pretty(&self, newline: &str, indent: &str) -> (r: String)
        ensures
            r@ == self@.render_pretty(newline@, indent@),
    {
        let newline_chars = chars_of(newline);
        let indent_chars = chars_of(indent);
        let out = self.pretty_chars(&newline_chars, &indent_chars);
        string_of(&out)
    }

    /// The pretty rendering of the element behind a line that holds the XML
    /// prolog.
    pub fn to_string_pretty_prolog(&self, newline: &str, indent: &str) -> (r: String)
        ensures
            r@ == prolog() + newline@ + self@.render_pretty(newline@, indent@),
    {
        let newline_chars = chars_of(newline);
        let indent_chars = chars_of(indent);
        let mut out: Vec<char> = vec![
            '<', '?', 'x', 'm', 'l', ' ', 'v', 'e', 'r', 's', 'i', 'o', 'n', '=', '"', '1', '.',
            '0', '"', ' ', 'e', 'n', 'c', 'o', 'd', 'i', 'n', 'g', '=', '"', 'U', 'T', 'F', '-',
            '8', '"', '?', '>',
        ];
        assert(out@ =~= prolog());
        append_chars(&mut out, &newline_chars);
        let body = self.pretty_chars(&newline_chars, &indent_chars);
        append_chars(&mut out, &body);
        string_of(&out)
    }
}

} // verus!
