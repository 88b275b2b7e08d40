//! The element tree and the operations that build it.

use vstd::prelude::*;
use vstd::std_specs::convert::IntoSpec;
use vstd::string::{to_string_from_display_ensures, StringExecFns};

verus! {

/// A name/value pair written inside the opening tag of an element.
#[derive(PartialEq, Debug)]
pub struct XMLAttr {
    pub name: String,
    pub value: String,
}

/// An `XMLAttr` as a pair of character sequences.
pub struct AttrView {
    pub name: Seq<char>,
    pub value: Seq<char>,
}

impl View for XMLAttr {
    type V = AttrView;

    open spec fn view(&self) -> AttrView {
        AttrView { name: self.name@, value: self.value@ }
    }
}

impl Clone for XMLAttr {
    fn clone(&self) -> (r: Self)
        ensures
            r@ == self@,
    {
        XMLAttr { name: self.name.clone(), value: self.value.clone() }
    }
}

/// A node of the tree: a tag name and, each of them optional, attributes with
/// a value, attributes without one, child elements and text.
///
/// An absent part is `None`. The operations of this type never store an empty
/// collection: the first addition creates it.
#[derive(PartialEq, Debug)]
pub struct XMLElement {
    /// The tag: `<myelement/>`.
    pub name: String,
    /// The child elements, in the order in which they were added.
    pub contents: Option<Vec<XMLElement>>,
    /// The character data, rendered behind the children.
    pub text: Option<String>,
    /// The attributes with a value, in the order in which they were added.
    pub attrs: Option<Vec<XMLAttr>>,
    /// The attributes without a value, which render as a bare token behind
    /// those with one, in the order in which they were added.
    pub empty_attrs: Option<Vec<String>>,
}

/// An `XMLElement` as a mathematical tree.
pub struct ElementView {
    pub name: Seq<char>,
    pub contents: Option<Seq<ElementView>>,
    pub text: Option<Seq<char>>,
    pub attrs: Option<Seq<AttrView>>,
    pub empty_attrs: Option<Seq<Seq<char>>>,
}

/// The views of a sequence of elements.
pub open spec fn element_views(elements: Seq<XMLElement>) -> Seq<ElementView> {
    Seq::new(elements.len(), |i: int| elements[i]@)
}

/// The views of a sequence of attributes.
pub open spec fn attr_views(attrs: Seq<XMLAttr>) -> Seq<AttrView> {
    Seq::new(attrs.len(), |i: int| attrs[i]@)
}

/// The views of a sequence of strings.
pub open spec fn string_views(strings: Seq<String>) -> Seq<Seq<char>> {
    Seq::new(strings.len(), |i: int| strings[i]@)
}

/// The tree that `e` stands for.
pub open spec fn tree_of(e: XMLElement) -> ElementView
    decreases e,
{
    ElementView {
        name: e.name@,
        contents: match e.contents {
            Some(v) => Some(
                Seq::new(
                    v@.len(),
                    |i: int|
                        if 0 <= i < v@.len() {
                            tree_of(v@[i])
                        } else {
                            arbitrary()
                        },
                ),
            ),
            None => None,
        },
        text: match e.text {
            Some(t) => Some(t@),
            None => None,
        },
        attrs: match e.attrs {
            Some(v) => Some(attr_views(v@)),
            None => None,
        },
        empty_attrs: match e.empty_attrs {
            Some(v) => Some(string_views(v@)),
            None => None,
        },
    }
}

impl View for XMLElement {
    type V = ElementView;

    open spec fn view(&self) -> ElementView {
        tree_of(*self)
    }
}

/// `s` with `x` behind it, where `s` may still be absent.
pub open spec fn pushed<A>(s: Option<Seq<A>>, x: A) -> Option<Seq<A>> {
    match s {
        Some(items) => Some(items.push(x)),
        None => Some(seq![x]),
    }
}

impl ElementView {
    /// The element that has a name and nothing else.
    pub open spec fn named(name: Seq<char>) -> ElementView {
        ElementView { name, contents: None, text: None, attrs: None, empty_attrs: None }
    }

    /// The same element under another name.
    pub open spec fn with_name(self, name: Seq<char>) -> ElementView {
        ElementView { name, ..self }
    }

    /// The element with one more attribute, behind those it has.
    pub open spec fn with_attr(self, attr: AttrView) -> ElementView {
        ElementView { attrs: pushed(self.attrs, attr), ..self }
    }

    /// The element with one more attribute without a value, behind those it
    /// has.
    pub open spec fn with_empty_attr(self, token: Seq<char>) -> ElementView {
        ElementView { empty_attrs: pushed(self.empty_attrs, token), ..self }
    }

    /// The element with one more child, behind those it has.
    pub open spec fn with_element(self, child: ElementView) -> ElementView {
        ElementView { contents: pushed(self.contents, child), ..self }
    }

    /// The element with `children` added one by one. Adding none changes
    /// nothing: absent children stay absent.
    pub open spec fn with_elements(self, children: Seq<ElementView>) -> ElementView
        decreases children.len(),
    {
        if children.len() == 0 {
            self
        } else {
            self.with_elements(children.drop_last()).with_element(children.last())
        }
    }

    /// The element with `text` in place of whatever text it had.
    pub open spec fn with_text(self, text: Seq<char>) -> ElementView {
        ElementView { text: Some(text), ..self }
    }

    /// No part of the element is present and empty.
    pub open spec fn populated(self) -> bool {
        &&& self.contents matches Some(c) ==> c.len() > 0
        &&& self.attrs matches Some(a) ==> a.len() > 0
        &&& self.empty_attrs matches Some(a) ==> a.len() > 0
    }
}

/// Each of `elements` under the name `name`.
pub open spec fn all_renamed(elements: Seq<ElementView>, name: Seq<char>) -> Seq<ElementView> {
    Seq::new(elements.len(), |i: int| elements[i].with_name(name))
}

/// `s` is what printing `value` gives: the characters of a string that
/// `to_string` may return for it.
pub open spec fn shows_as<T: core::fmt::Display>(value: T, s: Seq<char>) -> bool {
    exists|printed: String| #[trigger]
        to_string_from_display_ensures::<T>(&value, printed) && printed@ == s
}

/// `element` is what converting `item` gives.
pub open spec fn converts_to<T: Into<XMLElement>>(item: T, element: XMLElement) -> bool {
    T::obeys_into_spec() ==> element@ == item.into_spec()@
}

/// `elements` are what converting each of `items` gives, one for one.
pub open spec fn convert_to<T: Into<XMLElement>>(items: Seq<T>, elements: Seq<XMLElement>) -> bool {
    &&& elements.len() == items.len()
    &&& forall|i: int| 0 <= i < items.len() ==> converts_to(#[trigger] items[i], elements[i])
}

/// The children of a view are the views of the children.
pub proof fn lemma_view_contents(e: XMLElement)
    ensures
        e@.contents == match e.contents {
            Some(v) => Some(element_views(v@)),
            None => None,
        },
{
    if let Some(v) = e.contents {
        assert(e@.contents->0 =~= element_views(v@));
    }
}

impl Clone for XMLElement {
    /// A deep copy.
    fn clone(&self) -> (r: Self)
        ensures
            r@ == self@,
        decreases self,
    {
        let contents = match &self.contents {
            Some(v) => {
                let mut out: Vec<XMLElement> = Vec::new();
                let mut i: usize = 0;
                while i < v.len()
                    invariant
                        i <= v.len(),
                        out@.len() == i,
                        forall|j: int| 0 <= j < i ==> out@[j]@ == v@[j]@,
                        self.contents == Some(*v),
                    decreases v.len() - i,
                {
                    proof {
                        assert(self.contents->0 == *v);
                        assert(decreases_to!(self.contents => self.contents->0));
                        vstd::std_specs::vec::axiom_vec_index_decreases(*v, i as int);
                    }
                    out.push(v[i].clone());
                    i += 1;
                }
                Some(out)
            },
            None => None,
        };
        let text = match &self.text {
            Some(t) => Some(t.clone()),
            None => None,
        };
        let attrs = match &self.attrs {
            Some(v) => {
                let mut out: Vec<XMLAttr> = Vec::new();
                let mut i: usize = 0;
                while i < v.len()
                    invariant
                        i <= v.len(),
                        out@.len() == i,
                        forall|j: int| 0 <= j < i ==> out@[j]@ == v@[j]@,
                    decreases v.len() - i,
                {
                    out.push(v[i].clone());
                    i += 1;
                }
                assert(attr_views(out@) =~= attr_views(v@));
                Some(out)
            },
            None => None,
        };
        let empty_attrs = match &self.empty_attrs {
            Some(v) => {
                let mut out: Vec<String> = Vec::new();
                let mut i: usize = 0;
                while i < v.len()
                    invariant
                        i <= v.len(),
                        out@.len() == i,
                        forall|j: int| 0 <= j < i ==> out@[j]@ == v@[j]@,
                    decreases v.len() - i,
                {
                    out.push(v[i].clone());
                    i += 1;
                }
                assert(string_views(out@) =~= string_views(v@));
                Some(out)
            },
            None => None,
        };
        let r = XMLElement { name: self.name.clone(), contents, text, attrs, empty_attrs };
        proof {
            if self.contents is Some {
                assert(r@.contents->0 =~= self@.contents->0);
            }
        }
        r
    }
}

impl XMLElement {
    /// A new element with the given tag name and nothing else.
    pub fn new(name: &str) -> (r: Self)
        ensures
            r@ == ElementView::named(name@),
    {
        XMLElement {
            name: String::from_str(name),
            contents: None,
            text: None,
            attrs: None,
            empty_attrs: None,
        }
    }

    /// Chained form of `set_name`.
    pub fn name(self, name: &str) -> (r: Self)
        ensures
            r@ == self@.with_name(name@),
    {
        let mut e = self;
        e.set_name(name);
        e
    }

    /// Changes the tag name of the element.
    pub fn set_name(&mut self, name: &str)
        ensures
            final(self)@ == old(self)@.with_name(name@),
    {
        self.name = String::from_str(name);
    }

    /// Appends `attr` to the attributes of the element.
    pub fn push_attr(&mut self, attr: XMLAttr)
        ensures
            final(self)@ == old(self)@.with_attr(attr@),
            old(self)@.populated() ==> final(self)@.populated(),
    {
        match &mut self.attrs {
            Some(attr_vec) => {
                let ghost before = attr_vec@;
                attr_vec.push(attr);
                assert(attr_views(attr_vec@) =~= attr_views(before).push(attr@));
            },
            None => {
                let mut attr_vec: Vec<XMLAttr> = Vec::new();
                attr_vec.push(attr);
                assert(attr_views(attr_vec@) =~= seq![attr@]);
                self.attrs = Some(attr_vec);
            },
        }
    }

    /// Appends an attribute named `attr` whose value is `attr_val` as it
    /// prints. The value is printed here, once, and kept as a string;
    /// `push_attr` takes the string itself.
    pub fn add_attr<T: core::fmt::Display>(&mut self, attr: &str, attr_val: T)
        ensures
            exists|value: Seq<char>| #[trigger]
                shows_as(attr_val, value) && final(self)@ == old(self)@.with_attr(
                    AttrView { name: attr@, value },
                ),
            old(self)@.populated() ==> final(self)@.populated(),
    {
        let value = attr_val.to_string();
        assert(shows_as(attr_val, value@));
        self.push_attr(XMLAttr { name: String::from_str(attr), value });
    }

    /// Chained form of `add_attr`.
    pub fn attr<T: core::fmt::Display>(self, attr: &str, attr_val: T) -> (r: Self)
        ensures
            exists|value: Seq<char>| #[trigger]
                shows_as(attr_val, value) && r@ == self@.with_attr(AttrView { name: attr@, value }),
            self@.populated() ==> r@.populated(),
    {
        let mut e = self;
        e.add_attr(attr, attr_val);
        e
    }

    /// Appends `token` to the attributes without a value.
    pub fn push_empty_attr(&mut self, token: String)
        ensures
            final(self)@ == old(self)@.with_empty_attr(token@),
            old(self)@.populated() ==> final(self)@.populated(),
    {
        match &mut self.empty_attrs {
            Some(tokens) => {
                let ghost before = tokens@;
                tokens.push(token);
                assert(string_views(tokens@) =~= string_views(before).push(token@));
            },
            None => {
                let mut tokens: Vec<String> = Vec::new();
                tokens.push(token);
                assert(string_views(tokens@) =~= seq![token@]);
                self.empty_attrs = Some(tokens);
            },
        }
    }

    /// Appends an attribute without a value: `attr` as it prints is the
    /// whole of it.
    pub fn add_empty_attr<T: core::fmt::Display>(&mut self, attr: T)
        ensures
            exists|token: Seq<char>| #[trigger]
                shows_as(attr, token) && final(self)@ == old(self)@.with_empty_attr(token),
            old(self)@.populated() ==> final(self)@.populated(),
    {
        let token = attr.to_string();
        assert(shows_as(attr, token@));
        self.push_empty_attr(token);
    }

    /// Chained form of `add_empty_attr`.
    pub fn empty_attr<T: core::fmt::Display>(self, attr: T) -> (r: Self)
        ensures
            exists|token: Seq<char>| #[trigger]
                shows_as(attr, token) && r@ == self@.with_empty_attr(token),
            self@.populated() ==> r@.populated(),
    {
        let mut e = self;
        e.add_empty_attr(attr);
        e
    }

    /// Appends `child` to the children of the element, which owns it from
    /// then on.
    pub fn push_element(&mut self, child: XMLElement)
        ensures
            final(self)@ == old(self)@.with_element(child@),
            old(self)@.populated() ==> final(self)@.populated(),
    {
        match &mut self.contents {
            Some(ele_vec) => {
                let ghost before = ele_vec@;
                ele_vec.push(child);
                assert(element_views(ele_vec@) =~= element_views(before).push(child@));
            },
            None => {
                let mut ele_vec: Vec<XMLElement> = Vec::new();
                ele_vec.push(child);
                assert(element_views(ele_vec@) =~= seq![child@]);
                self.contents = Some(ele_vec);
            },
        }
        proof {
            lemma_view_contents(*self);
            lemma_view_contents(*old(self));
        }
    }

    /// Appends what `new_ele` converts to as a child. What that is, is known
    /// where the conversion of `T` says so; `push_element` takes the child
    /// itself.
    pub fn add_element<T: Into<XMLElement>>(&mut self, new_ele: T)
        ensures
            exists|child: XMLElement| #[trigger]
                converts_to(new_ele, child) && final(self)@ == old(self)@.with_element(child@),
            old(self)@.populated() ==> final(self)@.populated(),
    {
        let child: XMLElement = new_ele.into();
        assert(converts_to(new_ele, child));
        self.push_element(child);
    }

    /// Chained form of `add_element`.
    pub fn element<T: Into<XMLElement>>(self, new_ele: T) -> (r: Self)
        ensures
            exists|child: XMLElement| #[trigger]
                converts_to(new_ele, child) && r@ == self@.with_element(child@),
            self@.populated() ==> r@.populated(),
    {
        let mut e = self;
        e.add_element(new_ele);
        e
    }

    /// Sets the text of the element, in place of any it had.
    pub fn put_text(&mut self, text: String)
        ensures
            final(self)@ == old(self)@.with_text(text@),
            old(self)@.populated() ==> final(self)@.populated(),
    {
        self.text = Some(text);
    }

    /// Sets the text of the element to `text` as it prints, in place of any
    /// it had.
    pub fn set_text<T: core::fmt::Display>(&mut self, text: T)
        ensures
            exists|printed: Seq<char>| #[trigger]
                shows_as(text, printed) && final(self)@ == old(self)@.with_text(printed),
            old(self)@.populated() ==> final(self)@.populated(),
    {
        let printed = text.to_string();
        assert(shows_as(text, printed@));
        self.put_text(printed);
    }

    /// Chained form of `set_text`.
    pub fn text<T: core::fmt::Display>(self, text: T) -> (r: Self)
        ensures
            exists|printed: Seq<char>| #[trigger]
                shows_as(text, printed) && r@ == self@.with_text(printed),
            self@.populated() ==> r@.populated(),
    {
        let mut e = self;
        e.set_text(text);
        e
    }

    /// Appends `children` to the children of the element, in their order.
    pub fn push_elements(&mut self, children: Vec<XMLElement>)
        ensures
            final(self)@ == old(self)@.with_elements(element_views(children@)),
            old(self)@.populated() ==> final(self)@.populated(),
    {
        let ghost all = children@;
        let ghost mut added: Seq<XMLElement> = Seq::empty();
        proof {
            assert(element_views(added) =~= Seq::<ElementView>::empty());
        }
        for child in it: children.into_iter()
            invariant
                it.seq() == all,
                added == all.take(it.index()),
                self@ == old(self)@.with_elements(element_views(added)),
                old(self)@.populated() ==> self@.populated(),
        {
            self.push_element(child);
            proof {
                let grown = added.push(child);
                assert(element_views(grown).drop_last() =~= element_views(added));
                assert(grown =~= all.take(it.index() + 1));
                added = grown;
            }
        }
        proof {
            assert(added =~= all);
        }
    }

    /// Appends what each of `new_eles` converts to as a child, in their
    /// order.
    pub fn add_elements<T: Into<XMLElement>>(&mut self, new_eles: Vec<T>)
        ensures
            exists|children: Seq<XMLElement>| #[trigger]
                convert_to(new_eles@, children) && final(self)@ == old(self)@.with_elements(
                    element_views(children),
                ),
            old(self)@.populated() ==> final(self)@.populated(),
    {
        let ghost all = new_eles@;
        let ghost mut added: Seq<XMLElement> = Seq::empty();
        proof {
            assert(element_views(added) =~= Seq::<ElementView>::empty());
        }
        for ele in it: new_eles.into_iter()
            invariant
                it.seq() == all,
                convert_to(all.take(it.index()), added),
                self@ == old(self)@.with_elements(element_views(added)),
                old(self)@.populated() ==> self@.populated(),
        {
            let child: XMLElement = ele.into();
            proof {
                let grown = added.push(child);
                assert(element_views(grown).drop_last() =~= element_views(added));
                assert(element_views(grown).last() == child@);
                assert(convert_to(all.take(it.index() + 1), grown));
                added = grown;
            }
            self.push_element(child);
        }
        proof {
            assert(all.take(all.len() as int) =~= all);
            assert(convert_to(new_eles@, added));
        }
    }

    /// Chained form of `add_elements`.
    pub fn elements<T: Into<XMLElement>>(self, new_eles: Vec<T>) -> (r: Self)
        ensures
            exists|children: Seq<XMLElement>| #[trigger]
                convert_to(new_eles@, children) && r@ == self@.with_elements(
                    element_views(children),
                ),
            self@.populated() ==> r@.populated(),
    {
        let mut e = self;
        e.add_elements(new_eles);
        e
    }

    /// Appends what each of `new_eles` converts to as a child, every one of
    /// them under the tag name `new_name`.
    pub fn add_elements_with_name<T: Into<XMLElement>>(&mut self, new_name: &str, new_eles: Vec<T>)
        ensures
            exists|children: Seq<XMLElement>| #[trigger]
                convert_to(new_eles@, children) && final(self)@ == old(self)@.with_elements(
                    all_renamed(element_views(children), new_name@),
                ),
            old(self)@.populated() ==> final(self)@.populated(),
    {
        let ghost all = new_eles@;
        let ghost mut added: Seq<XMLElement> = Seq::empty();
        proof {
            assert(all_renamed(element_views(added), new_name@) =~= Seq::<ElementView>::empty());
        }
        for ele in it: new_eles.into_iter()
            invariant
                it.seq() == all,
                convert_to(all.take(it.index()), added),
                self@ == old(self)@.with_elements(all_renamed(element_views(added), new_name@)),
                old(self)@.populated() ==> self@.populated(),
        {
            let child: XMLElement = ele.into();
            proof {
                let grown = added.push(child);
                assert(all_renamed(element_views(grown), new_name@).drop_last() =~= all_renamed(
                    element_views(added),
                    new_name@,
                ));
                assert(all_renamed(element_views(grown), new_name@).last() == child@.with_name(
                    new_name@,
                ));
                assert(convert_to(all.take(it.index() + 1), grown));
                added = grown;
            }
            self.push_element(child.name(new_name));
        }
        proof {
            assert(all.take(all.len() as int) =~= all);
            assert(convert_to(new_eles@, added));
        }
    }
}


impl From<&XMLElement> for XMLElement {
    /// A deep copy of `e`: a tree of its own, with the same view.
    fn from(e: &XMLElement) -> (r: Self)
        ensures
            r@ == e@,
    {
        e.clone()
    }
}

impl vstd::std_specs::convert::FromSpecImpl<&XMLElement> for XMLElement {
    /// The copy has the view of what it was made from but is not the same
    /// vectors, so `from` promises the view (see its `ensures`) and not
    /// identity.
    open spec fn obeys_from_spec() -> bool {
        false
    }

    open spec fn from_spec(e: &XMLElement) -> XMLElement {
        *e
    }
}

} // verus!
