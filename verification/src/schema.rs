//! The description of an annotated record: what the field-role compiler reads.
//!
//! A record is described by its name and its fields; a field by its name, the
//! head of its type and the annotations written above it; an annotation by
//! its shape, its name and, for the list form, its arguments.

use vstd::prelude::*;
use crate::chars::same_text;

verus! {

/// One argument between the brackets of a list-form annotation.
#[derive(Debug, PartialEq)]
pub enum Argument {
    /// `name = "value"`: a name and a string literal.
    Text { name: String, value: String },
    /// `name = literal`, where the literal is not a string.
    Literal { name: String },
    /// Anything else: a bare word, a nested list, a lone literal.
    Other,
}

/// An `Argument` over character sequences.
pub enum ArgumentView {
    Text { name: Seq<char>, value: Seq<char> },
    Literal { name: Seq<char> },
    Other,
}

impl View for Argument {
    type V = ArgumentView;

    open spec fn view(&self) -> ArgumentView {
        match self {
            Argument::Text { name, value } => ArgumentView::Text { name: name@, value: value@ },
            Argument::Literal { name } => ArgumentView::Literal { name: name@ },
            Argument::Other => ArgumentView::Other,
        }
    }
}

/// What is written above a field between `#[` and `]`.
#[derive(Debug, PartialEq)]
pub enum Annotation {
    /// `#[name]`
    Word { name: String },
    /// `#[name(arguments)]`
    List { name: String, args: Vec<Argument> },
    /// `#[name = literal]`
    NameValue { name: String },
    /// An attribute of no such shape.
    Opaque,
}

/// An `Annotation` over character sequences.
pub enum AnnotationView {
    Word { name: Seq<char> },
    List { name: Seq<char>, args: Seq<ArgumentView> },
    NameValue { name: Seq<char> },
    Opaque,
}

/// The views of a sequence of arguments.
pub open spec fn argument_views(args: Seq<Argument>) -> Seq<ArgumentView> {
    Seq::new(args.len(), |i: int| args[i]@)
}

impl View for Annotation {
    type V = AnnotationView;

    open spec fn view(&self) -> AnnotationView {
        match self {
            Annotation::Word { name } => AnnotationView::Word { name: name@ },
            Annotation::List { name, args } => AnnotationView::List {
                name: name@,
                args: argument_views(args@),
            },
            Annotation::NameValue { name } => AnnotationView::NameValue { name: name@ },
            Annotation::Opaque => AnnotationView::Opaque,
        }
    }
}

/// The name of an annotation. An opaque annotation has none.
pub open spec fn annotation_name(a: AnnotationView) -> Option<Seq<char>> {
    match a {
        AnnotationView::Word { name } => Some(name),
        AnnotationView::List { name, .. } => Some(name),
        AnnotationView::NameValue { name } => Some(name),
        AnnotationView::Opaque => None,
    }
}

/// Whether `a` is an annotation named `tag`, in the word form or in the
/// list form.
pub open spec fn is_tagged(a: AnnotationView, tag: Seq<char>) -> bool {
    match a {
        AnnotationView::Word { name } => name == tag,
        AnnotationView::List { name, .. } => name == tag,
        _ => false,
    }
}

impl Annotation {
    /// Whether the annotation is named `tag` and has the word form or the
    /// list form.
    pub fn tagged(&self, tag: &str) -> (r: bool)
        ensures
            r == is_tagged(self@, tag@),
    {
        match self {
            Annotation::Word { name } => same_text(name.as_str(), tag),
            Annotation::List { name, .. } => same_text(name.as_str(), tag),
            _ => false,
        }
    }
}

/// One field of a record.
#[derive(Debug, PartialEq)]
pub struct Field {
    /// The name of the field; a field of a tuple record has none.
    pub ident: Option<String>,
    /// The annotations above the field, in the order in which they stand.
    pub annotations: Vec<Annotation>,
    /// The first segment of the path that names the type of the field, where
    /// the type is a path: `Option` for `Option<u8>`, `std` for
    /// `std::option::Option<u8>`.
    pub type_head: Option<String>,
}

/// A `Field` over character sequences.
pub struct FieldView {
    pub ident: Option<Seq<char>>,
    pub annotations: Seq<AnnotationView>,
    pub type_head: Option<Seq<char>>,
}

/// The views of a sequence of annotations.
pub open spec fn annotation_views(annotations: Seq<Annotation>) -> Seq<AnnotationView> {
    Seq::new(annotations.len(), |i: int| annotations[i]@)
}

/// The view of a string that may be absent.
pub open spec fn optional_view(s: Option<String>) -> Option<Seq<char>> {
    match s {
        Some(s) => Some(s@),
        None => None,
    }
}

impl View for Field {
    type V = FieldView;

    open spec fn view(&self) -> FieldView {
        FieldView {
            ident: optional_view(self.ident),
            annotations: annotation_views(self.annotations@),
            type_head: optional_view(self.type_head),
        }
    }
}

/// The fields of a record, by the form of the record.
#[derive(Debug, PartialEq)]
pub enum Fields {
    /// `struct S { a: A, b: B }`
    Named(Vec<Field>),
    /// `struct S(A, B);`
    Unnamed(Vec<Field>),
    /// `struct S;`
    Unit,
}

/// `Fields` over character sequences.
pub enum FieldsView {
    Named(Seq<FieldView>),
    Unnamed(Seq<FieldView>),
    Unit,
}

/// The views of a sequence of fields.
pub open spec fn field_views(fields: Seq<Field>) -> Seq<FieldView> {
    Seq::new(fields.len(), |i: int| fields[i]@)
}

impl View for Fields {
    type V = FieldsView;

    open spec fn view(&self) -> FieldsView {
        match self {
            Fields::Named(fields) => FieldsView::Named(field_views(fields@)),
            Fields::Unnamed(fields) => FieldsView::Unnamed(field_views(fields@)),
            Fields::Unit => FieldsView::Unit,
        }
    }
}

/// The item that the compiler was applied to.
#[derive(Debug, PartialEq)]
pub enum Item {
    /// A record.
    Struct { ident: String, fields: Fields },
    /// Anything else: an enum, a function, a module.
    Other,
}

/// An `Item` over character sequences.
pub enum ItemView {
    Struct { ident: Seq<char>, fields: FieldsView },
    Other,
}

impl View for Item {
    type V = ItemView;

    open spec fn view(&self) -> ItemView {
        match self {
            Item::Struct { ident, fields } => ItemView::Struct { ident: ident@, fields: fields@ },
            Item::Other => ItemView::Other,
        }
    }
}

/// The five ways in which a field of a record can appear in its element.
#[derive(Clone, Copy, Debug, PartialEq, Eq, Structural)]
pub enum FieldRole {
    /// An attribute with a value.
    Attribute,
    /// An attribute without a value: the field as it prints is the token.
    EmptyAttribute,
    /// A child element.
    Element,
    /// One child element for each item of a sequence.
    MultiElement,
    /// The text of the element.
    Text,
}

impl FieldRole {
    /// The name of the annotation that gives a field this role.
    pub open spec fn tag_spec(self) -> Seq<char> {
        match self {
            FieldRole::Attribute => "sxs_type_attr"@,
            FieldRole::EmptyAttribute => "sxs_type_empty_attr"@,
            FieldRole::Element => "sxs_type_element"@,
            FieldRole::MultiElement => "sxs_type_multi_element"@,
            FieldRole::Text => "sxs_type_text"@,
        }
    }

    /// The name of the annotation that gives a field this role.
    pub fn tag(self) -> (r: &'static str)
        ensures
            r@ == self.tag_spec(),
    {
        match self {
            FieldRole::Attribute => "sxs_type_attr",
            FieldRole::EmptyAttribute => "sxs_type_empty_attr",
            FieldRole::Element => "sxs_type_element",
            FieldRole::MultiElement => "sxs_type_multi_element",
            FieldRole::Text => "sxs_type_text",
        }
    }
}

} // verus!
