//! The field-role compiler: from the description of an annotated record to
//! the routine that converts a value of the record to an element.
//!
//! The compiler reads, for each field, the annotations that give it a role,
//! and emits one builder call for each. It emits a description of those
//! calls; turning the description into source text is left to the caller.

use vstd::prelude::*;
use vstd::string::StringExecFns;
use crate::chars::{chars_of, string_of_range};
use crate::roles::{
    bad_role, check_roles, fault_at, get_field_idents_of_attr_type, is_role_annotation,
    is_role_tag, lemma_first_fault, repeats_role, role_field_views, role_fields, BadRole,
    RoleField, RoleFieldView,
};
use crate::schema::{
    annotation_name, annotation_views, field_views, is_tagged, optional_view, AnnotationView,
    Field, FieldRole, FieldView, Fields, FieldsView, Item, ItemView,
};

verus! {

/// One builder call of a conversion routine, without the value it is made
/// with.
#[derive(Debug, PartialEq)]
pub enum Call {
    /// `add_attr(name, value)`
    AddAttr { name: String },
    /// `add_empty_attr(value)`
    AddEmptyAttr,
    /// `add_element(value)`, the child put under the name `rename` where
    /// there is one.
    AddElement { rename: Option<String> },
    /// `add_elements(value)`, or `add_elements_with_name(rename, value)`
    /// where there is a rename.
    AddElements { rename: Option<String> },
    /// `set_text(value)`
    SetText,
}

/// A `Call` over character sequences.
pub enum CallView {
    AddAttr { name: Seq<char> },
    AddEmptyAttr,
    AddElement { rename: Option<Seq<char>> },
    AddElements { rename: Option<Seq<char>> },
    SetText,
}

impl View for Call {
    type V = CallView;

    open spec fn view(&self) -> CallView {
        match self {
            Call::AddAttr { name } => CallView::AddAttr { name: name@ },
            Call::AddEmptyAttr => CallView::AddEmptyAttr,
            Call::AddElement { rename } => CallView::AddElement { rename: optional_view(*rename) },
            Call::AddElements { rename } => CallView::AddElements {
                rename: optional_view(*rename),
            },
            Call::SetText => CallView::SetText,
        }
    }
}

/// One statement of a conversion routine: a builder call made with the value
/// of one field of the record.
#[derive(Debug, PartialEq)]
pub struct Statement {
    /// The field whose value the call is made with.
    pub field: String,
    /// Whether the field is optional. The call is then made with what the
    /// field holds, and not made at all where it holds nothing.
    pub guarded: bool,
    /// The call.
    pub call: Call,
}

/// A `Statement` over character sequences.
pub struct StatementView {
    pub field: Seq<char>,
    pub guarded: bool,
    pub call: CallView,
}

impl View for Statement {
    type V = StatementView;

    open spec fn view(&self) -> StatementView {
        StatementView { field: self.field@, guarded: self.guarded, call: self.call@ }
    }
}

/// The views of a sequence of statements.
pub open spec fn statement_views(statements: Seq<Statement>) -> Seq<StatementView> {
    Seq::new(statements.len(), |i: int| statements[i]@)
}

/// The rename of a role field, if it has one.
pub open spec fn rename_of(f: RoleFieldView) -> Option<Seq<char>> {
    if f.renamed {
        Some(f.name)
    } else {
        None
    }
}

/// The call that a field with the role `role` is serialized by. A child or
/// a sequence of children keeps the names that its own conversion gives
/// unless the field is renamed; an attribute always goes under the name of
/// the role field.
pub open spec fn call_for(role: FieldRole, f: RoleFieldView) -> CallView {
    match role {
        FieldRole::Attribute => CallView::AddAttr { name: f.name },
        FieldRole::EmptyAttribute => CallView::AddEmptyAttr,
        FieldRole::Element => CallView::AddElement { rename: rename_of(f) },
        FieldRole::MultiElement => CallView::AddElements { rename: rename_of(f) },
        FieldRole::Text => CallView::SetText,
    }
}

/// The statement that a field with the role `role` is serialized by:
/// guarded exactly where the field is optional.
pub open spec fn statement_for(role: FieldRole, f: RoleFieldView) -> StatementView {
    StatementView { field: f.ident, guarded: f.optional, call: call_for(role, f) }
}

/// One statement for each of `fields`, in their order.
pub open spec fn statements_for(role: FieldRole, fields: Seq<RoleFieldView>) -> Seq<StatementView> {
    Seq::new(fields.len(), |i: int| statement_for(role, fields[i]))
}

/// Emits one statement for each of `fields`, in their order.
fn gen_code(role: FieldRole, fields: &Vec<RoleField>) -> (r: Vec<Statement>)
    ensures
        statement_views(r@) == statements_for(role, role_field_views(fields@)),
{
    let mut code: Vec<Statement> = Vec::new();
    let mut i: usize = 0;
    while i < fields.len()
        invariant
            i <= fields.len(),
            code@.len() == i,
            forall|j: int| 0 <= j < i ==> code@[j]@ == statement_for(role, fields@[j]@),
        decreases fields.len() - i,
    {
        let f = &fields[i];
        let rename = if f.renamed {
            Some(f.name.clone())
        } else {
            None
        };
        let call = match role {
            FieldRole::Attribute => Call::AddAttr { name: f.name.clone() },
            FieldRole::EmptyAttribute => Call::AddEmptyAttr,
            FieldRole::Element => Call::AddElement { rename },
            FieldRole::MultiElement => Call::AddElements { rename },
            FieldRole::Text => Call::SetText,
        };
        code.push(Statement { field: f.ident.clone(), guarded: f.optional, call });
        i += 1;
    }
    assert(statement_views(code@) =~= statements_for(role, role_field_views(fields@)));
    code
}

/// Emits the statements that add the attributes: for each field
/// `add_attr(name, value)` under the field's serialized name.
pub fn gen_xml_attr_code(attr_field_idents: Vec<RoleField>) -> (r: Vec<Statement>)
    ensures
        statement_views(r@) == statements_for(
            FieldRole::Attribute,
            role_field_views(attr_field_idents@),
        ),
{
    gen_code(FieldRole::Attribute, &attr_field_idents)
}

/// Emits the statements that add the attributes without a value: for each
/// field `add_empty_attr(value)`.
pub fn gen_xml_empty_attr_code(empty_attr_field_idents: Vec<RoleField>) -> (r: Vec<Statement>)
    ensures
        statement_views(r@) == statements_for(
            FieldRole::EmptyAttribute,
            role_field_views(empty_attr_field_idents@),
        ),
{
    gen_code(FieldRole::EmptyAttribute, &empty_attr_field_idents)
}

/// Emits the statements that set the text: for each field `set_text(value)`.
pub fn gen_xml_text_code(text_field_idents: Vec<RoleField>) -> (r: Vec<Statement>)
    ensures
        statement_views(r@) == statements_for(
            FieldRole::Text,
            role_field_views(text_field_idents@),
        ),
{
    gen_code(FieldRole::Text, &text_field_idents)
}

/// Emits the statements that add the child elements: for each field
/// `add_element(value)`, the child renamed first where the field is.
pub fn gen_xml_element_code(element_field_idents: Vec<RoleField>) -> (r: Vec<Statement>)
    ensures
        statement_views(r@) == statements_for(
            FieldRole::Element,
            role_field_views(element_field_idents@),
        ),
{
    gen_code(FieldRole::Element, &element_field_idents)
}

/// Emits the statements that add the sequences of child elements: for each
/// field `add_elements(value)`, or `add_elements_with_name(name, value)`
/// where the field is renamed.
pub fn gen_xml_multi_element_code(multi_element_field_idents: Vec<RoleField>) -> (r: Vec<Statement>)
    ensures
        statement_views(r@) == statements_for(
            FieldRole::MultiElement,
            role_field_views(multi_element_field_idents@),
        ),
{
    gen_code(FieldRole::MultiElement, &multi_element_field_idents)
}

/// `annotations` without the first one that is named `tag`.
pub open spec fn without_first(
    annotations: Seq<AnnotationView>,
    tag: Seq<char>,
) -> Seq<AnnotationView>
    decreases annotations.len(),
{
    if annotations.len() == 0 {
        annotations
    } else if is_tagged(annotations.first(), tag) {
        annotations.drop_first()
    } else {
        seq![annotations.first()] + without_first(annotations.drop_first(), tag)
    }
}

/// `field` without its first annotation named `tag`.
pub open spec fn field_without(field: FieldView, tag: Seq<char>) -> FieldView {
    FieldView { annotations: without_first(field.annotations, tag), ..field }
}

/// `item` with, in each of its named fields, the first annotation named
/// `tag` removed. An item that is no record with named fields stays as it
/// is.
pub open spec fn item_without(item: ItemView, tag: Seq<char>) -> ItemView {
    match item {
        ItemView::Struct { ident, fields: FieldsView::Named(named) } => ItemView::Struct {
            ident,
            fields: FieldsView::Named(
                Seq::new(named.len(), |i: int| field_without(named[i], tag)),
            ),
        },
        _ => item,
    }
}

/// `item` without the role annotations: for each role, the first annotation
/// of that role in each named field.
pub open spec fn item_without_roles(item: ItemView) -> ItemView {
    let i1 = item_without(item, FieldRole::Attribute.tag_spec());
    let i2 = item_without(i1, FieldRole::EmptyAttribute.tag_spec());
    let i3 = item_without(i2, FieldRole::Element.tag_spec());
    let i4 = item_without(i3, FieldRole::MultiElement.tag_spec());
    item_without(i4, FieldRole::Text.tag_spec())
}

/// Removing the first tagged annotation is removing the annotation at the
/// first tagged position.
proof fn lemma_without_first(annotations: Seq<AnnotationView>, tag: Seq<char>, k: int)
    requires
        0 <= k <= annotations.len(),
        forall|j: int| 0 <= j < k ==> !is_tagged(annotations[j], tag),
        k < annotations.len() ==> is_tagged(annotations[k], tag),
    ensures
        without_first(annotations, tag) == if k < annotations.len() {
            annotations.remove(k)
        } else {
            annotations
        },
    decreases k,
{
    if annotations.len() == 0 {
    } else if k == 0 {
        assert(annotations.drop_first() =~= annotations.remove(0));
    } else {
        let rest = annotations.drop_first();
        assert forall|j: int| 0 <= j < k - 1 implies !is_tagged(rest[j], tag) by {
            assert(rest[j] == annotations[j + 1]);
        }
        lemma_without_first(rest, tag, k - 1);
        if k < annotations.len() {
            assert(seq![annotations.first()] + rest.remove(k - 1) =~= annotations.remove(k));
        } else {
            assert(seq![annotations.first()] + rest =~= annotations);
        }
    }
}

/// Removes from `field` its first annotation named `to_remove`.
fn remove_attr_from_field(field: Field, to_remove: &str) -> (r: Field)
    ensures
        r@ == field_without(field@, to_remove@),
{
    let Field { ident, annotations, type_head } = field;
    let mut annotations = annotations;
    let ghost all = annotation_views(annotations@);
    let mut k: usize = 0;
    while k < annotations.len() && !annotations[k].tagged(to_remove)
        invariant
            k <= annotations.len(),
            all == annotation_views(annotations@),
            forall|j: int| 0 <= j < k ==> !is_tagged(all[j], to_remove@),
        decreases annotations.len() - k,
    {
        k += 1;
    }
    proof {
        lemma_without_first(all, to_remove@, k as int);
    }
    if k < annotations.len() {
        annotations.remove(k);
        assert(annotation_views(annotations@) =~= all.remove(k as int));
    }
    Field { ident, annotations, type_head }
}

/// Removes, from each named field of the record, the first annotation named
/// `to_remove`, so that the record can stand in the output without it.
pub fn remove_attr_from_item(item: Item, to_remove: &str) -> (r: Item)
    ensures
        r@ == item_without(item@, to_remove@),
{
    match item {
        Item::Struct { ident, fields: Fields::Named(named) } => {
            let ghost all = field_views(named@);
            let mut kept: Vec<Field> = Vec::new();
            for field in it: named.into_iter()
                invariant
                    field_views(it.seq()) == all,
                    kept@.len() == it.index(),
                    forall|j: int|
                        0 <= j < it.index() ==> kept@[j]@ == field_without(all[j], to_remove@),
            {
                assert(all[it.index()] == field@);
                kept.push(remove_attr_from_field(field, to_remove));
            }
            let r = Item::Struct { ident, fields: Fields::Named(kept) };
            assert(field_views(kept@) =~= Seq::new(
                all.len(),
                |i: int| field_without(all[i], to_remove@),
            ));
            r
        },
        other => other,
    }
}

/// Removes the role annotations from the fields of the record.
pub fn remove_our_attrs_from_item_fields(item: Item) -> (r: Item)
    ensures
        r@ == item_without_roles(item@),
{
    let i1 = remove_attr_from_item(item, FieldRole::Attribute.tag());
    let i2 = remove_attr_from_item(i1, FieldRole::EmptyAttribute.tag());
    let i3 = remove_attr_from_item(i2, FieldRole::Element.tag());
    let i4 = remove_attr_from_item(i3, FieldRole::MultiElement.tag());
    remove_attr_from_item(i4, FieldRole::Text.tag())
}

/// The routine that converts a value of a record to an element: the
/// element is made under the name `tag`, then the statements run in their
/// order.
#[derive(Debug, PartialEq)]
pub struct Conversion {
    /// The name of the record type that the routine converts.
    pub record: String,
    /// The tag name of the element that it makes.
    pub tag: String,
    /// The builder calls that it makes, in their order.
    pub statements: Vec<Statement>,
}

/// A `Conversion` over character sequences.
pub struct ConversionView {
    pub record: Seq<char>,
    pub tag: Seq<char>,
    pub statements: Seq<StatementView>,
}

impl View for Conversion {
    type V = ConversionView;

    open spec fn view(&self) -> ConversionView {
        ConversionView {
            record: self.record@,
            tag: self.tag@,
            statements: statement_views(self.statements@),
        }
    }
}

/// What the compiler puts in the place of an annotated record: the record
/// without its role annotations, and the conversion of the record to an
/// element. The conversion stands for both directions in which it is
/// offered, from a borrowed record and from an owned one.
#[derive(Debug, PartialEq)]
pub struct Expansion {
    pub item: Item,
    pub conversion: Conversion,
}

/// An `Expansion` over character sequences.
pub struct ExpansionView {
    pub item: ItemView,
    pub conversion: ConversionView,
}

impl View for Expansion {
    type V = ExpansionView;

    open spec fn view(&self) -> ExpansionView {
        ExpansionView { item: self.item@, conversion: self.conversion@ }
    }
}

/// The statements for the fields of one role.
pub open spec fn role_statements(role: FieldRole, fields: FieldsView) -> Seq<StatementView> {
    statements_for(role, role_fields(fields, role.tag_spec()))
}

/// The statements of the conversion of a record with the fields `fields`.
/// They are grouped by role: the attributes first, then the attributes
/// without a value, the child elements, the sequences of child elements, and
/// the text. Within a role the fields keep the order of their declaration.
pub open spec fn conversion_statements(fields: FieldsView) -> Seq<StatementView> {
    role_statements(FieldRole::Attribute, fields) + role_statements(
        FieldRole::EmptyAttribute,
        fields,
    ) + role_statements(FieldRole::Element, fields) + role_statements(
        FieldRole::MultiElement,
        fields,
    ) + role_statements(FieldRole::Text, fields)
}

/// What the record named `ident` with the fields `fields` expands to when
/// its element is to be named `new_element_name`.
pub open spec fn expansion_of(
    new_element_name: Seq<char>,
    ident: Seq<char>,
    fields: FieldsView,
) -> ExpansionView {
    ExpansionView {
        item: item_without_roles(ItemView::Struct { ident, fields }),
        conversion: ConversionView {
            record: ident,
            tag: new_element_name,
            statements: conversion_statements(fields),
        },
    }
}

/// Moves the statements of `more` behind those of `code`.
fn append_code(code: &mut Vec<Statement>, more: Vec<Statement>)
    ensures
        statement_views(final(code)@) == statement_views(old(code)@) + statement_views(more@),
{
    let mut more = more;
    let ghost added = more@;
    code.append(&mut more);
    assert(statement_views(code@) =~= statement_views(old(code)@) + statement_views(added));
}

/// Generates the expansion of the record named `ident` with the fields
/// `fields`: the conversion to an element named `new_element_name`, and the
/// record without the annotations that the compiler has read.
pub fn gen_impl_code(new_element_name: &str, ident: String, fields: Fields) -> (r: Expansion)
    ensures
        r@ == expansion_of(new_element_name@, ident@, fields@),
{
    let attr_field_idents = get_field_idents_of_attr_type(&fields, FieldRole::Attribute.tag());
    let empty_attr_field_idents = get_field_idents_of_attr_type(
        &fields,
        FieldRole::EmptyAttribute.tag(),
    );
    let element_field_idents = get_field_idents_of_attr_type(&fields, FieldRole::Element.tag());
    let multi_element_field_idents = get_field_idents_of_attr_type(
        &fields,
        FieldRole::MultiElement.tag(),
    );
    let text_field_idents = get_field_idents_of_attr_type(&fields, FieldRole::Text.tag());

    let mut statements = gen_xml_attr_code(attr_field_idents);
    append_code(&mut statements, gen_xml_empty_attr_code(empty_attr_field_idents));
    append_code(&mut statements, gen_xml_element_code(element_field_idents));
    append_code(&mut statements, gen_xml_multi_element_code(multi_element_field_idents));
    append_code(&mut statements, gen_xml_text_code(text_field_idents));

    let record = ident.clone();
    let item = remove_our_attrs_from_item_fields(Item::Struct { ident, fields });
    Expansion {
        item,
        conversion: Conversion { record, tag: String::from_str(new_element_name), statements },
    }
}

/// Why a record was not compiled. Nothing is emitted for such a record.
#[derive(Clone, Copy, Debug, PartialEq, Eq, Structural)]
pub enum CompileError {
    /// The argument of the compiler, the tag name of the element, is not a
    /// string in double quotes.
    MissingTagName,
    /// The compiler was applied to an item that is no record.
    NotARecord,
    /// A role annotation is at fault.
    BadRole(BadRole),
}

/// Whether `c` is one of the characters that are taken off both ends of
/// the compiler's argument: `=`, a space or a double quote.
pub open spec fn is_wrapping(c: char) -> bool {
    c == '=' || c == ' ' || c == '"'
}

/// `s` without the wrapping characters at its start.
pub open spec fn trim_start(s: Seq<char>) -> Seq<char>
    decreases s.len(),
{
    if s.len() > 0 && is_wrapping(s.first()) {
        trim_start(s.drop_first())
    } else {
        s
    }
}

/// `s` without the wrapping characters at its end.
pub open spec fn trim_end(s: Seq<char>) -> Seq<char>
    decreases s.len(),
{
    if s.len() > 0 && is_wrapping(s.last()) {
        trim_end(s.drop_last())
    } else {
        s
    }
}

/// The tag name that the argument of the compiler gives. The argument is the
/// name in double quotes, as it is written; it gives a name only where it
/// starts with a double quote.
pub open spec fn tag_name_of(args: Seq<char>) -> Option<Seq<char>> {
    if args.len() > 0 && args[0] == '"' {
        Some(trim_end(trim_start(args)))
    } else {
        None
    }
}

/// Whether `c` is `=`, a space or a double quote.
fn wrapping(c: char) -> (r: bool)
    ensures
        r == is_wrapping(c),
{
    c == '=' || c == ' ' || c == '"'
}

/// Reads the tag name out of the argument of the compiler.
pub fn tag_name(args: &str) -> (r: Option<String>)
    ensures
        optional_view(r) == tag_name_of(args@),
{
    let chars = chars_of(args);
    let n: usize = chars.len();
    if n == 0 || chars[0] != '"' {
        return None;
    }
    let mut from: usize = 0;
    assert(chars@.skip(0) =~= chars@);
    while from < n && wrapping(chars[from])
        invariant
            from <= n == chars.len(),
            trim_start(chars@) == trim_start(chars@.skip(from as int)),
        decreases n - from,
    {
        assert(chars@.skip(from as int).drop_first() =~= chars@.skip(from + 1));
        from += 1;
    }
    let ghost started = chars@.skip(from as int);
    assert(trim_start(chars@) == started);
    let mut to: usize = n;
    assert(started.take(n - from) =~= started);
    while to > from && wrapping(chars[to - 1])
        invariant
            from <= to <= n == chars.len(),
            started == chars@.skip(from as int),
            trim_end(started) == trim_end(started.take(to - from)),
        decreases to,
    {
        assert(started.take(to - from).drop_last() =~= started.take(to - from - 1));
        to -= 1;
    }
    assert(trim_end(started) == started.take(to - from));
    assert(started.take(to - from) =~= chars@.subrange(from as int, to as int));
    Some(string_of_range(&chars, from, to))
}

/// What compiling the item `item` with the argument `args` gives: the first
/// error in the order argument, kind of item, role annotations, or else the
/// expansion of the record.
pub open spec fn compiled(args: Seq<char>, item: ItemView) -> Result<ExpansionView, CompileError> {
    match tag_name_of(args) {
        None => Err(CompileError::MissingTagName),
        Some(tag) => match item {
            ItemView::Other => Err(CompileError::NotARecord),
            ItemView::Struct { ident, fields } => match bad_role(fields) {
                Some(bad) => Err(CompileError::BadRole(bad)),
                None => Ok(expansion_of(tag, ident, fields)),
            },
        },
    }
}

/// What `xml_element` returns, over character sequences.
pub open spec fn result_view(
    r: Result<Expansion, CompileError>,
) -> Result<ExpansionView, CompileError> {
    match r {
        Ok(expansion) => Ok(expansion@),
        Err(e) => Err(e),
    }
}

/// Compiles an annotated record: `args` is the argument of the annotation
/// that asks for the compilation, the tag name in double quotes, and `item`
/// is the item that the annotation stands on. Either the whole expansion is
/// returned or an error, never a part of the expansion.
pub fn xml_element(args: &str, item: Item) -> (r: Result<Expansion, CompileError>)
    ensures
        result_view(r) == compiled(args@, item@),
{
    let element_name = match tag_name(args) {
        Some(name) => name,
        None => {
            return Err(CompileError::MissingTagName);
        },
    };
    match item {
        Item::Struct { ident, fields } => {
            match check_roles(&fields) {
                Ok(_) => Ok(gen_impl_code(element_name.as_str(), ident, fields)),
                Err(bad) => Err(CompileError::BadRole(bad)),
            }
        },
        Item::Other => Err(CompileError::NotARecord),
    }
}

/// Whether some annotation of some field of `item` is a role annotation.
pub open spec fn has_role_annotation(item: ItemView) -> bool {
    match item {
        ItemView::Struct { fields, .. } => {
            let all = match fields {
                FieldsView::Named(named) => named,
                FieldsView::Unnamed(unnamed) => unnamed,
                FieldsView::Unit => Seq::empty(),
            };
            exists|i: int, j: int|
                0 <= i < all.len() && 0 <= j < all[i].annotations.len() && is_role_annotation(
                    #[trigger] all[i].annotations[j],
                )
        },
        ItemView::Other => false,
    }
}

/// The position of the first of `annotations` that is named `tag`; their
/// number, where none is.
spec fn first_tagged(annotations: Seq<AnnotationView>, tag: Seq<char>) -> int
    decreases annotations.len(),
{
    if annotations.len() == 0 || is_tagged(annotations.first(), tag) {
        0
    } else {
        1 + first_tagged(annotations.drop_first(), tag)
    }
}

/// `first_tagged` is the position of an annotation named `tag` before which
/// none is named so, or it is past the last annotation.
proof fn lemma_first_tagged(annotations: Seq<AnnotationView>, tag: Seq<char>)
    ensures
        0 <= first_tagged(annotations, tag) <= annotations.len(),
        forall|j: int|
            0 <= j < first_tagged(annotations, tag) ==> !is_tagged(#[trigger] annotations[j], tag),
        first_tagged(annotations, tag) < annotations.len() ==> is_tagged(
            annotations[first_tagged(annotations, tag)],
            tag,
        ),
    decreases annotations.len(),
{
    if annotations.len() != 0 && !is_tagged(annotations.first(), tag) {
        let rest = annotations.drop_first();
        lemma_first_tagged(rest, tag);
        assert forall|j: int| 0 <= j < first_tagged(annotations, tag) implies !is_tagged(
            #[trigger] annotations[j],
            tag,
        ) by {
            if j > 0 {
                assert(annotations[j] == rest[j - 1]);
            }
        }
    }
}

/// At most one of `annotations` is named `tag`.
spec fn at_most_one(annotations: Seq<AnnotationView>, tag: Seq<char>) -> bool {
    forall|i: int, j: int|
        0 <= i < j < annotations.len() ==> !(#[trigger] is_tagged(annotations[i], tag)
            && #[trigger] is_tagged(annotations[j], tag))
}

/// None of `annotations` is named `tag`.
spec fn none_tagged(annotations: Seq<AnnotationView>, tag: Seq<char>) -> bool {
    forall|i: int| 0 <= i < annotations.len() ==> !is_tagged(#[trigger] annotations[i], tag)
}

/// Each of `part` is one of `whole`.
spec fn all_from(part: Seq<AnnotationView>, whole: Seq<AnnotationView>) -> bool {
    forall|i: int| 0 <= i < part.len() ==> whole.contains(#[trigger] part[i])
}

/// Removing the first annotation named `tag` from annotations of which at
/// most one is named so leaves none that is, brings in nothing, and leaves
/// true what held of the names before.
proof fn lemma_removed_for_good(
    whole: Seq<AnnotationView>,
    annotations: Seq<AnnotationView>,
    tag: Seq<char>,
)
    requires
        at_most_one(annotations, tag),
        all_from(annotations, whole),
    ensures
        none_tagged(without_first(annotations, tag), tag),
        all_from(without_first(annotations, tag), whole),
        forall|other: Seq<char>| #[trigger]
            at_most_one(annotations, other) ==> at_most_one(without_first(annotations, tag), other),
        forall|other: Seq<char>| #[trigger]
            none_tagged(annotations, other) ==> none_tagged(without_first(annotations, tag), other),
{
    let k = first_tagged(annotations, tag);
    let left = without_first(annotations, tag);
    lemma_first_tagged(annotations, tag);
    lemma_without_first(annotations, tag, k);
    if k < annotations.len() {
        assert(left == annotations.remove(k));
        assert forall|i: int| 0 <= i < left.len() implies left[i] == annotations[if i < k {
            i
        } else {
            i + 1
        }] by {}
        assert(none_tagged(left, tag)) by {
            assert forall|i: int| 0 <= i < left.len() implies !is_tagged(
                #[trigger] left[i],
                tag,
            ) by {
                if i >= k {
                    assert(is_tagged(annotations[k], tag));
                    assert(left[i] == annotations[i + 1]);
                }
            }
        }
        assert(all_from(left, whole)) by {
            assert forall|i: int| 0 <= i < left.len() implies whole.contains(
                #[trigger] left[i],
            ) by {
                let at = if i < k { i } else { i + 1 };
                assert(left[i] == annotations[at]);
                assert(whole.contains(annotations[at]));
            }
        }
        assert forall|other: Seq<char>| #[trigger]
            at_most_one(annotations, other) implies at_most_one(left, other) by {
            assert forall|i: int, j: int| 0 <= i < j < left.len() implies !(#[trigger] is_tagged(
                left[i],
                other,
            ) && #[trigger] is_tagged(left[j], other)) by {
                let i0 = if i < k { i } else { i + 1 };
                let j0 = if j < k { j } else { j + 1 };
                assert(left[i] == annotations[i0] && left[j] == annotations[j0]);
                assert(!(is_tagged(annotations[i0], other) && is_tagged(annotations[j0], other)));
            }
        }
        assert forall|other: Seq<char>| #[trigger]
            none_tagged(annotations, other) implies none_tagged(left, other) by {
            assert forall|i: int| 0 <= i < left.len() implies !is_tagged(
                #[trigger] left[i],
                other,
            ) by {
                let at = if i < k { i } else { i + 1 };
                assert(left[i] == annotations[at]);
            }
        }
    }
}

/// The annotations that are left above a field once the role annotations of
/// the five roles have been removed.
spec fn left_above(field: FieldView) -> Seq<AnnotationView> {
    let a1 = without_first(field.annotations, FieldRole::Attribute.tag_spec());
    let a2 = without_first(a1, FieldRole::EmptyAttribute.tag_spec());
    let a3 = without_first(a2, FieldRole::Element.tag_spec());
    let a4 = without_first(a3, FieldRole::MultiElement.tag_spec());
    without_first(a4, FieldRole::Text.tag_spec())
}

/// Above a named field none of whose annotations is at fault, no role
/// annotation is left once the first of each role has been removed.
proof fn lemma_field_keeps_no_role_annotation(field: FieldView)
    requires
        forall|k: int|
            0 <= k < field.annotations.len() ==> (#[trigger] fault_at(field, true, k)) is None,
    ensures
        forall|j: int|
            0 <= j < left_above(field).len() ==> !is_role_annotation(
                #[trigger] left_above(field)[j],
            ),
{
    let a0 = field.annotations;
    let t1 = FieldRole::Attribute.tag_spec();
    let t2 = FieldRole::EmptyAttribute.tag_spec();
    let t3 = FieldRole::Element.tag_spec();
    let t4 = FieldRole::MultiElement.tag_spec();
    let t5 = FieldRole::Text.tag_spec();
    // no role is given twice
    assert forall|t: Seq<char>| is_role_tag(t) implies #[trigger] at_most_one(a0, t) by {
        assert forall|i: int, j: int| 0 <= i < j < a0.len() implies !(#[trigger] is_tagged(
            a0[i],
            t,
        ) && #[trigger] is_tagged(a0[j], t)) by {
            if is_tagged(a0[i], t) && is_tagged(a0[j], t) {
                assert(annotation_name(a0[j]) == Some(t));
                assert(fault_at(field, true, j) is None);
                assert(repeats_role(a0, j));
            }
        }
    }
    assert(all_from(a0, a0)) by {
        assert forall|i: int| 0 <= i < a0.len() implies a0.contains(#[trigger] a0[i]) by {}
    }
    assert(is_role_tag(t1) && is_role_tag(t2) && is_role_tag(t3) && is_role_tag(t4) && is_role_tag(
        t5,
    ));
    assert(at_most_one(a0, t1) && at_most_one(a0, t2) && at_most_one(a0, t3) && at_most_one(a0, t4)
        && at_most_one(a0, t5));
    let a1 = without_first(a0, t1);
    lemma_removed_for_good(a0, a0, t1);
    assert(at_most_one(a1, t2) && at_most_one(a1, t3) && at_most_one(a1, t4) && at_most_one(
        a1,
        t5,
    ));
    let a2 = without_first(a1, t2);
    lemma_removed_for_good(a0, a1, t2);
    assert(at_most_one(a2, t3) && at_most_one(a2, t4) && at_most_one(a2, t5));
    assert(none_tagged(a2, t1));
    let a3 = without_first(a2, t3);
    lemma_removed_for_good(a0, a2, t3);
    assert(at_most_one(a3, t4) && at_most_one(a3, t5));
    assert(none_tagged(a3, t1) && none_tagged(a3, t2));
    let a4 = without_first(a3, t4);
    lemma_removed_for_good(a0, a3, t4);
    assert(at_most_one(a4, t5));
    assert(none_tagged(a4, t1) && none_tagged(a4, t2) && none_tagged(a4, t3));
    let a5 = without_first(a4, t5);
    lemma_removed_for_good(a0, a4, t5);
    assert(a5 == left_above(field));
    assert(none_tagged(a5, t1) && none_tagged(a5, t2) && none_tagged(a5, t3) && none_tagged(a5, t4)
        && none_tagged(a5, t5));
    assert forall|j: int| 0 <= j < a5.len() implies !is_role_annotation(#[trigger] a5[j]) by {
        if is_role_annotation(a5[j]) {
            assert(a0.contains(a5[j]));
            let k = choose|k: int| 0 <= k < a0.len() && a0[k] == a5[j];
            assert(fault_at(field, true, k) is None);
            let t = annotation_name(a5[j])->0;
            assert(is_tagged(a5[j], t));
        }
    }
}

/// A record that compiles is left without role annotations: what the
/// compiler returns can stand where the annotations are not known.
pub proof fn lemma_compiled_record_has_no_role_annotation(args: Seq<char>, item: ItemView)
    ensures
        compiled(args, item) matches Ok(expansion) ==> !has_role_annotation(expansion.item),
{
    if let Ok(expansion) = compiled(args, item) {
        let fields = item->Struct_fields;
        let ident = item->Struct_ident;
        assert(bad_role(fields) is None);
        match fields {
            FieldsView::Named(named) => {
                lemma_first_fault(named, true, 0);
                let t1 = FieldRole::Attribute.tag_spec();
                let t2 = FieldRole::EmptyAttribute.tag_spec();
                let t3 = FieldRole::Element.tag_spec();
                let t4 = FieldRole::MultiElement.tag_spec();
                let t5 = FieldRole::Text.tag_spec();
                let f1 = Seq::new(named.len(), |i: int| field_without(named[i], t1));
                let f2 = Seq::new(f1.len(), |i: int| field_without(f1[i], t2));
                let f3 = Seq::new(f2.len(), |i: int| field_without(f2[i], t3));
                let f4 = Seq::new(f3.len(), |i: int| field_without(f3[i], t4));
                let f5 = Seq::new(f4.len(), |i: int| field_without(f4[i], t5));
                assert(expansion.item == ItemView::Struct { ident, fields: FieldsView::Named(f5) });
                assert forall|i: int, j: int|
                    0 <= i < f5.len() && 0 <= j < f5[i].annotations.len()
                    implies !is_role_annotation(#[trigger] f5[i].annotations[j]) by {
                    let field = named[i];
                    assert(f5[i].annotations == left_above(field));
                    assert forall|k: int| 0 <= k < field.annotations.len() implies (
                    #[trigger] fault_at(field, true, k)) is None by {}
                    lemma_field_keeps_no_role_annotation(field);
                }
            },
            FieldsView::Unnamed(unnamed) => {
                lemma_first_fault(unnamed, false, 0);
                assert(expansion.item == ItemView::Struct { ident, fields });
                assert forall|i: int, j: int|
                    0 <= i < unnamed.len() && 0 <= j < unnamed[i].annotations.len()
                    implies !is_role_annotation(#[trigger] unnamed[i].annotations[j]) by {
                    assert(fault_at(unnamed[i], false, j) is None);
                }
            },
            FieldsView::Unit => {
                assert(expansion.item == ItemView::Struct { ident, fields });
            },
        }
    }
}

} // verus!
