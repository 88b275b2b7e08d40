//! Reading the role annotations of a record: which fields have which role,
//! and which annotations are at fault.

use vstd::prelude::*;
use crate::chars::same_text;
use crate::schema::{
    annotation_name, argument_views, field_views, is_tagged, optional_view, Annotation,
    AnnotationView, Argument, ArgumentView, Field, FieldRole, FieldView, Fields, FieldsView,
};

verus! {

/// A field that an annotation gives a role.
#[derive(Debug, PartialEq)]
pub struct RoleField {
    /// The field's own name.
    pub ident: String,
    /// The name under which it is serialized: the rename where the
    /// annotation gives one, else the field's own name.
    pub name: String,
    /// Whether the annotation gives a rename.
    pub renamed: bool,
    /// Whether the field's type is an `Option`.
    pub optional: bool,
}

/// A `RoleField` over character sequences.
pub struct RoleFieldView {
    pub ident: Seq<char>,
    pub name: Seq<char>,
    pub renamed: bool,
    pub optional: bool,
}

impl View for RoleField {
    type V = RoleFieldView;

    open spec fn view(&self) -> RoleFieldView {
        RoleFieldView {
            ident: self.ident@,
            name: self.name@,
            renamed: self.renamed,
            optional: self.optional,
        }
    }
}

/// The views of a sequence of role fields.
pub open spec fn role_field_views(fields: Seq<RoleField>) -> Seq<RoleFieldView> {
    Seq::new(fields.len(), |i: int| fields[i]@)
}

/// Whether a type with this head is an optional wrapper.
pub open spec fn is_option(type_head: Option<Seq<char>>) -> bool {
    type_head == Some("Option"@)
}

/// Whether the type of a field is an optional wrapper: a path whose first
/// segment is `Option`.
pub fn is_option_type(type_head: &Option<String>) -> (r: bool)
    ensures
        r == is_option(optional_view(*type_head)),
{
    match type_head {
        Some(head) => same_text(head.as_str(), "Option"),
        None => false,
    }
}

/// The value of the first argument of the form `rename = "value"`.
pub open spec fn first_rename(args: Seq<ArgumentView>) -> Option<Seq<char>>
    decreases args.len(),
{
    if args.len() == 0 {
        None
    } else {
        match args.first() {
            ArgumentView::Text { name, value } => if name == "rename"@ {
                Some(value)
            } else {
                first_rename(args.drop_first())
            },
            _ => first_rename(args.drop_first()),
        }
    }
}

/// The new name that a list-form annotation gives: none where the
/// annotation is not the one asked for.
pub open spec fn new_name(
    name: Seq<char>,
    args: Seq<ArgumentView>,
    attr_type: Seq<char>,
) -> Option<Seq<char>> {
    if name == attr_type {
        first_rename(args)
    } else {
        None
    }
}

/// Reads the new name out of the annotation `#[name(args)]`, where `name` is
/// `attr_type` and one of the arguments is `rename = "new name"`. The first
/// such argument counts.
pub fn extract_ident_with_new_name(
    name: &str,
    args: &Vec<Argument>,
    attr_type: &str,
) -> (r: Option<String>)
    ensures
        optional_view(r) == new_name(name@, argument_views(args@), attr_type@),
{
    if !same_text(name, attr_type) {
        return None;
    }
    let ghost all = argument_views(args@);
    let mut i: usize = 0;
    assert(all.skip(0) =~= all);
    while i < args.len()
        invariant
            i <= args.len(),
            all == argument_views(args@),
            name@ == attr_type@,
            first_rename(all) == first_rename(all.skip(i as int)),
        decreases args.len() - i,
    {
        assert(all.skip(i as int).drop_first() =~= all.skip(i + 1));
        assert(all.skip(i as int).first() == args@[i as int]@);
        match &args[i] {
            Argument::Text { name: arg_name, value } => {
                if same_text(arg_name.as_str(), "rename") {
                    let found = value.clone();
                    assert(first_rename(all.skip(i as int)) == Some(found@));
                    return Some(found);
                }
            },
            _ => {},
        }
        i += 1;
    }
    assert(first_rename(all.skip(args.len() as int)) is None);
    None
}

/// The role field that the annotation `a` above `field` gives for the role
/// whose annotation is named `attr_type`, if it gives one: the word form
/// gives the field under its own name, the list form under its new name.
pub open spec fn role_field_of(
    field: FieldView,
    a: AnnotationView,
    attr_type: Seq<char>,
) -> Option<RoleFieldView> {
    match field.ident {
        None => None,
        Some(ident) => match a {
            AnnotationView::Word { name } => if name == attr_type {
                Some(
                    RoleFieldView {
                        ident,
                        name: ident,
                        renamed: false,
                        optional: is_option(field.type_head),
                    },
                )
            } else {
                None
            },
            AnnotationView::List { name, args } => match new_name(name, args, attr_type) {
                Some(renamed_to) => Some(
                    RoleFieldView {
                        ident,
                        name: renamed_to,
                        renamed: true,
                        optional: is_option(field.type_head),
                    },
                ),
                None => None,
            },
            _ => None,
        },
    }
}

/// The role fields that the first `n` annotations above `field` give.
pub open spec fn role_fields_of_field(
    field: FieldView,
    n: nat,
    attr_type: Seq<char>,
) -> Seq<RoleFieldView>
    decreases n,
{
    if n == 0 || n > field.annotations.len() {
        Seq::empty()
    } else {
        let before = role_fields_of_field(field, (n - 1) as nat, attr_type);
        match role_field_of(field, field.annotations[n - 1], attr_type) {
            Some(f) => before.push(f),
            None => before,
        }
    }
}

/// The role fields of the named fields `fields`: field by field in the
/// order of declaration, and for each field annotation by annotation.
pub open spec fn role_fields_of_all(
    fields: Seq<FieldView>,
    attr_type: Seq<char>,
) -> Seq<RoleFieldView>
    decreases fields.len(),
{
    if fields.len() == 0 {
        Seq::empty()
    } else {
        role_fields_of_all(fields.drop_last(), attr_type) + role_fields_of_field(
            fields.last(),
            fields.last().annotations.len(),
            attr_type,
        )
    }
}

/// The fields of a record that have the role whose annotation is named
/// `attr_type`. Only a record with named fields has any.
pub open spec fn role_fields(fields: FieldsView, attr_type: Seq<char>) -> Seq<RoleFieldView> {
    match fields {
        FieldsView::Named(named) => role_fields_of_all(named, attr_type),
        _ => Seq::empty(),
    }
}

/// Collects the fields that have the role whose annotation is named
/// `attr_type`, each with the name it is serialized under, whether that is a
/// rename, and whether the field is optional.
pub fn get_field_idents_of_attr_type(fields: &Fields, attr_type: &str) -> (r: Vec<RoleField>)
    ensures
        role_field_views(r@) == role_fields(fields@, attr_type@),
{
    let mut field_vec: Vec<RoleField> = Vec::new();
    match fields {
        Fields::Named(named) => {
            let ghost all = field_views(named@);
            let mut i: usize = 0;
            assert(role_field_views(field_vec@) =~= role_fields_of_all(all.take(0), attr_type@));
            while i < named.len()
                invariant
                    i <= named.len(),
                    all == field_views(named@),
                    role_field_views(field_vec@) == role_fields_of_all(
                        all.take(i as int),
                        attr_type@,
                    ),
                decreases named.len() - i,
            {
                let field = &named[i];
                let ghost before = role_field_views(field_vec@);
                let mut k: usize = 0;
                assert(before + role_fields_of_field(field@, 0, attr_type@) =~= before);
                while k < field.annotations.len()
                    invariant
                        k <= field.annotations.len(),
                        role_field_views(field_vec@) == before + role_fields_of_field(
                            field@,
                            k as nat,
                            attr_type@,
                        ),
                    decreases field.annotations.len() - k,
                {
                    let ghost so_far = role_field_views(field_vec@);
                    let found: Option<String> = match &field.annotations[k] {
                        Annotation::Word { name } => {
                            if same_text(name.as_str(), attr_type) {
                                match &field.ident {
                                    Some(ident) => Some(ident.clone()),
                                    None => None,
                                }
                            } else {
                                None
                            }
                        },
                        Annotation::List { name, args } => {
                            extract_ident_with_new_name(name.as_str(), args, attr_type)
                        },
                        _ => None,
                    };
                    let renamed = match &field.annotations[k] {
                        Annotation::List { .. } => true,
                        _ => false,
                    };
                    match (&field.ident, found) {
                        (Some(ident), Some(name)) => {
                            let entry = RoleField {
                                ident: ident.clone(),
                                name,
                                renamed,
                                optional: is_option_type(&field.type_head),
                            };
                            proof {
                                assert(role_field_of(
                                    field@,
                                    field@.annotations[k as int],
                                    attr_type@,
                                ) == Some(entry@));
                            }
                            field_vec.push(entry);
                            assert(role_field_views(field_vec@) =~= so_far.push(entry@));
                        },
                        _ => {
                            assert(role_field_of(
                                field@,
                                field@.annotations[k as int],
                                attr_type@,
                            ) is None);
                        },
                    }
                    k += 1;
                    assert(role_field_views(field_vec@) =~= before + role_fields_of_field(
                        field@,
                        k as nat,
                        attr_type@,
                    ));
                }
                i += 1;
                proof {
                    let done = all.take(i as int);
                    assert(done.drop_last() =~= all.take(i - 1));
                    assert(done.last() == field@);
                }
            }
            assert(all.take(named.len() as int) =~= all);
        },
        _ => {
            assert(role_field_views(field_vec@) =~= Seq::<RoleFieldView>::empty());
        },
    }
    field_vec
}

/// What can be wrong with a role annotation.
#[derive(Clone, Copy, Debug, PartialEq, Eq, Structural)]
pub enum Fault {
    /// The annotation stands above a field that has no name, or in a record
    /// whose fields have none.
    UnnamedField,
    /// The annotation has a shape that gives no role: `#[role = value]`, or
    /// `#[role(..)]` without a `rename` among its arguments.
    UnsupportedShape,
    /// The value of `rename` is not a string.
    UnparseableRename,
    /// There is more than one `rename` in the annotation.
    ConflictingRename,
    /// The field has the same role from an annotation further up.
    RepeatedRole,
}

/// A role annotation that is at fault: the annotation at the position
/// `annotation` above the field at the position `field`.
#[derive(Clone, Copy, Debug, PartialEq, Eq, Structural)]
pub struct BadRole {
    pub field: usize,
    pub annotation: usize,
    pub fault: Fault,
}

/// Whether `name` is the name of one of the five role annotations.
pub open spec fn is_role_tag(name: Seq<char>) -> bool {
    ||| name == FieldRole::Attribute.tag_spec()
    ||| name == FieldRole::EmptyAttribute.tag_spec()
    ||| name == FieldRole::Element.tag_spec()
    ||| name == FieldRole::MultiElement.tag_spec()
    ||| name == FieldRole::Text.tag_spec()
}

/// Whether `a` is a role annotation: an annotation of any shape under the
/// name of a role.
pub open spec fn is_role_annotation(a: AnnotationView) -> bool {
    annotation_name(a) matches Some(name) && is_role_tag(name)
}

/// Whether `arg` is an argument named `rename`, whatever its value.
pub open spec fn is_rename(arg: ArgumentView) -> bool {
    match arg {
        ArgumentView::Text { name, .. } => name == "rename"@,
        ArgumentView::Literal { name } => name == "rename"@,
        ArgumentView::Other => false,
    }
}

/// How many of `args` are named `rename`.
pub open spec fn rename_count(args: Seq<ArgumentView>) -> nat
    decreases args.len(),
{
    if args.len() == 0 {
        0
    } else {
        rename_count(args.drop_last()) + if is_rename(args.last()) {
            1nat
        } else {
            0nat
        }
    }
}

/// What is wrong with the shape of the role annotation `a`, if anything is.
/// The word form is always in order. The list form must hold `rename`
/// exactly once, with a string for its value. No other form gives a role.
pub open spec fn shape_fault(a: AnnotationView) -> Option<Fault> {
    match a {
        AnnotationView::Word { .. } => None,
        AnnotationView::List { args, .. } => if rename_count(args) == 0 {
            Some(Fault::UnsupportedShape)
        } else if rename_count(args) > 1 {
            Some(Fault::ConflictingRename)
        } else if first_rename(args) is None {
            Some(Fault::UnparseableRename)
        } else {
            None
        },
        _ => Some(Fault::UnsupportedShape),
    }
}

/// Whether an annotation further up than the one at the position `k` gives
/// the role that this one gives.
pub open spec fn repeats_role(annotations: Seq<AnnotationView>, k: int) -> bool {
    exists|j: int|
        0 <= j < k && is_tagged(#[trigger] annotations[j], annotation_name(annotations[k])->0)
}

/// What is wrong with the annotation at the position `k` above `field`, if
/// anything is. Only a role annotation can be at fault. `named` says whether
/// the record is one with named fields.
pub open spec fn fault_at(field: FieldView, named: bool, k: int) -> Option<Fault> {
    let a = field.annotations[k];
    if !is_role_annotation(a) {
        None
    } else if !named || field.ident is None {
        Some(Fault::UnnamedField)
    } else if shape_fault(a) is Some {
        shape_fault(a)
    } else if repeats_role(field.annotations, k) {
        Some(Fault::RepeatedRole)
    } else {
        None
    }
}

/// The first annotation at fault above `field`, from the position `from`
/// on, with its fault.
pub open spec fn first_fault_above(
    field: FieldView,
    named: bool,
    from: int,
) -> Option<(int, Fault)>
    decreases field.annotations.len() - from,
{
    if from < 0 || from >= field.annotations.len() {
        None
    } else {
        match fault_at(field, named, from) {
            Some(fault) => Some((from, fault)),
            None => first_fault_above(field, named, from + 1),
        }
    }
}

/// The first annotation at fault in the fields from the position `from`
/// on, as the position of its field, its own position above that field, and
/// its fault. Fields go in the order of their declaration, the annotations
/// of a field in the order in which they stand.
pub open spec fn first_fault(
    fields: Seq<FieldView>,
    named: bool,
    from: int,
) -> Option<(int, int, Fault)>
    decreases fields.len() - from,
{
    if from < 0 || from >= fields.len() {
        None
    } else {
        match first_fault_above(fields[from], named, 0) {
            Some((k, fault)) => Some((from, k, fault)),
            None => first_fault(fields, named, from + 1),
        }
    }
}

/// The first role annotation at fault in a record.
pub open spec fn bad_role(fields: FieldsView) -> Option<BadRole> {
    let first = match fields {
        FieldsView::Named(named) => first_fault(named, true, 0),
        FieldsView::Unnamed(unnamed) => first_fault(unnamed, false, 0),
        FieldsView::Unit => None,
    };
    match first {
        Some((field, annotation, fault)) => Some(
            BadRole { field: field as usize, annotation: annotation as usize, fault },
        ),
        None => None,
    }
}

/// `first_fault_above` finds an annotation at fault, the first one, and
/// finds none only where none is at fault.
pub proof fn lemma_first_fault_above(field: FieldView, named: bool, from: int)
    requires
        0 <= from,
    ensures
        match first_fault_above(field, named, from) {
            Some((k, fault)) => {
                &&& from <= k < field.annotations.len()
                &&& fault_at(field, named, k) == Some(fault)
                &&& forall|j: int| from <= j < k ==> fault_at(field, named, j) is None
            },
            None => forall|j: int|
                from <= j < field.annotations.len() ==> fault_at(field, named, j) is None,
        },
    decreases field.annotations.len() - from,
{
    if from < field.annotations.len() && fault_at(field, named, from) is None {
        lemma_first_fault_above(field, named, from + 1);
    }
}

/// `first_fault` finds an annotation at fault before which none is at
/// fault, and finds none only where no annotation of any field is at fault.
pub proof fn lemma_first_fault(fields: Seq<FieldView>, named: bool, from: int)
    requires
        0 <= from,
    ensures
        match first_fault(fields, named, from) {
            Some((field, annotation, fault)) => {
                &&& from <= field < fields.len()
                &&& first_fault_above(fields[field], named, 0) == Some((annotation, fault))
                &&& forall|i: int, j: int|
                    from <= i < field && 0 <= j < fields[i].annotations.len()
                        ==> (#[trigger] fault_at(fields[i], named, j)) is None
            },
            None => forall|i: int, j: int|
                from <= i < fields.len() && 0 <= j < fields[i].annotations.len()
                    ==> (#[trigger] fault_at(fields[i], named, j)) is None,
        },
    decreases fields.len() - from,
{
    if from < fields.len() {
        lemma_first_fault_above(fields[from], named, 0);
        if first_fault_above(fields[from], named, 0) is None {
            lemma_first_fault(fields, named, from + 1);
        }
    }
}

/// Whether `name` is the name of one of the five role annotations.
fn role_tag(name: &str) -> (r: bool)
    ensures
        r == is_role_tag(name@),
{
    same_text(name, FieldRole::Attribute.tag()) || same_text(name, FieldRole::EmptyAttribute.tag())
        || same_text(name, FieldRole::Element.tag()) || same_text(
        name,
        FieldRole::MultiElement.tag(),
    ) || same_text(name, FieldRole::Text.tag())
}

/// What is wrong with the arguments of a role annotation in the list form.
fn fault_in_arguments(args: &Vec<Argument>) -> (r: Option<Fault>)
    ensures
        r == if rename_count(argument_views(args@)) == 0 {
            Some(Fault::UnsupportedShape)
        } else if rename_count(argument_views(args@)) > 1 {
            Some(Fault::ConflictingRename)
        } else if first_rename(argument_views(args@)) is None {
            Some(Fault::UnparseableRename)
        } else {
            None
        },
{
    let ghost all = argument_views(args@);
    let mut renames: usize = 0;
    let mut i: usize = 0;
    assert(all.take(0) =~= Seq::<ArgumentView>::empty());
    while i < args.len()
        invariant
            i <= args.len(),
            all == argument_views(args@),
            renames <= i,
            renames == rename_count(all.take(i as int)),
        decreases args.len() - i,
    {
        let named_rename = match &args[i] {
            Argument::Text { name, .. } => same_text(name.as_str(), "rename"),
            Argument::Literal { name } => same_text(name.as_str(), "rename"),
            Argument::Other => false,
        };
        proof {
            let done = all.take(i + 1);
            assert(done.drop_last() =~= all.take(i as int));
            assert(done.last() == args@[i as int]@);
        }
        if named_rename {
            renames += 1;
        }
        i += 1;
    }
    assert(all.take(args.len() as int) =~= all);
    if renames == 0 {
        Some(Fault::UnsupportedShape)
    } else if renames > 1 {
        Some(Fault::ConflictingRename)
    } else {
        match extract_ident_with_new_name("rename", args, "rename") {
            Some(_) => None,
            None => Some(Fault::UnparseableRename),
        }
    }
}

/// The name of `a`, where `a` is a role annotation.
fn role_name(a: &Annotation) -> (r: Option<&String>)
    ensures
        match r {
            Some(name) => is_role_annotation(a@) && annotation_name(a@) == Some(name@),
            None => !is_role_annotation(a@),
        },
{
    let name = match a {
        Annotation::Word { name } => name,
        Annotation::List { name, .. } => name,
        Annotation::NameValue { name } => name,
        Annotation::Opaque => {
            return None;
        },
    };
    if role_tag(name.as_str()) {
        Some(name)
    } else {
        None
    }
}

/// What is wrong with the annotation at the position `k` above `field`.
fn find_fault(field: &Field, named: bool, k: usize) -> (r: Option<Fault>)
    requires
        k < field.annotations.len(),
    ensures
        r == fault_at(field@, named, k as int),
{
    let a = &field.annotations[k];
    let name = match role_name(a) {
        Some(name) => name,
        None => {
            return None;
        },
    };
    if !named || field.ident.is_none() {
        return Some(Fault::UnnamedField);
    }
    let shape = match a {
        Annotation::Word { .. } => None,
        Annotation::List { args, .. } => fault_in_arguments(args),
        _ => Some(Fault::UnsupportedShape),
    };
    if shape.is_some() {
        return shape;
    }
    let ghost above = field@.annotations;
    let mut j: usize = 0;
    while j < k
        invariant
            j <= k < field.annotations.len(),
            above == field@.annotations,
            annotation_name(above[k as int]) == Some(name@),
            fault_at(field@, named, k as int) == if repeats_role(above, k as int) {
                Some(Fault::RepeatedRole)
            } else {
                None
            },
            forall|i: int| 0 <= i < j ==> !is_tagged(#[trigger] above[i], name@),
        decreases k - j,
    {
        if field.annotations[j].tagged(name.as_str()) {
            assert(is_tagged(above[j as int], name@));
            return Some(Fault::RepeatedRole);
        }
        j += 1;
    }
    None
}

/// Looks for a role annotation that is at fault and reports the first one.
pub fn check_roles(fields: &Fields) -> (r: Result<(), BadRole>)
    ensures
        match r {
            Ok(_) => bad_role(fields@) is None,
            Err(bad) => bad_role(fields@) == Some(bad),
        },
{
    let (all_fields, named) = match fields {
        Fields::Named(all_fields) => (all_fields, true),
        Fields::Unnamed(all_fields) => (all_fields, false),
        Fields::Unit => {
            return Ok(());
        },
    };
    let ghost all = field_views(all_fields@);
    let mut i: usize = 0;
    while i < all_fields.len()
        invariant
            i <= all_fields.len(),
            all == field_views(all_fields@),
            fields@ == if named {
                FieldsView::Named(all)
            } else {
                FieldsView::Unnamed(all)
            },
            first_fault(all, named, 0) == first_fault(all, named, i as int),
        decreases all_fields.len() - i,
    {
        let field = &all_fields[i];
        let mut k: usize = 0;
        while k < field.annotations.len()
            invariant
                k <= field.annotations.len(),
                i < all_fields.len(),
                all == field_views(all_fields@),
                fields@ == if named {
                    FieldsView::Named(all)
                } else {
                    FieldsView::Unnamed(all)
                },
                field@ == all[i as int],
                first_fault(all, named, 0) == first_fault(all, named, i as int),
                first_fault_above(field@, named, 0) == first_fault_above(field@, named, k as int),
            decreases field.annotations.len() - k,
        {
            match find_fault(field, named, k) {
                Some(fault) => {
                    return Err(BadRole { field: i, annotation: k, fault });
                },
                None => {},
            }
            k += 1;
        }
        i += 1;
    }
    Ok(())
}

} // verus!
