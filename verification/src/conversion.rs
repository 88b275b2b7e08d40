//! Running a conversion routine on the values of a record.
//!
//! The compiler emits a routine for a type of record. Here the routine is
//! applied to one record, which is given field by field, each value in the
//! form in which a builder call takes it.

use vstd::prelude::*;
use crate::chars::same_text;
use crate::compiler::{Call, CallView, Conversion, ConversionView, StatementView};
use crate::element::{all_renamed, element_views, AttrView, ElementView, XMLAttr, XMLElement};
use crate::schema::optional_view;

verus! {

/// What a field of a record holds, ready for a builder call.
#[derive(Debug, PartialEq)]
pub enum Value {
    /// A printable value, as it prints.
    Printed(String),
    /// A value that converts to an element, converted.
    Element(XMLElement),
    /// A sequence of values that convert to elements, each converted.
    Elements(Vec<XMLElement>),
}

/// A `Value` over character sequences and trees.
pub enum ValueView {
    Printed(Seq<char>),
    Element(ElementView),
    Elements(Seq<ElementView>),
}

impl View for Value {
    type V = ValueView;

    open spec fn view(&self) -> ValueView {
        match self {
            Value::Printed(p) => ValueView::Printed(p@),
            Value::Element(e) => ValueView::Element(e@),
            Value::Elements(es) => ValueView::Elements(element_views(es@)),
        }
    }
}

/// One field of a record with what it holds. An optional field that holds
/// nothing has no value.
#[derive(Debug, PartialEq)]
pub struct FieldValue {
    pub field: String,
    pub value: Option<Value>,
}

/// A `FieldValue` over character sequences and trees.
pub struct FieldValueView {
    pub field: Seq<char>,
    pub value: Option<ValueView>,
}

impl View for FieldValue {
    type V = FieldValueView;

    open spec fn view(&self) -> FieldValueView {
        FieldValueView {
            field: self.field@,
            value: match self.value {
                Some(v) => Some(v@),
                None => None,
            },
        }
    }
}

/// The views of the fields of a record.
pub open spec fn record_view(record: Seq<FieldValue>) -> Seq<FieldValueView> {
    Seq::new(record.len(), |i: int| record[i]@)
}

/// Why a conversion routine could not run on a record. `statement` is the
/// position of the statement that could not run.
#[derive(Clone, Copy, Debug, PartialEq, Eq, Structural)]
pub enum ConvertError {
    /// The record has no field of the name that the statement reads.
    UnknownField { statement: usize },
    /// The field holds nothing and the statement is not guarded.
    MissingValue { statement: usize },
    /// The field holds a value of a kind that the call does not take.
    WrongKind { statement: usize },
}

/// What the first field named `field` of `record` holds, from the position
/// `from` on; `None` where the record has no such field.
pub open spec fn lookup(
    record: Seq<FieldValueView>,
    field: Seq<char>,
    from: int,
) -> Option<Option<ValueView>>
    decreases record.len() - from,
{
    if from < 0 || from >= record.len() {
        None
    } else if record[from].field == field {
        Some(record[from].value)
    } else {
        lookup(record, field, from + 1)
    }
}

/// `children` under the name `rename`, where there is one.
pub open spec fn renamed(
    children: Seq<ElementView>,
    rename: Option<Seq<char>>,
) -> Seq<ElementView> {
    match rename {
        Some(name) => all_renamed(children, name),
        None => children,
    }
}

/// The element `e` after the builder call `call` made with `value`; `None`
/// where the call does not take a value of that kind.
pub open spec fn called(e: ElementView, call: CallView, value: ValueView) -> Option<ElementView> {
    match (call, value) {
        (CallView::AddAttr { name }, ValueView::Printed(p)) => Some(
            e.with_attr(AttrView { name, value: p }),
        ),
        (CallView::AddEmptyAttr, ValueView::Printed(p)) => Some(e.with_empty_attr(p)),
        (CallView::AddElement { rename }, ValueView::Element(child)) => Some(
            e.with_element(
                match rename {
                    Some(name) => child.with_name(name),
                    None => child,
                },
            ),
        ),
        (CallView::AddElements { rename }, ValueView::Elements(children)) => Some(
            e.with_elements(renamed(children, rename)),
        ),
        (CallView::SetText, ValueView::Printed(p)) => Some(e.with_text(p)),
        _ => None,
    }
}

/// The element `e` after the statement at the position `index` has run on
/// `record`. A guarded statement whose field holds nothing does nothing.
pub open spec fn after_statement(
    e: ElementView,
    statement: StatementView,
    index: int,
    record: Seq<FieldValueView>,
) -> Result<ElementView, ConvertError> {
    match lookup(record, statement.field, 0) {
        None => Err(ConvertError::UnknownField { statement: index as usize }),
        Some(None) => if statement.guarded {
            Ok(e)
        } else {
            Err(ConvertError::MissingValue { statement: index as usize })
        },
        Some(Some(value)) => match called(e, statement.call, value) {
            Some(next) => Ok(next),
            None => Err(ConvertError::WrongKind { statement: index as usize }),
        },
    }
}

/// The element `e` after the first `n` of `statements` have run on
/// `record`, or the error of the first statement that could not run.
pub open spec fn after_statements(
    e: ElementView,
    statements: Seq<StatementView>,
    n: nat,
    record: Seq<FieldValueView>,
) -> Result<ElementView, ConvertError>
    decreases n,
{
    if n == 0 || n > statements.len() {
        Ok(e)
    } else {
        match after_statements(e, statements, (n - 1) as nat, record) {
            Ok(before) => after_statement(before, statements[n - 1], n - 1, record),
            Err(error) => Err(error),
        }
    }
}

/// The element that `conversion` makes of `record`: an element with the tag
/// name of the conversion, on which the statements run in their order.
pub open spec fn converted(
    conversion: ConversionView,
    record: Seq<FieldValueView>,
) -> Result<ElementView, ConvertError> {
    after_statements(
        ElementView::named(conversion.tag),
        conversion.statements,
        conversion.statements.len(),
        record,
    )
}

/// The first statement that cannot run decides the outcome: the statements
/// behind it do not run.
pub proof fn lemma_first_error_stays(
    e: ElementView,
    statements: Seq<StatementView>,
    k: nat,
    n: nat,
    record: Seq<FieldValueView>,
)
    requires
        k <= n <= statements.len(),
        after_statements(e, statements, k, record) is Err,
    ensures
        after_statements(e, statements, n, record) == after_statements(e, statements, k, record),
    decreases n,
{
    if k < n {
        lemma_first_error_stays(e, statements, k, (n - 1) as nat, record);
    }
}

/// An optional field that holds nothing leaves no trace: the guarded
/// statement that reads it leaves the element as it was.
pub proof fn lemma_absent_field_is_skipped(
    e: ElementView,
    statement: StatementView,
    index: int,
    record: Seq<FieldValueView>,
)
    requires
        statement.guarded,
        lookup(record, statement.field, 0) == Some(None::<ValueView>),
    ensures
        after_statement(e, statement, index, record) == Ok::<ElementView, ConvertError>(e),
{
}

/// What `apply` returns, with the element as a tree.
pub open spec fn outcome_view(
    r: Result<XMLElement, ConvertError>,
) -> Result<ElementView, ConvertError> {
    match r {
        Ok(e) => Ok(e@),
        Err(error) => Err(error),
    }
}

/// Copies of `children`, each under the name `rename` where there is one.
fn renamed_copies(children: &Vec<XMLElement>, rename: &Option<String>) -> (r: Vec<XMLElement>)
    ensures
        element_views(r@) == renamed(element_views(children@), optional_view(*rename)),
{
    let mut out: Vec<XMLElement> = Vec::new();
    let mut i: usize = 0;
    while i < children.len()
        invariant
            i <= children.len(),
            out@.len() == i,
            forall|j: int|
                0 <= j < i ==> out@[j]@ == renamed(
                    element_views(children@),
                    optional_view(*rename),
                )[j],
        decreases children.len() - i,
    {
        let copy = children[i].clone();
        let child = match rename {
            Some(name) => copy.name(name.as_str()),
            None => copy,
        };
        out.push(child);
        i += 1;
    }
    assert(element_views(out@) =~= renamed(element_views(children@), optional_view(*rename)));
    out
}

/// Looks up what the first field named `field` holds.
fn find_field<'a>(record: &'a Vec<FieldValue>, field: &str) -> (r: Option<&'a FieldValue>)
    ensures
        match r {
            Some(found) => lookup(record_view(record@), field@, 0) == Some(found@.value),
            None => lookup(record_view(record@), field@, 0) is None,
        },
{
    let ghost all = record_view(record@);
    let mut i: usize = 0;
    while i < record.len()
        invariant
            i <= record.len(),
            all == record_view(record@),
            lookup(all, field@, 0) == lookup(all, field@, i as int),
        decreases record.len() - i,
    {
        if same_text(record[i].field.as_str(), field) {
            return Some(&record[i]);
        }
        i += 1;
    }
    None
}

/// Makes the builder call `call` on `e` with a copy of `value`. Returns
/// whether the call takes a value of that kind; `e` is left as it was where
/// it does not.
fn make_call(e: &mut XMLElement, call: &Call, value: &Value) -> (done: bool)
    ensures
        match called(old(e)@, call@, value@) {
            Some(next) => done && final(e)@ == next,
            None => !done && final(e)@ == old(e)@,
        },
{
    match (call, value) {
        (Call::AddAttr { name }, Value::Printed(p)) => {
            e.push_attr(XMLAttr { name: name.clone(), value: p.clone() });
            true
        },
        (Call::AddEmptyAttr, Value::Printed(p)) => {
            e.push_empty_attr(p.clone());
            true
        },
        (Call::AddElement { rename }, Value::Element(child)) => {
            let copy = child.clone();
            match rename {
                Some(name) => e.push_element(copy.name(name.as_str())),
                None => e.push_element(copy),
            }
            true
        },
        (Call::AddElements { rename }, Value::Elements(children)) => {
            e.push_elements(renamed_copies(children, rename));
            true
        },
        (Call::SetText, Value::Printed(p)) => {
            e.put_text(p.clone());
            true
        },
        _ => false,
    }
}

impl Conversion {
    /// Runs the conversion on a record: makes an element with the tag name of
    /// the conversion and makes the builder calls on it, each with the value
    /// that the record holds in the field of that call.
    pub fn apply(&self, record: &Vec<FieldValue>) -> (r: Result<XMLElement, ConvertError>)
        ensures
            outcome_view(r) == converted(self@, record_view(record@)),
    {
        let mut new_ele = XMLElement::new(self.tag.as_str());
        let mut i: usize = 0;
        while i < self.statements.len()
            invariant
                i <= self.statements.len(),
                after_statements(
                    ElementView::named(self@.tag),
                    self@.statements,
                    i as nat,
                    record_view(record@),
                ) == Ok::<ElementView, ConvertError>(new_ele@),
            decreases self.statements.len() - i,
        {
            let statement = &self.statements[i];
            assert(self@.statements[i as int] == statement@);
            proof {
                let start = ElementView::named(self@.tag);
                let run = after_statements(
                    start,
                    self@.statements,
                    (i + 1) as nat,
                    record_view(record@),
                );
                if run is Err {
                    lemma_first_error_stays(
                        start,
                        self@.statements,
                        (i + 1) as nat,
                        self@.statements.len(),
                        record_view(record@),
                    );
                }
            }
            match find_field(record, statement.field.as_str()) {
                None => {
                    return Err(ConvertError::UnknownField { statement: i });
                },
                Some(found) => match &found.value {
                    None => {
                        if !statement.guarded {
                            return Err(ConvertError::MissingValue { statement: i });
                        }
                    },
                    Some(value) => {
                        if !make_call(&mut new_ele, &statement.call, value) {
                            return Err(ConvertError::WrongKind { statement: i });
                        }
                    },
                },
            }
            i += 1;
        }
        Ok(new_ele)
    }
}

} // verus!
