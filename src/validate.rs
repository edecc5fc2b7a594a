//! Structural and type validation of a report spec against a field catalog.
use vstd::prelude::*;
use crate::field_catalog::{lookup_field, CatalogView, FieldDef, FieldType, WorkspaceSchema};
use crate::report_spec::{
    FilterOp, FilterScalar, FilterValue, FilterView, Mode, OrderItemView, ReportSpec, ScalarView,
    SelectView, SpecView, ValueView,
};
use crate::seqs::{first_error, lemma_first_error_end, lemma_first_error_start, lemma_first_error_step};

verus! {

/// Which part of a spec names a field.
#[derive(Debug, Clone, Copy, PartialEq, Eq, Structural)]
pub enum FieldContext {
    Select,
    Filters,
    OrderBy,
}

/// Why a spec is not valid for a workspace.
#[derive(Debug, Clone)]
pub enum SpecError {
    WorkspaceNotFound(String),
    UnknownField { field: String, context: FieldContext },
    NotSelectable { field: String },
    NotFilterable { field: String },
    NotSortable { field: String },
    InvalidOperator { field: String, op: FilterOp, field_type: FieldType },
    InvalidValue { field: String, reason: String },
    ExportSelectEmpty,
}

pub enum SpecErrorView {
    WorkspaceNotFound(Seq<char>),
    UnknownField { field: Seq<char>, context: FieldContext },
    NotSelectable { field: Seq<char> },
    NotFilterable { field: Seq<char> },
    NotSortable { field: Seq<char> },
    InvalidOperator { field: Seq<char>, op: FilterOp, field_type: FieldType },
    InvalidValue { field: Seq<char>, reason: Seq<char> },
    ExportSelectEmpty,
}

impl View for SpecError {
    type V = SpecErrorView;

    open spec fn view(&self) -> SpecErrorView {
        match self {
            SpecError::WorkspaceNotFound(w) => SpecErrorView::WorkspaceNotFound(w@),
            SpecError::UnknownField { field, context } => SpecErrorView::UnknownField {
                field: field@,
                context: *context,
            },
            SpecError::NotSelectable { field } => SpecErrorView::NotSelectable { field: field@ },
            SpecError::NotFilterable { field } => SpecErrorView::NotFilterable { field: field@ },
            SpecError::NotSortable { field } => SpecErrorView::NotSortable { field: field@ },
            SpecError::InvalidOperator { field, op, field_type } => SpecErrorView::InvalidOperator {
                field: field@,
                op: *op,
                field_type: *field_type,
            },
            SpecError::InvalidValue { field, reason } => SpecErrorView::InvalidValue {
                field: field@,
                reason: reason@,
            },
            SpecError::ExportSelectEmpty => SpecErrorView::ExportSelectEmpty,
        }
    }
}

pub open spec fn context_name(c: FieldContext) -> Seq<char> {
    match c {
        FieldContext::Select => "select"@,
        FieldContext::Filters => "filters"@,
        FieldContext::OrderBy => "order_by"@,
    }
}

pub open spec fn op_name(op: FilterOp) -> Seq<char> {
    match op {
        FilterOp::Eq => "Eq"@,
        FilterOp::In => "In"@,
        FilterOp::Overlaps => "Overlaps"@,
        FilterOp::Gte => "Gte"@,
        FilterOp::Lte => "Lte"@,
    }
}

pub open spec fn field_type_label(t: FieldType) -> Seq<char> {
    match t {
        FieldType::String => "String"@,
        FieldType::StringArray => "StringArray"@,
        FieldType::Number => "Number"@,
        FieldType::Date => "Date"@,
        FieldType::Enum => "Enum"@,
        FieldType::Bool => "Bool"@,
    }
}

/// The human-readable text of an error.
pub open spec fn message_model(e: SpecErrorView) -> Seq<char> {
    match e {
        SpecErrorView::WorkspaceNotFound(w) => "workspace '"@ + w + "' not found"@,
        SpecErrorView::UnknownField { field, context } => "unknown field '"@ + field + "' in "@
            + context_name(context),
        SpecErrorView::NotSelectable { field } => "field '"@ + field + "' is not selectable"@,
        SpecErrorView::NotFilterable { field } => "field '"@ + field + "' is not filterable"@,
        SpecErrorView::NotSortable { field } => "field '"@ + field + "' is not sortable"@,
        SpecErrorView::InvalidOperator { field, op, field_type } => "invalid operator '"@ + op_name(op)
            + "' for field '"@ + field + "' of type '"@ + field_type_label(field_type) + "'"@,
        SpecErrorView::InvalidValue { field, reason } => "invalid value for field '"@ + field
            + "': "@ + reason,
        SpecErrorView::ExportSelectEmpty => "export mode requires at least 1 select field"@,
    }
}

fn context_name_exec(c: FieldContext) -> (r: &'static str)
    ensures
        r@ == context_name(c),
{
    match c {
        FieldContext::Select => "select",
        FieldContext::Filters => "filters",
        FieldContext::OrderBy => "order_by",
    }
}

fn op_name_exec(op: FilterOp) -> (r: &'static str)
    ensures
        r@ == op_name(op),
{
    match op {
        FilterOp::Eq => "Eq",
        FilterOp::In => "In",
        FilterOp::Overlaps => "Overlaps",
        FilterOp::Gte => "Gte",
        FilterOp::Lte => "Lte",
    }
}

fn field_type_label_exec(t: FieldType) -> (r: &'static str)
    ensures
        r@ == field_type_label(t),
{
    match t {
        FieldType::String => "String",
        FieldType::StringArray => "StringArray",
        FieldType::Number => "Number",
        FieldType::Date => "Date",
        FieldType::Enum => "Enum",
        FieldType::Bool => "Bool",
    }
}

impl SpecError {
    /// The human-readable text of the error.
    pub fn message(&self) -> (r: String)
        ensures
            r@ == message_model(self@),
    {
        match self {
            SpecError::WorkspaceNotFound(w) => {
                let mut m = String::from_str("workspace '");
                m.append(w.as_str());
                m.append("' not found");
                m
            },
            SpecError::UnknownField { field, context } => {
                let mut m = String::from_str("unknown field '");
                m.append(field.as_str());
                m.append("' in ");
                m.append(context_name_exec(*context));
                m
            },
            SpecError::NotSelectable { field } => {
                let mut m = String::from_str("field '");
                m.append(field.as_str());
                m.append("' is not selectable");
                m
            },
            SpecError::NotFilterable { field } => {
                let mut m = String::from_str("field '");
                m.append(field.as_str());
                m.append("' is not filterable");
                m
            },
            SpecError::NotSortable { field } => {
                let mut m = String::from_str("field '");
                m.append(field.as_str());
                m.append("' is not sortable");
                m
            },
            SpecError::InvalidOperator { field, op, field_type } => {
                let mut m = String::from_str("invalid operator '");
                m.append(op_name_exec(*op));
                m.append("' for field '");
                m.append(field.as_str());
                m.append("' of type '");
                m.append(field_type_label_exec(*field_type));
                m.append("'");
                m
            },
            SpecError::InvalidValue { field, reason } => {
                let mut m = String::from_str("invalid value for field '");
                m.append(field.as_str());
                m.append("': ");
                m.append(reason.as_str());
                m
            },
            SpecError::ExportSelectEmpty => String::from_str("export mode requires at least 1 select field"),
        }
    }
}

/// Operator/type compatibility: `Eq` on every scalar type, `In` on string,
/// number, date and enum, `Overlaps` on string arrays, `Gte`/`Lte` on numbers
/// and dates.
pub open spec fn op_allowed(t: FieldType, op: FilterOp) -> bool {
    match op {
        FilterOp::Eq => t != FieldType::StringArray,
        FilterOp::In => t == FieldType::String || t == FieldType::Number || t == FieldType::Date
            || t == FieldType::Enum,
        FilterOp::Overlaps => t == FieldType::StringArray,
        FilterOp::Gte | FilterOp::Lte => t == FieldType::Number || t == FieldType::Date,
    }
}

/// An array element fits a field of type `t`: a number for numbers, a string
/// otherwise.
pub open spec fn element_fits(t: FieldType, x: ScalarView) -> bool {
    if t == FieldType::Number {
        x is Number
    } else {
        x is Str
    }
}

/// The scalar a field of type `t` compares with: a string for string, enum and
/// date, a boolean for bool, a number for number.
pub open spec fn scalar_fits(t: FieldType, v: ValueView) -> bool {
    match t {
        FieldType::Bool => v is Bool,
        FieldType::Number => v is Number,
        _ => v is Str,
    }
}

pub open spec fn scalar_reason(t: FieldType) -> Seq<char> {
    match t {
        FieldType::Bool => "expected boolean"@,
        FieldType::Number => "expected number"@,
        FieldType::Date => "expected date string"@,
        _ => "expected string"@,
    }
}

/// Why a value does not fit an allowed operator on a field of type `t`.
pub open spec fn value_problem(t: FieldType, op: FilterOp, v: ValueView) -> Option<Seq<char>> {
    match op {
        FilterOp::In => match v {
            ValueView::Array(xs) => if xs.len() == 0 {
                Some("array for 'in' must not be empty"@)
            } else if exists|i: int| 0 <= i < xs.len() && !element_fits(t, #[trigger] xs[i]) {
                Some("array for 'in' holds a value of another type"@)
            } else {
                None
            },
            _ => Some("expected array for 'in'"@),
        },
        FilterOp::Overlaps => match v {
            ValueView::Array(xs) => if xs.len() == 0 {
                Some("array for 'overlaps' must not be empty"@)
            } else if exists|i: int| 0 <= i < xs.len() && !((#[trigger] xs[i]) is Str) {
                Some("array for 'overlaps' must hold strings"@)
            } else {
                None
            },
            _ => Some("expected array for 'overlaps'"@),
        },
        _ => if scalar_fits(t, v) {
            None
        } else {
            Some(scalar_reason(t))
        },
    }
}

pub open spec fn select_error(fields: Seq<(Seq<char>, FieldDef)>, s: SelectView) -> Option<SpecErrorView> {
    match lookup_field(fields, s.field) {
        None => Some(SpecErrorView::UnknownField { field: s.field, context: FieldContext::Select }),
        Some(d) => if !d.selectable {
            Some(SpecErrorView::NotSelectable { field: s.field })
        } else {
            None
        },
    }
}

pub open spec fn filter_error(fields: Seq<(Seq<char>, FieldDef)>, f: FilterView) -> Option<SpecErrorView> {
    match lookup_field(fields, f.field) {
        None => Some(SpecErrorView::UnknownField { field: f.field, context: FieldContext::Filters }),
        Some(d) => if !d.filterable {
            Some(SpecErrorView::NotFilterable { field: f.field })
        } else if !op_allowed(d.field_type, f.op) {
            Some(
                SpecErrorView::InvalidOperator { field: f.field, op: f.op, field_type: d.field_type },
            )
        } else {
            match value_problem(d.field_type, f.op, f.value) {
                Some(reason) => Some(SpecErrorView::InvalidValue { field: f.field, reason }),
                None => None,
            }
        },
    }
}

pub open spec fn order_error(fields: Seq<(Seq<char>, FieldDef)>, o: OrderItemView) -> Option<SpecErrorView> {
    match lookup_field(fields, o.field) {
        None => Some(SpecErrorView::UnknownField { field: o.field, context: FieldContext::OrderBy }),
        Some(d) => if !d.sortable {
            Some(SpecErrorView::NotSortable { field: o.field })
        } else {
            None
        },
    }
}

/// The first failure of the checks, in order: the workspace exists; export
/// mode has a selection; each select field; each filter; each order-by field.
pub open spec fn validate_model(spec: SpecView, ws: Option<CatalogView>) -> Option<SpecErrorView> {
    match ws {
        None => Some(SpecErrorView::WorkspaceNotFound(spec.workspace)),
        Some(c) => if spec.mode == Mode::Export && spec.select.len() == 0 {
            Some(SpecErrorView::ExportSelectEmpty)
        } else {
            match first_error(spec.select, |s: SelectView| select_error(c.fields, s)) {
                Some(e) => Some(e),
                None => match first_error(spec.filters, |f: FilterView| filter_error(c.fields, f)) {
                    Some(e) => Some(e),
                    None => first_error(spec.order_by, |o: OrderItemView| order_error(c.fields, o)),
                },
            }
        },
    }
}

pub open spec fn catalog_of(ws: Option<&WorkspaceSchema>) -> Option<CatalogView> {
    match ws {
        Some(w) => Some(w@),
        None => None,
    }
}

/// Whether `op` may be applied to a field of type `t`.
pub fn validate_filter_op(t: FieldType, op: FilterOp) -> (r: bool)
    ensures
        r == op_allowed(t, op),
{
    match op {
        FilterOp::Eq => !matches!(t, FieldType::StringArray),
        FilterOp::In => matches!(t, FieldType::String | FieldType::Number | FieldType::Date | FieldType::Enum),
        FilterOp::Overlaps => matches!(t, FieldType::StringArray),
        FilterOp::Gte | FilterOp::Lte => matches!(t, FieldType::Number | FieldType::Date),
    }
}

fn element_fits_exec(t: FieldType, x: &FilterScalar) -> (r: bool)
    ensures
        r == element_fits(t, x@),
{
    if matches!(t, FieldType::Number) {
        matches!(x, FilterScalar::Number(_))
    } else {
        matches!(x, FilterScalar::Str(_))
    }
}

/// Why `v` does not fit operator `op` on a field of type `t`, if it does not.
pub fn validate_filter_value(t: FieldType, op: FilterOp, v: &FilterValue) -> (r: Option<&'static str>)
    ensures
        match r {
            Some(s) => value_problem(t, op, v@) == Some(s@),
            None => value_problem(t, op, v@) is None,
        },
{
    match op {
        FilterOp::In => match v {
            FilterValue::Array(xs) => {
                if xs.len() == 0 {
                    return Some("array for 'in' must not be empty");
                }
                let mut i: usize = 0;
                while i < xs.len()
                    invariant
                        v@ == ValueView::Array(xs@.map_values(|x: FilterScalar| x@)),
                        xs@.len() > 0,
                        op == FilterOp::In,
                        i <= xs@.len(),
                        forall|k: int| 0 <= k < i ==> element_fits(t, #[trigger] xs@[k]@),
                    decreases xs@.len() - i,
                {
                    if !element_fits_exec(t, &xs[i]) {
                        let ghost xv = xs@.map_values(|x: FilterScalar| x@);
                        assert(!element_fits(t, xv[i as int]));
                        return Some("array for 'in' holds a value of another type");
                    }
                    i += 1;
                }
                let ghost xv = xs@.map_values(|x: FilterScalar| x@);
                assert(forall|k: int| 0 <= k < xv.len() ==> element_fits(t, #[trigger] xv[k])) by {
                    assert(forall|k: int| 0 <= k < xv.len() ==> xv[k] == #[trigger] xs@[k]@);
                }
                None
            },
            _ => Some("expected array for 'in'"),
        },
        FilterOp::Overlaps => match v {
            FilterValue::Array(xs) => {
                if xs.len() == 0 {
                    return Some("array for 'overlaps' must not be empty");
                }
                let mut i: usize = 0;
                while i < xs.len()
                    invariant
                        v@ == ValueView::Array(xs@.map_values(|x: FilterScalar| x@)),
                        xs@.len() > 0,
                        op == FilterOp::Overlaps,
                        i <= xs@.len(),
                        forall|k: int| 0 <= k < i ==> (#[trigger] xs@[k]@) is Str,
                    decreases xs@.len() - i,
                {
                    if !matches!(&xs[i], FilterScalar::Str(_)) {
                        let ghost xv = xs@.map_values(|x: FilterScalar| x@);
                        assert(!(xv[i as int] is Str));
                        return Some("array for 'overlaps' must hold strings");
                    }
                    i += 1;
                }
                let ghost xv = xs@.map_values(|x: FilterScalar| x@);
                assert(forall|k: int| 0 <= k < xv.len() ==> (#[trigger] xv[k]) is Str) by {
                    assert(forall|k: int| 0 <= k < xv.len() ==> xv[k] == #[trigger] xs@[k]@);
                }
                None
            },
            _ => Some("expected array for 'overlaps'"),
        },
        _ => {
            let fits = match t {
                FieldType::Bool => matches!(v, FilterValue::Bool(_)),
                FieldType::Number => matches!(v, FilterValue::Number(_)),
                _ => matches!(v, FilterValue::Str(_)),
            };
            if fits {
                None
            } else {
                Some(
                    match t {
                        FieldType::Bool => "expected boolean",
                        FieldType::Number => "expected number",
                        FieldType::Date => "expected date string",
                        _ => "expected string",
                    },
                )
            }
        },
    }
}

fn check_filter(ws: &WorkspaceSchema, f: &crate::report_spec::Filter) -> (r: Option<SpecError>)
    ensures
        match r {
            Some(e) => filter_error(ws@.fields, f@) == Some(e@),
            None => filter_error(ws@.fields, f@) is None,
        },
{
    match ws.lookup(f.field.as_str()) {
        None => Some(SpecError::UnknownField { field: f.field.clone(), context: FieldContext::Filters }),
        Some(d) => {
            if !d.filterable {
                Some(SpecError::NotFilterable { field: f.field.clone() })
            } else if !validate_filter_op(d.field_type, f.op) {
                Some(SpecError::InvalidOperator { field: f.field.clone(), op: f.op, field_type: d.field_type })
            } else {
                match validate_filter_value(d.field_type, f.op, &f.value) {
                    Some(reason) => Some(
                        SpecError::InvalidValue { field: f.field.clone(), reason: reason.to_owned() },
                    ),
                    None => None,
                }
            }
        },
    }
}

/// Checks a spec against a workspace's field catalog, stopping at the first
/// failure (see `validate_model` for the order).
pub fn validate_report_spec(spec: &ReportSpec, ws: Option<&WorkspaceSchema>) -> (r: Result<(), SpecError>)
    ensures
        match r {
            Ok(()) => validate_model(spec@, catalog_of(ws)) is None,
            Err(e) => validate_model(spec@, catalog_of(ws)) == Some(e@),
        },
{
    let cat = match ws {
        Some(w) => w,
        None => {
            return Err(SpecError::WorkspaceNotFound(spec.workspace.clone()));
        },
    };
    let ghost fields = cat@.fields;
    if matches!(spec.mode, Mode::Export) && spec.select.len() == 0 {
        return Err(SpecError::ExportSelectEmpty);
    }
    let ghost sel = spec@.select;
    let ghost fs = |s: SelectView| select_error(fields, s);
    let mut i: usize = 0;
    proof {
        lemma_first_error_start(sel, fs);
    }
    while i < spec.select.len()
        invariant
            sel == spec@.select,
            fields == cat@.fields,
            catalog_of(ws) == Some(cat@),
            !(spec@.mode == Mode::Export && sel.len() == 0),
            fs == (|s: SelectView| select_error(fields, s)),
            i <= sel.len(),
            first_error(sel, fs) == first_error(sel.skip(i as int), fs),
        decreases sel.len() - i,
    {
        proof {
            lemma_first_error_step(sel, fs, i as int);
        }
        let item = &spec.select[i];
        match cat.lookup(item.field.as_str()) {
            None => {
                return Err(SpecError::UnknownField { field: item.field.clone(), context: FieldContext::Select });
            },
            Some(d) => {
                if !d.selectable {
                    return Err(SpecError::NotSelectable { field: item.field.clone() });
                }
            },
        }
        i += 1;
    }
    proof {
        lemma_first_error_end(sel, fs);
    }
    let ghost fil = spec@.filters;
    let ghost ff = |f: FilterView| filter_error(fields, f);
    let mut i: usize = 0;
    proof {
        lemma_first_error_start(fil, ff);
    }
    while i < spec.filters.len()
        invariant
            fil == spec@.filters,
            fields == cat@.fields,
            catalog_of(ws) == Some(cat@),
            !(spec@.mode == Mode::Export && spec@.select.len() == 0),
            first_error(spec@.select, |s: SelectView| select_error(fields, s)) is None,
            ff == (|f: FilterView| filter_error(fields, f)),
            i <= fil.len(),
            first_error(fil, ff) == first_error(fil.skip(i as int), ff),
        decreases fil.len() - i,
    {
        proof {
            lemma_first_error_step(fil, ff, i as int);
        }
        match check_filter(cat, &spec.filters[i]) {
            Some(e) => {
                return Err(e);
            },
            None => {},
        }
        i += 1;
    }
    proof {
        lemma_first_error_end(fil, ff);
    }
    let ghost ord = spec@.order_by;
    let ghost fo = |o: OrderItemView| order_error(fields, o);
    let mut i: usize = 0;
    proof {
        lemma_first_error_start(ord, fo);
    }
    while i < spec.order_by.len()
        invariant
            ord == spec@.order_by,
            fields == cat@.fields,
            catalog_of(ws) == Some(cat@),
            !(spec@.mode == Mode::Export && spec@.select.len() == 0),
            first_error(spec@.select, |s: SelectView| select_error(fields, s)) is None,
            first_error(spec@.filters, |f: FilterView| filter_error(fields, f)) is None,
            fo == (|o: OrderItemView| order_error(fields, o)),
            i <= ord.len(),
            first_error(ord, fo) == first_error(ord.skip(i as int), fo),
        decreases ord.len() - i,
    {
        proof {
            lemma_first_error_step(ord, fo, i as int);
        }
        let item = &spec.order_by[i];
        match cat.lookup(item.field.as_str()) {
            None => {
                return Err(SpecError::UnknownField { field: item.field.clone(), context: FieldContext::OrderBy });
            },
            Some(d) => {
                if !d.sortable {
                    return Err(SpecError::NotSortable { field: item.field.clone() });
                }
            },
        }
        i += 1;
    }
    proof {
        lemma_first_error_end(ord, fo);
    }
    Ok(())
}

} // verus!
