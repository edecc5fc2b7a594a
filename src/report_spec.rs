//! The report specification: what to select, filter, order and paginate.
use vstd::prelude::*;
use crate::plan::SortDirection;

verus! {

/// Execution mode: exploratory preview, or export (which needs a selection).
#[derive(Debug, Clone, Copy, PartialEq, Eq, Structural)]
pub enum Mode {
    Preview,
    Export,
}

/// A selected field and its optional output alias.
#[derive(Debug, Clone)]
pub struct SelectItem {
    pub field: String,
    pub alias: Option<String>,
}

/// Filter operator.
#[derive(Debug, Clone, Copy, PartialEq, Eq, Structural)]
pub enum FilterOp {
    Eq,
    In,
    Overlaps,
    Gte,
    Lte,
}

/// An element of an array filter value. Numbers keep their literal text;
/// `Nested` stands for an array or object inside the array.
#[derive(Debug, Clone)]
pub enum FilterScalar {
    Null,
    Bool(bool),
    Number(String),
    Str(String),
    Nested,
}

/// A filter value as the JSON document gave it. Numbers keep their literal
/// text; the fields of an object are not needed by any rule, so `Object`
/// carries none.
#[derive(Debug, Clone)]
pub enum FilterValue {
    Null,
    Bool(bool),
    Number(String),
    Str(String),
    Array(Vec<FilterScalar>),
    Object,
}

/// One filter of a spec.
#[derive(Debug, Clone)]
pub struct Filter {
    pub field: String,
    pub op: FilterOp,
    pub value: FilterValue,
}

/// One sort key of a spec.
#[derive(Debug, Clone)]
pub struct OrderItem {
    pub field: String,
    pub direction: SortDirection,
}

/// Requested page, as signed numbers; negative values are rejected on compile.
#[derive(Debug, Clone, Copy, PartialEq, Eq, Structural)]
pub struct PaginationSpec {
    pub limit: Option<i64>,
    pub offset: Option<i64>,
}

/// A report specification.
#[derive(Debug, Clone)]
pub struct ReportSpec {
    pub workspace: String,
    pub select: Vec<SelectItem>,
    pub filters: Vec<Filter>,
    pub order_by: Vec<OrderItem>,
    pub mode: Mode,
    pub pagination: Option<PaginationSpec>,
}

pub enum ScalarView {
    Null,
    Bool(bool),
    Number(Seq<char>),
    Str(Seq<char>),
    Nested,
}

pub enum ValueView {
    Null,
    Bool(bool),
    Number(Seq<char>),
    Str(Seq<char>),
    Array(Seq<ScalarView>),
    Object,
}

pub struct SelectView {
    pub field: Seq<char>,
    pub alias: Option<Seq<char>>,
}

pub struct FilterView {
    pub field: Seq<char>,
    pub op: FilterOp,
    pub value: ValueView,
}

pub struct OrderItemView {
    pub field: Seq<char>,
    pub direction: SortDirection,
}

pub struct SpecView {
    pub workspace: Seq<char>,
    pub select: Seq<SelectView>,
    pub filters: Seq<FilterView>,
    pub order_by: Seq<OrderItemView>,
    pub mode: Mode,
    pub pagination: Option<PaginationSpec>,
}

impl View for FilterScalar {
    type V = ScalarView;

    open spec fn view(&self) -> ScalarView {
        match self {
            FilterScalar::Null => ScalarView::Null,
            FilterScalar::Bool(b) => ScalarView::Bool(*b),
            FilterScalar::Number(n) => ScalarView::Number(n@),
            FilterScalar::Str(s) => ScalarView::Str(s@),
            FilterScalar::Nested => ScalarView::Nested,
        }
    }
}

impl View for FilterValue {
    type V = ValueView;

    open spec fn view(&self) -> ValueView {
        match self {
            FilterValue::Null => ValueView::Null,
            FilterValue::Bool(b) => ValueView::Bool(*b),
            FilterValue::Number(n) => ValueView::Number(n@),
            FilterValue::Str(s) => ValueView::Str(s@),
            FilterValue::Array(a) => ValueView::Array(a@.map_values(|x: FilterScalar| x@)),
            FilterValue::Object => ValueView::Object,
        }
    }
}

impl View for SelectItem {
    type V = SelectView;

    open spec fn view(&self) -> SelectView {
        SelectView {
            field: self.field@,
            alias: match self.alias {
                Some(a) => Some(a@),
                None => None,
            },
        }
    }
}

impl View for Filter {
    type V = FilterView;

    open spec fn view(&self) -> FilterView {
        FilterView { field: self.field@, op: self.op, value: self.value@ }
    }
}

impl View for OrderItem {
    type V = OrderItemView;

    open spec fn view(&self) -> OrderItemView {
        OrderItemView { field: self.field@, direction: self.direction }
    }
}

impl View for ReportSpec {
    type V = SpecView;

    open spec fn view(&self) -> SpecView {
        SpecView {
            workspace: self.workspace@,
            select: self.select@.map_values(|s: SelectItem| s@),
            filters: self.filters@.map_values(|f: Filter| f@),
            order_by: self.order_by@.map_values(|o: OrderItem| o@),
            mode: self.mode,
            pagination: self.pagination,
        }
    }
}

} // verus!
