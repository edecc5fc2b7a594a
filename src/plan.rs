//! The intermediate plan: the resolved, alias-qualified query that the
//! compiler produces and the renderer consumes, with its mathematical model.
use vstd::prelude::*;

verus! {

/// A table of the query and the alias it is known by.
#[derive(Debug, Clone)]
pub struct PlanTable {
    pub name: String,
    pub alias: String,
}

/// Join kind.
#[derive(Debug, Clone, Copy, PartialEq, Eq, Structural)]
pub enum JoinType {
    Inner,
    Left,
}

/// One equality predicate of a join, `left_field = right_field`.
#[derive(Debug, Clone)]
pub struct JoinCondition {
    pub left_field: String,
    pub right_field: String,
}

/// A join from the table aliased `left_alias` to the one aliased `right_alias`.
#[derive(Debug, Clone)]
pub struct PlanJoin {
    pub left_alias: String,
    pub right_alias: String,
    pub join_type: JoinType,
    pub conditions: Vec<JoinCondition>,
}

/// A projected column: the field it stands for, its SQL expression and an
/// optional output alias.
#[derive(Debug, Clone)]
pub struct PlanProjection {
    pub field: String,
    pub expression: String,
    pub alias: Option<String>,
}

/// A fully rendered predicate of the WHERE clause.
#[derive(Debug, Clone)]
pub struct PlanFilter {
    pub expression: String,
}

/// Sort direction.
#[derive(Debug, Clone, Copy, PartialEq, Eq, Structural)]
pub enum SortDirection {
    Asc,
    Desc,
}

/// A sort key of the ORDER BY clause.
#[derive(Debug, Clone)]
pub struct PlanOrder {
    pub expression: String,
    pub direction: SortDirection,
}

/// The whole plan.
#[derive(Debug, Clone)]
pub struct IntermediatePlan {
    pub workspace: String,
    pub tables: Vec<PlanTable>,
    pub joins: Vec<PlanJoin>,
    pub projections: Vec<PlanProjection>,
    pub filters: Vec<PlanFilter>,
    pub order_by: Vec<PlanOrder>,
    pub limit: Option<u64>,
    pub offset: Option<u64>,
}

pub struct TableView {
    pub name: Seq<char>,
    pub alias: Seq<char>,
}

pub struct CondView {
    pub left: Seq<char>,
    pub right: Seq<char>,
}

pub struct JoinView {
    pub left_alias: Seq<char>,
    pub right_alias: Seq<char>,
    pub join_type: JoinType,
    pub conditions: Seq<CondView>,
}

pub struct ProjectionView {
    pub field: Seq<char>,
    pub expression: Seq<char>,
    pub alias: Option<Seq<char>>,
}

pub struct OrderView {
    pub expression: Seq<char>,
    pub direction: SortDirection,
}

pub struct PlanView {
    pub workspace: Seq<char>,
    pub tables: Seq<TableView>,
    pub joins: Seq<JoinView>,
    pub projections: Seq<ProjectionView>,
    pub filters: Seq<Seq<char>>,
    pub order_by: Seq<OrderView>,
    pub limit: Option<u64>,
    pub offset: Option<u64>,
}

pub open spec fn opt_view(o: Option<String>) -> Option<Seq<char>> {
    match o {
        Some(s) => Some(s@),
        None => None,
    }
}

impl View for PlanTable {
    type V = TableView;

    open spec fn view(&self) -> TableView {
        TableView { name: self.name@, alias: self.alias@ }
    }
}

impl View for JoinCondition {
    type V = CondView;

    open spec fn view(&self) -> CondView {
        CondView { left: self.left_field@, right: self.right_field@ }
    }
}

impl View for PlanJoin {
    type V = JoinView;

    open spec fn view(&self) -> JoinView {
        JoinView {
            left_alias: self.left_alias@,
            right_alias: self.right_alias@,
            join_type: self.join_type,
            conditions: self.conditions@.map_values(|c: JoinCondition| c@),
        }
    }
}

impl View for PlanProjection {
    type V = ProjectionView;

    open spec fn view(&self) -> ProjectionView {
        ProjectionView { field: self.field@, expression: self.expression@, alias: opt_view(self.alias) }
    }
}

impl View for PlanOrder {
    type V = OrderView;

    open spec fn view(&self) -> OrderView {
        OrderView { expression: self.expression@, direction: self.direction }
    }
}

impl View for IntermediatePlan {
    type V = PlanView;

    open spec fn view(&self) -> PlanView {
        PlanView {
            workspace: self.workspace@,
            tables: self.tables@.map_values(|t: PlanTable| t@),
            joins: self.joins@.map_values(|j: PlanJoin| j@),
            projections: self.projections@.map_values(|p: PlanProjection| p@),
            filters: self.filters@.map_values(|f: PlanFilter| f.expression@),
            order_by: self.order_by@.map_values(|o: PlanOrder| o@),
            limit: self.limit,
            offset: self.offset,
        }
    }
}

} // verus!
