//! The schema-card model of a workspace: entities, join graph, derived fields
//! and naming conventions, with the view that resolution and compilation read.
use vstd::prelude::*;

verus! {

/// A workspace's whole catalog, loaded once and read-only afterwards.
#[derive(Debug, Clone)]
pub struct SchemaCards {
    pub version: String,
    pub database: String,
    pub workspace: String,
    pub entities: Vec<EntityCard>,
    pub join_graph: JoinGraph,
    pub derived_fields: Vec<DerivedField>,
    pub conventions: Conventions,
}

/// Names of the profile, version and soft-delete columns, and the "latest" views.
#[derive(Debug, Clone)]
pub struct Conventions {
    pub profile_column: String,
    pub version_column: String,
    pub deleted_column: String,
    pub latest_views: Vec<String>,
    pub notes: Vec<String>,
}

/// A table, view or materialized view.
#[derive(Debug, Clone)]
pub struct EntityCard {
    pub name: String,
    pub kind: EntityKind,
    pub description: String,
    pub primary_key: Vec<String>,
    pub columns: Vec<ColumnCard>,
    pub json_paths: Vec<JsonPathCard>,
    pub common_filters: Vec<FilterHint>,
    pub tags: Vec<String>,
}

#[derive(Debug, Clone, Copy, PartialEq, Eq, Structural)]
pub enum EntityKind {
    Table,
    MaterializedView,
    View,
}

#[derive(Debug, Clone)]
pub struct ColumnCard {
    pub name: String,
    pub data_type: String,
    pub nullable: bool,
    pub description: String,
    pub pii: bool,
}

/// A sub-path of a JSON column.
#[derive(Debug, Clone)]
pub struct JsonPathCard {
    pub column: String,
    pub path: String,
    pub data_type: String,
    pub description: String,
}

/// A commonly used filter of an entity.
#[derive(Debug, Clone)]
pub struct FilterHint {
    pub name: String,
    pub sql: String,
    pub description: String,
}

/// Declared entities and the directed edges between them.
#[derive(Debug, Clone)]
pub struct JoinGraph {
    pub nodes: Vec<String>,
    pub edges: Vec<JoinEdge>,
}

/// A declared join: `on` holds predicates written `entity.column = entity.column`;
/// `join_type` is `inner` or `left`.
#[derive(Debug, Clone)]
pub struct JoinEdge {
    pub from: String,
    pub to: String,
    pub join_type: String,
    pub on: Vec<String>,
    pub cardinality: String,
    pub safe: bool,
    pub notes: Vec<String>,
}

/// A field computed by a SQL template over entity-qualified columns; the first
/// dependency names its owning entity.
#[derive(Debug, Clone)]
pub struct DerivedField {
    pub name: String,
    pub sql: String,
    pub description: String,
    pub depends_on: Vec<String>,
}

/// The entry point of a workspace: where its schema cards are.
#[derive(Debug, Clone)]
pub struct WorkspaceIndex {
    pub workspace: String,
    pub description: String,
    pub schema_cards_path: String,
    pub exemplar_sql_dir: String,
    pub tags: Vec<String>,
    pub entities: Vec<String>,
}

pub struct EntityView {
    pub name: Seq<char>,
    pub columns: Seq<Seq<char>>,
}

pub struct EdgeView {
    pub from: Seq<char>,
    pub to: Seq<char>,
    pub join_type: Seq<char>,
    pub on: Seq<Seq<char>>,
    pub safe: bool,
}

pub struct DerivedView {
    pub name: Seq<char>,
    pub sql: Seq<char>,
    pub depends_on: Seq<Seq<char>>,
}

/// What resolution and compilation read of the cards.
pub struct CardsView {
    pub workspace: Seq<char>,
    pub entities: Seq<EntityView>,
    pub nodes: Seq<Seq<char>>,
    pub edges: Seq<EdgeView>,
    pub derived: Seq<DerivedView>,
}

pub open spec fn strings_view(v: Seq<String>) -> Seq<Seq<char>> {
    v.map_values(|s: String| s@)
}

impl View for EntityCard {
    type V = EntityView;

    open spec fn view(&self) -> EntityView {
        EntityView { name: self.name@, columns: self.columns@.map_values(|c: ColumnCard| c.name@) }
    }
}

impl View for JoinEdge {
    type V = EdgeView;

    open spec fn view(&self) -> EdgeView {
        EdgeView {
            from: self.from@,
            to: self.to@,
            join_type: self.join_type@,
            on: strings_view(self.on@),
            safe: self.safe,
        }
    }
}

impl View for DerivedField {
    type V = DerivedView;

    open spec fn view(&self) -> DerivedView {
        DerivedView { name: self.name@, sql: self.sql@, depends_on: strings_view(self.depends_on@) }
    }
}

impl View for SchemaCards {
    type V = CardsView;

    open spec fn view(&self) -> CardsView {
        CardsView {
            workspace: self.workspace@,
            entities: self.entities@.map_values(|e: EntityCard| e@),
            nodes: strings_view(self.join_graph.nodes@),
            edges: self.join_graph.edges@.map_values(|e: JoinEdge| e@),
            derived: self.derived_fields@.map_values(|d: DerivedField| d@),
        }
    }
}

} // verus!
