//! A loaded workspace: its index and its schema cards, read-only once built.
use vstd::prelude::*;
use crate::cards::{CardsView, EntityCard, EntityView, SchemaCards, WorkspaceIndex};
use crate::text::str_eq;

verus! {

/// A workspace's index and schema cards. Nothing in it changes after it is
/// built, so one registry can serve any number of compilations.
#[derive(Debug, Clone)]
pub struct SchemaRegistry {
    pub index: WorkspaceIndex,
    pub cards: SchemaCards,
}

pub struct RegistryView {
    pub workspace: Seq<char>,
    pub cards: CardsView,
}

impl View for SchemaRegistry {
    type V = RegistryView;

    open spec fn view(&self) -> RegistryView {
        RegistryView { workspace: self.index.workspace@, cards: self.cards@ }
    }
}

/// Why a workspace could not be loaded.
#[derive(Debug, Clone)]
pub enum RegistryError {
    /// A resource does not exist.
    ResourceNotFound { path: String },
    /// A resource exists but could not be read.
    ResourceUnreadable { path: String },
    /// A resource could not be parsed, or breaks the catalog's invariants.
    MalformedDocument { path: String, reason: String },
}

/// Column names are unique within the entity.
pub open spec fn columns_unique(e: EntityView) -> bool {
    forall|i: int, j: int|
        0 <= i < j < e.columns.len() ==> (#[trigger] e.columns[i]) != (#[trigger] e.columns[j])
}

pub open spec fn declares_entity(c: CardsView, name: Seq<char>) -> bool {
    exists|k: int| 0 <= k < c.entities.len() && (#[trigger] c.entities[k]).name == name
}

/// The invariants of a catalog: column names unique within each entity, and
/// every edge between declared entities.
pub open spec fn cards_wf(c: CardsView) -> bool {
    &&& forall|k: int| 0 <= k < c.entities.len() ==> columns_unique(#[trigger] c.entities[k])
    &&& forall|k: int|
        0 <= k < c.edges.len() ==> declares_entity(c, (#[trigger] c.edges[k]).from) && declares_entity(
            c,
            c.edges[k].to,
        )
}

fn columns_unique_exec(e: &EntityCard) -> (r: bool)
    ensures
        r == columns_unique(e@),
{
    let ghost cs = e@.columns;
    let n = e.columns.len();
    let mut i: usize = 0;
    while i < n
        invariant
            cs == e@.columns,
            n == cs.len(),
            i <= n,
            forall|a: int, b: int| 0 <= a < b < cs.len() && a < i ==> (#[trigger] cs[a]) != (#[trigger] cs[b]),
        decreases n - i,
    {
        let mut j: usize = i + 1;
        while j < n
            invariant
                cs == e@.columns,
                n == cs.len(),
                i < n,
                i < j <= n,
                forall|a: int, b: int| 0 <= a < b < cs.len() && a < i ==> (#[trigger] cs[a]) != (#[trigger] cs[b]),
                forall|b: int| i < b < j ==> cs[i as int] != #[trigger] cs[b],
            decreases n - j,
        {
            if str_eq(e.columns[i].name.as_str(), e.columns[j].name.as_str()) {
                assert(cs[i as int] == cs[j as int]);
                return false;
            }
            j += 1;
        }
        i += 1;
    }
    true
}

fn declares_entity_exec(cards: &SchemaCards, name: &str) -> (r: bool)
    ensures
        r == declares_entity(cards@, name@),
{
    let ghost es = cards@.entities;
    let mut k: usize = 0;
    while k < cards.entities.len()
        invariant
            es == cards@.entities,
            k <= es.len(),
            forall|m: int| 0 <= m < k ==> (#[trigger] es[m]).name != name@,
        decreases es.len() - k,
    {
        if str_eq(cards.entities[k].name.as_str(), name) {
            assert(es[k as int].name == name@);
            return true;
        }
        k += 1;
    }
    false
}

/// Whether the catalog keeps its invariants (see `cards_wf`).
pub fn check_cards(cards: &SchemaCards) -> (r: bool)
    ensures
        r == cards_wf(cards@),
{
    let ghost c = cards@;
    let mut k: usize = 0;
    while k < cards.entities.len()
        invariant
            c == cards@,
            k <= c.entities.len(),
            forall|m: int| 0 <= m < k ==> columns_unique(#[trigger] c.entities[m]),
        decreases c.entities.len() - k,
    {
        if !columns_unique_exec(&cards.entities[k]) {
            assert(!columns_unique(c.entities[k as int]));
            return false;
        }
        k += 1;
    }
    let mut k: usize = 0;
    while k < cards.join_graph.edges.len()
        invariant
            c == cards@,
            k <= c.edges.len(),
            forall|m: int| 0 <= m < c.entities.len() ==> columns_unique(#[trigger] c.entities[m]),
            forall|m: int|
                0 <= m < k ==> declares_entity(c, (#[trigger] c.edges[m]).from) && declares_entity(
                    c,
                    c.edges[m].to,
                ),
        decreases c.edges.len() - k,
    {
        let e = &cards.join_graph.edges[k];
        assert(c.edges[k as int] == e@);
        if !declares_entity_exec(cards, e.from.as_str()) || !declares_entity_exec(cards, e.to.as_str()) {
            return false;
        }
        k += 1;
    }
    true
}

impl SchemaRegistry {
    /// A registry from a parsed index and cards; refused as malformed where
    /// the cards break their invariants.
    pub fn from_parts(index: WorkspaceIndex, cards: SchemaCards) -> (r: Result<SchemaRegistry, RegistryError>)
        ensures
            cards_wf(cards@) ==> (r matches Ok(reg) && reg@.cards == cards@ && reg.index.workspace@
                == index.workspace@),
            !cards_wf(cards@) ==> (r matches Err(RegistryError::MalformedDocument { path, .. }) && path@
                == index.schema_cards_path@),
    {
        if check_cards(&cards) {
            Ok(SchemaRegistry { index, cards })
        } else {
            let path = index.schema_cards_path.clone();
            Err(
                RegistryError::MalformedDocument {
                    path,
                    reason: String::from_str("duplicate column or edge between undeclared entities"),
                },
            )
        }
    }
}

} // verus!
