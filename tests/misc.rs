use querygpt_core::agents::{classify, plan_tables, prune};
use querygpt_core::cards::{Conventions, JoinEdge, JoinGraph, SchemaCards};
use querygpt_core::join_graph::{assert_edge_safe, find_edge, EdgeError};
use querygpt_core::static_check::parse_ok;
use querygpt_core::workspaces::campaigns_offers_schema;

fn cards_with_edges(edges: Vec<JoinEdge>) -> SchemaCards {
    SchemaCards {
        version: "1".into(),
        database: "db".into(),
        workspace: "campaigns_offers".into(),
        entities: vec![],
        join_graph: JoinGraph { nodes: vec![], edges },
        derived_fields: vec![],
        conventions: Conventions {
            profile_column: "profile".into(),
            version_column: "version".into(),
            deleted_column: "deleted".into(),
            latest_views: vec![],
            notes: vec![],
        },
    }
}

fn edge(from: &str, to: &str, safe: bool) -> JoinEdge {
    JoinEdge {
        from: from.into(),
        to: to.into(),
        join_type: "inner".into(),
        on: vec![],
        cardinality: "1:n".into(),
        safe,
        notes: vec![],
    }
}

#[test]
fn edges_are_found_and_checked() {
    let cards = cards_with_edges(vec![edge("a", "b", true), edge("b", "c", false)]);
    assert_eq!(find_edge(&cards, "a", "b").map(|e| e.to.clone()), Some("b".to_string()));
    assert!(find_edge(&cards, "b", "a").is_none());
    assert_eq!(assert_edge_safe(&cards, "a", "b"), Ok(()));
    assert_eq!(assert_edge_safe(&cards, "b", "c"), Err(EdgeError::Unsafe));
    assert_eq!(assert_edge_safe(&cards, "c", "a"), Err(EdgeError::Missing));
}

#[test]
fn static_check_accepts_and_rejects() {
    assert!(parse_ok("SELECT o.id\nFROM offers_latest o\nJOIN campaign_offers co ON o.id = co.offer_id\nORDER BY o.id ASC").is_ok());
    let err = parse_ok("SELEC FROM WHERE").unwrap_err();
    assert!(!err.message.is_empty());
}

#[test]
fn planning_stages_give_fixed_answers() {
    let p = prune(&["offer_id".to_string()]);
    assert!(p.entities.is_empty() && p.columns.is_empty());
    let i = classify("show prepaid offers in APAC");
    assert_eq!(i.workspace, "campaigns_offers");
    assert_eq!(i.task, "export");
    let t = plan_tables();
    assert_eq!(t.entities.len(), 6);
    assert_eq!(t.entities[0], "offers_latest");
    assert_eq!(t.joins.len(), 5);
    assert_eq!(t.notes.len(), 1);
}

#[test]
fn catalog_lookup() {
    let ws = campaigns_offers_schema();
    assert_eq!(ws.workspace, "campaigns_offers");
    assert_eq!(ws.fields.len(), 11);
    let d = ws.lookup("promo_type").unwrap();
    assert!(!d.selectable && d.filterable && !d.sortable);
    assert!(ws.lookup("missing").is_none());
}
