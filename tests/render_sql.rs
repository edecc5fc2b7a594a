use querygpt_core::join_normalize::normalize_plan_joins;
use querygpt_core::plan::{
    IntermediatePlan, JoinCondition, JoinType, PlanFilter, PlanJoin, PlanOrder, PlanProjection,
    PlanTable, SortDirection,
};
use querygpt_core::render::{is_aggregate_expr, render_sql, RenderError};

fn table(name: &str, alias: &str) -> PlanTable {
    PlanTable { name: name.into(), alias: alias.into() }
}

fn cond(l: &str, r: &str) -> JoinCondition {
    JoinCondition { left_field: l.into(), right_field: r.into() }
}

fn join(l: &str, r: &str, conditions: Vec<JoinCondition>) -> PlanJoin {
    PlanJoin { left_alias: l.into(), right_alias: r.into(), join_type: JoinType::Inner, conditions }
}

fn empty_plan(tables: Vec<PlanTable>, joins: Vec<PlanJoin>) -> IntermediatePlan {
    IntermediatePlan {
        workspace: "campaigns_offers".into(),
        tables,
        joins,
        projections: vec![],
        filters: vec![],
        order_by: vec![],
        limit: None,
        offset: None,
    }
}

fn aggregate_plan() -> IntermediatePlan {
    IntermediatePlan {
        workspace: "campaigns_offers".into(),
        tables: vec![
            PlanTable { name: "offers_latest".into(), alias: "o".into() },
            PlanTable { name: "offer_products".into(), alias: "opr".into() },
        ],
        joins: vec![PlanJoin {
            left_alias: "o".into(),
            right_alias: "opr".into(),
            join_type: JoinType::Inner,
            conditions: vec![
                JoinCondition { left_field: "o.id".into(), right_field: "opr.offer_id".into() },
                JoinCondition { left_field: "o.profile".into(), right_field: "opr.profile".into() },
                JoinCondition { left_field: "o.version".into(), right_field: "opr.version".into() },
            ],
        }],
        projections: vec![
            PlanProjection { field: "offer_id".into(), expression: "o.id".into(), alias: None },
            PlanProjection {
                field: "products_csv".into(),
                expression: "STRING_AGG(DISTINCT opr.product_id, ',')".into(),
                alias: None,
            },
        ],
        filters: vec![],
        order_by: vec![],
        limit: None,
        offset: None,
    }
}

#[test]
fn renderer_is_deterministic_given_same_plan() {
    let plan_a = IntermediatePlan {
        workspace: "campaigns_offers".to_string(),
        tables: vec![
            PlanTable { name: "offers_latest".into(), alias: "o".into() },
            PlanTable { name: "campaign_offers".into(), alias: "co".into() },
        ],
        joins: vec![PlanJoin {
            left_alias: "o".into(),
            right_alias: "co".into(),
            join_type: JoinType::Inner,
            conditions: vec![
                JoinCondition { left_field: "o.id".into(), right_field: "co.offer_id".into() },
                JoinCondition { left_field: "o.profile".into(), right_field: "co.profile".into() },
            ],
        }],
        projections: vec![],
        filters: vec![],
        order_by: vec![],
        limit: None,
        offset: None,
    };

    let plan_b = IntermediatePlan {
        tables: vec![
            PlanTable { name: "campaign_offers".into(), alias: "co".into() },
            PlanTable { name: "offers_latest".into(), alias: "o".into() },
        ],
        ..plan_a.clone()
    };

    let sql_a = render_sql(&plan_a).expect("render A");
    let sql_b = render_sql(&plan_b).expect("render B");

    assert_eq!(sql_a, sql_b, "SQL should be identical for semantically identical plans");
}

#[test]
fn group_by_added_when_aggregate_present() {
    let sql = render_sql(&aggregate_plan()).unwrap();
    assert_eq!(
        sql,
        "SELECT o.id,\n       STRING_AGG(DISTINCT opr.product_id, ',')\n\
         FROM offers_latest o\n\
         JOIN offer_products opr ON o.id = opr.offer_id AND o.profile = opr.profile AND o.version = opr.version\n\
         GROUP BY o.id"
    );
}

#[test]
fn full_query_with_group_by_and_order_by() {
    let plan = IntermediatePlan {
        order_by: vec![PlanOrder { expression: "o.id".into(), direction: SortDirection::Asc }],
        ..aggregate_plan()
    };
    let sql = render_sql(&plan).unwrap();
    assert_eq!(
        sql,
        "SELECT o.id,\n       STRING_AGG(DISTINCT opr.product_id, ',')\n\
         FROM offers_latest o\n\
         JOIN offer_products opr ON o.id = opr.offer_id AND o.profile = opr.profile AND o.version = opr.version\n\
         GROUP BY o.id\n\
         ORDER BY o.id ASC"
    );
}

#[test]
fn order_by_renders_in_plan_order() {
    let plan = IntermediatePlan {
        workspace: "campaigns_offers".into(),
        tables: vec![PlanTable { name: "offers_latest".into(), alias: "o".into() }],
        joins: vec![],
        projections: vec![PlanProjection { field: "offer_id".into(), expression: "o.id".into(), alias: None }],
        filters: vec![],
        order_by: vec![
            PlanOrder { expression: "o.id".into(), direction: SortDirection::Asc },
            PlanOrder { expression: "o.name".into(), direction: SortDirection::Desc },
        ],
        limit: None,
        offset: None,
    };
    let sql = render_sql(&plan).unwrap();
    assert_eq!(sql, "SELECT o.id\nFROM offers_latest o\nORDER BY o.id ASC,\n         o.name DESC");
}

#[test]
fn empty_projection_renders_select_one() {
    let sql = render_sql(&empty_plan(vec![table("offers_latest", "o")], vec![])).unwrap();
    assert_eq!(sql, "SELECT 1\nFROM offers_latest o");
}

#[test]
fn where_alias_limit_and_offset_render() {
    let plan = IntermediatePlan {
        projections: vec![PlanProjection {
            field: "offer_id".into(),
            expression: "o.id".into(),
            alias: Some("offer".into()),
        }],
        filters: vec![
            PlanFilter { expression: "o.status = 'PUBLISHED'".into() },
            PlanFilter { expression: "o.id IN ('a', 'b')".into() },
        ],
        limit: Some(100),
        offset: Some(200),
        ..empty_plan(vec![table("offers_latest", "o")], vec![])
    };
    let sql = render_sql(&plan).unwrap();
    assert_eq!(
        sql,
        "SELECT o.id AS offer\nFROM offers_latest o\nWHERE o.status = 'PUBLISHED'\n  AND o.id IN ('a', 'b')\nLIMIT 100\nOFFSET 200"
    );
}

#[test]
fn reordered_joins_render_identically() {
    let tables = vec![table("offers_latest", "o"), table("campaign_offers", "co"), table("campaigns_latest", "c")];
    let j1 = join("o", "co", vec![cond("o.id", "co.offer_id")]);
    let j2 = join("co", "c", vec![cond("co.campaign_id", "c.id")]);
    let a = render_sql(&empty_plan(tables.clone(), vec![j1.clone(), j2.clone()])).unwrap();
    let mut reversed = tables.clone();
    reversed.reverse();
    let b = render_sql(&empty_plan(reversed, vec![j2, j1])).unwrap();
    assert_eq!(a, b);
    assert_eq!(
        a,
        "SELECT 1\nFROM offers_latest o\nJOIN campaign_offers co ON o.id = co.offer_id\nJOIN campaigns_latest c ON co.campaign_id = c.id"
    );
}

#[test]
fn reversed_condition_is_normalized_on_render() {
    let plan = empty_plan(
        vec![table("offers_latest", "o"), table("campaign_offers", "co")],
        vec![join("o", "co", vec![cond("co.offer_id", "o.id")])],
    );
    let sql = render_sql(&plan).unwrap();
    assert_eq!(sql, "SELECT 1\nFROM offers_latest o\nJOIN campaign_offers co ON o.id = co.offer_id");
}

#[test]
fn left_join_renders_left_join() {
    let mut j = join("o", "co", vec![cond("o.id", "co.offer_id")]);
    j.join_type = JoinType::Left;
    let plan = empty_plan(vec![table("offers_latest", "o"), table("campaign_offers", "co")], vec![j]);
    let sql = render_sql(&plan).unwrap();
    assert_eq!(sql, "SELECT 1\nFROM offers_latest o\nLEFT JOIN campaign_offers co ON o.id = co.offer_id");
}

#[test]
fn disconnected_components_are_ordered() {
    let tables = vec![table("ta", "a"), table("tb", "b"), table("tc", "c"), table("td", "d")];
    let joins = vec![join("a", "b", vec![cond("a.x", "b.x")]), join("c", "d", vec![cond("c.y", "d.y")])];
    let sql = render_sql(&empty_plan(tables, joins)).unwrap();
    assert_eq!(sql, "SELECT 1\nFROM ta a\nJOIN tb b ON a.x = b.x\nJOIN td d ON c.y = d.y");
}

#[test]
fn no_root_table_is_an_error() {
    let plan = empty_plan(
        vec![table("ta", "a"), table("tb", "b")],
        vec![join("a", "b", vec![cond("a.x", "b.x")]), join("b", "a", vec![cond("b.x", "a.x")])],
    );
    assert!(matches!(render_sql(&plan), Err(RenderError::NoRootTable)));
    assert!(matches!(render_sql(&empty_plan(vec![], vec![])), Err(RenderError::NoRootTable)));
}

#[test]
fn unreachable_joins_are_an_error() {
    let plan = empty_plan(
        vec![table("ta", "a"), table("tb", "b"), table("tz", "z")],
        vec![join("a", "b", vec![cond("a.x", "b.x")]), join("b", "a", vec![cond("b.x", "a.x")])],
    );
    assert!(matches!(render_sql(&plan), Err(RenderError::UnorderableJoins)));
}

#[test]
fn ambiguous_condition_is_an_error() {
    let plan = empty_plan(
        vec![table("offers_latest", "o"), table("campaign_offers", "co")],
        vec![join("o", "co", vec![cond("x.a", "y.b")])],
    );
    match render_sql(&plan) {
        Err(RenderError::AmbiguousJoinCondition(c)) => {
            assert_eq!(c.left_field, "x.a");
            assert_eq!(c.right_field, "y.b");
        }
        other => panic!("unexpected: {:?}", other),
    }
}

#[test]
fn join_to_unknown_alias_is_an_error() {
    let plan = empty_plan(vec![table("offers_latest", "o")], vec![join("o", "zz", vec![cond("o.id", "zz.id")])]);
    match render_sql(&plan) {
        Err(RenderError::UnknownAlias(a)) => assert_eq!(a, "zz"),
        other => panic!("unexpected: {:?}", other),
    }
}

#[test]
fn aggregate_detection_ignores_case() {
    assert!(is_aggregate_expr("count(*)"));
    assert!(is_aggregate_expr("Array_Agg(x)"));
    assert!(is_aggregate_expr("SUM(o.total)"));
    assert!(!is_aggregate_expr("o.count"));
    assert!(!is_aggregate_expr("o.id"));
}

#[test]
fn normalize_plan_joins_swaps_reversed_conditions() {
    let joins = vec![join("o", "co", vec![cond("co.offer_id", "o.id"), cond("o.profile", "co.profile")])];
    let out = normalize_plan_joins(joins).unwrap();
    assert_eq!(out[0].conditions[0].left_field, "o.id");
    assert_eq!(out[0].conditions[0].right_field, "co.offer_id");
    assert_eq!(out[0].conditions[1].left_field, "o.profile");
    let bad = vec![join("o", "co", vec![cond("o.id", "p.id")])];
    assert!(normalize_plan_joins(bad).is_err());
}
