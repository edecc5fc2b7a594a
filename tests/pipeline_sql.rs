use querygpt_core::cards::{
    ColumnCard, Conventions, DerivedField, EntityCard, EntityKind, JoinEdge, JoinGraph, SchemaCards,
    WorkspaceIndex,
};
use querygpt_core::compile::{compile_report_spec, convert_pagination, CompileError};
use querygpt_core::pipeline::{compile_and_render, PipelineError};
use querygpt_core::plan::{JoinType, SortDirection};
use querygpt_core::registry::{RegistryError, SchemaRegistry};
use querygpt_core::render::render_sql;
use querygpt_core::report_spec::{
    Filter, FilterOp, FilterScalar, FilterValue, Mode, OrderItem, PaginationSpec, ReportSpec,
    SelectItem,
};
use querygpt_core::resolve::{check_shortcuts, resolve_entity};

fn entity(name: &str, columns: &[&str]) -> EntityCard {
    EntityCard {
        name: name.into(),
        kind: EntityKind::MaterializedView,
        description: String::new(),
        primary_key: vec![],
        columns: columns
            .iter()
            .map(|c| ColumnCard {
                name: c.to_string(),
                data_type: "text".into(),
                nullable: true,
                description: String::new(),
                pii: false,
            })
            .collect(),
        json_paths: vec![],
        common_filters: vec![],
        tags: vec![],
    }
}

fn edge(from: &str, to: &str, join_type: &str, on: &[&str]) -> JoinEdge {
    JoinEdge {
        from: from.into(),
        to: to.into(),
        join_type: join_type.into(),
        on: on.iter().map(|s| s.to_string()).collect(),
        cardinality: "1:n".into(),
        safe: true,
        notes: vec![],
    }
}

fn derived(name: &str, sql: &str, dep: &str) -> DerivedField {
    DerivedField { name: name.into(), sql: sql.into(), description: String::new(), depends_on: vec![dep.into()] }
}

fn test_registry() -> SchemaRegistry {
    let entities = vec![
        entity("offers_latest", &["id", "profile", "version", "name", "status", "countries", "package_id", "end_date"]),
        entity("offer_phases", &["offer_id", "profile", "version", "promo_type"]),
        entity("offer_products", &["offer_id", "profile", "version", "product_id"]),
        entity("campaign_offers", &["offer_id", "campaign_id", "profile", "version"]),
        entity("campaigns_latest", &["id", "profile", "version", "name", "partner_id"]),
        entity("partners", &["id", "profile", "name"]),
    ];
    let edges = vec![
        edge("offers_latest", "offer_phases", "inner", &[
            "offer_phases.offer_id = offers_latest.id",
            "offer_phases.profile = offers_latest.profile",
            "offer_phases.version = offers_latest.version",
        ]),
        edge("offers_latest", "offer_products", "inner", &[
            "offer_products.offer_id = offers_latest.id",
            "offer_products.profile = offers_latest.profile",
            "offer_products.version = offers_latest.version",
        ]),
        edge("offers_latest", "campaign_offers", "inner", &[
            "campaign_offers.offer_id = offers_latest.id",
            "campaign_offers.profile = offers_latest.profile",
        ]),
        edge("campaign_offers", "campaigns_latest", "inner", &[
            "campaigns_latest.id = campaign_offers.campaign_id",
            "campaigns_latest.profile = campaign_offers.profile",
            "campaign_offers.version = campaigns_latest.version",
        ]),
        edge("campaigns_latest", "partners", "left", &[
            "partners.id = campaigns_latest.partner_id",
            "partners.profile = campaigns_latest.profile",
        ]),
    ];
    let nodes = entities.iter().map(|e| e.name.clone()).collect();
    let cards = SchemaCards {
        version: "1".into(),
        database: "offers_db".into(),
        workspace: "campaigns_offers".into(),
        entities,
        join_graph: JoinGraph { nodes, edges },
        derived_fields: vec![
            derived(
                "expired_or_live_status",
                "CASE WHEN offers_latest.end_date < NOW() THEN 'EXPIRED' ELSE 'LIVE' END",
                "offers_latest.end_date",
            ),
            derived("products_csv", "STRING_AGG(DISTINCT offer_products.product_id, ',')", "offer_products.product_id"),
        ],
        conventions: Conventions {
            profile_column: "profile".into(),
            version_column: "version".into(),
            deleted_column: "deleted".into(),
            latest_views: vec!["offers_latest".into(), "campaigns_latest".into()],
            notes: vec![],
        },
    };
    let index = WorkspaceIndex {
        workspace: "campaigns_offers".into(),
        description: String::new(),
        schema_cards_path: "schema_cards.json".into(),
        exemplar_sql_dir: String::new(),
        tags: vec![],
        entities: vec![],
    };
    SchemaRegistry { index, cards }
}

fn select(field: &str, alias: Option<&str>) -> SelectItem {
    SelectItem { field: field.into(), alias: alias.map(|a| a.to_string()) }
}

fn base_spec() -> ReportSpec {
    ReportSpec {
        workspace: "campaigns_offers".into(),
        select: vec![
            select("offer_id", None),
            select("offer_name", None),
            select("campaign_name", Some("campaign")),
            select("products_csv", None),
        ],
        filters: vec![
            Filter { field: "workflow_status".into(), op: FilterOp::Eq, value: FilterValue::Str("PUBLISHED".into()) },
            Filter {
                field: "countries".into(),
                op: FilterOp::Overlaps,
                value: FilterValue::Array(vec![
                    FilterScalar::Str("AU".into()),
                    FilterScalar::Str("SG".into()),
                    FilterScalar::Str("JP".into()),
                ]),
            },
            Filter { field: "promo_type".into(), op: FilterOp::Eq, value: FilterValue::Str("PREPAID".into()) },
        ],
        order_by: vec![OrderItem { field: "offer_id".into(), direction: SortDirection::Asc }],
        mode: Mode::Export,
        pagination: None,
    }
}

const BASE_SQL: &str = "SELECT o.id,\n       o.name,\n       c.name AS campaign,\n       STRING_AGG(DISTINCT opr.product_id, ',')\n\
FROM offers_latest o\n\
JOIN campaign_offers co ON o.id = co.offer_id AND o.profile = co.profile\n\
JOIN offer_phases oph ON o.id = oph.offer_id AND o.profile = oph.profile AND o.version = oph.version\n\
JOIN offer_products opr ON o.id = opr.offer_id AND o.profile = opr.profile AND o.version = opr.version\n\
JOIN campaigns_latest c ON co.campaign_id = c.id AND co.profile = c.profile AND co.version = c.version\n\
WHERE o.status = 'PUBLISHED'\n  AND o.countries && ARRAY['AU', 'SG', 'JP']\n  AND oph.promo_type = 'PREPAID'\n\
GROUP BY o.id,\n         o.name,\n         c.name\n\
ORDER BY o.id ASC";

fn compile_and_render_sql(spec: ReportSpec) -> String {
    let reg = test_registry();
    let plan = compile_report_spec(&reg, &spec).expect("compile failed");
    render_sql(&plan).expect("render failed")
}

#[test]
fn compile_prepaid_apac_export() {
    let registry = test_registry();
    let spec = base_spec();
    let plan = compile_report_spec(&registry, &spec).expect("compile report spec");
    let tables: Vec<(String, String)> = plan.tables.iter().map(|t| (t.name.clone(), t.alias.clone())).collect();
    assert_eq!(
        tables,
        vec![
            ("offers_latest".to_string(), "o".to_string()),
            ("campaigns_latest".to_string(), "c".to_string()),
            ("offer_products".to_string(), "opr".to_string()),
            ("offer_phases".to_string(), "oph".to_string()),
            ("campaign_offers".to_string(), "co".to_string()),
        ]
    );
    let joins: Vec<(String, String)> = plan.joins.iter().map(|j| (j.left_alias.clone(), j.right_alias.clone())).collect();
    assert_eq!(
        joins,
        vec![
            ("o".to_string(), "oph".to_string()),
            ("o".to_string(), "opr".to_string()),
            ("o".to_string(), "co".to_string()),
            ("co".to_string(), "c".to_string()),
        ]
    );
    assert_eq!(plan.joins[0].conditions[0].left_field, "o.id");
    assert_eq!(plan.joins[0].conditions[0].right_field, "oph.offer_id");
    assert_eq!(plan.joins[3].conditions[2].left_field, "co.version");
    assert_eq!(plan.joins[3].conditions[2].right_field, "c.version");
    let exprs: Vec<String> = plan.projections.iter().map(|p| p.expression.clone()).collect();
    assert_eq!(exprs, vec!["o.id", "o.name", "c.name", "STRING_AGG(DISTINCT opr.product_id, ',')"]);
    assert_eq!(plan.projections[2].alias.as_deref(), Some("campaign"));
    assert_eq!(plan.projections[3].field, "products_csv");
    let filters: Vec<String> = plan.filters.iter().map(|f| f.expression.clone()).collect();
    assert_eq!(
        filters,
        vec!["o.status = 'PUBLISHED'", "o.countries && ARRAY['AU', 'SG', 'JP']", "oph.promo_type = 'PREPAID'"]
    );
    assert_eq!(plan.order_by.len(), 1);
    assert_eq!(plan.order_by[0].expression, "o.id");
    assert_eq!(plan.limit, None);
    assert_eq!(plan.offset, None);
}

#[test]
fn pipeline_sql_prepaid_apac_export() {
    let sql = compile_and_render_sql(base_spec());
    assert_eq!(sql, BASE_SQL);
}

#[test]
fn pipeline_sql_prepaid_apac_export_pagination() {
    let mut spec = base_spec();
    spec.pagination = Some(PaginationSpec { limit: Some(100), offset: Some(200) });
    let sql = compile_and_render_sql(spec);
    assert_eq!(sql, format!("{}\nLIMIT 100\nOFFSET 200", BASE_SQL));
}

#[test]
fn full_query_snapshot_from_reportspec() {
    let reg = test_registry();
    let spec = base_spec();
    let plan = compile_report_spec(&reg, &spec).expect("compile plan");
    let sql = render_sql(&plan).expect("render sql");
    assert_eq!(sql, BASE_SQL);
    assert_eq!(compile_and_render(&reg, &spec).expect("pipeline"), BASE_SQL);
}

#[test]
fn scenario_offers_campaigns_chain() {
    let spec = ReportSpec {
        workspace: "campaigns_offers".into(),
        select: vec![select("offer_id", None), select("campaign_name", None)],
        filters: vec![Filter {
            field: "workflow_status".into(),
            op: FilterOp::Eq,
            value: FilterValue::Str("PUBLISHED".into()),
        }],
        order_by: vec![OrderItem { field: "offer_id".into(), direction: SortDirection::Asc }],
        mode: Mode::Export,
        pagination: None,
    };
    let sql = compile_and_render_sql(spec);
    assert_eq!(
        sql,
        "SELECT o.id,\n       c.name\n\
         FROM offers_latest o\n\
         JOIN campaign_offers co ON o.id = co.offer_id AND o.profile = co.profile\n\
         JOIN campaigns_latest c ON co.campaign_id = c.id AND co.profile = c.profile AND co.version = c.version\n\
         WHERE o.status = 'PUBLISHED'\n\
         ORDER BY o.id ASC"
    );
    assert!(!sql.contains("GROUP BY"));
}

#[test]
fn compiling_twice_gives_identical_sql() {
    assert_eq!(compile_and_render_sql(base_spec()), compile_and_render_sql(base_spec()));
}

#[test]
fn pagination_converts_to_unsigned() {
    let reg = test_registry();
    let mut spec = base_spec();
    spec.pagination = Some(PaginationSpec { limit: Some(100), offset: Some(200) });
    let plan = compile_report_spec(&reg, &spec).unwrap();
    assert_eq!(plan.limit, Some(100u64));
    assert_eq!(plan.offset, Some(200u64));
    assert_eq!(convert_pagination(Some(PaginationSpec { limit: None, offset: Some(0) })).unwrap(), (None, Some(0)));
}

#[test]
fn negative_limit_is_rejected() {
    let reg = test_registry();
    let mut spec = base_spec();
    spec.pagination = Some(PaginationSpec { limit: Some(-1), offset: Some(-5) });
    match compile_report_spec(&reg, &spec) {
        Err(CompileError::InvalidLimit { value }) => assert_eq!(value, -1),
        other => panic!("unexpected: {:?}", other),
    }
}

#[test]
fn negative_offset_is_rejected() {
    let reg = test_registry();
    let mut spec = base_spec();
    spec.pagination = Some(PaginationSpec { limit: Some(10), offset: Some(-5) });
    match compile_report_spec(&reg, &spec) {
        Err(CompileError::InvalidOffset { value }) => assert_eq!(value, -5),
        other => panic!("unexpected: {:?}", other),
    }
}

#[test]
fn workspace_mismatch_is_rejected() {
    let reg = test_registry();
    let mut spec = base_spec();
    spec.workspace = "other_workspace".into();
    match compile_report_spec(&reg, &spec) {
        Err(CompileError::WorkspaceMismatch { expected, found }) => {
            assert_eq!(expected, "campaigns_offers");
            assert_eq!(found, "other_workspace");
        }
        other => panic!("unexpected: {:?}", other),
    }
    assert!(matches!(compile_and_render(&reg, &spec), Err(PipelineError::Compile(_))));
}

#[test]
fn unresolved_field_is_rejected() {
    let reg = test_registry();
    let mut spec = base_spec();
    spec.order_by.push(OrderItem { field: "no_such_field".into(), direction: SortDirection::Desc });
    match compile_report_spec(&reg, &spec) {
        Err(CompileError::UnresolvedField { field }) => assert_eq!(field, "no_such_field"),
        other => panic!("unexpected: {:?}", other),
    }
}

#[test]
fn filter_value_of_wrong_shape_is_rejected() {
    let reg = test_registry();
    let mut spec = base_spec();
    spec.filters[0].value = FilterValue::Array(vec![FilterScalar::Str("PUBLISHED".into())]);
    match compile_report_spec(&reg, &spec) {
        Err(CompileError::InvalidFilterValue { field }) => assert_eq!(field, "workflow_status"),
        other => panic!("unexpected: {:?}", other),
    }
}

#[test]
fn filter_literals_render_per_operator() {
    let reg = test_registry();
    let mut spec = base_spec();
    spec.filters = vec![
        Filter {
            field: "offer_name".into(),
            op: FilterOp::In,
            value: FilterValue::Array(vec![FilterScalar::Str("Bob's".into()), FilterScalar::Number("7".into())]),
        },
        Filter { field: "package_id".into(), op: FilterOp::Gte, value: FilterValue::Number("12.5".into()) },
        Filter { field: "package_id".into(), op: FilterOp::Lte, value: FilterValue::Bool(true) },
    ];
    let plan = compile_report_spec(&reg, &spec).unwrap();
    let filters: Vec<String> = plan.filters.iter().map(|f| f.expression.clone()).collect();
    assert_eq!(
        filters,
        vec!["o.name IN ('Bob''s', 7)", "o.package_id >= 12.5", "o.package_id <= true"]
    );
}

#[test]
fn derived_and_fallback_expressions() {
    let reg = test_registry();
    let mut spec = base_spec();
    spec.select = vec![select("expired_or_live_status", None), select("product_id", Some("pid"))];
    spec.filters = vec![];
    spec.order_by = vec![];
    let plan = compile_report_spec(&reg, &spec).unwrap();
    assert_eq!(plan.projections[0].expression, "CASE WHEN o.end_date < NOW() THEN 'EXPIRED' ELSE 'LIVE' END");
    assert_eq!(plan.projections[1].expression, "opr.product_id");
    assert_eq!(plan.joins.len(), 1);
    assert_eq!(plan.joins[0].join_type, JoinType::Inner);
}

#[test]
fn resolution_follows_precedence() {
    let reg = test_registry();
    assert_eq!(resolve_entity("campaign_name", &reg.cards).as_deref(), Some("campaigns_latest"));
    assert_eq!(resolve_entity("products_csv", &reg.cards).as_deref(), Some("offer_products"));
    assert_eq!(resolve_entity("product_id", &reg.cards).as_deref(), Some("offer_products"));
    assert_eq!(resolve_entity("name", &reg.cards).as_deref(), Some("offers_latest"));
    assert_eq!(resolve_entity("partner_id", &reg.cards).as_deref(), Some("campaigns_latest"));
    assert_eq!(resolve_entity("nothing", &reg.cards), None);
}

#[test]
fn left_edges_become_left_joins() {
    let reg = test_registry();
    let mut spec = base_spec();
    spec.select = vec![select("partnership_id", None), select("campaign_id", None)];
    spec.filters = vec![];
    spec.order_by = vec![];
    let plan = compile_report_spec(&reg, &spec).unwrap();
    assert_eq!(plan.joins.len(), 1);
    assert_eq!(plan.joins[0].join_type, JoinType::Left);
    assert_eq!(plan.joins[0].left_alias, "c");
    assert_eq!(plan.joins[0].conditions[0].left_field, "c.partner_id");
    assert_eq!(plan.joins[0].conditions[0].right_field, "p.id");
    let sql = render_sql(&plan).unwrap();
    assert_eq!(
        sql,
        "SELECT p.id,\n       c.id\nFROM campaigns_latest c\nLEFT JOIN partners p ON c.partner_id = p.id AND c.profile = p.profile"
    );
}

#[test]
fn registry_invariants_are_checked() {
    let reg = test_registry();
    assert!(SchemaRegistry::from_parts(reg.index.clone(), reg.cards.clone()).is_ok());
    let mut cards = reg.cards.clone();
    let dup = cards.entities[0].columns[0].clone();
    cards.entities[0].columns.push(dup);
    assert!(matches!(
        SchemaRegistry::from_parts(reg.index.clone(), cards),
        Err(RegistryError::MalformedDocument { .. })
    ));
    let mut cards = reg.cards.clone();
    cards.join_graph.edges.push(edge("offers_latest", "nowhere", "inner", &["nowhere.id = offers_latest.id"]));
    assert!(SchemaRegistry::from_parts(reg.index, cards).is_err());
}

#[test]
fn shortcut_drift_is_reported() {
    let reg = test_registry();
    assert_eq!(check_shortcuts(&reg.cards).as_deref(), Some("campaign_id"));
    let mut cards = reg.cards.clone();
    cards.entities.retain(|e| e.name != "campaign_offers");
    assert_eq!(check_shortcuts(&cards).as_deref(), Some("offer_id"));
    cards.entities.clear();
    assert_eq!(check_shortcuts(&cards), None);
}

#[test]
fn ambiguous_edge_predicate_is_rejected() {
    let mut reg = test_registry();
    reg.cards.join_graph.edges[2].on.push("offers_latest.id = partners.id".into());
    let spec = base_spec();
    match compile_report_spec(&reg, &spec) {
        Err(CompileError::AmbiguousJoinCondition(c)) => {
            assert_eq!(c.left_field, "o.id");
            assert_eq!(c.right_field, "partners.id");
            assert_eq!(c.left_alias, "o");
            assert_eq!(c.right_alias, "co");
        }
        other => panic!("unexpected: {:?}", other),
    }
}

#[test]
fn derived_dependency_without_entity_falls_back_to_columns() {
    let mut reg = test_registry();
    reg.cards.derived_fields.push(DerivedField {
        name: "product_id".into(),
        sql: "offer_products.product_id".into(),
        description: String::new(),
        depends_on: vec!["product_id".into()],
    });
    assert_eq!(resolve_entity("product_id", &reg.cards).as_deref(), Some("offer_products"));
    reg.cards.derived_fields[2].depends_on = vec!["offer_phases.product_id".into()];
    assert_eq!(resolve_entity("product_id", &reg.cards).as_deref(), Some("offer_phases"));
}
