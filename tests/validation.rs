use querygpt_core::field_catalog::FieldType;
use querygpt_core::plan::SortDirection;
use querygpt_core::report_spec::{
    Filter, FilterOp, FilterScalar, FilterValue, Mode, OrderItem, ReportSpec, SelectItem,
};
use querygpt_core::validate::{validate_filter_op, validate_filter_value, validate_report_spec, FieldContext, SpecError};
use querygpt_core::workspaces::campaigns_offers_schema;

fn select(field: &str) -> SelectItem {
    SelectItem { field: field.into(), alias: None }
}

fn load_fixture() -> ReportSpec {
    ReportSpec {
        workspace: "campaigns_offers".into(),
        select: vec![select("offer_id"), select("offer_name"), select("campaign_name"), select("products_csv")],
        filters: vec![
            Filter { field: "workflow_status".into(), op: FilterOp::Eq, value: FilterValue::Str("PUBLISHED".into()) },
            Filter {
                field: "countries".into(),
                op: FilterOp::Overlaps,
                value: FilterValue::Array(vec![
                    FilterScalar::Str("AU".into()),
                    FilterScalar::Str("SG".into()),
                    FilterScalar::Str("JP".into()),
                ]),
            },
            Filter { field: "promo_type".into(), op: FilterOp::Eq, value: FilterValue::Str("PREPAID".into()) },
        ],
        order_by: vec![OrderItem { field: "offer_id".into(), direction: SortDirection::Asc }],
        mode: Mode::Export,
        pagination: None,
    }
}

#[test]
fn parses_and_validates_example_spec() {
    let spec = load_fixture();
    let ws = campaigns_offers_schema();
    validate_report_spec(&spec, Some(&ws)).expect("should validate");
}

#[test]
fn rejects_unknown_field_in_select() {
    let mut spec = load_fixture();
    spec.select.push(SelectItem { field: "does_not_exist".into(), alias: None });

    let ws = campaigns_offers_schema();
    let err = validate_report_spec(&spec, Some(&ws)).unwrap_err();
    let msg = err.message();
    assert!(msg.contains("unknown field 'does_not_exist'"));
    assert!(matches!(err, SpecError::UnknownField { context: FieldContext::Select, .. }));
}

#[test]
fn rejects_invalid_op_overlaps_on_string() {
    let mut spec = load_fixture();
    spec.filters.push(Filter {
        field: "promo_type".into(),
        op: FilterOp::Overlaps,
        value: FilterValue::Array(vec![FilterScalar::Str("x".into())]),
    });

    let ws = campaigns_offers_schema();
    let err = validate_report_spec(&spec, Some(&ws)).unwrap_err();
    let msg = err.message();
    assert!(msg.contains("invalid operator"));
    assert_eq!(msg, "invalid operator 'Overlaps' for field 'promo_type' of type 'Enum'");
}

#[test]
fn rejects_export_with_empty_select() {
    let mut spec = load_fixture();
    spec.select.clear();
    let ws = campaigns_offers_schema();
    let err = validate_report_spec(&spec, Some(&ws)).unwrap_err();
    assert!(matches!(err, SpecError::ExportSelectEmpty));
    spec.mode = Mode::Preview;
    assert!(validate_report_spec(&spec, Some(&ws)).is_ok());
}

#[test]
fn rejects_missing_workspace() {
    let spec = load_fixture();
    let err = validate_report_spec(&spec, None).unwrap_err();
    assert_eq!(err.message(), "workspace 'campaigns_offers' not found");
}

#[test]
fn rejects_capability_violations() {
    let ws = campaigns_offers_schema();
    let mut spec = load_fixture();
    spec.select.push(select("promo_type"));
    assert!(matches!(validate_report_spec(&spec, Some(&ws)), Err(SpecError::NotSelectable { .. })));

    let mut spec = load_fixture();
    spec.filters.push(Filter { field: "offer_id".into(), op: FilterOp::Eq, value: FilterValue::Str("1".into()) });
    assert!(matches!(validate_report_spec(&spec, Some(&ws)), Err(SpecError::NotFilterable { .. })));

    let mut spec = load_fixture();
    spec.order_by.push(OrderItem { field: "countries".into(), direction: SortDirection::Desc });
    let err = validate_report_spec(&spec, Some(&ws)).unwrap_err();
    assert_eq!(err.message(), "field 'countries' is not sortable");

    let mut spec = load_fixture();
    spec.filters.push(Filter { field: "nope".into(), op: FilterOp::Eq, value: FilterValue::Null });
    assert_eq!(validate_report_spec(&spec, Some(&ws)).unwrap_err().message(), "unknown field 'nope' in filters");
}

#[test]
fn rejects_values_of_wrong_shape() {
    let ws = campaigns_offers_schema();
    let mut spec = load_fixture();
    spec.filters[0].value = FilterValue::Number("3".into());
    let err = validate_report_spec(&spec, Some(&ws)).unwrap_err();
    assert_eq!(err.message(), "invalid value for field 'workflow_status': expected string");

    let mut spec = load_fixture();
    spec.filters[1].value = FilterValue::Array(vec![]);
    match validate_report_spec(&spec, Some(&ws)).unwrap_err() {
        SpecError::InvalidValue { field, reason } => {
            assert_eq!(field, "countries");
            assert_eq!(reason, "array for 'overlaps' must not be empty");
        }
        other => panic!("unexpected: {:?}", other),
    }
}

#[test]
fn operator_matrix() {
    assert!(validate_filter_op(FieldType::Bool, FilterOp::Eq));
    assert!(!validate_filter_op(FieldType::StringArray, FilterOp::Eq));
    assert!(validate_filter_op(FieldType::Date, FilterOp::In));
    assert!(!validate_filter_op(FieldType::Bool, FilterOp::In));
    assert!(validate_filter_op(FieldType::StringArray, FilterOp::Overlaps));
    assert!(!validate_filter_op(FieldType::Enum, FilterOp::Overlaps));
    assert!(validate_filter_op(FieldType::Number, FilterOp::Gte));
    assert!(!validate_filter_op(FieldType::String, FilterOp::Lte));
}

#[test]
fn value_shapes() {
    assert_eq!(validate_filter_value(FieldType::Bool, FilterOp::Eq, &FilterValue::Str("x".into())), Some("expected boolean"));
    assert_eq!(validate_filter_value(FieldType::Bool, FilterOp::Eq, &FilterValue::Bool(false)), None);
    assert_eq!(validate_filter_value(FieldType::Date, FilterOp::Gte, &FilterValue::Number("1".into())), Some("expected date string"));
    assert_eq!(validate_filter_value(FieldType::Number, FilterOp::Lte, &FilterValue::Number("1".into())), None);
    assert_eq!(validate_filter_value(FieldType::Number, FilterOp::In, &FilterValue::Str("1".into())), Some("expected array for 'in'"));
    assert_eq!(
        validate_filter_value(FieldType::Number, FilterOp::In, &FilterValue::Array(vec![FilterScalar::Str("1".into())])),
        Some("array for 'in' holds a value of another type")
    );
    assert_eq!(
        validate_filter_value(FieldType::StringArray, FilterOp::Overlaps, &FilterValue::Array(vec![FilterScalar::Nested])),
        Some("array for 'overlaps' must hold strings")
    );
}
