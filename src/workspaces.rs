//! The built-in field catalog of the campaigns/offers workspace.
use vstd::prelude::*;
use crate::field_catalog::{FieldDef, FieldEntry, FieldType, WorkspaceSchema};

verus! {

pub open spec fn def(t: FieldType, selectable: bool, filterable: bool, sortable: bool) -> FieldDef {
    FieldDef { field_type: t, selectable, filterable, sortable }
}

/// The catalog entries, in order.
pub open spec fn campaigns_offers_fields() -> Seq<(Seq<char>, FieldDef)> {
    seq![
        ("partnership_id"@, def(FieldType::String, true, false, true)),
        ("campaign_id"@, def(FieldType::String, true, false, true)),
        ("campaign_name"@, def(FieldType::String, true, false, true)),
        ("offer_id"@, def(FieldType::String, true, false, true)),
        ("offer_name"@, def(FieldType::String, true, false, true)),
        ("workflow_status"@, def(FieldType::Enum, true, true, true)),
        ("countries"@, def(FieldType::StringArray, true, true, false)),
        ("package_id"@, def(FieldType::String, true, false, false)),
        ("expired_or_live_status"@, def(FieldType::Enum, true, false, true)),
        ("products_csv"@, def(FieldType::String, true, false, false)),
        ("promo_type"@, def(FieldType::Enum, false, true, false)),
    ]
}

fn entry(name: &str, t: FieldType, selectable: bool, filterable: bool, sortable: bool) -> (r: FieldEntry)
    ensures
        (r.name@, r.def) == (name@, def(t, selectable, filterable, sortable)),
{
    FieldEntry { name: String::from_str(name), def: FieldDef { field_type: t, selectable, filterable, sortable } }
}

/// The field catalog of the `campaigns_offers` workspace.
pub fn campaigns_offers_schema() -> (r: WorkspaceSchema)
    ensures
        r@.workspace == "campaigns_offers"@,
        r@.fields == campaigns_offers_fields(),
{
    let mut fields: Vec<FieldEntry> = Vec::new();
    fields.push(entry("partnership_id", FieldType::String, true, false, true));
    fields.push(entry("campaign_id", FieldType::String, true, false, true));
    fields.push(entry("campaign_name", FieldType::String, true, false, true));
    fields.push(entry("offer_id", FieldType::String, true, false, true));
    fields.push(entry("offer_name", FieldType::String, true, false, true));
    fields.push(entry("workflow_status", FieldType::Enum, true, true, true));
    fields.push(entry("countries", FieldType::StringArray, true, true, false));
    fields.push(entry("package_id", FieldType::String, true, false, false));
    fields.push(entry("expired_or_live_status", FieldType::Enum, true, false, true));
    fields.push(entry("products_csv", FieldType::String, true, false, false));
    fields.push(entry("promo_type", FieldType::Enum, false, true, false));
    let r = WorkspaceSchema { workspace: String::from_str("campaigns_offers"), fields };
    assert(r@.fields =~= campaigns_offers_fields());
    r
}

} // verus!
