//! Fixed answers of the upstream planning stages: column pruning, intent
//! classification and table selection.
use vstd::prelude::*;

verus! {

/// Entities and columns a request needs.
#[derive(Debug, Clone)]
pub struct PrunedSchema {
    pub entities: Vec<String>,
    pub columns: Vec<String>,
}

/// The entities and columns the requested fields need. Pruning belongs to the
/// upstream agent; the core asks for nothing more, so both lists are empty.
pub fn prune(_requested_fields: &[String]) -> (r: PrunedSchema)
    ensures
        r.entities@.len() == 0,
        r.columns@.len() == 0,
{
    PrunedSchema { entities: Vec::new(), columns: Vec::new() }
}

/// Workspace and task of a request.
#[derive(Debug, Clone)]
pub struct IntentResult {
    pub workspace: String,
    pub task: String,
    pub filter_hints: Vec<String>,
}

/// Classifies a prompt; every prompt is an export on `campaigns_offers`.
pub fn classify(_user_prompt: &str) -> (r: IntentResult)
    ensures
        r.workspace@ == "campaigns_offers"@,
        r.task@ == "export"@,
        r.filter_hints@.len() == 0,
{
    IntentResult {
        workspace: String::from_str("campaigns_offers"),
        task: String::from_str("export"),
        filter_hints: Vec::new(),
    }
}

/// Tables and safe joins picked for a request.
#[derive(Debug, Clone)]
pub struct TablePlan {
    pub entities: Vec<String>,
    pub joins: Vec<String>,
    pub notes: Vec<String>,
}

pub open spec fn planned_entities() -> Seq<Seq<char>> {
    seq![
        "offers_latest"@,
        "offer_phases"@,
        "offer_products"@,
        "campaign_offers"@,
        "campaigns_latest"@,
        "partners"@,
    ]
}

pub open spec fn planned_joins() -> Seq<Seq<char>> {
    seq![
        "offers_latest o -> offer_phases op on (op.offer_id=o.id AND op.profile=o.profile AND op.version=o.version)"@,
        "offers_latest o -> offer_products opr on (opr.offer_id=o.id AND opr.profile=o.profile AND opr.version=o.version)"@,
        "offers_latest o -> campaign_offers co on (co.offer_id=o.id AND co.profile=o.profile)"@,
        "campaign_offers co -> campaigns_latest c on (c.id=co.campaign_id AND c.profile=co.profile AND co.version=c.version)"@,
        "campaigns_latest c -> partners p on (p.id=c.partner_id AND p.profile=c.profile)"@,
    ]
}

pub open spec fn planned_notes() -> Seq<Seq<char>> {
    seq!["campaign_offers.version tracks CAMPAIGN version; do not match to offer version"@]
}

pub open spec fn texts(v: Seq<String>) -> Seq<Seq<char>> {
    v.map_values(|s: String| s@)
}

/// The minimal tables and safe join plan for the campaigns/offers workspace.
pub fn plan_tables() -> (r: TablePlan)
    ensures
        texts(r.entities@) == planned_entities(),
        texts(r.joins@) == planned_joins(),
        texts(r.notes@) == planned_notes(),
{
    let mut entities: Vec<String> = Vec::new();
    entities.push(String::from_str("offers_latest"));
    entities.push(String::from_str("offer_phases"));
    entities.push(String::from_str("offer_products"));
    entities.push(String::from_str("campaign_offers"));
    entities.push(String::from_str("campaigns_latest"));
    entities.push(String::from_str("partners"));
    let mut joins: Vec<String> = Vec::new();
    joins.push(String::from_str("offers_latest o -> offer_phases op on (op.offer_id=o.id AND op.profile=o.profile AND op.version=o.version)"));
    joins.push(String::from_str("offers_latest o -> offer_products opr on (opr.offer_id=o.id AND opr.profile=o.profile AND opr.version=o.version)"));
    joins.push(String::from_str("offers_latest o -> campaign_offers co on (co.offer_id=o.id AND co.profile=o.profile)"));
    joins.push(String::from_str("campaign_offers co -> campaigns_latest c on (c.id=co.campaign_id AND c.profile=co.profile AND co.version=c.version)"));
    joins.push(String::from_str("campaigns_latest c -> partners p on (p.id=c.partner_id AND p.profile=c.profile)"));
    let mut notes: Vec<String> = Vec::new();
    notes.push(String::from_str("campaign_offers.version tracks CAMPAIGN version; do not match to offer version"));
    let r = TablePlan { entities, joins, notes };
    assert(texts(r.entities@) =~= planned_entities());
    assert(texts(r.joins@) =~= planned_joins());
    assert(texts(r.notes@) =~= planned_notes());
    r
}

} // verus!
