//! Field-to-entity resolution and the fixed per-workspace tables of aliases
//! and direct columns.
use vstd::prelude::*;
use crate::cards::{CardsView, DerivedField, DerivedView, EntityCard, EntityView, SchemaCards};
use crate::seqs::{first_error, lemma_first_error_end, lemma_first_error_start, lemma_first_error_step};
use crate::text::{before_char, before_char_str, find_char, has_char, str_eq};

verus! {

/// Fields whose owning entity is fixed, ahead of anything the schema says.
pub open spec fn shortcut_entity(field: Seq<char>) -> Option<Seq<char>> {
    if field == "partnership_id"@ {
        Some("partners"@)
    } else if field == "campaign_id"@ || field == "campaign_name"@ {
        Some("campaigns_latest"@)
    } else if field == "offer_id"@ || field == "offer_name"@ || field == "workflow_status"@
        || field == "countries"@ || field == "package_id"@ || field == "expired_or_live_status"@ {
        Some("offers_latest"@)
    } else if field == "products_csv"@ {
        Some("offer_products"@)
    } else if field == "promo_type"@ {
        Some("offer_phases"@)
    } else {
        None
    }
}

/// The first derived field named `field`.
pub open spec fn find_derived(ds: Seq<DerivedView>, field: Seq<char>) -> Option<DerivedView>
    decreases ds.len(),
{
    if ds.len() == 0 {
        None
    } else if ds[0].name == field {
        Some(ds[0])
    } else {
        find_derived(ds.skip(1), field)
    }
}

/// The entity part of the first dependency of the derived field `field`,
/// where that dependency is qualified.
pub open spec fn derived_entity(ds: Seq<DerivedView>, field: Seq<char>) -> Option<Seq<char>> {
    match find_derived(ds, field) {
        Some(d) => if d.depends_on.len() > 0 && has_char(d.depends_on[0], '.') {
            Some(before_char(d.depends_on[0], '.'))
        } else {
            None
        },
        None => None,
    }
}

/// The first entity, in catalog order, with a column named `field`.
pub open spec fn column_owner(es: Seq<EntityView>, field: Seq<char>) -> Option<Seq<char>>
    decreases es.len(),
{
    if es.len() == 0 {
        None
    } else if es[0].columns.contains(field) {
        Some(es[0].name)
    } else {
        column_owner(es.skip(1), field)
    }
}

/// The owning entity the schema alone gives: a derived field's first
/// dependency, else the first entity holding such a column.
pub open spec fn schema_entity(field: Seq<char>, cards: CardsView) -> Option<Seq<char>> {
    match derived_entity(cards.derived, field) {
        Some(e) => Some(e),
        None => column_owner(cards.entities, field),
    }
}

/// The owning entity of a field: the shortcut table, else the schema.
pub open spec fn resolve_model(field: Seq<char>, cards: CardsView) -> Option<Seq<char>> {
    match shortcut_entity(field) {
        Some(e) => Some(e),
        None => schema_entity(field, cards),
    }
}

/// The fields of the shortcut table, in order.
pub open spec fn shortcut_fields() -> Seq<Seq<char>> {
    seq![
        "partnership_id"@,
        "campaign_id"@,
        "campaign_name"@,
        "offer_id"@,
        "offer_name"@,
        "workflow_status"@,
        "countries"@,
        "package_id"@,
        "expired_or_live_status"@,
        "products_csv"@,
        "promo_type"@,
    ]
}

/// The field, where the schema resolves it to another entity than its shortcut.
pub open spec fn shortcut_drift(cards: CardsView) -> spec_fn(Seq<char>) -> Option<Seq<char>> {
    |f: Seq<char>|
        if schema_entity(f, cards) is Some && schema_entity(f, cards) != shortcut_entity(f) {
            Some(f)
        } else {
            None
        }
}

/// The fixed alias of an entity; other entities are their own alias.
pub open spec fn entity_alias(entity: Seq<char>) -> Seq<char> {
    if entity == "offers_latest"@ {
        "o"@
    } else if entity == "campaigns_latest"@ {
        "c"@
    } else if entity == "campaign_offers"@ {
        "co"@
    } else if entity == "offer_products"@ {
        "opr"@
    } else if entity == "offer_phases"@ {
        "oph"@
    } else if entity == "partners"@ {
        "p"@
    } else {
        entity
    }
}

/// Fields that map straight to an alias-qualified column.
pub open spec fn direct_column(field: Seq<char>) -> Option<Seq<char>> {
    if field == "partnership_id"@ {
        Some("p.id"@)
    } else if field == "campaign_id"@ {
        Some("c.id"@)
    } else if field == "campaign_name"@ {
        Some("c.name"@)
    } else if field == "offer_id"@ {
        Some("o.id"@)
    } else if field == "offer_name"@ {
        Some("o.name"@)
    } else if field == "workflow_status"@ {
        Some("o.status"@)
    } else if field == "countries"@ {
        Some("o.countries"@)
    } else if field == "package_id"@ {
        Some("o.package_id"@)
    } else if field == "promo_type"@ {
        Some("oph.promo_type"@)
    } else {
        None
    }
}

fn shortcut_entity_exec(field: &str) -> (r: Option<&'static str>)
    ensures
        match r {
            Some(e) => shortcut_entity(field@) == Some(e@),
            None => shortcut_entity(field@) is None,
        },
{
    if str_eq(field, "partnership_id") {
        Some("partners")
    } else if str_eq(field, "campaign_id") || str_eq(field, "campaign_name") {
        Some("campaigns_latest")
    } else if str_eq(field, "offer_id") || str_eq(field, "offer_name") || str_eq(
        field,
        "workflow_status",
    ) || str_eq(field, "countries") || str_eq(field, "package_id") || str_eq(
        field,
        "expired_or_live_status",
    ) {
        Some("offers_latest")
    } else if str_eq(field, "products_csv") {
        Some("offer_products")
    } else if str_eq(field, "promo_type") {
        Some("offer_phases")
    } else {
        None
    }
}

/// The fixed alias of an entity.
pub fn entity_alias_exec(entity: &str) -> (r: String)
    ensures
        r@ == entity_alias(entity@),
{
    if str_eq(entity, "offers_latest") {
        String::from_str("o")
    } else if str_eq(entity, "campaigns_latest") {
        String::from_str("c")
    } else if str_eq(entity, "campaign_offers") {
        String::from_str("co")
    } else if str_eq(entity, "offer_products") {
        String::from_str("opr")
    } else if str_eq(entity, "offer_phases") {
        String::from_str("oph")
    } else if str_eq(entity, "partners") {
        String::from_str("p")
    } else {
        String::from_str(entity)
    }
}

/// The direct column of a field, if it has one.
pub fn direct_column_exec(field: &str) -> (r: Option<&'static str>)
    ensures
        match r {
            Some(c) => direct_column(field@) == Some(c@),
            None => direct_column(field@) is None,
        },
{
    if str_eq(field, "partnership_id") {
        Some("p.id")
    } else if str_eq(field, "campaign_id") {
        Some("c.id")
    } else if str_eq(field, "campaign_name") {
        Some("c.name")
    } else if str_eq(field, "offer_id") {
        Some("o.id")
    } else if str_eq(field, "offer_name") {
        Some("o.name")
    } else if str_eq(field, "workflow_status") {
        Some("o.status")
    } else if str_eq(field, "countries") {
        Some("o.countries")
    } else if str_eq(field, "package_id") {
        Some("o.package_id")
    } else if str_eq(field, "promo_type") {
        Some("oph.promo_type")
    } else {
        None
    }
}

/// Position of the first derived field named `field`.
pub fn find_derived_exec(ds: &Vec<DerivedField>, field: &str) -> (r: Option<usize>)
    ensures
        match r {
            Some(k) => k < ds@.len() && find_derived(ds@.map_values(|d: DerivedField| d@), field@)
                == Some(ds@[k as int]@),
            None => find_derived(ds@.map_values(|d: DerivedField| d@), field@) is None,
        },
{
    let ghost s = ds@.map_values(|d: DerivedField| d@);
    let mut i: usize = 0;
    assert(s.skip(0) =~= s);
    while i < ds.len()
        invariant
            s == ds@.map_values(|d: DerivedField| d@),
            i <= s.len(),
            find_derived(s, field@) == find_derived(s.skip(i as int), field@),
        decreases s.len() - i,
    {
        assert(s.skip(i as int)[0] == s[i as int]);
        if str_eq(ds[i].name.as_str(), field) {
            return Some(i);
        }
        assert(s.skip(i as int).skip(1) =~= s.skip(i + 1));
        i += 1;
    }
    None
}

fn has_column(e: &EntityCard, field: &str) -> (r: bool)
    ensures
        r == e@.columns.contains(field@),
{
    let ghost cs = e@.columns;
    let mut i: usize = 0;
    while i < e.columns.len()
        invariant
            cs == e@.columns,
            i <= cs.len(),
            forall|k: int| 0 <= k < i ==> cs[k] != field@,
        decreases cs.len() - i,
    {
        if str_eq(e.columns[i].name.as_str(), field) {
            assert(cs[i as int] == field@);
            return true;
        }
        i += 1;
    }
    false
}

/// The owning entity the schema alone gives (see `schema_entity`).
pub fn schema_entity_exec(field: &str, cards: &SchemaCards) -> (r: Option<String>)
    ensures
        match r {
            Some(e) => schema_entity(field@, cards@) == Some(e@),
            None => schema_entity(field@, cards@) is None,
        },
{
    if let Some(k) = find_derived_exec(&cards.derived_fields, field) {
        let d = &cards.derived_fields[k];
        if d.depends_on.len() > 0 {
            let dep = d.depends_on[0].as_str();
            assert(d@.depends_on[0] == dep@);
            if find_char(dep, '.').is_some() {
                return Some(String::from_str(before_char_str(dep, '.')));
            }
        }
    }
    let ghost es = cards@.entities;
    let mut i: usize = 0;
    assert(es.skip(0) =~= es);
    while i < cards.entities.len()
        invariant
            es == cards@.entities,
            i <= es.len(),
            column_owner(es, field@) == column_owner(es.skip(i as int), field@),
            derived_entity(cards@.derived, field@) is None,
        decreases es.len() - i,
    {
        assert(es.skip(i as int)[0] == es[i as int]);
        if has_column(&cards.entities[i], field) {
            return Some(cards.entities[i].name.clone());
        }
        assert(es.skip(i as int).skip(1) =~= es.skip(i + 1));
        i += 1;
    }
    None
}

/// Resolves a field to its owning entity (see `resolve_model`).
pub fn resolve_entity(field: &str, cards: &SchemaCards) -> (r: Option<String>)
    ensures
        match r {
            Some(e) => resolve_model(field@, cards@) == Some(e@),
            None => resolve_model(field@, cards@) is None,
        },
{
    if let Some(e) = shortcut_entity_exec(field) {
        return Some(String::from_str(e));
    }
    schema_entity_exec(field, cards)
}

fn shortcut_field(k: usize) -> (r: &'static str)
    requires
        k < 11,
    ensures
        r@ == shortcut_fields()[k as int],
{
    if k == 0 {
        "partnership_id"
    } else if k == 1 {
        "campaign_id"
    } else if k == 2 {
        "campaign_name"
    } else if k == 3 {
        "offer_id"
    } else if k == 4 {
        "offer_name"
    } else if k == 5 {
        "workflow_status"
    } else if k == 6 {
        "countries"
    } else if k == 7 {
        "package_id"
    } else if k == 8 {
        "expired_or_live_status"
    } else if k == 9 {
        "products_csv"
    } else {
        "promo_type"
    }
}

/// The first shortcut field that the schema resolves to another entity, if
/// any: a start-up check that the shortcut table has not drifted from the
/// cards.
pub fn check_shortcuts(cards: &SchemaCards) -> (r: Option<String>)
    ensures
        match r {
            Some(f) => first_error(shortcut_fields(), shortcut_drift(cards@)) == Some(f@),
            None => first_error(shortcut_fields(), shortcut_drift(cards@)) is None,
        },
{
    let ghost fs = shortcut_fields();
    let ghost chk = shortcut_drift(cards@);
    assert(fs.len() == 11);
    proof {
        lemma_first_error_start(fs, chk);
    }
    let mut k: usize = 0;
    while k < 11
        invariant
            fs == shortcut_fields(),
            fs.len() == 11,
            chk == shortcut_drift(cards@),
            k <= 11,
            first_error(fs, chk) == first_error(fs.skip(k as int), chk),
        decreases 11 - k,
    {
        proof {
            lemma_first_error_step(fs, chk, k as int);
        }
        let f = shortcut_field(k);
        let fixed = shortcut_entity_exec(f);
        match schema_entity_exec(f, cards) {
            Some(e) => {
                let agrees = match fixed {
                    Some(x) => str_eq(e.as_str(), x),
                    None => false,
                };
                if !agrees {
                    return Some(String::from_str(f));
                }
            },
            None => {},
        }
        k += 1;
    }
    proof {
        lemma_first_error_end(fs, chk);
    }
    None
}

} // verus!
