//! Compilation of a report spec into an intermediate plan against a registry.
use vstd::prelude::*;
use crate::cards::{CardsView, EdgeView, JoinEdge, SchemaCards};
use crate::join_normalize::{
    normalize_all, normalize_joins_model, AmbiguityView, AmbiguousCondition,
};
use crate::plan::{
    CondView, IntermediatePlan, JoinCondition, JoinType, JoinView, OrderView, PlanFilter,
    PlanJoin, PlanOrder, PlanProjection, PlanTable, PlanView, ProjectionView, TableView,
};
use crate::registry::{RegistryView, SchemaRegistry};
use crate::render::{joins_view, strs};
use crate::report_spec::{
    FilterOp, FilterScalar, FilterValue, FilterView, OrderItemView, PaginationSpec,
    ReportSpec, ScalarView, SelectView, SpecView, ValueView,
};
use crate::resolve::{
    direct_column, direct_column_exec, entity_alias, entity_alias_exec, find_derived,
    find_derived_exec, resolve_entity, resolve_model,
};
use crate::seqs::{
    all_some, first_error, is_first_none, lemma_all_some, lemma_filter_take_step,
    lemma_first_error_end, lemma_first_error_start, lemma_first_error_step, lemma_first_none,
    map_some, try_map,
};
use crate::text::{
    after_char, after_char_str, before_char, before_char_str, find_char, has_char, join_with,
    push_joined, replace_all, replace_all_str, str_eq, trim, trim_str,
};

verus! {

/// Why a spec could not be compiled.
#[derive(Debug, Clone)]
pub enum CompileError {
    /// The spec names another workspace than the registry holds.
    WorkspaceMismatch { expected: String, found: String },
    /// No entity owns the field.
    UnresolvedField { field: String },
    /// The field's entity has no alias in the plan.
    MissingAlias { field: String },
    /// A join predicate names neither orientation of its edge.
    AmbiguousJoinCondition(AmbiguousCondition),
    /// A filter value does not fit its operator.
    InvalidFilterValue { field: String },
    InvalidLimit { value: i64 },
    InvalidOffset { value: i64 },
}

pub enum CompileErrorView {
    WorkspaceMismatch { expected: Seq<char>, found: Seq<char> },
    UnresolvedField { field: Seq<char> },
    MissingAlias { field: Seq<char> },
    AmbiguousJoinCondition(AmbiguityView),
    InvalidFilterValue { field: Seq<char> },
    InvalidLimit { value: i64 },
    InvalidOffset { value: i64 },
}

impl View for CompileError {
    type V = CompileErrorView;

    open spec fn view(&self) -> CompileErrorView {
        match self {
            CompileError::WorkspaceMismatch { expected, found } => CompileErrorView::WorkspaceMismatch {
                expected: expected@,
                found: found@,
            },
            CompileError::UnresolvedField { field } => CompileErrorView::UnresolvedField { field: field@ },
            CompileError::MissingAlias { field } => CompileErrorView::MissingAlias { field: field@ },
            CompileError::AmbiguousJoinCondition(c) => CompileErrorView::AmbiguousJoinCondition(c@),
            CompileError::InvalidFilterValue { field } => CompileErrorView::InvalidFilterValue {
                field: field@,
            },
            CompileError::InvalidLimit { value } => CompileErrorView::InvalidLimit { value: *value },
            CompileError::InvalidOffset { value } => CompileErrorView::InvalidOffset { value: *value },
        }
    }
}

// ---------------------------------------------------------------------------
// Required entities

/// Every field the spec names: select, then filters, then order-by.
pub open spec fn spec_fields(spec: SpecView) -> Seq<Seq<char>> {
    spec.select.map_values(|s: SelectView| s.field) + spec.filters.map_values(
        |f: FilterView| f.field,
    ) + spec.order_by.map_values(|o: OrderItemView| o.field)
}

pub open spec fn unresolved_check(cards: CardsView) -> spec_fn(Seq<char>) -> Option<Seq<char>> {
    |f: Seq<char>|
        if resolve_model(f, cards) is None {
            Some(f)
        } else {
            None
        }
}

/// The entities of all fields, where all resolve.
pub open spec fn resolved_entities(cards: CardsView, fields: Seq<Seq<char>>) -> Seq<Seq<char>> {
    fields.map_values(|f: Seq<char>| resolve_model(f, cards)->Some_0)
}

/// The distinct elements of `s` in first-seen order.
pub open spec fn distinct(s: Seq<Seq<char>>) -> Seq<Seq<char>>
    decreases s.len(),
{
    if s.len() == 0 {
        s
    } else {
        let d = distinct(s.drop_last());
        if d.contains(s.last()) {
            d
        } else {
            d.push(s.last())
        }
    }
}

/// Some edge links `x` and `a`, in either direction.
pub open spec fn linked(edges: Seq<EdgeView>, x: Seq<char>, a: Seq<char>) -> bool {
    exists|i: int|
        0 <= i < edges.len() && ((#[trigger] edges[i]).from == x && edges[i].to == a || edges[i].from
            == a && edges[i].to == x)
}

/// `x` is linked to two distinct entities of `req`.
pub open spec fn connects_two(edges: Seq<EdgeView>, req: Seq<Seq<char>>, x: Seq<char>) -> bool {
    exists|i: int, j: int|
        0 <= i < req.len() && 0 <= j < req.len() && req[i] != req[j] && linked(edges, x, #[trigger] req[i])
            && linked(edges, x, #[trigger] req[j])
}

/// Entities, in catalog order, that are not required but link two required
/// ones: the middle of a chain such as offers, campaign offers, campaigns.
pub open spec fn bridges(cards: CardsView, req: Seq<Seq<char>>) -> Seq<Seq<char>> {
    cards.entities.map_values(|e: crate::cards::EntityView| e.name).filter(
        |x: Seq<char>| !req.contains(x) && connects_two(cards.edges, req, x),
    )
}

/// The entities of the plan: the fields' entities in first-seen order, then
/// the bridging entities.
pub open spec fn plan_entities(cards: CardsView, spec: SpecView) -> Seq<Seq<char>> {
    let req = distinct(resolved_entities(cards, spec_fields(spec)));
    distinct(req + bridges(cards, req))
}

pub open spec fn tables_model(entities: Seq<Seq<char>>) -> Seq<TableView> {
    entities.map_values(|e: Seq<char>| TableView { name: e, alias: entity_alias(e) })
}

fn collect_fields(spec: &ReportSpec) -> (r: Vec<String>)
    ensures
        strs(r@) == spec_fields(spec@),
{
    let ghost sv = spec@;
    let ghost a = sv.select.map_values(|s: SelectView| s.field);
    let ghost b = sv.filters.map_values(|f: FilterView| f.field);
    let ghost c = sv.order_by.map_values(|o: OrderItemView| o.field);
    let mut out: Vec<String> = Vec::new();
    let mut i: usize = 0;
    while i < spec.select.len()
        invariant
            sv == spec@,
            a == sv.select.map_values(|s: SelectView| s.field),
            i <= a.len(),
            strs(out@) =~= a.take(i as int),
        decreases a.len() - i,
    {
        out.push(spec.select[i].field.clone());
        assert(a.take(i + 1) =~= a.take(i as int).push(a[i as int]));
        i += 1;
    }
    assert(a.take(i as int) =~= a);
    let mut i: usize = 0;
    while i < spec.filters.len()
        invariant
            sv == spec@,
            a == sv.select.map_values(|s: SelectView| s.field),
            b == sv.filters.map_values(|f: FilterView| f.field),
            i <= b.len(),
            strs(out@) =~= a + b.take(i as int),
        decreases b.len() - i,
    {
        let ghost ob = strs(out@);
        out.push(spec.filters[i].field.clone());
        assert(strs(out@) =~= ob.push(b[i as int]));
        assert(a + b.take(i + 1) =~= (a + b.take(i as int)).push(b[i as int]));
        i += 1;
    }
    assert(b.take(i as int) =~= b);
    let mut i: usize = 0;
    while i < spec.order_by.len()
        invariant
            sv == spec@,
            a == sv.select.map_values(|s: SelectView| s.field),
            b == sv.filters.map_values(|f: FilterView| f.field),
            c == sv.order_by.map_values(|o: OrderItemView| o.field),
            i <= c.len(),
            strs(out@) =~= a + b + c.take(i as int),
        decreases c.len() - i,
    {
        let ghost ob = strs(out@);
        out.push(spec.order_by[i].field.clone());
        assert(strs(out@) =~= ob.push(c[i as int]));
        assert(a + b + c.take(i + 1) =~= (a + b + c.take(i as int)).push(c[i as int]));
        i += 1;
    }
    assert(c.take(i as int) =~= c);
    out
}

fn resolve_all(cards: &SchemaCards, fields: &Vec<String>) -> (r: Result<Vec<String>, CompileError>)
    ensures
        match r {
            Ok(es) => first_error(strs(fields@), unresolved_check(cards@)) is None && strs(es@)
                == resolved_entities(cards@, strs(fields@)),
            Err(e) => first_error(strs(fields@), unresolved_check(cards@)) matches Some(f) && e@
                == (CompileErrorView::UnresolvedField { field: f }),
        },
{
    let ghost fs = strs(fields@);
    let ghost chk = unresolved_check(cards@);
    let mut out: Vec<String> = Vec::new();
    let mut i: usize = 0;
    proof {
        lemma_first_error_start(fs, chk);
    }
    while i < fields.len()
        invariant
            fs == strs(fields@),
            chk == unresolved_check(cards@),
            i <= fs.len(),
            first_error(fs, chk) == first_error(fs.skip(i as int), chk),
            strs(out@) =~= resolved_entities(cards@, fs.take(i as int)),
        decreases fs.len() - i,
    {
        proof {
            lemma_first_error_step(fs, chk, i as int);
        }
        match resolve_entity(fields[i].as_str(), &cards) {
            None => {
                return Err(CompileError::UnresolvedField { field: fields[i].clone() });
            },
            Some(e) => {
                out.push(e);
                assert(resolved_entities(cards@, fs.take(i + 1)) =~= resolved_entities(
                    cards@,
                    fs.take(i as int),
                ).push(resolve_model(fs[i as int], cards@)->Some_0));
            },
        }
        i += 1;
    }
    proof {
        lemma_first_error_end(fs, chk);
    }
    assert(fs.take(i as int) =~= fs);
    Ok(out)
}

fn contains_string(v: &Vec<String>, a: &str) -> (r: bool)
    ensures
        r == strs(v@).contains(a@),
{
    let mut i: usize = 0;
    while i < v.len()
        invariant
            i <= v@.len(),
            forall|k: int| 0 <= k < i ==> v@[k]@ != a@,
        decreases v@.len() - i,
    {
        if str_eq(v[i].as_str(), a) {
            assert(strs(v@)[i as int] == a@);
            return true;
        }
        i += 1;
    }
    false
}

fn distinct_exec(v: &Vec<String>) -> (r: Vec<String>)
    ensures
        strs(r@) == distinct(strs(v@)),
{
    let ghost s = strs(v@);
    let mut out: Vec<String> = Vec::new();
    let mut i: usize = 0;
    while i < v.len()
        invariant
            s == strs(v@),
            i <= s.len(),
            strs(out@) == distinct(s.take(i as int)),
        decreases s.len() - i,
    {
        assert(s.take(i + 1).drop_last() =~= s.take(i as int));
        assert(s.take(i + 1).last() == s[i as int]);
        if !contains_string(&out, v[i].as_str()) {
            let ghost ob = strs(out@);
            out.push(v[i].clone());
            assert(strs(out@) =~= ob.push(s[i as int]));
        }
        i += 1;
    }
    assert(s.take(i as int) =~= s);
    out
}

fn linked_exec(edges: &Vec<JoinEdge>, x: &str, a: &str) -> (r: bool)
    ensures
        r == linked(edges@.map_values(|e: JoinEdge| e@), x@, a@),
{
    let ghost es = edges@.map_values(|e: JoinEdge| e@);
    let mut i: usize = 0;
    while i < edges.len()
        invariant
            es == edges@.map_values(|e: JoinEdge| e@),
            i <= es.len(),
            forall|k: int|
                0 <= k < i ==> !((#[trigger] es[k]).from == x@ && es[k].to == a@ || es[k].from == a@
                    && es[k].to == x@),
        decreases es.len() - i,
    {
        let e = &edges[i];
        if (str_eq(e.from.as_str(), x) && str_eq(e.to.as_str(), a)) || (str_eq(e.from.as_str(), a)
            && str_eq(e.to.as_str(), x)) {
            assert(es[i as int] == e@);
            return true;
        }
        i += 1;
    }
    false
}

fn connects_two_exec(edges: &Vec<JoinEdge>, req: &Vec<String>, x: &str) -> (r: bool)
    ensures
        r == connects_two(edges@.map_values(|e: JoinEdge| e@), strs(req@), x@),
{
    let ghost es = edges@.map_values(|e: JoinEdge| e@);
    let ghost rq = strs(req@);
    let mut first: Option<usize> = None;
    let mut i: usize = 0;
    while i < req.len()
        invariant
            es == edges@.map_values(|e: JoinEdge| e@),
            rq == strs(req@),
            i <= rq.len(),
            match first {
                Some(f) => f < i && linked(es, x@, rq[f as int]),
                None => true,
            },
            forall|k: int|
                0 <= k < i && linked(es, x@, #[trigger] rq[k]) ==> (first matches Some(f) && rq[k]
                    == rq[f as int]),
        decreases rq.len() - i,
    {
        if linked_exec(edges, x, req[i].as_str()) {
            match first {
                None => {
                    first = Some(i);
                },
                Some(f) => {
                    if !str_eq(req[i].as_str(), req[f].as_str()) {
                        assert(rq[f as int] != rq[i as int]);
                        assert(linked(es, x@, rq[i as int]));
                        return true;
                    }
                },
            }
        }
        i += 1;
    }
    assert(!connects_two(es, rq, x@)) by {
        if connects_two(es, rq, x@) {
            let (a, b) = choose|a: int, b: int|
                0 <= a < rq.len() && 0 <= b < rq.len() && rq[a] != rq[b] && linked(es, x@, #[trigger] rq[a])
                    && linked(es, x@, #[trigger] rq[b]);
            assert(linked(es, x@, rq[a]));
            assert(linked(es, x@, rq[b]));
        }
    }
    false
}

fn bridges_exec(cards: &SchemaCards, req: &Vec<String>) -> (r: Vec<String>)
    ensures
        strs(r@) == bridges(cards@, strs(req@)),
{
    let ghost names = cards@.entities.map_values(|e: crate::cards::EntityView| e.name);
    let ghost rq = strs(req@);
    let ghost p = |x: Seq<char>| !rq.contains(x) && connects_two(cards@.edges, rq, x);
    let mut out: Vec<String> = Vec::new();
    let mut i: usize = 0;
    while i < cards.entities.len()
        invariant
            names == cards@.entities.map_values(|e: crate::cards::EntityView| e.name),
            rq == strs(req@),
            p == (|x: Seq<char>| !rq.contains(x) && connects_two(cards@.edges, rq, x)),
            i <= names.len(),
            strs(out@) == names.take(i as int).filter(p),
        decreases names.len() - i,
    {
        let x = cards.entities[i].name.as_str();
        assert(names[i as int] == x@);
        proof {
            lemma_filter_take_step(names, p, i as int);
        }
        if !contains_string(req, x) && connects_two_exec(&cards.join_graph.edges, req, x) {
            let ghost ob = strs(out@);
            out.push(cards.entities[i].name.clone());
            assert(strs(out@) =~= ob.push(names[i as int]));
        }
        i += 1;
    }
    assert(names.take(i as int) =~= names);
    out
}

fn build_tables(entities: &Vec<String>) -> (r: Vec<PlanTable>)
    ensures
        r@.map_values(|t: PlanTable| t@) == tables_model(strs(entities@)),
{
    let ghost es = strs(entities@);
    let mut out: Vec<PlanTable> = Vec::new();
    let mut i: usize = 0;
    while i < entities.len()
        invariant
            es == strs(entities@),
            i <= es.len(),
            out@.map_values(|t: PlanTable| t@) =~= tables_model(es).take(i as int),
        decreases es.len() - i,
    {
        let t = PlanTable { name: entities[i].clone(), alias: entity_alias_exec(entities[i].as_str()) };
        out.push(t);
        assert(tables_model(es).take(i + 1) =~= tables_model(es).take(i as int).push(
            tables_model(es)[i as int],
        ));
        i += 1;
    }
    assert(tables_model(es).take(i as int) =~= tables_model(es));
    out
}

// ---------------------------------------------------------------------------
// Joins

/// The alias of a plan entity; other names stay as they are.
pub open spec fn alias_for(entities: Seq<Seq<char>>, e: Seq<char>) -> Seq<char> {
    if entities.contains(e) {
        entity_alias(e)
    } else {
        e
    }
}

/// `entity.column` with the entity replaced by its alias.
pub open spec fn rewrite_side(entities: Seq<Seq<char>>, side: Seq<char>) -> Seq<char> {
    if has_char(side, '.') {
        alias_for(entities, before_char(side, '.')) + "."@ + after_char(side, '.')
    } else {
        side
    }
}

/// A predicate `entity.column = entity.column`, split at its first `=`, each
/// side trimmed and rewritten to aliases. Without `=`, the right side is empty.
pub open spec fn parse_predicate(entities: Seq<Seq<char>>, p: Seq<char>) -> CondView {
    if has_char(p, '=') {
        CondView {
            left: rewrite_side(entities, trim(before_char(p, '='))),
            right: rewrite_side(entities, trim(after_char(p, '='))),
        }
    } else {
        CondView { left: rewrite_side(entities, trim(p)), right: Seq::empty() }
    }
}

/// `left` gives a left join; anything else an inner one.
pub open spec fn join_type_of(t: Seq<char>) -> JoinType {
    if t == "left"@ {
        JoinType::Left
    } else {
        JoinType::Inner
    }
}

pub open spec fn raw_join(entities: Seq<Seq<char>>, e: EdgeView) -> JoinView {
    JoinView {
        left_alias: alias_for(entities, e.from),
        right_alias: alias_for(entities, e.to),
        join_type: join_type_of(e.join_type),
        conditions: e.on.map_values(|p: Seq<char>| parse_predicate(entities, p)),
    }
}

/// Edges, in graph order, whose two ends are plan entities.
pub open spec fn joined_edges(cards: CardsView, entities: Seq<Seq<char>>) -> Seq<EdgeView> {
    cards.edges.filter(|e: EdgeView| entities.contains(e.from) && entities.contains(e.to))
}

/// The plan's joins before their conditions are oriented.
pub open spec fn raw_joins(cards: CardsView, entities: Seq<Seq<char>>) -> Seq<JoinView> {
    joined_edges(cards, entities).map_values(|e: EdgeView| raw_join(entities, e))
}

fn alias_for_exec(entities: &Vec<String>, e: &str) -> (r: String)
    ensures
        r@ == alias_for(strs(entities@), e@),
{
    if contains_string(entities, e) {
        entity_alias_exec(e)
    } else {
        String::from_str(e)
    }
}

fn rewrite_side_exec(entities: &Vec<String>, side: &str) -> (r: String)
    ensures
        r@ == rewrite_side(strs(entities@), side@),
{
    if find_char(side, '.').is_some() {
        let mut out = alias_for_exec(entities, before_char_str(side, '.'));
        out.append(".");
        out.append(after_char_str(side, '.'));
        out
    } else {
        String::from_str(side)
    }
}

fn parse_predicate_exec(entities: &Vec<String>, p: &str) -> (r: JoinCondition)
    ensures
        r@ == parse_predicate(strs(entities@), p@),
{
    if find_char(p, '=').is_some() {
        let l = rewrite_side_exec(entities, trim_str(before_char_str(p, '=')));
        let r = rewrite_side_exec(entities, trim_str(after_char_str(p, '=')));
        JoinCondition { left_field: l, right_field: r }
    } else {
        JoinCondition { left_field: rewrite_side_exec(entities, trim_str(p)), right_field: String::new() }
    }
}

fn raw_join_exec(entities: &Vec<String>, e: &JoinEdge) -> (r: PlanJoin)
    ensures
        r@ == raw_join(strs(entities@), e@),
{
    let ghost ps = e@.on;
    let ghost target = ps.map_values(|p: Seq<char>| parse_predicate(strs(entities@), p));
    let mut conds: Vec<JoinCondition> = Vec::new();
    let mut i: usize = 0;
    while i < e.on.len()
        invariant
            ps == e@.on,
            target == ps.map_values(|p: Seq<char>| parse_predicate(strs(entities@), p)),
            i <= ps.len(),
            conds@.map_values(|c: JoinCondition| c@) =~= target.take(i as int),
        decreases ps.len() - i,
    {
        let c = parse_predicate_exec(entities, e.on[i].as_str());
        conds.push(c);
        assert(target.take(i + 1) =~= target.take(i as int).push(target[i as int]));
        i += 1;
    }
    assert(target.take(i as int) =~= target);
    let jt = if str_eq(e.join_type.as_str(), "left") {
        JoinType::Left
    } else {
        JoinType::Inner
    };
    PlanJoin {
        left_alias: alias_for_exec(entities, e.from.as_str()),
        right_alias: alias_for_exec(entities, e.to.as_str()),
        join_type: jt,
        conditions: conds,
    }
}

fn build_raw_joins(cards: &SchemaCards, entities: &Vec<String>) -> (r: Vec<PlanJoin>)
    ensures
        joins_view(r@) == raw_joins(cards@, strs(entities@)),
{
    let ghost es = cards@.edges;
    let ghost ents = strs(entities@);
    let ghost p = |e: EdgeView| ents.contains(e.from) && ents.contains(e.to);
    let ghost g = |e: EdgeView| raw_join(ents, e);
    let mut out: Vec<PlanJoin> = Vec::new();
    let mut i: usize = 0;
    while i < cards.join_graph.edges.len()
        invariant
            es == cards@.edges,
            ents == strs(entities@),
            p == (|e: EdgeView| ents.contains(e.from) && ents.contains(e.to)),
            g == (|e: EdgeView| raw_join(ents, e)),
            i <= es.len(),
            joins_view(out@) == es.take(i as int).filter(p).map_values(g),
        decreases es.len() - i,
    {
        let e = &cards.join_graph.edges[i];
        assert(es[i as int] == e@);
        proof {
            lemma_filter_take_step(es, p, i as int);
        }
        if contains_string(entities, e.from.as_str()) && contains_string(entities, e.to.as_str()) {
            let ghost ob = joins_view(out@);
            out.push(raw_join_exec(entities, e));
            assert(joins_view(out@) =~= ob.push(g(es[i as int])));
            assert(es.take(i + 1).filter(p).map_values(g) =~= es.take(i as int).filter(p).map_values(
                g,
            ).push(g(es[i as int])));
        }
        i += 1;
    }
    assert(es.take(i as int) =~= es);
    out
}

// ---------------------------------------------------------------------------
// Expressions

/// A SQL template with every `entity.` of a plan table replaced by `alias.`,
/// table by table in plan order.
pub open spec fn apply_aliases(sql: Seq<char>, ts: Seq<TableView>) -> Seq<char>
    decreases ts.len(),
{
    if ts.len() == 0 {
        sql
    } else {
        replace_all(apply_aliases(sql, ts.drop_last()), ts.last().name + "."@, ts.last().alias + "."@)
    }
}

/// `alias.field` on the field's own entity, where that entity is in the plan.
pub open spec fn fallback_expr(cards: CardsView, entities: Seq<Seq<char>>, f: Seq<char>) -> Option<
    Seq<char>,
> {
    match resolve_model(f, cards) {
        Some(e) => if entities.contains(e) {
            Some(entity_alias(e) + "."@ + f)
        } else {
            None
        },
        None => None,
    }
}

/// The expression of a selected or sorted field: its direct column, else its
/// derived template on the plan's aliases, else the fallback.
pub open spec fn field_expr(cards: CardsView, entities: Seq<Seq<char>>, f: Seq<char>) -> Option<
    Seq<char>,
> {
    match direct_column(f) {
        Some(c) => Some(c),
        None => match find_derived(cards.derived, f) {
            Some(d) => Some(apply_aliases(d.sql, tables_model(entities))),
            None => fallback_expr(cards, entities, f),
        },
    }
}

/// The column a filter applies to: its direct column, else the fallback.
pub open spec fn filter_column(cards: CardsView, entities: Seq<Seq<char>>, f: Seq<char>) -> Option<
    Seq<char>,
> {
    match direct_column(f) {
        Some(c) => Some(c),
        None => fallback_expr(cards, entities, f),
    }
}

fn fallback_expr_exec(cards: &SchemaCards, entities: &Vec<String>, f: &str) -> (r: Option<String>)
    ensures
        match r {
            Some(x) => fallback_expr(cards@, strs(entities@), f@) == Some(x@),
            None => fallback_expr(cards@, strs(entities@), f@) is None,
        },
{
    match resolve_entity(f, cards) {
        Some(e) => {
            if contains_string(entities, e.as_str()) {
                let mut out = entity_alias_exec(e.as_str());
                out.append(".");
                out.append(f);
                Some(out)
            } else {
                None
            }
        },
        None => None,
    }
}

fn apply_aliases_exec(sql: &str, tables: &Vec<PlanTable>) -> (r: String)
    ensures
        r@ == apply_aliases(sql@, tables@.map_values(|t: PlanTable| t@)),
{
    let ghost ts = tables@.map_values(|t: PlanTable| t@);
    let mut out = String::from_str(sql);
    let mut i: usize = 0;
    assert(ts.take(0) =~= Seq::<TableView>::empty());
    while i < tables.len()
        invariant
            ts == tables@.map_values(|t: PlanTable| t@),
            i <= ts.len(),
            out@ == apply_aliases(sql@, ts.take(i as int)),
        decreases ts.len() - i,
    {
        assert(ts.take(i + 1).drop_last() =~= ts.take(i as int));
        assert(ts.take(i + 1).last() == ts[i as int]);
        let mut pat = tables[i].name.clone();
        pat.append(".");
        let mut rep = tables[i].alias.clone();
        rep.append(".");
        out = replace_all_str(out.as_str(), pat.as_str(), rep.as_str());
        i += 1;
    }
    assert(ts.take(i as int) =~= ts);
    out
}

fn field_expr_exec(cards: &SchemaCards, entities: &Vec<String>, tables: &Vec<PlanTable>, f: &str) -> (r: Option<String>)
    requires
        tables@.map_values(|t: PlanTable| t@) == tables_model(strs(entities@)),
    ensures
        match r {
            Some(x) => field_expr(cards@, strs(entities@), f@) == Some(x@),
            None => field_expr(cards@, strs(entities@), f@) is None,
        },
{
    if let Some(c) = direct_column_exec(f) {
        return Some(String::from_str(c));
    }
    if let Some(k) = find_derived_exec(&cards.derived_fields, f) {
        return Some(apply_aliases_exec(cards.derived_fields[k].sql.as_str(), tables));
    }
    fallback_expr_exec(cards, entities, f)
}

fn filter_column_exec(cards: &SchemaCards, entities: &Vec<String>, f: &str) -> (r: Option<String>)
    ensures
        match r {
            Some(x) => filter_column(cards@, strs(entities@), f@) == Some(x@),
            None => filter_column(cards@, strs(entities@), f@) is None,
        },
{
    if let Some(c) = direct_column_exec(f) {
        return Some(String::from_str(c));
    }
    fallback_expr_exec(cards, entities, f)
}

// ---------------------------------------------------------------------------
// Filter text

/// A string literal: quoted, with each quote doubled.
pub open spec fn quote(s: Seq<char>) -> Seq<char> {
    "'"@ + replace_all(s, "'"@, "''"@) + "'"@
}

pub open spec fn bool_text(b: bool) -> Seq<char> {
    if b {
        "true"@
    } else {
        "false"@
    }
}

pub open spec fn scalar_literal(x: ScalarView) -> Option<Seq<char>> {
    match x {
        ScalarView::Str(s) => Some(quote(s)),
        ScalarView::Number(n) => Some(n),
        ScalarView::Bool(b) => Some(bool_text(b)),
        _ => None,
    }
}

/// The literal of a single value; arrays, objects and null have none.
pub open spec fn value_literal(v: ValueView) -> Option<Seq<char>> {
    match v {
        ValueView::Str(s) => Some(quote(s)),
        ValueView::Number(n) => Some(n),
        ValueView::Bool(b) => Some(bool_text(b)),
        _ => None,
    }
}

/// The comma-separated literals of a non-empty array of scalars.
pub open spec fn list_literal(v: ValueView) -> Option<Seq<char>> {
    match v {
        ValueView::Array(xs) => if xs.len() > 0 && all_some(xs, |x: ScalarView| scalar_literal(x)) {
            Some(join_with(map_some(xs, |x: ScalarView| scalar_literal(x)), ", "@))
        } else {
            None
        },
        _ => None,
    }
}

/// The predicate text of a filter on `expr`.
pub open spec fn filter_text(expr: Seq<char>, op: FilterOp, v: ValueView) -> Option<Seq<char>> {
    match op {
        FilterOp::In => match list_literal(v) {
            Some(l) => Some(expr + " IN ("@ + l + ")"@),
            None => None,
        },
        FilterOp::Overlaps => match list_literal(v) {
            Some(l) => Some(expr + " && ARRAY["@ + l + "]"@),
            None => None,
        },
        _ => match value_literal(v) {
            Some(l) => Some(
                expr + match op {
                    FilterOp::Gte => " >= "@,
                    FilterOp::Lte => " <= "@,
                    _ => " = "@,
                } + l,
            ),
            None => None,
        },
    }
}

fn quote_exec(s: &str) -> (r: String)
    ensures
        r@ == quote(s@),
{
    let mut out = String::from_str("'");
    let body = replace_all_str(s, "'", "''");
    out.append(body.as_str());
    out.append("'");
    out
}

fn scalar_literal_exec(x: &FilterScalar) -> (r: Option<String>)
    ensures
        match r {
            Some(l) => scalar_literal(x@) == Some(l@),
            None => scalar_literal(x@) is None,
        },
{
    match x {
        FilterScalar::Str(s) => Some(quote_exec(s.as_str())),
        FilterScalar::Number(n) => Some(n.clone()),
        FilterScalar::Bool(b) => Some(String::from_str(if *b { "true" } else { "false" })),
        _ => None,
    }
}

fn value_literal_exec(v: &FilterValue) -> (r: Option<String>)
    ensures
        match r {
            Some(l) => value_literal(v@) == Some(l@),
            None => value_literal(v@) is None,
        },
{
    match v {
        FilterValue::Str(s) => Some(quote_exec(s.as_str())),
        FilterValue::Number(n) => Some(n.clone()),
        FilterValue::Bool(b) => Some(String::from_str(if *b { "true" } else { "false" })),
        _ => None,
    }
}

fn list_literal_exec(v: &FilterValue) -> (r: Option<String>)
    ensures
        match r {
            Some(l) => list_literal(v@) == Some(l@),
            None => list_literal(v@) is None,
        },
{
    match v {
        FilterValue::Array(xs) => {
            if xs.len() == 0 {
                return None;
            }
            let ghost xv = xs@.map_values(|x: FilterScalar| x@);
            let ghost f = |x: ScalarView| scalar_literal(x);
            let mut out = String::new();
            let mut lits: Vec<String> = Vec::new();
            let mut i: usize = 0;
            assert(Seq::<Seq<char>>::empty() =~= strs(lits@));
            while i < xs.len()
                invariant
                    v@ == ValueView::Array(xv),
                    xv == xs@.map_values(|x: FilterScalar| x@),
                    f == (|x: ScalarView| scalar_literal(x)),
                    xv.len() > 0,
                    i <= xv.len(),
                    strs(lits@).len() == i,
                    forall|k: int| 0 <= k < i ==> Some(strs(lits@)[k]) == #[trigger] f(xv[k]),
                    out@ == join_with(strs(lits@), ", "@),
                decreases xv.len() - i,
            {
                match scalar_literal_exec(&xs[i]) {
                    None => {
                        assert(f(xv[i as int]) is None);
                        assert(!all_some(xv, f));
                        return None;
                    },
                    Some(l) => {
                        push_joined(&mut out, l.as_str(), ", ", i, Ghost(strs(lits@)));
                        let ghost lb = strs(lits@);
                        lits.push(l);
                        assert(strs(lits@) =~= lb.push(strs(lits@)[i as int]));
                    },
                }
                i += 1;
            }
            proof {
                assert(all_some(xv, f));
                lemma_all_some(xv, f, strs(lits@));
                assert(map_some(xv, f) == strs(lits@));
            }
            Some(out)
        },
        _ => None,
    }
}

fn filter_text_exec(expr: &str, op: FilterOp, v: &FilterValue) -> (r: Option<String>)
    ensures
        match r {
            Some(t) => filter_text(expr@, op, v@) == Some(t@),
            None => filter_text(expr@, op, v@) is None,
        },
{
    match op {
        FilterOp::In => match list_literal_exec(v) {
            Some(l) => {
                let mut out = String::from_str(expr);
                out.append(" IN (");
                out.append(l.as_str());
                out.append(")");
                Some(out)
            },
            None => None,
        },
        FilterOp::Overlaps => match list_literal_exec(v) {
            Some(l) => {
                let mut out = String::from_str(expr);
                out.append(" && ARRAY[");
                out.append(l.as_str());
                out.append("]");
                Some(out)
            },
            None => None,
        },
        _ => match value_literal_exec(v) {
            Some(l) => {
                let mut out = String::from_str(expr);
                match op {
                    FilterOp::Gte => out.append(" >= "),
                    FilterOp::Lte => out.append(" <= "),
                    _ => out.append(" = "),
                }
                out.append(l.as_str());
                Some(out)
            },
            None => None,
        },
    }
}

// ---------------------------------------------------------------------------
// Plan parts

pub open spec fn projection_of(cards: CardsView, entities: Seq<Seq<char>>) -> spec_fn(SelectView) -> Option<
    ProjectionView,
> {
    |s: SelectView|
        match field_expr(cards, entities, s.field) {
            Some(x) => Some(ProjectionView { field: s.field, expression: x, alias: s.alias }),
            None => None,
        }
}

/// The predicate text of a filter, or why it has none.
pub open spec fn filter_result(cards: CardsView, entities: Seq<Seq<char>>, f: FilterView) -> Result<
    Seq<char>,
    CompileErrorView,
> {
    match filter_column(cards, entities, f.field) {
        None => Err(CompileErrorView::MissingAlias { field: f.field }),
        Some(c) => match filter_text(c, f.op, f.value) {
            Some(t) => Ok(t),
            None => Err(CompileErrorView::InvalidFilterValue { field: f.field }),
        },
    }
}

pub open spec fn filter_of(cards: CardsView, entities: Seq<Seq<char>>) -> spec_fn(FilterView) -> Option<
    Seq<char>,
> {
    |f: FilterView| filter_result(cards, entities, f).ok()
}

pub open spec fn order_of(cards: CardsView, entities: Seq<Seq<char>>) -> spec_fn(OrderItemView) -> Option<
    OrderView,
> {
    |o: OrderItemView|
        match field_expr(cards, entities, o.field) {
            Some(x) => Some(OrderView { expression: x, direction: o.direction }),
            None => None,
        }
}

/// Limit and offset as unsigned numbers; a negative one is refused, the limit
/// first.
pub open spec fn pagination_model(p: Option<PaginationSpec>) -> Result<
    (Option<u64>, Option<u64>),
    CompileErrorView,
> {
    match p {
        None => Ok((None, None)),
        Some(pg) => if pg.limit matches Some(l) && l < 0 {
            Err(CompileErrorView::InvalidLimit { value: pg.limit->Some_0 })
        } else if pg.offset matches Some(o) && o < 0 {
            Err(CompileErrorView::InvalidOffset { value: pg.offset->Some_0 })
        } else {
            Ok(
                (
                    match pg.limit {
                        Some(l) => Some(l as u64),
                        None => None,
                    },
                    match pg.offset {
                        Some(o) => Some(o as u64),
                        None => None,
                    },
                ),
            )
        },
    }
}

/// The whole compilation, failing at the first step that fails: workspace,
/// field resolution, joins, projections, filters, ordering, pagination.
pub open spec fn compile_model(reg: RegistryView, spec: SpecView) -> Result<PlanView, CompileErrorView> {
    let cards = reg.cards;
    if spec.workspace != reg.workspace {
        Err(CompileErrorView::WorkspaceMismatch { expected: reg.workspace, found: spec.workspace })
    } else if first_error(spec_fields(spec), unresolved_check(cards)) is Some {
        Err(
            CompileErrorView::UnresolvedField {
                field: first_error(spec_fields(spec), unresolved_check(cards))->Some_0,
            },
        )
    } else {
        let ents = plan_entities(cards, spec);
        match normalize_joins_model(raw_joins(cards, ents)) {
            Err(a) => Err(CompileErrorView::AmbiguousJoinCondition(a)),
            Ok(joins) => match try_map(spec.select, projection_of(cards, ents)) {
                Err(s) => Err(CompileErrorView::MissingAlias { field: s.field }),
                Ok(projections) => match try_map(spec.filters, filter_of(cards, ents)) {
                    Err(f) => Err(filter_result(cards, ents, f)->Err_0),
                    Ok(filters) => match try_map(spec.order_by, order_of(cards, ents)) {
                        Err(o) => Err(CompileErrorView::MissingAlias { field: o.field }),
                        Ok(order_by) => match pagination_model(spec.pagination) {
                            Err(e) => Err(e),
                            Ok(page) => Ok(
                                PlanView {
                                    workspace: spec.workspace,
                                    tables: tables_model(ents),
                                    joins,
                                    projections,
                                    filters,
                                    order_by,
                                    limit: page.0,
                                    offset: page.1,
                                },
                            ),
                        },
                    },
                },
            },
        }
    }
}

fn build_projections(spec: &ReportSpec, cards: &SchemaCards, entities: &Vec<String>, tables: &Vec<PlanTable>) -> (r: Result<Vec<PlanProjection>, CompileError>)
    requires
        tables@.map_values(|t: PlanTable| t@) == tables_model(strs(entities@)),
    ensures
        match r {
            Ok(ps) => try_map(spec@.select, projection_of(cards@, strs(entities@))) == Ok::<
                Seq<ProjectionView>,
                SelectView,
            >(ps@.map_values(|p: PlanProjection| p@)),
            Err(e) => try_map(spec@.select, projection_of(cards@, strs(entities@))) matches Err(s)
                && e@ == (CompileErrorView::MissingAlias { field: s.field }),
        },
{
    let ghost sv = spec@.select;
    let ghost f = projection_of(cards@, strs(entities@));
    let mut out: Vec<PlanProjection> = Vec::new();
    let mut i: usize = 0;
    while i < spec.select.len()
        invariant
            tables@.map_values(|t: PlanTable| t@) == tables_model(strs(entities@)),
            sv == spec@.select,
            f == projection_of(cards@, strs(entities@)),
            i <= sv.len(),
            out@.len() == i,
            forall|k: int| 0 <= k < i ==> Some(out@[k]@) == #[trigger] f(sv[k]),
        decreases sv.len() - i,
    {
        let item = &spec.select[i];
        match field_expr_exec(cards, entities, tables, item.field.as_str()) {
            None => {
                proof {
                    assert(is_first_none(sv, f, i as int));
                    lemma_first_none(sv, f, i as int);
                }
                return Err(CompileError::MissingAlias { field: item.field.clone() });
            },
            Some(x) => {
                let alias = match &item.alias {
                    Some(a) => Some(a.clone()),
                    None => None,
                };
                let p = PlanProjection { field: item.field.clone(), expression: x, alias };
                assert(Some(p@) == f(sv[i as int]));
                out.push(p);
            },
        }
        i += 1;
    }
    proof {
        assert(all_some(sv, f));
        lemma_all_some(sv, f, out@.map_values(|p: PlanProjection| p@));
    }
    Ok(out)
}

fn build_filters(spec: &ReportSpec, cards: &SchemaCards, entities: &Vec<String>) -> (r: Result<Vec<PlanFilter>, CompileError>)
    ensures
        match r {
            Ok(fs) => try_map(spec@.filters, filter_of(cards@, strs(entities@))) == Ok::<
                Seq<Seq<char>>,
                FilterView,
            >(fs@.map_values(|f: PlanFilter| f.expression@)),
            Err(e) => try_map(spec@.filters, filter_of(cards@, strs(entities@))) matches Err(x)
                && e@ == filter_result(cards@, strs(entities@), x)->Err_0,
        },
{
    let ghost fv = spec@.filters;
    let ghost f = filter_of(cards@, strs(entities@));
    let mut out: Vec<PlanFilter> = Vec::new();
    let mut i: usize = 0;
    while i < spec.filters.len()
        invariant
            fv == spec@.filters,
            f == filter_of(cards@, strs(entities@)),
            i <= fv.len(),
            out@.len() == i,
            forall|k: int| 0 <= k < i ==> Some(out@[k].expression@) == #[trigger] f(fv[k]),
        decreases fv.len() - i,
    {
        let item = &spec.filters[i];
        let ghost iv = fv[i as int];
        assert(iv == item@);
        match filter_column_exec(cards, entities, item.field.as_str()) {
            None => {
                proof {
                    assert(is_first_none(fv, f, i as int));
                    lemma_first_none(fv, f, i as int);
                }
                return Err(CompileError::MissingAlias { field: item.field.clone() });
            },
            Some(c) => match filter_text_exec(c.as_str(), item.op, &item.value) {
                None => {
                    proof {
                        assert(is_first_none(fv, f, i as int));
                        lemma_first_none(fv, f, i as int);
                    }
                    return Err(CompileError::InvalidFilterValue { field: item.field.clone() });
                },
                Some(t) => {
                    out.push(PlanFilter { expression: t });
                },
            },
        }
        i += 1;
    }
    proof {
        assert(all_some(fv, f));
        lemma_all_some(fv, f, out@.map_values(|p: PlanFilter| p.expression@));
    }
    Ok(out)
}

fn build_order(spec: &ReportSpec, cards: &SchemaCards, entities: &Vec<String>, tables: &Vec<PlanTable>) -> (r: Result<Vec<PlanOrder>, CompileError>)
    requires
        tables@.map_values(|t: PlanTable| t@) == tables_model(strs(entities@)),
    ensures
        match r {
            Ok(os) => try_map(spec@.order_by, order_of(cards@, strs(entities@))) == Ok::<
                Seq<OrderView>,
                OrderItemView,
            >(os@.map_values(|o: PlanOrder| o@)),
            Err(e) => try_map(spec@.order_by, order_of(cards@, strs(entities@))) matches Err(o)
                && e@ == (CompileErrorView::MissingAlias { field: o.field }),
        },
{
    let ghost ov = spec@.order_by;
    let ghost f = order_of(cards@, strs(entities@));
    let mut out: Vec<PlanOrder> = Vec::new();
    let mut i: usize = 0;
    while i < spec.order_by.len()
        invariant
            tables@.map_values(|t: PlanTable| t@) == tables_model(strs(entities@)),
            ov == spec@.order_by,
            f == order_of(cards@, strs(entities@)),
            i <= ov.len(),
            out@.len() == i,
            forall|k: int| 0 <= k < i ==> Some(out@[k]@) == #[trigger] f(ov[k]),
        decreases ov.len() - i,
    {
        let item = &spec.order_by[i];
        match field_expr_exec(cards, entities, tables, item.field.as_str()) {
            None => {
                proof {
                    assert(is_first_none(ov, f, i as int));
                    lemma_first_none(ov, f, i as int);
                }
                return Err(CompileError::MissingAlias { field: item.field.clone() });
            },
            Some(x) => {
                let o = PlanOrder { expression: x, direction: item.direction };
                assert(Some(o@) == f(ov[i as int]));
                out.push(o);
            },
        }
        i += 1;
    }
    proof {
        assert(all_some(ov, f));
        lemma_all_some(ov, f, out@.map_values(|o: PlanOrder| o@));
    }
    Ok(out)
}

/// Converts the requested page to the plan's unsigned limit and offset.
pub fn convert_pagination(p: Option<PaginationSpec>) -> (r: Result<(Option<u64>, Option<u64>), CompileError>)
    ensures
        match r {
            Ok(page) => pagination_model(p) == Ok::<(Option<u64>, Option<u64>), CompileErrorView>(page),
            Err(e) => pagination_model(p) == Err::<(Option<u64>, Option<u64>), CompileErrorView>(e@),
        },
{
    match p {
        None => Ok((None, None)),
        Some(pg) => {
            if let Some(l) = pg.limit {
                if l < 0 {
                    return Err(CompileError::InvalidLimit { value: l });
                }
            }
            if let Some(o) = pg.offset {
                if o < 0 {
                    return Err(CompileError::InvalidOffset { value: o });
                }
            }
            let limit = match pg.limit {
                Some(l) => Some(l as u64),
                None => None,
            };
            let offset = match pg.offset {
                Some(o) => Some(o as u64),
                None => None,
            };
            Ok((limit, offset))
        },
    }
}

/// Compiles a spec into a plan against a registry; a pure function of the two.
pub fn compile_report_spec(reg: &SchemaRegistry, spec: &ReportSpec) -> (r: Result<IntermediatePlan, CompileError>)
    ensures
        match r {
            Ok(p) => compile_model(reg@, spec@) == Ok::<PlanView, CompileErrorView>(p@),
            Err(e) => compile_model(reg@, spec@) == Err::<PlanView, CompileErrorView>(e@),
        },
{
    if !str_eq(reg.index.workspace.as_str(), spec.workspace.as_str()) {
        return Err(
            CompileError::WorkspaceMismatch {
                expected: reg.index.workspace.clone(),
                found: spec.workspace.clone(),
            },
        );
    }
    let cards = &reg.cards;
    let fields = collect_fields(spec);
    let resolved = match resolve_all(cards, &fields) {
        Ok(es) => es,
        Err(e) => {
            return Err(e);
        },
    };
    let required = distinct_exec(&resolved);
    let extra = bridges_exec(cards, &required);
    let mut both: Vec<String> = Vec::new();
    let mut i: usize = 0;
    while i < required.len()
        invariant
            i <= required@.len(),
            strs(both@) =~= strs(required@).take(i as int),
        decreases required@.len() - i,
    {
        both.push(required[i].clone());
        assert(strs(required@).take(i + 1) =~= strs(required@).take(i as int).push(required@[i as int]@));
        i += 1;
    }
    let mut i: usize = 0;
    while i < extra.len()
        invariant
            i <= extra@.len(),
            strs(both@) =~= strs(required@) + strs(extra@).take(i as int),
        decreases extra@.len() - i,
    {
        both.push(extra[i].clone());
        assert(strs(required@) + strs(extra@).take(i + 1) =~= (strs(required@) + strs(extra@).take(i as int)).push(extra@[i as int]@));
        i += 1;
    }
    assert(strs(extra@).take(i as int) =~= strs(extra@));
    let entities = distinct_exec(&both);
    let ghost ents = strs(entities@);
    assert(ents == plan_entities(cards@, spec@));
    let tables = build_tables(&entities);
    let raw = build_raw_joins(cards, &entities);
    let joins = match normalize_all(&raw) {
        Ok(js) => js,
        Err(a) => {
            return Err(CompileError::AmbiguousJoinCondition(a));
        },
    };
    let projections = match build_projections(spec, cards, &entities, &tables) {
        Ok(ps) => ps,
        Err(e) => {
            return Err(e);
        },
    };
    let filters = match build_filters(spec, cards, &entities) {
        Ok(fs) => fs,
        Err(e) => {
            return Err(e);
        },
    };
    let order_by = match build_order(spec, cards, &entities, &tables) {
        Ok(os) => os,
        Err(e) => {
            return Err(e);
        },
    };
    let (limit, offset) = match convert_pagination(spec.pagination) {
        Ok(page) => page,
        Err(e) => {
            return Err(e);
        },
    };
    let plan = IntermediatePlan {
        workspace: spec.workspace.clone(),
        tables,
        joins,
        projections,
        filters,
        order_by,
        limit,
        offset,
    };
    assert(plan@.joins == joins_view(plan.joins@));
    Ok(plan)
}

} // verus!
