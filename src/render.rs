//! Deterministic rendering of an intermediate plan into SQL text.
use vstd::prelude::*;
use crate::join_normalize::{normalize_all, normalize_joins_model, AmbiguityView, AmbiguousCondition};
use crate::plan::{
    CondView, IntermediatePlan, JoinType, JoinView, OrderView, PlanFilter, PlanJoin,
    PlanProjection, PlanTable, PlanView, ProjectionView, SortDirection, TableView,
};
use crate::seqs::{lemma_filter_fewer, lemma_filter_partition, lemma_filter_take_step};
use crate::text::{
    contains_upper, contains_upper_str, decimal, decimal_string, join_with, lemma_seq_least,
    lemma_seq_lt_asymmetric, lemma_seq_lt_irreflexive, lemma_seq_lt_total, lemma_seq_lt_transitive,
    push_joined, seq_least, seq_lt, str_eq, str_lt,
};

verus! {

/// Why a plan could not be rendered.
#[derive(Debug, Clone)]
pub enum RenderError {
    /// Every table is the target of some join, or there is no table.
    NoRootTable,
    /// Joins remain whose left side can never be reached.
    UnorderableJoins,
    /// A join condition names neither orientation of its join.
    AmbiguousJoinCondition(AmbiguousCondition),
    /// A join targets an alias that no table of the plan has.
    UnknownAlias(String),
}

pub enum RenderErrorView {
    NoRootTable,
    UnorderableJoins,
    AmbiguousJoinCondition(AmbiguityView),
    UnknownAlias(Seq<char>),
}

impl View for RenderError {
    type V = RenderErrorView;

    open spec fn view(&self) -> RenderErrorView {
        match self {
            RenderError::NoRootTable => RenderErrorView::NoRootTable,
            RenderError::UnorderableJoins => RenderErrorView::UnorderableJoins,
            RenderError::AmbiguousJoinCondition(c) => RenderErrorView::AmbiguousJoinCondition(c@),
            RenderError::UnknownAlias(a) => RenderErrorView::UnknownAlias(a@),
        }
    }
}

pub open spec fn strs(v: Seq<String>) -> Seq<Seq<char>> {
    v.map_values(|s: String| s@)
}

pub open spec fn joins_view(v: Seq<PlanJoin>) -> Seq<JoinView> {
    v.map_values(|j: PlanJoin| j@)
}

// ---------------------------------------------------------------------------
// Root selection

pub open spec fn table_aliases(tables: Seq<TableView>) -> Seq<Seq<char>> {
    tables.map_values(|t: TableView| t.alias)
}

pub open spec fn is_right_alias(joins: Seq<JoinView>, a: Seq<char>) -> bool {
    exists|i: int| 0 <= i < joins.len() && (#[trigger] joins[i]).right_alias == a
}

pub open spec fn is_left_alias(joins: Seq<JoinView>, a: Seq<char>) -> bool {
    exists|i: int| 0 <= i < joins.len() && (#[trigger] joins[i]).left_alias == a
}

/// Table aliases, in table order, that no join targets.
pub open spec fn root_candidates(tables: Seq<TableView>, joins: Seq<JoinView>) -> Seq<Seq<char>> {
    table_aliases(tables).filter(|a: Seq<char>| !is_right_alias(joins, a))
}

/// Root candidates that also start some join.
pub open spec fn chain_starts(tables: Seq<TableView>, joins: Seq<JoinView>) -> Seq<Seq<char>> {
    root_candidates(tables, joins).filter(|a: Seq<char>| is_left_alias(joins, a))
}

/// The alias the FROM clause starts from: where there are joins, the least
/// candidate that starts one; otherwise (or where none does) the least
/// candidate; none where there is no candidate.
pub open spec fn root_model(tables: Seq<TableView>, joins: Seq<JoinView>) -> Option<Seq<char>> {
    if joins.len() > 0 && chain_starts(tables, joins).len() > 0 {
        Some(seq_least(chain_starts(tables, joins)))
    } else if root_candidates(tables, joins).len() > 0 {
        Some(seq_least(root_candidates(tables, joins)))
    } else {
        None
    }
}

fn is_right_alias_exec(joins: &Vec<PlanJoin>, a: &str) -> (r: bool)
    ensures
        r == is_right_alias(joins_view(joins@), a@),
{
    let ghost js = joins_view(joins@);
    let mut i: usize = 0;
    while i < joins.len()
        invariant
            js == joins_view(joins@),
            i <= joins.len(),
            forall|k: int| 0 <= k < i ==> (#[trigger] js[k]).right_alias != a@,
        decreases joins.len() - i,
    {
        if str_eq(joins[i].right_alias.as_str(), a) {
            assert(js[i as int].right_alias == a@);
            return true;
        }
        i += 1;
    }
    false
}

fn is_left_alias_exec(joins: &Vec<PlanJoin>, a: &str) -> (r: bool)
    ensures
        r == is_left_alias(joins_view(joins@), a@),
{
    let ghost js = joins_view(joins@);
    let mut i: usize = 0;
    while i < joins.len()
        invariant
            js == joins_view(joins@),
            i <= joins.len(),
            forall|k: int| 0 <= k < i ==> (#[trigger] js[k]).left_alias != a@,
        decreases joins.len() - i,
    {
        if str_eq(joins[i].left_alias.as_str(), a) {
            assert(js[i as int].left_alias == a@);
            return true;
        }
        i += 1;
    }
    false
}

/// Position of the least text of a non-empty list.
fn least_index(v: &Vec<String>) -> (r: usize)
    requires
        v@.len() > 0,
    ensures
        r < v@.len(),
        v@[r as int]@ == seq_least(strs(v@)),
{
    let ghost s = strs(v@);
    let mut m: usize = 0;
    let mut i: usize = 1;
    assert(s.take(1).len() == 1);
    while i < v.len()
        invariant
            s == strs(v@),
            1 <= i <= v@.len(),
            m < i,
            s[m as int] == seq_least(s.take(i as int)),
        decreases v@.len() - i,
    {
        assert(s.take(i + 1).drop_last() =~= s.take(i as int));
        assert(s.take(i + 1).last() == s[i as int]);
        assert(s.take(i + 1)[m as int] == s[m as int]);
        if str_lt(v[i].as_str(), v[m].as_str()) {
            m = i;
        }
        i += 1;
    }
    assert(s.take(i as int) =~= s);
    m
}

fn alias_list(tables: &Vec<PlanTable>) -> (r: Vec<String>)
    ensures
        strs(r@) == table_aliases(tables@.map_values(|t: PlanTable| t@)),
{
    let ghost ts = tables@.map_values(|t: PlanTable| t@);
    let mut out: Vec<String> = Vec::new();
    let mut i: usize = 0;
    while i < tables.len()
        invariant
            ts == tables@.map_values(|t: PlanTable| t@),
            i <= tables.len(),
            strs(out@) =~= table_aliases(ts).take(i as int),
        decreases tables.len() - i,
    {
        let ghost before = strs(out@);
        out.push(tables[i].alias.clone());
        assert(ts[i as int].alias == tables@[i as int].alias@);
        assert(strs(out@) =~= before.push(ts[i as int].alias));
        assert(table_aliases(ts).take(i + 1) =~= table_aliases(ts).take(i as int).push(ts[i as int].alias));
        i += 1;
    }
    assert(table_aliases(ts).take(i as int) =~= table_aliases(ts));
    out
}

/// The texts of `v`, in order, that no join targets (`want_left` false) or
/// that start some join (`want_left` true).
fn filter_aliases(v: &Vec<String>, joins: &Vec<PlanJoin>, want_left: bool) -> (r: Vec<String>)
    ensures
        !want_left ==> strs(r@) == strs(v@).filter(
            |a: Seq<char>| !is_right_alias(joins_view(joins@), a),
        ),
        want_left ==> strs(r@) == strs(v@).filter(
            |a: Seq<char>| is_left_alias(joins_view(joins@), a),
        ),
{
    let ghost s = strs(v@);
    let ghost p = if want_left {
        |a: Seq<char>| is_left_alias(joins_view(joins@), a)
    } else {
        |a: Seq<char>| !is_right_alias(joins_view(joins@), a)
    };
    let mut out: Vec<String> = Vec::new();
    let mut i: usize = 0;
    while i < v.len()
        invariant
            s == strs(v@),
            p == (if want_left {
                |a: Seq<char>| is_left_alias(joins_view(joins@), a)
            } else {
                |a: Seq<char>| !is_right_alias(joins_view(joins@), a)
            }),
            i <= v@.len(),
            strs(out@) == s.take(i as int).filter(p),
        decreases v@.len() - i,
    {
        assert(s.take(i + 1).drop_last() =~= s.take(i as int));
        assert(s.take(i + 1).last() == s[i as int]);
        let keep = if want_left {
            is_left_alias_exec(joins, v[i].as_str())
        } else {
            !is_right_alias_exec(joins, v[i].as_str())
        };
        assert(keep == p(s[i as int]));
        if keep {
            out.push(v[i].clone());
            assert(strs(out@) =~= s.take(i as int).filter(p).push(s[i as int]));
        }
        proof {
            lemma_filter_take_step(s, p, i as int);
        }
        i += 1;
    }
    assert(s.take(i as int) =~= s);
    out
}

/// Chooses the alias the FROM clause starts from.
pub fn choose_root_alias(plan: &IntermediatePlan) -> (r: Option<String>)
    ensures
        match r {
            Some(a) => root_model(plan@.tables, plan@.joins) == Some(a@),
            None => root_model(plan@.tables, plan@.joins) is None,
        },
{
    let all = alias_list(&plan.tables);
    let cands = filter_aliases(&all, &plan.joins, false);
    let starts = filter_aliases(&cands, &plan.joins, true);
    if plan.joins.len() > 0 && starts.len() > 0 {
        let k = least_index(&starts);
        return Some(starts[k].clone());
    }
    if cands.len() > 0 {
        let k = least_index(&cands);
        Some(cands[k].clone())
    } else {
        None
    }
}

// ---------------------------------------------------------------------------
// Table lookup

/// `k` is the first table aliased `a`.
pub open spec fn is_first_alias(tables: Seq<TableView>, a: Seq<char>, k: int) -> bool {
    &&& 0 <= k < tables.len()
    &&& tables[k].alias == a
    &&& forall|j: int| 0 <= j < k ==> (#[trigger] tables[j]).alias != a
}

pub open spec fn has_alias(tables: Seq<TableView>, a: Seq<char>) -> bool {
    exists|k: int| 0 <= k < tables.len() && (#[trigger] tables[k]).alias == a
}

/// Name of the first table aliased `a`.
pub open spec fn table_name(tables: Seq<TableView>, a: Seq<char>) -> Seq<char> {
    tables[choose|k: int| is_first_alias(tables, a, k)].name
}

fn find_table(tables: &Vec<PlanTable>, a: &str) -> (r: Option<usize>)
    ensures
        match r {
            Some(k) => k < tables@.len() && tables@[k as int].alias@ == a@ && tables@[k as int].name@ == table_name(
                tables@.map_values(|t: PlanTable| t@),
                a@,
            ),
            None => !has_alias(tables@.map_values(|t: PlanTable| t@), a@),
        },
{
    let ghost ts = tables@.map_values(|t: PlanTable| t@);
    let mut i: usize = 0;
    while i < tables.len()
        invariant
            ts == tables@.map_values(|t: PlanTable| t@),
            i <= tables.len(),
            forall|j: int| 0 <= j < i ==> (#[trigger] ts[j]).alias != a@,
        decreases tables.len() - i,
    {
        if str_eq(tables[i].alias.as_str(), a) {
            assert(is_first_alias(ts, a@, i as int));
            let ghost c = choose|k: int| is_first_alias(ts, a@, k);
            assert(c == i) by {
                if c < i {
                    assert(ts[c].alias != a@);
                } else if c > i {
                    assert(ts[i as int].alias != a@);
                }
            }
            return Some(i);
        }
        i += 1;
    }
    None
}

// ---------------------------------------------------------------------------
// Sorting joins by (left alias, right alias)

/// Lexicographic order on (left alias, right alias).
pub open spec fn key_lt(a: JoinView, b: JoinView) -> bool {
    seq_lt(a.left_alias, b.left_alias) || (a.left_alias == b.left_alias && seq_lt(
        a.right_alias,
        b.right_alias,
    ))
}

/// Position of the first join with the least key.
pub open spec fn min_index(s: Seq<JoinView>) -> int
    decreases s.len(),
{
    if s.len() <= 1 {
        0
    } else {
        let m = min_index(s.drop_last());
        if key_lt(s.last(), s[m]) {
            s.len() - 1
        } else {
            m
        }
    }
}

pub proof fn lemma_min_index(s: Seq<JoinView>)
    requires
        s.len() > 0,
    ensures
        0 <= min_index(s) < s.len(),
        forall|i: int| 0 <= i < s.len() ==> !key_lt(#[trigger] s[i], s[min_index(s)]),
    decreases s.len(),
{
    if s.len() > 1 {
        let d = s.drop_last();
        lemma_min_index(d);
        let m = min_index(d);
        assert forall|i: int| 0 <= i < s.len() implies !key_lt(#[trigger] s[i], s[min_index(s)]) by {
            if i < s.len() - 1 {
                assert(s[i] == d[i]);
            }
            lemma_key_order(s[i], s.last(), s[m]);
        }
    } else {
        lemma_key_order(s[0], s[0], s[0]);
    }
}

/// Facts of the key order used above: irreflexive, asymmetric, transitive, and
/// total on keys.
pub proof fn lemma_key_order(a: JoinView, b: JoinView, c: JoinView)
    ensures
        !key_lt(a, a),
        !(key_lt(a, b) && key_lt(b, a)),
        key_lt(a, b) && key_lt(b, c) ==> key_lt(a, c),
        !key_lt(a, b) && !key_lt(b, c) ==> !key_lt(a, c),
        !key_lt(a, b) && !key_lt(b, a) ==> a.left_alias == b.left_alias && a.right_alias
            == b.right_alias,
{
    lemma_seq_lt_irreflexive(a.left_alias);
    lemma_seq_lt_irreflexive(a.right_alias);
    lemma_seq_lt_asymmetric(a.left_alias, b.left_alias);
    lemma_seq_lt_asymmetric(a.right_alias, b.right_alias);
    lemma_seq_lt_total(a.left_alias, b.left_alias);
    lemma_seq_lt_total(a.right_alias, b.right_alias);
    lemma_seq_lt_total(b.left_alias, c.left_alias);
    lemma_seq_lt_total(b.right_alias, c.right_alias);
    lemma_seq_lt_total(a.left_alias, c.left_alias);
    lemma_seq_lt_total(a.right_alias, c.right_alias);
    if seq_lt(a.left_alias, b.left_alias) && seq_lt(b.left_alias, c.left_alias) {
        lemma_seq_lt_transitive(a.left_alias, b.left_alias, c.left_alias);
    }
    if seq_lt(a.right_alias, b.right_alias) && seq_lt(b.right_alias, c.right_alias) {
        lemma_seq_lt_transitive(a.right_alias, b.right_alias, c.right_alias);
    }
    if seq_lt(c.left_alias, b.left_alias) && seq_lt(b.left_alias, a.left_alias) {
        lemma_seq_lt_transitive(c.left_alias, b.left_alias, a.left_alias);
    }
    if seq_lt(c.right_alias, b.right_alias) && seq_lt(b.right_alias, a.right_alias) {
        lemma_seq_lt_transitive(c.right_alias, b.right_alias, a.right_alias);
    }
    lemma_seq_lt_asymmetric(a.left_alias, c.left_alias);
    lemma_seq_lt_asymmetric(a.right_alias, c.right_alias);
    lemma_seq_lt_asymmetric(b.left_alias, c.left_alias);
    lemma_seq_lt_asymmetric(b.right_alias, c.right_alias);
}

/// Stable sort of joins by key: the first least join, then the rest sorted.
pub open spec fn sort_joins(s: Seq<JoinView>) -> Seq<JoinView>
    decreases s.len(),
{
    if s.len() == 0 {
        s
    } else {
        let m = min_index(s);
        proof {
            lemma_min_index(s);
        }
        seq![s[m]] + sort_joins(s.remove(m))
    }
}

fn key_lt_exec(a: &PlanJoin, b: &PlanJoin) -> (r: bool)
    ensures
        r == key_lt(a@, b@),
{
    str_lt(a.left_alias.as_str(), b.left_alias.as_str()) || (str_eq(
        a.left_alias.as_str(),
        b.left_alias.as_str(),
    ) && str_lt(a.right_alias.as_str(), b.right_alias.as_str()))
}

fn min_index_exec(v: &Vec<PlanJoin>) -> (r: usize)
    requires
        v@.len() > 0,
    ensures
        r as int == min_index(joins_view(v@)),
{
    let ghost s = joins_view(v@);
    let mut m: usize = 0;
    let mut i: usize = 1;
    while i < v.len()
        invariant
            s == joins_view(v@),
            1 <= i <= v@.len(),
            m < i,
            m as int == min_index(s.take(i as int)),
        decreases v@.len() - i,
    {
        assert(s.take(i + 1).drop_last() =~= s.take(i as int));
        assert(s.take(i + 1).last() == s[i as int]);
        assert(s.take(i + 1)[m as int] == s[m as int]);
        if key_lt_exec(&v[i], &v[m]) {
            m = i;
        }
        i += 1;
    }
    assert(s.take(i as int) =~= s);
    m
}

/// Joins sorted by (left alias, right alias), equal keys keeping their order.
fn sorted_joins(joins: Vec<PlanJoin>) -> (r: Vec<PlanJoin>)
    ensures
        joins_view(r@) == sort_joins(joins_view(joins@)),
{
    let mut rest = joins;
    let mut out: Vec<PlanJoin> = Vec::new();
    while rest.len() > 0
        invariant
            sort_joins(joins_view(joins@)) == joins_view(out@) + sort_joins(joins_view(rest@)),
        decreases rest@.len(),
    {
        let ghost before = joins_view(rest@);
        let ghost out_before = joins_view(out@);
        let m = min_index_exec(&rest);
        proof {
            lemma_min_index(before);
        }
        let j = rest.remove(m);
        assert(joins_view(rest@) =~= before.remove(m as int));
        out.push(j);
        assert(joins_view(out@) =~= out_before.push(before[m as int]));
        assert(sort_joins(before) == seq![before[m as int]] + sort_joins(before.remove(m as int)));
        assert(out_before + sort_joins(before) =~= joins_view(out@) + sort_joins(joins_view(rest@)));
    }
    out
}

// ---------------------------------------------------------------------------
// Join ordering

/// A join is ready once its left alias is reached and its right alias is not.
pub open spec fn join_ready(visited: Seq<Seq<char>>, j: JoinView) -> bool {
    visited.contains(j.left_alias) && !visited.contains(j.right_alias)
}

pub open spec fn ready_joins(visited: Seq<Seq<char>>, rem: Seq<JoinView>) -> Seq<JoinView> {
    rem.filter(|j: JoinView| join_ready(visited, j))
}

pub open spec fn waiting_joins(visited: Seq<Seq<char>>, rem: Seq<JoinView>) -> Seq<JoinView> {
    rem.filter(|j: JoinView| !join_ready(visited, j))
}

/// Left aliases of `rem`, in order, that are not reached yet.
pub open spec fn unreached_lefts(visited: Seq<Seq<char>>, rem: Seq<JoinView>) -> Seq<Seq<char>> {
    rem.map_values(|j: JoinView| j.left_alias).filter(|a: Seq<char>| !visited.contains(a))
}

/// Right aliases of `js`, in order.
pub open spec fn right_aliases(js: Seq<JoinView>) -> Seq<Seq<char>> {
    js.map_values(|j: JoinView| j.right_alias)
}

/// The worklist over reached aliases: each round appends, in the order of
/// `rem`, every ready join and marks its right alias reached; where none is
/// ready but joins remain, the least unreached left alias among them is
/// marked reached; where there is none, the joins cannot be ordered.
pub open spec fn order_rounds(visited: Seq<Seq<char>>, rem: Seq<JoinView>, acc: Seq<JoinView>) -> Option<
    Seq<JoinView>,
>
    decreases rem.len(), unreached_lefts(visited, rem).len(),
{
    let ready = ready_joins(visited, rem);
    let waiting = waiting_joins(visited, rem);
    proof {
        lemma_filter_partition(
            rem,
            |j: JoinView| join_ready(visited, j),
            |j: JoinView| !join_ready(visited, j),
        );
    }
    if ready.len() == 0 {
        if waiting.len() == 0 {
            Some(acc)
        } else if unreached_lefts(visited, waiting).len() > 0 {
            let a = seq_least(unreached_lefts(visited, waiting));
            proof {
                lemma_promote_decreases(visited, waiting, a);
            }
            order_rounds(visited.push(a), waiting, acc)
        } else {
            None
        }
    } else {
        order_rounds(visited + right_aliases(ready), waiting, acc + ready)
    }
}

pub proof fn lemma_promote_decreases(visited: Seq<Seq<char>>, rem: Seq<JoinView>, a: Seq<char>)
    requires
        unreached_lefts(visited, rem).len() > 0,
        a == seq_least(unreached_lefts(visited, rem)),
    ensures
        unreached_lefts(visited.push(a), rem).len() < unreached_lefts(visited, rem).len(),
{
    let lefts = rem.map_values(|j: JoinView| j.left_alias);
    let weaker = |x: Seq<char>| !visited.contains(x);
    let stronger = |x: Seq<char>| !visited.push(a).contains(x);
    assert(unreached_lefts(visited, rem) == lefts.filter(weaker));
    assert(unreached_lefts(visited.push(a), rem) == lefts.filter(stronger));
    lemma_seq_least(unreached_lefts(visited, rem));
    let u = lefts.filter(weaker);
    assert(u.contains(a));
    lefts.lemma_filter_contains_rev(weaker, a);
    let i = choose|i: int| 0 <= i < u.len() && u[i] == a;
    lefts.filter_lemma(weaker);
    assert(weaker(u[i]));
    assert forall|x: Seq<char>| #[trigger] stronger(x) implies weaker(x) by {
        if visited.contains(x) {
            let k = choose|k: int| 0 <= k < visited.len() && visited[k] == x;
            assert(visited.push(a)[k] == x);
        }
    }
    assert(!stronger(a)) by {
        assert(visited.push(a)[visited.len() as int] == a);
    }
    lemma_filter_fewer(lefts, weaker, stronger, a);
}

/// Joins in FROM order from `root`: each normalized, sorted by key, then
/// placed by `order_rounds`.
pub open spec fn order_joins_model(joins: Seq<JoinView>, root: Seq<char>) -> Result<
    Seq<JoinView>,
    RenderErrorView,
> {
    match normalize_joins_model(joins) {
        Err(e) => Err(RenderErrorView::AmbiguousJoinCondition(e)),
        Ok(n) => match order_rounds(seq![root], sort_joins(n), Seq::empty()) {
            Some(o) => Ok(o),
            None => Err(RenderErrorView::UnorderableJoins),
        },
    }
}

fn contains_str(v: &Vec<String>, a: &str) -> (r: bool)
    ensures
        r == strs(v@).contains(a@),
{
    let mut i: usize = 0;
    while i < v.len()
        invariant
            i <= v@.len(),
            forall|k: int| 0 <= k < i ==> v@[k]@ != a@,
        decreases v@.len() - i,
    {
        if str_eq(v[i].as_str(), a) {
            assert(strs(v@)[i as int] == a@);
            return true;
        }
        i += 1;
    }
    false
}

/// Splits `rem` into the ready joins and the others, both in order.
fn partition_ready(rem: Vec<PlanJoin>, visited: &Vec<String>) -> (r: (Vec<PlanJoin>, Vec<PlanJoin>))
    ensures
        joins_view(r.0@) == ready_joins(strs(visited@), joins_view(rem@)),
        joins_view(r.1@) == waiting_joins(strs(visited@), joins_view(rem@)),
{
    let ghost s = joins_view(rem@);
    let ghost vis = strs(visited@);
    let ghost p = |j: JoinView| join_ready(vis, j);
    let ghost q = |j: JoinView| !join_ready(vis, j);
    assert(s.len() == rem@.len());
    assert(rem@.len() <= usize::MAX) by {
        assert(rem.len() <= usize::MAX);
    }
    let mut rest = rem;
    let mut ready: Vec<PlanJoin> = Vec::new();
    let mut waiting: Vec<PlanJoin> = Vec::new();
    let mut i: usize = 0;
    assert(s.skip(0) =~= s);
    while rest.len() > 0
        invariant
            vis == strs(visited@),
            p == (|j: JoinView| join_ready(vis, j)),
            q == (|j: JoinView| !join_ready(vis, j)),
            i <= s.len(),
            s.len() == i + rest@.len(),
            s.len() <= usize::MAX,
            joins_view(rest@) == s.skip(i as int),
            joins_view(ready@) == s.take(i as int).filter(p),
            joins_view(waiting@) == s.take(i as int).filter(q),
        decreases rest@.len(),
    {
        let ghost before = rest@;
        assert(joins_view(before).len() == before.len());
        assert(s.skip(i as int)[0] == s[i as int]);
        assert(s[i as int] == joins_view(before)[0]);
        let j = rest.remove(0);
        assert(rest@ == before.remove(0));
        assert(joins_view(before) == s.skip(i as int));
        assert forall|k: int| 0 <= k < rest@.len() implies #[trigger] joins_view(rest@)[k] == s.skip(
            i + 1,
        )[k] by {
            assert(joins_view(before)[k + 1] == before[k + 1]@);
        }
        assert(joins_view(rest@) =~= s.skip(i + 1));
        let is_ready = contains_str(visited, j.left_alias.as_str()) && !contains_str(
            visited,
            j.right_alias.as_str(),
        );
        assert(is_ready == p(s[i as int]));
        proof {
            lemma_filter_take_step(s, p, i as int);
            lemma_filter_take_step(s, q, i as int);
        }
        if is_ready {
            let ghost rb = joins_view(ready@);
            ready.push(j);
            assert(joins_view(ready@) =~= rb.push(s[i as int]));
        } else {
            let ghost wb = joins_view(waiting@);
            waiting.push(j);
            assert(joins_view(waiting@) =~= wb.push(s[i as int]));
        }
        i += 1;
    }
    assert(s.take(i as int) =~= s);
    (ready, waiting)
}

/// Left aliases of `rem`, in order, that `visited` does not hold.
fn unreached_left_list(visited: &Vec<String>, rem: &Vec<PlanJoin>) -> (r: Vec<String>)
    ensures
        strs(r@) == unreached_lefts(strs(visited@), joins_view(rem@)),
{
    let ghost s = joins_view(rem@).map_values(|j: JoinView| j.left_alias);
    let ghost vis = strs(visited@);
    let ghost p = |a: Seq<char>| !vis.contains(a);
    let mut out: Vec<String> = Vec::new();
    let mut i: usize = 0;
    while i < rem.len()
        invariant
            vis == strs(visited@),
            s == joins_view(rem@).map_values(|j: JoinView| j.left_alias),
            p == (|a: Seq<char>| !vis.contains(a)),
            i <= rem@.len(),
            strs(out@) == s.take(i as int).filter(p),
        decreases rem@.len() - i,
    {
        let keep = !contains_str(visited, rem[i].left_alias.as_str());
        assert(s[i as int] == rem@[i as int].left_alias@);
        proof {
            lemma_filter_take_step(s, p, i as int);
        }
        if keep {
            let ghost ob = strs(out@);
            out.push(rem[i].left_alias.clone());
            assert(strs(out@) =~= ob.push(s[i as int]));
        }
        i += 1;
    }
    assert(s.take(i as int) =~= s);
    out
}

/// Orders the plan's joins so that each one's left alias is reached before it.
pub fn order_joins(plan: &IntermediatePlan, root: &str) -> (r: Result<Vec<PlanJoin>, RenderError>)
    ensures
        match r {
            Ok(js) => order_joins_model(plan@.joins, root@) == Ok::<Seq<JoinView>, RenderErrorView>(
                joins_view(js@),
            ),
            Err(e) => order_joins_model(plan@.joins, root@) == Err::<Seq<JoinView>, RenderErrorView>(
                e@,
            ),
        },
{
    assert(joins_view(plan.joins@) == plan@.joins);
    let normalized = match normalize_all(&plan.joins) {
        Ok(n) => n,
        Err(e) => {
            return Err(RenderError::AmbiguousJoinCondition(e));
        },
    };
    let ghost nv = joins_view(normalized@);
    let mut rem = sorted_joins(normalized);
    let mut visited: Vec<String> = Vec::new();
    visited.push(String::from_str(root));
    let mut acc: Vec<PlanJoin> = Vec::new();
    let ghost target = order_rounds(strs(visited@), joins_view(rem@), joins_view(acc@));
    assert(strs(visited@) =~= seq![root@]);
    assert(joins_view(acc@) =~= Seq::<JoinView>::empty());
    assert(target == order_rounds(seq![root@], sort_joins(nv), Seq::empty()));
    loop
        invariant
            target == order_rounds(strs(visited@), joins_view(rem@), joins_view(acc@)),
            target == order_rounds(seq![root@], sort_joins(nv), Seq::empty()),
            normalize_joins_model(plan@.joins) == Ok::<Seq<JoinView>, AmbiguityView>(nv),
        decreases joins_view(rem@).len(), unreached_lefts(strs(visited@), joins_view(rem@)).len(),
    {
        let ghost vis = strs(visited@);
        let ghost remv = joins_view(rem@);
        proof {
            lemma_filter_partition(
                remv,
                |j: JoinView| join_ready(vis, j),
                |j: JoinView| !join_ready(vis, j),
            );
        }
        let (mut ready, waiting) = partition_ready(rem, &visited);
        if ready.len() == 0 {
            if waiting.len() == 0 {
                return Ok(acc);
            }
            let lefts = unreached_left_list(&visited, &waiting);
            if lefts.len() == 0 {
                return Err(RenderError::UnorderableJoins);
            }
            let k = least_index(&lefts);
            let a = lefts[k].clone();
            proof {
                lemma_promote_decreases(vis, joins_view(waiting@), a@);
            }
            visited.push(a);
            assert(strs(visited@) =~= vis.push(a@));
            rem = waiting;
        } else {
            let ghost rd = joins_view(ready@);
            let mut k: usize = 0;
            while k < ready.len()
                invariant
                    rd == joins_view(ready@),
                    k <= ready@.len(),
                    strs(visited@) == vis + right_aliases(rd).take(k as int),
                decreases ready@.len() - k,
            {
                let ghost vb = strs(visited@);
                visited.push(ready[k].right_alias.clone());
                assert(strs(visited@) =~= vb.push(rd[k as int].right_alias));
                assert(right_aliases(rd).take(k + 1) =~= right_aliases(rd).take(k as int).push(
                    rd[k as int].right_alias,
                ));
                k += 1;
            }
            assert(right_aliases(rd).take(k as int) =~= right_aliases(rd));
            let ghost ab = joins_view(acc@);
            acc.append(&mut ready);
            assert(joins_view(acc@) =~= ab + rd);
            rem = waiting;
        }
    }
}

// ---------------------------------------------------------------------------
// Clauses

pub open spec fn select_item(p: ProjectionView) -> Seq<char> {
    match p.alias {
        Some(a) => p.expression + " AS "@ + a,
        None => p.expression,
    }
}

/// `SELECT 1` without projections, else the projections in order.
pub open spec fn select_clause(ps: Seq<ProjectionView>) -> Seq<char> {
    if ps.len() == 0 {
        "SELECT 1"@
    } else {
        "SELECT "@ + join_with(ps.map_values(|p: ProjectionView| select_item(p)), ",\n       "@)
    }
}

pub open spec fn join_kind(t: JoinType) -> Seq<char> {
    match t {
        JoinType::Inner => "JOIN"@,
        JoinType::Left => "LEFT JOIN"@,
    }
}

pub open spec fn condition_text(c: CondView) -> Seq<char> {
    c.left + " = "@ + c.right
}

/// `JOIN <table> <alias> ON <conditions>` for a join whose target is known.
pub open spec fn join_line(tables: Seq<TableView>, j: JoinView) -> Seq<char> {
    join_kind(j.join_type) + " "@ + table_name(tables, j.right_alias) + " "@ + j.right_alias
        + " ON "@ + join_with(j.conditions.map_values(|c: CondView| condition_text(c)), " AND "@)
}

/// Each join on a line of its own, or the first target alias no table has.
pub open spec fn join_lines(tables: Seq<TableView>, js: Seq<JoinView>) -> Result<
    Seq<char>,
    Seq<char>,
>
    decreases js.len(),
{
    if js.len() == 0 {
        Ok(Seq::empty())
    } else {
        match join_lines(tables, js.drop_last()) {
            Err(a) => Err(a),
            Ok(t) => if has_alias(tables, js.last().right_alias) {
                Ok(t + "\n"@ + join_line(tables, js.last()))
            } else {
                Err(js.last().right_alias)
            },
        }
    }
}

pub open spec fn where_clause(fs: Seq<Seq<char>>) -> Seq<char> {
    if fs.len() == 0 {
        Seq::empty()
    } else {
        "\nWHERE "@ + join_with(fs, "\n  AND "@)
    }
}

/// Whether an expression holds an aggregate call, ignoring ASCII case.
pub open spec fn is_aggregate(e: Seq<char>) -> bool {
    ||| contains_upper(e, "STRING_AGG("@)
    ||| contains_upper(e, "COUNT("@)
    ||| contains_upper(e, "SUM("@)
    ||| contains_upper(e, "MIN("@)
    ||| contains_upper(e, "MAX("@)
    ||| contains_upper(e, "AVG("@)
    ||| contains_upper(e, "ARRAY_AGG("@)
}

pub open spec fn projection_exprs(ps: Seq<ProjectionView>) -> Seq<Seq<char>> {
    ps.map_values(|p: ProjectionView| p.expression)
}

/// Where some projection aggregates, every projection expression that does
/// not, in order; otherwise none.
pub open spec fn group_by_exprs(ps: Seq<ProjectionView>) -> Seq<Seq<char>> {
    if exists|i: int| 0 <= i < ps.len() && is_aggregate(#[trigger] ps[i].expression) {
        projection_exprs(ps).filter(|e: Seq<char>| !is_aggregate(e))
    } else {
        Seq::empty()
    }
}

pub open spec fn group_by_clause(ps: Seq<ProjectionView>) -> Seq<char> {
    if group_by_exprs(ps).len() == 0 {
        Seq::empty()
    } else {
        "\nGROUP BY "@ + join_with(group_by_exprs(ps), ",\n         "@)
    }
}

pub open spec fn order_item(o: OrderView) -> Seq<char> {
    o.expression + " "@ + match o.direction {
        SortDirection::Asc => "ASC"@,
        SortDirection::Desc => "DESC"@,
    }
}

pub open spec fn order_by_clause(os: Seq<OrderView>) -> Seq<char> {
    if os.len() == 0 {
        Seq::empty()
    } else {
        "\nORDER BY "@ + join_with(os.map_values(|o: OrderView| order_item(o)), ",\n         "@)
    }
}

pub open spec fn limit_clause(l: Option<u64>) -> Seq<char> {
    match l {
        Some(n) => "\nLIMIT "@ + decimal(n as nat),
        None => Seq::empty(),
    }
}

pub open spec fn offset_clause(o: Option<u64>) -> Seq<char> {
    match o {
        Some(n) => "\nOFFSET "@ + decimal(n as nat),
        None => Seq::empty(),
    }
}

/// The SQL text of a plan: SELECT, FROM the root, the ordered joins, WHERE,
/// the inferred GROUP BY, ORDER BY, LIMIT and OFFSET, one section per line.
pub open spec fn render_model(p: PlanView) -> Result<Seq<char>, RenderErrorView> {
    match root_model(p.tables, p.joins) {
        None => Err(RenderErrorView::NoRootTable),
        Some(root) => match order_joins_model(p.joins, root) {
            Err(e) => Err(e),
            Ok(js) => match join_lines(p.tables, js) {
                Err(a) => Err(RenderErrorView::UnknownAlias(a)),
                Ok(lines) => Ok(
                    select_clause(p.projections) + "\nFROM "@ + table_name(p.tables, root) + " "@
                        + root + lines + where_clause(p.filters) + group_by_clause(p.projections)
                        + order_by_clause(p.order_by) + limit_clause(p.limit) + offset_clause(
                        p.offset,
                    ),
                ),
            },
        },
    }
}

fn render_select(ps: &Vec<PlanProjection>) -> (r: String)
    ensures
        r@ == select_clause(ps@.map_values(|p: PlanProjection| p@)),
{
    let ghost pv = ps@.map_values(|p: PlanProjection| p@);
    let ghost items = pv.map_values(|p: ProjectionView| select_item(p));
    if ps.len() == 0 {
        return String::from_str("SELECT 1");
    }
    let mut cols = String::new();
    let mut i: usize = 0;
    assert(items.take(0) =~= Seq::<Seq<char>>::empty());
    while i < ps.len()
        invariant
            pv == ps@.map_values(|p: PlanProjection| p@),
            items == pv.map_values(|p: ProjectionView| select_item(p)),
            i <= ps@.len(),
            cols@ == join_with(items.take(i as int), ",\n       "@),
        decreases ps@.len() - i,
    {
        let p = &ps[i];
        let mut item = p.expression.clone();
        match &p.alias {
            Some(a) => {
                item.append(" AS ");
                item.append(a.as_str());
            },
            None => {},
        }
        assert(item@ == items[i as int]);
        push_joined(&mut cols, item.as_str(), ",\n       ", i, Ghost(items.take(i as int)));
        assert(items.take(i as int).push(item@) =~= items.take(i + 1));
        i += 1;
    }
    assert(items.take(i as int) =~= items);
    let mut out = String::from_str("SELECT ");
    out.append(cols.as_str());
    out
}

fn render_join_line(tables: &Vec<PlanTable>, j: &PlanJoin, k: usize) -> (r: String)
    requires
        k < tables@.len(),
        tables@[k as int].name@ == table_name(tables@.map_values(|t: PlanTable| t@), j@.right_alias),
    ensures
        r@ == join_line(tables@.map_values(|t: PlanTable| t@), j@),
{
    let ghost conds = j@.conditions.map_values(|c: CondView| condition_text(c));
    let mut on = String::new();
    let mut i: usize = 0;
    assert(conds.take(0) =~= Seq::<Seq<char>>::empty());
    while i < j.conditions.len()
        invariant
            conds == j@.conditions.map_values(|c: CondView| condition_text(c)),
            i <= j.conditions@.len(),
            on@ == join_with(conds.take(i as int), " AND "@),
        decreases j.conditions@.len() - i,
    {
        let c = &j.conditions[i];
        let mut t = c.left_field.clone();
        t.append(" = ");
        t.append(c.right_field.as_str());
        assert(t@ == conds[i as int]);
        push_joined(&mut on, t.as_str(), " AND ", i, Ghost(conds.take(i as int)));
        assert(conds.take(i as int).push(t@) =~= conds.take(i + 1));
        i += 1;
    }
    assert(conds.take(i as int) =~= conds);
    let mut out = match j.join_type {
        JoinType::Inner => String::from_str("JOIN"),
        JoinType::Left => String::from_str("LEFT JOIN"),
    };
    out.append(" ");
    out.append(tables[k].name.as_str());
    out.append(" ");
    out.append(j.right_alias.as_str());
    out.append(" ON ");
    out.append(on.as_str());
    out
}

fn render_joins(tables: &Vec<PlanTable>, js: &Vec<PlanJoin>) -> (r: Result<String, String>)
    ensures
        match r {
            Ok(t) => join_lines(tables@.map_values(|t: PlanTable| t@), joins_view(js@)) == Ok::<
                Seq<char>,
                Seq<char>,
            >(t@),
            Err(a) => join_lines(tables@.map_values(|t: PlanTable| t@), joins_view(js@)) == Err::<
                Seq<char>,
                Seq<char>,
            >(a@),
        },
{
    let ghost ts = tables@.map_values(|t: PlanTable| t@);
    let ghost jv = joins_view(js@);
    let mut out = String::new();
    let mut i: usize = 0;
    assert(jv.take(0) =~= Seq::<JoinView>::empty());
    while i < js.len()
        invariant
            ts == tables@.map_values(|t: PlanTable| t@),
            jv == joins_view(js@),
            i <= js@.len(),
            join_lines(ts, jv.take(i as int)) == Ok::<Seq<char>, Seq<char>>(out@),
        decreases js@.len() - i,
    {
        assert(jv.take(i + 1).drop_last() =~= jv.take(i as int));
        assert(jv.take(i + 1).last() == jv[i as int]);
        let j = &js[i];
        match find_table(tables, j.right_alias.as_str()) {
            None => {
                proof {
                    lemma_join_lines_err_extends(ts, jv, i as int + 1);
                }
                return Err(j.right_alias.clone());
            },
            Some(k) => {
                assert(ts[k as int].alias == jv[i as int].right_alias);
                let line = render_join_line(tables, j, k);
                out.append("\n");
                out.append(line.as_str());
                i += 1;
            },
        }
    }
    assert(jv.take(i as int) =~= jv);
    Ok(out)
}

/// Once a prefix fails, the whole list fails the same way.
proof fn lemma_join_lines_err_extends(tables: Seq<TableView>, js: Seq<JoinView>, i: int)
    requires
        0 <= i <= js.len(),
        join_lines(tables, js.take(i)) is Err,
    ensures
        join_lines(tables, js) == join_lines(tables, js.take(i)),
    decreases js.len() - i,
{
    if i < js.len() {
        assert(js.take(i + 1).drop_last() =~= js.take(i));
        lemma_join_lines_err_extends(tables, js, i + 1);
    } else {
        assert(js.take(i) =~= js);
    }
}

fn render_where(fs: &Vec<PlanFilter>) -> (r: String)
    ensures
        r@ == where_clause(fs@.map_values(|f: PlanFilter| f.expression@)),
{
    let ghost fv = fs@.map_values(|f: PlanFilter| f.expression@);
    if fs.len() == 0 {
        return String::new();
    }
    let mut preds = String::new();
    let mut i: usize = 0;
    assert(fv.take(0) =~= Seq::<Seq<char>>::empty());
    while i < fs.len()
        invariant
            fv == fs@.map_values(|f: PlanFilter| f.expression@),
            i <= fs@.len(),
            preds@ == join_with(fv.take(i as int), "\n  AND "@),
        decreases fs@.len() - i,
    {
        push_joined(&mut preds, fs[i].expression.as_str(), "\n  AND ", i, Ghost(fv.take(i as int)));
        assert(fv.take(i as int).push(fs@[i as int].expression@) =~= fv.take(i + 1));
        i += 1;
    }
    assert(fv.take(i as int) =~= fv);
    let mut out = String::from_str("\nWHERE ");
    out.append(preds.as_str());
    out
}

/// Whether an expression holds an aggregate call, ignoring ASCII case.
pub fn is_aggregate_expr(expr: &str) -> (r: bool)
    ensures
        r == is_aggregate(expr@),
{
    contains_upper_str(expr, "STRING_AGG(") || contains_upper_str(expr, "COUNT(")
        || contains_upper_str(expr, "SUM(") || contains_upper_str(expr, "MIN(")
        || contains_upper_str(expr, "MAX(") || contains_upper_str(expr, "AVG(")
        || contains_upper_str(expr, "ARRAY_AGG(")
}

/// The expressions to group by: where some projection aggregates, every
/// projection expression that does not, in order.
pub fn group_by_exprs_of(plan: &IntermediatePlan) -> (r: Vec<String>)
    ensures
        strs(r@) == group_by_exprs(plan@.projections),
{
    let ghost ps = plan@.projections;
    let mut any = false;
    let mut i: usize = 0;
    while i < plan.projections.len()
        invariant
            ps == plan@.projections,
            i <= ps.len(),
            any == exists|k: int| 0 <= k < i && is_aggregate(#[trigger] ps[k].expression),
        decreases ps.len() - i,
    {
        let agg = is_aggregate_expr(plan.projections[i].expression.as_str());
        assert(ps[i as int].expression == plan.projections@[i as int].expression@);
        if agg {
            any = true;
        }
        assert(any == exists|k: int| 0 <= k < i + 1 && is_aggregate(#[trigger] ps[k].expression)) by {
            if agg {
                assert(is_aggregate(ps[i as int].expression));
            }
        }
        i += 1;
    }
    let mut out: Vec<String> = Vec::new();
    if !any {
        assert(strs(out@) =~= Seq::<Seq<char>>::empty());
        return out;
    }
    let ghost es = projection_exprs(ps);
    let ghost p = |e: Seq<char>| !is_aggregate(e);
    let mut i: usize = 0;
    while i < plan.projections.len()
        invariant
            ps == plan@.projections,
            es == projection_exprs(ps),
            p == (|e: Seq<char>| !is_aggregate(e)),
            i <= ps.len(),
            strs(out@) == es.take(i as int).filter(p),
        decreases ps.len() - i,
    {
        let e = &plan.projections[i].expression;
        proof {
            lemma_filter_take_step(es, p, i as int);
        }
        if !is_aggregate_expr(e.as_str()) {
            let ghost ob = strs(out@);
            out.push(e.clone());
            assert(strs(out@) =~= ob.push(es[i as int]));
        }
        i += 1;
    }
    assert(es.take(i as int) =~= es);
    out
}

fn render_group_by(plan: &IntermediatePlan) -> (r: String)
    ensures
        r@ == group_by_clause(plan@.projections),
{
    let exprs = group_by_exprs_of(plan);
    let ghost ev = strs(exprs@);
    if exprs.len() == 0 {
        return String::new();
    }
    let mut items = String::new();
    let mut i: usize = 0;
    assert(ev.take(0) =~= Seq::<Seq<char>>::empty());
    while i < exprs.len()
        invariant
            ev == strs(exprs@),
            i <= exprs@.len(),
            items@ == join_with(ev.take(i as int), ",\n         "@),
        decreases exprs@.len() - i,
    {
        push_joined(&mut items, exprs[i].as_str(), ",\n         ", i, Ghost(ev.take(i as int)));
        assert(ev.take(i as int).push(exprs@[i as int]@) =~= ev.take(i + 1));
        i += 1;
    }
    assert(ev.take(i as int) =~= ev);
    let mut out = String::from_str("\nGROUP BY ");
    out.append(items.as_str());
    out
}

fn render_order_by(plan: &IntermediatePlan) -> (r: String)
    ensures
        r@ == order_by_clause(plan@.order_by),
{
    let ghost items = plan@.order_by.map_values(|o: OrderView| order_item(o));
    if plan.order_by.len() == 0 {
        return String::new();
    }
    let mut text = String::new();
    let mut i: usize = 0;
    assert(items.take(0) =~= Seq::<Seq<char>>::empty());
    while i < plan.order_by.len()
        invariant
            items == plan@.order_by.map_values(|o: OrderView| order_item(o)),
            i <= plan@.order_by.len(),
            text@ == join_with(items.take(i as int), ",\n         "@),
        decreases plan@.order_by.len() - i,
    {
        let o = &plan.order_by[i];
        let mut t = o.expression.clone();
        t.append(" ");
        match o.direction {
            SortDirection::Asc => t.append("ASC"),
            SortDirection::Desc => t.append("DESC"),
        }
        assert(t@ == items[i as int]);
        push_joined(&mut text, t.as_str(), ",\n         ", i, Ghost(items.take(i as int)));
        assert(items.take(i as int).push(t@) =~= items.take(i + 1));
        i += 1;
    }
    assert(items.take(i as int) =~= items);
    let mut out = String::from_str("\nORDER BY ");
    out.append(text.as_str());
    out
}

fn render_bound(keyword: &str, v: Option<u64>) -> (r: String)
    ensures
        r@ == match v {
            Some(n) => keyword@ + decimal(n as nat),
            None => Seq::empty(),
        },
{
    match v {
        Some(n) => {
            let mut out = String::from_str(keyword);
            let d = decimal_string(n);
            out.append(d.as_str());
            out
        },
        None => String::new(),
    }
}

/// Renders a plan into SQL text; the text depends on the plan alone.
pub fn render_sql(plan: &IntermediatePlan) -> (r: Result<String, RenderError>)
    ensures
        match r {
            Ok(sql) => render_model(plan@) == Ok::<Seq<char>, RenderErrorView>(sql@),
            Err(e) => render_model(plan@) == Err::<Seq<char>, RenderErrorView>(e@),
        },
{
    let select = render_select(&plan.projections);
    let root = match choose_root_alias(plan) {
        Some(a) => a,
        None => {
            return Err(RenderError::NoRootTable);
        },
    };
    let ordered = match order_joins(plan, root.as_str()) {
        Ok(js) => js,
        Err(e) => {
            return Err(e);
        },
    };
    let joins = match render_joins(&plan.tables, &ordered) {
        Ok(t) => t,
        Err(a) => {
            return Err(RenderError::UnknownAlias(a));
        },
    };
    let k = match find_table(&plan.tables, root.as_str()) {
        Some(k) => k,
        None => {
            proof {
                lemma_root_is_table(plan@.tables, plan@.joins);
            }
            return Err(RenderError::NoRootTable);
        },
    };
    let mut out = select;
    out.append("\nFROM ");
    out.append(plan.tables[k].name.as_str());
    out.append(" ");
    out.append(root.as_str());
    out.append(joins.as_str());
    let w = render_where(&plan.filters);
    out.append(w.as_str());
    let g = render_group_by(plan);
    out.append(g.as_str());
    let o = render_order_by(plan);
    out.append(o.as_str());
    let l = render_bound("\nLIMIT ", plan.limit);
    out.append(l.as_str());
    let f = render_bound("\nOFFSET ", plan.offset);
    out.append(f.as_str());
    Ok(out)
}

/// The chosen root is the alias of some table.
pub proof fn lemma_root_is_table(tables: Seq<TableView>, joins: Seq<JoinView>)
    requires
        root_model(tables, joins) is Some,
    ensures
        has_alias(tables, root_model(tables, joins)->Some_0),
{
    let all = table_aliases(tables);
    let cands = root_candidates(tables, joins);
    let starts = chain_starts(tables, joins);
    let a = root_model(tables, joins)->Some_0;
    if joins.len() > 0 && starts.len() > 0 {
        lemma_seq_least(starts);
        cands.lemma_filter_contains_rev(|a: Seq<char>| is_left_alias(joins, a), a);
    } else {
        lemma_seq_least(cands);
    }
    assert(cands.contains(a));
    all.lemma_filter_contains_rev(|a: Seq<char>| !is_right_alias(joins, a), a);
    let k = choose|k: int| 0 <= k < all.len() && all[k] == a;
    assert(tables[k].alias == a);
}

} // verus!
