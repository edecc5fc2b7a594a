//! Properties that relate several calls of the library.
use vstd::prelude::*;
use crate::cards::EdgeView;
use crate::compile::{
    compile_model, joined_edges, plan_entities, raw_joins, tables_model, CompileErrorView,
};
use crate::pipeline::pipeline_model;
use crate::join_normalize::{
    field_alias, lemma_normalize_joins_err, lemma_normalize_joins_ok, normalize_condition,
    normalize_join_model, normalize_joins_model, normalized_fn,
};
use crate::plan::{CondView, JoinView, PlanView, TableView};
use crate::registry::RegistryView;
use crate::render::{
    chain_starts, has_alias, is_first_alias, is_left_alias, is_right_alias, join_lines,
    key_lt, lemma_key_order, lemma_min_index, lemma_root_is_table, min_index, order_joins_model,
    render_model, root_candidates, root_model, sort_joins, table_aliases, table_name,
    };
use crate::report_spec::SpecView;
use crate::seqs::all_some;
use crate::text::lemma_least_same_elements;

verus! {

// ---------------------------------------------------------------------------
// The pipeline

/// Compiling and rendering the same registry and spec always gives the same
/// SQL text (or the same error): both stages are functions of their inputs.
pub proof fn lemma_pipeline_deterministic(r1: RegistryView, s1: SpecView, r2: RegistryView, s2: SpecView)
    requires
        r1 == r2,
        s1 == s2,
    ensures
        pipeline_model(r1, s1) == pipeline_model(r2, s2),
{
}

/// A spec for another workspace than the registry's is refused, whatever else
/// it says.
pub proof fn lemma_workspace_mismatch_rejected(reg: RegistryView, spec: SpecView)
    requires
        spec.workspace != reg.workspace,
    ensures
        compile_model(reg, spec) == Err::<PlanView, CompileErrorView>(
            CompileErrorView::WorkspaceMismatch { expected: reg.workspace, found: spec.workspace },
        ),
{
}

/// A join condition written from the right-hand table to the left-hand one
/// is turned around, so that it reads `left = right`.
pub proof fn lemma_reversed_condition_normalized(c: CondView, left: Seq<char>, right: Seq<char>)
    requires
        left != right,
        field_alias(c.left) == right,
        field_alias(c.right) == left,
    ensures
        normalize_condition(c, left, right) == Some(CondView { left: c.right, right: c.left }),
        field_alias(normalize_condition(c, left, right)->Some_0.left) == left,
        field_alias(normalize_condition(c, left, right)->Some_0.right) == right,
{
}

// ---------------------------------------------------------------------------
// Permutation invariance of rendering

/// Two plans that differ at most in the order of their tables and joins.
pub open spec fn same_up_to_order(plan_a: PlanView, plan_b: PlanView) -> bool {
    &&& plan_a.tables.to_multiset() == plan_b.tables.to_multiset()
    &&& plan_a.joins.to_multiset() == plan_b.joins.to_multiset()
    &&& plan_a.workspace == plan_b.workspace
    &&& plan_a.projections == plan_b.projections
    &&& plan_a.filters == plan_b.filters
    &&& plan_a.order_by == plan_b.order_by
    &&& plan_a.limit == plan_b.limit
    &&& plan_a.offset == plan_b.offset
}

/// Tables that share an alias are the same table.
pub open spec fn aliases_consistent(ts: Seq<TableView>) -> bool {
    forall|i: int, j: int|
        0 <= i < ts.len() && 0 <= j < ts.len() && (#[trigger] ts[i]).alias == (#[trigger] ts[j]).alias
            ==> ts[i] == ts[j]
}

/// Joins that share (left alias, right alias) are the same join.
pub open spec fn keys_consistent(js: Seq<JoinView>) -> bool {
    forall|i: int, j: int|
        0 <= i < js.len() && 0 <= j < js.len() && (#[trigger] js[i]).left_alias
            == (#[trigger] js[j]).left_alias && js[i].right_alias == js[j].right_alias ==> js[i]
            == js[j]
}

proof fn lemma_same_elements<A>(s1: Seq<A>, s2: Seq<A>)
    requires
        s1.to_multiset() == s2.to_multiset(),
    ensures
        s1.len() == s2.len(),
        forall|x: A| s1.contains(x) <==> s2.contains(x),
{
    broadcast use vstd::seq_lib::group_to_multiset_ensures;

    assert(s1.len() == s1.to_multiset().len());
    assert(s2.len() == s2.to_multiset().len());
    assert forall|x: A| s1.contains(x) <==> s2.contains(x) by {
        assert(s1.contains(x) <==> s1.to_multiset().count(x) > 0);
        assert(s2.contains(x) <==> s2.to_multiset().count(x) > 0);
    }
}

proof fn lemma_map_multiset<A, B>(s1: Seq<A>, s2: Seq<A>, g: spec_fn(A) -> B)
    requires
        s1.to_multiset() == s2.to_multiset(),
    ensures
        s1.map_values(g).to_multiset() == s2.map_values(g).to_multiset(),
    decreases s1.len(),
{
    broadcast use vstd::seq_lib::group_to_multiset_ensures, vstd::multiset::group_multiset_axioms;

    lemma_same_elements(s1, s2);
    if s1.len() == 0 {
        assert(s1.map_values(g) =~= Seq::<B>::empty());
        assert(s2.map_values(g) =~= Seq::<B>::empty());
    } else {
        let x = s1.last();
        let d1 = s1.drop_last();
        assert(s1 =~= d1.push(x));
        assert(s1.contains(x)) by {
            assert(s1[s1.len() - 1] == x);
        }
        let k = choose|k: int| 0 <= k < s2.len() && s2[k] == x;
        let d2 = s2.remove(k);
        assert(d1.push(x).to_multiset() == d1.to_multiset().insert(x));
        assert(d2.to_multiset() == s2.to_multiset().remove(x));
        assert(d1.to_multiset() =~= d2.to_multiset());
        lemma_map_multiset(d1, d2, g);
        assert(s1.map_values(g) =~= d1.map_values(g).push(g(x)));
        assert(d2.map_values(g) =~= s2.map_values(g).remove(k));
        assert(d1.map_values(g).push(g(x)).to_multiset() == d1.map_values(g).to_multiset().insert(g(x)));
        assert(s2.map_values(g).remove(k).to_multiset() == s2.map_values(g).to_multiset().remove(
            s2.map_values(g)[k],
        ));
        assert(s2.map_values(g).to_multiset().count(g(x)) > 0) by {
            assert(s2.map_values(g)[k] == g(x));
            assert(s2.map_values(g).contains(g(x)));
        }
        assert(s1.map_values(g).to_multiset() =~= s2.map_values(g).to_multiset());
    }
}

proof fn lemma_filter_contains<A>(s: Seq<A>, p: spec_fn(A) -> bool, x: A)
    ensures
        s.filter(p).contains(x) <==> s.contains(x) && p(x),
{
    if s.filter(p).contains(x) {
        s.lemma_filter_contains_rev(p, x);
        s.filter_lemma(p);
        let i = choose|i: int| 0 <= i < s.filter(p).len() && s.filter(p)[i] == x;
        assert(p(s.filter(p)[i]));
    }
    if s.contains(x) && p(x) {
        s.filter_lemma(p);
        let i = choose|i: int| 0 <= i < s.len() && s[i] == x;
        assert(s.filter(p).contains(s[i]));
    }
}

proof fn lemma_len_pos<A>(s: Seq<A>)
    ensures
        s.len() > 0 <==> exists|x: A| s.contains(x),
{
    if s.len() > 0 {
        assert(s.contains(s[0]));
    }
}

proof fn lemma_root_invariant(t1: Seq<TableView>, j1: Seq<JoinView>, t2: Seq<TableView>, j2: Seq<JoinView>)
    requires
        t1.to_multiset() == t2.to_multiset(),
        j1.to_multiset() == j2.to_multiset(),
    ensures
        root_model(t1, j1) == root_model(t2, j2),
{
    lemma_same_elements(t1, t2);
    lemma_same_elements(j1, j2);
    let a1 = table_aliases(t1);
    let a2 = table_aliases(t2);
    assert forall|x: Seq<char>| a1.contains(x) <==> a2.contains(x) by {
        if a1.contains(x) {
            let i = choose|i: int| 0 <= i < a1.len() && a1[i] == x;
            assert(t2.contains(t1[i]));
            let k = choose|k: int| 0 <= k < t2.len() && t2[k] == t1[i];
            assert(a2[k] == x);
        }
        if a2.contains(x) {
            let i = choose|i: int| 0 <= i < a2.len() && a2[i] == x;
            assert(t1.contains(t2[i]));
            let k = choose|k: int| 0 <= k < t1.len() && t1[k] == t2[i];
            assert(a1[k] == x);
        }
    }
    assert forall|x: Seq<char>| is_right_alias(j1, x) <==> is_right_alias(j2, x) by {
        if is_right_alias(j1, x) {
            let i = choose|i: int| 0 <= i < j1.len() && (#[trigger] j1[i]).right_alias == x;
            assert(j2.contains(j1[i]));
        }
        if is_right_alias(j2, x) {
            let i = choose|i: int| 0 <= i < j2.len() && (#[trigger] j2[i]).right_alias == x;
            assert(j1.contains(j2[i]));
        }
    }
    assert forall|x: Seq<char>| is_left_alias(j1, x) <==> is_left_alias(j2, x) by {
        if is_left_alias(j1, x) {
            let i = choose|i: int| 0 <= i < j1.len() && (#[trigger] j1[i]).left_alias == x;
            assert(j2.contains(j1[i]));
        }
        if is_left_alias(j2, x) {
            let i = choose|i: int| 0 <= i < j2.len() && (#[trigger] j2[i]).left_alias == x;
            assert(j1.contains(j2[i]));
        }
    }
    let c1 = root_candidates(t1, j1);
    let c2 = root_candidates(t2, j2);
    let pr1 = |a: Seq<char>| !is_right_alias(j1, a);
    let pr2 = |a: Seq<char>| !is_right_alias(j2, a);
    assert forall|x: Seq<char>| c1.contains(x) <==> c2.contains(x) by {
        lemma_filter_contains(a1, pr1, x);
        lemma_filter_contains(a2, pr2, x);
    }
    let s1 = chain_starts(t1, j1);
    let s2 = chain_starts(t2, j2);
    let pl1 = |a: Seq<char>| is_left_alias(j1, a);
    let pl2 = |a: Seq<char>| is_left_alias(j2, a);
    assert forall|x: Seq<char>| s1.contains(x) <==> s2.contains(x) by {
        lemma_filter_contains(c1, pl1, x);
        lemma_filter_contains(c2, pl2, x);
    }
    lemma_len_pos(c1);
    lemma_len_pos(c2);
    lemma_len_pos(s1);
    lemma_len_pos(s2);
    if s1.len() > 0 {
        lemma_least_same_elements(s1, s2);
    }
    if c1.len() > 0 {
        lemma_least_same_elements(c1, c2);
    }
}

proof fn lemma_sort_permutation(s1: Seq<JoinView>, s2: Seq<JoinView>)
    requires
        s1.to_multiset() == s2.to_multiset(),
        keys_consistent(s1),
    ensures
        sort_joins(s1) == sort_joins(s2),
    decreases s1.len(),
{
    broadcast use vstd::seq_lib::group_to_multiset_ensures;

    lemma_same_elements(s1, s2);
    if s1.len() == 0 {
        assert(s1 =~= s2);
    } else {
        lemma_min_index(s1);
        lemma_min_index(s2);
        let m1 = min_index(s1);
        let m2 = min_index(s2);
        let x1 = s1[m1];
        let x2 = s2[m2];
        assert(s2.contains(x1));
        let a = choose|a: int| 0 <= a < s2.len() && s2[a] == x1;
        assert(!key_lt(s2[a], x2));
        assert(s1.contains(x2));
        let b = choose|b: int| 0 <= b < s1.len() && s1[b] == x2;
        assert(!key_lt(s1[b], x1));
        lemma_key_order(x1, x2, x1);
        assert(s1[b] == s1[m1]);
        assert(x1 == x2);
        let r1 = s1.remove(m1);
        let r2 = s2.remove(m2);
        assert(r1.to_multiset() == s1.to_multiset().remove(x1));
        assert(r2.to_multiset() == s2.to_multiset().remove(x2));
        assert forall|i: int, j: int|
            0 <= i < r1.len() && 0 <= j < r1.len() && (#[trigger] r1[i]).left_alias
                == (#[trigger] r1[j]).left_alias && r1[i].right_alias == r1[j].right_alias implies r1[i]
            == r1[j] by {
            let i0 = if i < m1 { i } else { i + 1 };
            let j0 = if j < m1 { j } else { j + 1 };
            assert(r1[i] == s1[i0]);
            assert(r1[j] == s1[j0]);
        }
        lemma_sort_permutation(r1, r2);
    }
}

proof fn lemma_order_invariant(j1: Seq<JoinView>, j2: Seq<JoinView>, root: Seq<char>)
    requires
        j1.to_multiset() == j2.to_multiset(),
        keys_consistent(j1),
    ensures
        order_joins_model(j1, root) is Ok <==> order_joins_model(j2, root) is Ok,
        order_joins_model(j1, root) is Ok ==> order_joins_model(j1, root) == order_joins_model(j2, root),
{
    lemma_same_elements(j1, j2);
    if forall|i: int| 0 <= i < j1.len() ==> (#[trigger] normalize_join_model(j1[i])) is Ok {
        assert forall|i: int| 0 <= i < j2.len() implies (#[trigger] normalize_join_model(j2[i])) is Ok by {
            assert(j2.contains(j2[i]));
            let k = choose|k: int| 0 <= k < j1.len() && j1[k] == j2[i];
            assert(normalize_join_model(j1[k]) is Ok);
        }
        lemma_normalize_joins_ok(j1);
        lemma_normalize_joins_ok(j2);
        let g = normalized_fn();
        let n1 = j1.map_values(g);
        let n2 = j2.map_values(g);
        lemma_map_multiset(j1, j2, g);
        assert forall|i: int, j: int|
            0 <= i < n1.len() && 0 <= j < n1.len() && (#[trigger] n1[i]).left_alias
                == (#[trigger] n1[j]).left_alias && n1[i].right_alias == n1[j].right_alias implies n1[i]
            == n1[j] by {
            assert(normalize_join_model(j1[i]) is Ok);
            assert(normalize_join_model(j1[j]) is Ok);
            assert(j1[i] == j1[j]);
        }
        lemma_sort_permutation(n1, n2);
    } else {
        let k = choose|k: int| 0 <= k < j1.len() && !((#[trigger] normalize_join_model(j1[k])) is Ok);
        lemma_normalize_joins_err(j1, k);
        assert(j2.contains(j1[k]));
        let m = choose|m: int| 0 <= m < j2.len() && j2[m] == j1[k];
        lemma_normalize_joins_err(j2, m);
    }
}

proof fn lemma_first_alias_exists(ts: Seq<TableView>, a: Seq<char>)
    requires
        has_alias(ts, a),
    ensures
        exists|k: int| is_first_alias(ts, a, k),
    decreases ts.len(),
{
    let d = ts.drop_last();
    if has_alias(d, a) {
        lemma_first_alias_exists(d, a);
        let k = choose|k: int| is_first_alias(d, a, k);
        assert(d[k] == ts[k]);
        assert forall|j: int| 0 <= j < k implies (#[trigger] ts[j]).alias != a by {
            assert(d[j] == ts[j]);
        }
        assert(is_first_alias(ts, a, k));
    } else {
        let k = ts.len() - 1;
        let w = choose|w: int| 0 <= w < ts.len() && (#[trigger] ts[w]).alias == a;
        if w < k {
            assert(d[w] == ts[w]);
            assert(has_alias(d, a));
        }
        assert(w == k);
        assert(ts[k].alias == a);
        assert forall|j: int| 0 <= j < k implies (#[trigger] ts[j]).alias != a by {
            assert(d[j] == ts[j]);
        }
        assert(is_first_alias(ts, a, k));
    }
}

proof fn lemma_table_name_invariant(t1: Seq<TableView>, t2: Seq<TableView>, a: Seq<char>)
    requires
        forall|x: TableView| t1.contains(x) <==> t2.contains(x),
        aliases_consistent(t1),
    ensures
        has_alias(t1, a) <==> has_alias(t2, a),
        has_alias(t1, a) ==> table_name(t1, a) == table_name(t2, a),
{
    if has_alias(t1, a) {
        let i = choose|i: int| 0 <= i < t1.len() && (#[trigger] t1[i]).alias == a;
        assert(t2.contains(t1[i]));
        lemma_first_alias_exists(t1, a);
    }
    if has_alias(t2, a) {
        let i = choose|i: int| 0 <= i < t2.len() && (#[trigger] t2[i]).alias == a;
        assert(t1.contains(t2[i]));
        lemma_first_alias_exists(t2, a);
    }
    if has_alias(t1, a) {
        let k1 = choose|k: int| is_first_alias(t1, a, k);
        let k2 = choose|k: int| is_first_alias(t2, a, k);
        assert(t1.contains(t2[k2]));
        let m = choose|m: int| 0 <= m < t1.len() && t1[m] == t2[k2];
        assert(t1[m].alias == t1[k1].alias);
    }
}

proof fn lemma_join_lines_invariant(t1: Seq<TableView>, t2: Seq<TableView>, js: Seq<JoinView>)
    requires
        forall|x: TableView| t1.contains(x) <==> t2.contains(x),
        aliases_consistent(t1),
    ensures
        join_lines(t1, js) == join_lines(t2, js),
    decreases js.len(),
{
    if js.len() > 0 {
        lemma_join_lines_invariant(t1, t2, js.drop_last());
        lemma_table_name_invariant(t1, t2, js.last().right_alias);
    }
}

/// Reordering the tables and joins of a plan does not change its SQL:
/// either both orders render, to the same text, or neither does. Tables that
/// share an alias, and joins that share a (left, right) pair, must be alike,
/// since otherwise the order decides which one is meant.
pub proof fn lemma_render_permutation_invariant(plan_a: PlanView, plan_b: PlanView)
    requires
        same_up_to_order(plan_a, plan_b),
        aliases_consistent(plan_a.tables),
        keys_consistent(plan_a.joins),
    ensures
        render_model(plan_a) is Ok <==> render_model(plan_b) is Ok,
        render_model(plan_a) is Ok ==> render_model(plan_a) == render_model(plan_b),
{
    lemma_same_elements(plan_a.tables, plan_b.tables);
    lemma_root_invariant(plan_a.tables, plan_a.joins, plan_b.tables, plan_b.joins);
    if root_model(plan_a.tables, plan_a.joins) is Some {
        let root = root_model(plan_a.tables, plan_a.joins)->Some_0;
        lemma_order_invariant(plan_a.joins, plan_b.joins, root);
        lemma_root_is_table(plan_a.tables, plan_a.joins);
        lemma_table_name_invariant(plan_a.tables, plan_b.tables, root);
        if order_joins_model(plan_a.joins, root) is Ok {
            let js = order_joins_model(plan_a.joins, root)->Ok_0;
            lemma_join_lines_invariant(plan_a.tables, plan_b.tables, js);
        }
    }
}

/// Every join of a compiled plan connects two tables of that plan, so the
/// renderer finds each join's target.
pub proof fn lemma_compiled_joins_use_plan_tables(reg: RegistryView, spec: SpecView)
    requires
        compile_model(reg, spec) is Ok,
    ensures
        forall|k: int|
            0 <= k < compile_model(reg, spec)->Ok_0.joins.len() ==> has_alias(
                compile_model(reg, spec)->Ok_0.tables,
                (#[trigger] compile_model(reg, spec)->Ok_0.joins[k]).left_alias,
            ) && has_alias(compile_model(reg, spec)->Ok_0.tables, compile_model(reg, spec)->Ok_0.joins[k].right_alias),
{
    let cards = reg.cards;
    let ents = plan_entities(cards, spec);
    let raw = raw_joins(cards, ents);
    let p = compile_model(reg, spec)->Ok_0;
    let f = |j: JoinView| normalize_join_model(j).ok();
    assert(normalize_joins_model(raw) is Ok);
    assert(all_some(raw, f));
    assert forall|i: int| 0 <= i < raw.len() implies (#[trigger] normalize_join_model(raw[i])) is Ok by {
        assert(f(raw[i]) is Some);
    }
    lemma_normalize_joins_ok(raw);
    let n = raw.map_values(normalized_fn());
    assert(p.joins == n);
    assert(p.tables == tables_model(ents));
    let edges = joined_edges(cards, ents);
    let keep = |e: EdgeView| ents.contains(e.from) && ents.contains(e.to);
    cards.edges.filter_lemma(keep);
    assert forall|k: int| 0 <= k < p.joins.len() implies has_alias(p.tables, (#[trigger] p.joins[k]).left_alias)
        && has_alias(p.tables, p.joins[k].right_alias) by {
        assert(normalize_join_model(raw[k]) is Ok);
        assert(p.joins[k].left_alias == raw[k].left_alias);
        assert(p.joins[k].right_alias == raw[k].right_alias);
        let e = edges[k];
        assert(keep(e));
        let a = choose|a: int| 0 <= a < ents.len() && ents[a] == e.from;
        let b = choose|b: int| 0 <= b < ents.len() && ents[b] == e.to;
        assert(p.tables[a].alias == raw[k].left_alias);
        assert(p.tables[b].alias == raw[k].right_alias);
    }
}

} // verus!
