//! Orienting join conditions so that each one reads `left = right` with the
//! join's own left alias on the left.
use vstd::prelude::*;
use crate::plan::{CondView, JoinCondition, JoinView, PlanJoin};
use crate::seqs::{all_some, is_first_none, lemma_all_some, lemma_first_none, try_map};
use crate::text::{before_char, before_char_str, str_eq};

verus! {

/// A join condition that names neither orientation of its join.
#[derive(Debug, Clone)]
pub struct AmbiguousCondition {
    pub left_field: String,
    pub right_field: String,
    pub left_alias: String,
    pub right_alias: String,
}

pub struct AmbiguityView {
    pub left_field: Seq<char>,
    pub right_field: Seq<char>,
    pub left_alias: Seq<char>,
    pub right_alias: Seq<char>,
}

impl View for AmbiguousCondition {
    type V = AmbiguityView;

    open spec fn view(&self) -> AmbiguityView {
        AmbiguityView {
            left_field: self.left_field@,
            right_field: self.right_field@,
            left_alias: self.left_alias@,
            right_alias: self.right_alias@,
        }
    }
}

/// The alias part of a qualified column `alias.column`: what precedes the first
/// dot, or the whole text where there is none.
pub open spec fn field_alias(f: Seq<char>) -> Seq<char> {
    before_char(f, '.')
}

/// The condition oriented for a join from `left` to `right`: kept where it
/// already reads that way, swapped where it reads the other way.
pub open spec fn normalize_condition(c: CondView, left: Seq<char>, right: Seq<char>) -> Option<CondView> {
    if field_alias(c.left) == left && field_alias(c.right) == right {
        Some(c)
    } else if field_alias(c.left) == right && field_alias(c.right) == left {
        Some(CondView { left: c.right, right: c.left })
    } else {
        None
    }
}

/// The join with every condition oriented, or the first condition that cannot be.
pub open spec fn normalize_join_model(j: JoinView) -> Result<JoinView, AmbiguityView> {
    match try_map(j.conditions, |c: CondView| normalize_condition(c, j.left_alias, j.right_alias)) {
        Ok(cs) => Ok(JoinView { conditions: cs, ..j }),
        Err(c) => Err(
            AmbiguityView {
                left_field: c.left,
                right_field: c.right,
                left_alias: j.left_alias,
                right_alias: j.right_alias,
            },
        ),
    }
}

/// Every join normalized, or the error of the first that cannot be.
pub open spec fn normalize_joins_model(js: Seq<JoinView>) -> Result<Seq<JoinView>, AmbiguityView> {
    match try_map(js, |j: JoinView| normalize_join_model(j).ok()) {
        Ok(out) => Ok(out),
        Err(j) => Err(normalize_join_model(j)->Err_0),
    }
}

/// The normalized form of a join that has one.
pub open spec fn normalized_join(j: JoinView) -> JoinView {
    normalize_join_model(j)->Ok_0
}

pub open spec fn normalized_fn() -> spec_fn(JoinView) -> JoinView {
    |j: JoinView| normalized_join(j)
}

/// Where every join normalizes, the result is the normalized list.
pub proof fn lemma_normalize_joins_ok(js: Seq<JoinView>)
    requires
        forall|i: int| 0 <= i < js.len() ==> (#[trigger] normalize_join_model(js[i])) is Ok,
    ensures
        normalize_joins_model(js) == Ok::<Seq<JoinView>, AmbiguityView>(js.map_values(normalized_fn())),
{
    let f = |j: JoinView| normalize_join_model(j).ok();
    assert forall|i: int| 0 <= i < js.len() implies (#[trigger] f(js[i])) is Some by {
        assert(normalize_join_model(js[i]) is Ok);
    }
    assert(all_some(js, f));
    let out = js.map_values(normalized_fn());
    assert forall|i: int| 0 <= i < js.len() implies Some(#[trigger] out[i]) == f(js[i]) by {
        assert(normalize_join_model(js[i]) is Ok);
    }
    lemma_all_some(js, f, out);
}

/// Where some join does not normalize, neither does the list.
pub proof fn lemma_normalize_joins_err(js: Seq<JoinView>, k: int)
    requires
        0 <= k < js.len(),
        normalize_join_model(js[k]) is Err,
    ensures
        normalize_joins_model(js) is Err,
{
    let f = |j: JoinView| normalize_join_model(j).ok();
    assert(f(js[k]) is None);
    assert(!all_some(js, f));
}

fn normalize_condition_exec(c: &JoinCondition, left: &str, right: &str) -> (r: Option<JoinCondition>)
    ensures
        match r {
            Some(n) => normalize_condition(c@, left@, right@) == Some(n@),
            None => normalize_condition(c@, left@, right@) is None,
        },
{
    let a = before_char_str(c.left_field.as_str(), '.');
    let b = before_char_str(c.right_field.as_str(), '.');
    if str_eq(a, left) && str_eq(b, right) {
        Some(JoinCondition { left_field: c.left_field.clone(), right_field: c.right_field.clone() })
    } else if str_eq(a, right) && str_eq(b, left) {
        Some(JoinCondition { left_field: c.right_field.clone(), right_field: c.left_field.clone() })
    } else {
        None
    }
}

/// Orients every condition of `j` from its left alias to its right alias;
/// fails on the first condition that names neither orientation.
pub fn normalize_join(j: &PlanJoin) -> (r: Result<PlanJoin, AmbiguousCondition>)
    ensures
        match r {
            Ok(n) => normalize_join_model(j@) == Ok::<JoinView, AmbiguityView>(n@),
            Err(e) => normalize_join_model(j@) == Err::<JoinView, AmbiguityView>(e@),
        },
{
    let ghost f = |c: CondView| normalize_condition(c, j@.left_alias, j@.right_alias);
    let ghost cs = j@.conditions;
    let mut out: Vec<JoinCondition> = Vec::new();
    let mut i: usize = 0;
    while i < j.conditions.len()
        invariant
            cs == j.conditions@.map_values(|c: JoinCondition| c@),
            f == (|c: CondView| normalize_condition(c, j@.left_alias, j@.right_alias)),
            i <= cs.len(),
            out@.len() == i,
            forall|k: int| 0 <= k < i ==> Some(out@[k]@) == #[trigger] f(cs[k]),
        decreases cs.len() - i,
    {
        match normalize_condition_exec(&j.conditions[i], j.left_alias.as_str(), j.right_alias.as_str()) {
            Some(n) => {
                out.push(n);
                i += 1;
            },
            None => {
                proof {
                    assert(is_first_none(cs, f, i as int));
                    lemma_first_none(cs, f, i as int);
                }
                let c = &j.conditions[i];
                return Err(
                    AmbiguousCondition {
                        left_field: c.left_field.clone(),
                        right_field: c.right_field.clone(),
                        left_alias: j.left_alias.clone(),
                        right_alias: j.right_alias.clone(),
                    },
                );
            },
        }
    }
    let ghost outv = out@.map_values(|c: JoinCondition| c@);
    proof {
        assert(all_some(cs, f));
        lemma_all_some(cs, f, outv);
    }
    let r = PlanJoin {
        left_alias: j.left_alias.clone(),
        right_alias: j.right_alias.clone(),
        join_type: j.join_type,
        conditions: out,
    };
    assert(r@.conditions == outv);
    Ok(r)
}

/// Normalizes every join of a plan, in order; fails with the first
/// condition that cannot be oriented.
pub fn normalize_plan_joins(joins: Vec<PlanJoin>) -> (r: Result<Vec<PlanJoin>, AmbiguousCondition>)
    ensures
        match r {
            Ok(out) => normalize_joins_model(joins@.map_values(|j: PlanJoin| j@)) == Ok::<
                Seq<JoinView>,
                AmbiguityView,
            >(out@.map_values(|j: PlanJoin| j@)),
            Err(e) => normalize_joins_model(joins@.map_values(|j: PlanJoin| j@)) == Err::<
                Seq<JoinView>,
                AmbiguityView,
            >(e@),
        },
{
    normalize_all(&joins)
}

/// `normalize_plan_joins` on a borrowed list.
pub fn normalize_all(joins: &Vec<PlanJoin>) -> (r: Result<Vec<PlanJoin>, AmbiguousCondition>)
    ensures
        match r {
            Ok(out) => normalize_joins_model(joins@.map_values(|j: PlanJoin| j@)) == Ok::<
                Seq<JoinView>,
                AmbiguityView,
            >(out@.map_values(|j: PlanJoin| j@)),
            Err(e) => normalize_joins_model(joins@.map_values(|j: PlanJoin| j@)) == Err::<
                Seq<JoinView>,
                AmbiguityView,
            >(e@),
        },
{
    let ghost js = joins@.map_values(|j: PlanJoin| j@);
    let ghost f = |j: JoinView| normalize_join_model(j).ok();
    let mut out: Vec<PlanJoin> = Vec::new();
    let mut i: usize = 0;
    while i < joins.len()
        invariant
            js == joins@.map_values(|j: PlanJoin| j@),
            f == (|j: JoinView| normalize_join_model(j).ok()),
            i <= js.len(),
            out@.len() == i,
            forall|k: int| 0 <= k < i ==> Some(out@[k]@) == #[trigger] f(js[k]),
        decreases js.len() - i,
    {
        match normalize_join(&joins[i]) {
            Ok(n) => {
                out.push(n);
                i += 1;
            },
            Err(e) => {
                proof {
                    assert(is_first_none(js, f, i as int));
                    lemma_first_none(js, f, i as int);
                }
                return Err(e);
            },
        }
    }
    proof {
        assert(all_some(js, f));
        lemma_all_some(js, f, out@.map_values(|j: PlanJoin| j@));
    }
    Ok(out)
}

} // verus!
