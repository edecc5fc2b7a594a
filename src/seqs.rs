//! Mapping a partial function over a sequence, failing at the first element on
//! which it is undefined.
use vstd::prelude::*;

verus! {

/// `f` is defined on every element of `s`.
pub open spec fn all_some<A, B>(s: Seq<A>, f: spec_fn(A) -> Option<B>) -> bool {
    forall|i: int| 0 <= i < s.len() ==> (#[trigger] f(s[i])) is Some
}

/// The images of the elements of `s` under `f`, where all are defined.
pub open spec fn map_some<A, B>(s: Seq<A>, f: spec_fn(A) -> Option<B>) -> Seq<B> {
    s.map_values(|a: A| f(a)->Some_0)
}

/// `k` is the first position of `s` at which `f` is undefined.
pub open spec fn is_first_none<A, B>(s: Seq<A>, f: spec_fn(A) -> Option<B>, k: int) -> bool {
    &&& 0 <= k < s.len()
    &&& f(s[k]) is None
    &&& forall|j: int| 0 <= j < k ==> (#[trigger] f(s[j])) is Some
}

/// The first position of `s` at which `f` is undefined, where there is one.
pub open spec fn first_none<A, B>(s: Seq<A>, f: spec_fn(A) -> Option<B>) -> int {
    choose|k: int| is_first_none(s, f, k)
}

/// The images of all elements, or the first element on which `f` is undefined.
pub open spec fn try_map<A, B>(s: Seq<A>, f: spec_fn(A) -> Option<B>) -> Result<Seq<B>, A> {
    if all_some(s, f) {
        Ok(map_some(s, f))
    } else {
        Err(s[first_none(s, f)])
    }
}

pub proof fn lemma_first_none<A, B>(s: Seq<A>, f: spec_fn(A) -> Option<B>, k: int)
    requires
        is_first_none(s, f, k),
    ensures
        first_none(s, f) == k,
        !all_some(s, f),
        try_map(s, f) == Err::<Seq<B>, A>(s[k]),
{
    let c = first_none(s, f);
    assert(is_first_none(s, f, c));
    if c < k {
        assert(f(s[c]) is Some);
    } else if c > k {
        assert(f(s[k]) is Some);
    }
}

pub proof fn lemma_all_some<A, B>(s: Seq<A>, f: spec_fn(A) -> Option<B>, out: Seq<B>)
    requires
        all_some(s, f),
        out.len() == s.len(),
        forall|j: int| 0 <= j < s.len() ==> Some(#[trigger] out[j]) == f(s[j]),
    ensures
        try_map(s, f) == Ok::<Seq<B>, A>(out),
{
    assert(map_some(s, f) =~= out);
}

/// One more element of a prefix, filtered.
pub proof fn lemma_filter_take_step<A>(s: Seq<A>, p: spec_fn(A) -> bool, i: int)
    requires
        0 <= i < s.len(),
    ensures
        s.take(i + 1).filter(p) == (if p(s[i]) {
            s.take(i).filter(p).push(s[i])
        } else {
            s.take(i).filter(p)
        }),
{
    assert(s.take(i + 1) =~= s.take(i).push(s[i]));
    s.take(i).lemma_filter_push(s[i], p);
}

/// Filtering by a predicate and by its negation splits the sequence.
pub proof fn lemma_filter_partition<A>(s: Seq<A>, p: spec_fn(A) -> bool, q: spec_fn(A) -> bool)
    requires
        forall|x: A| #[trigger] q(x) == !p(x),
    ensures
        s.filter(p).len() + s.filter(q).len() == s.len(),
        s.filter(p).len() == 0 ==> s.filter(q) == s,
    decreases s.len(),
{
    reveal(Seq::filter);
    if s.len() > 0 {
        lemma_filter_partition(s.drop_last(), p, q);
        if s.filter(p).len() == 0 {
            assert(s.drop_last().filter(p).len() == 0);
            assert(s.filter(q) =~= s);
        }
    }
}

/// A stronger predicate keeps no more elements, and fewer where it drops an
/// element that the weaker one keeps.
pub proof fn lemma_filter_fewer<A>(s: Seq<A>, weaker: spec_fn(A) -> bool, stronger: spec_fn(A) -> bool, a: A)
    requires
        forall|x: A| #[trigger] stronger(x) ==> weaker(x),
    ensures
        s.filter(stronger).len() <= s.filter(weaker).len(),
        s.contains(a) && weaker(a) && !stronger(a) ==> s.filter(stronger).len() < s.filter(weaker).len(),
    decreases s.len(),
{
    reveal(Seq::filter);
    if s.len() > 0 {
        lemma_filter_fewer(s.drop_last(), weaker, stronger, a);
        if s.contains(a) && weaker(a) && !stronger(a) && s.last() != a {
            let k = choose|k: int| 0 <= k < s.len() && s[k] == a;
            assert(s.drop_last()[k] == a);
        }
    }
}

/// The error `f` gives for the earliest element of `s` that has one.
pub open spec fn first_error<A, E>(s: Seq<A>, f: spec_fn(A) -> Option<E>) -> Option<E>
    decreases s.len(),
{
    if s.len() == 0 {
        None
    } else {
        match f(s[0]) {
            Some(e) => Some(e),
            None => first_error(s.skip(1), f),
        }
    }
}

/// One step of a left-to-right scan for `first_error`.
pub proof fn lemma_first_error_step<A, E>(s: Seq<A>, f: spec_fn(A) -> Option<E>, i: int)
    requires
        0 <= i < s.len(),
    ensures
        first_error(s.skip(i), f) == (match f(s[i]) {
            Some(e) => Some(e),
            None => first_error(s.skip(i + 1), f),
        }),
{
    assert(s.skip(i)[0] == s[i]);
    assert(s.skip(i).skip(1) =~= s.skip(i + 1));
}

pub proof fn lemma_first_error_start<A, E>(s: Seq<A>, f: spec_fn(A) -> Option<E>)
    ensures
        first_error(s.skip(0), f) == first_error(s, f),
{
    assert(s.skip(0) =~= s);
}

pub proof fn lemma_first_error_end<A, E>(s: Seq<A>, f: spec_fn(A) -> Option<E>)
    ensures
        first_error(s.skip(s.len() as int), f) is None,
{
    assert(s.skip(s.len() as int).len() == 0);
}

} // verus!
