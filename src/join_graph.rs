//! Lookups on the declared join graph.
use vstd::prelude::*;
use crate::cards::{EdgeView, JoinEdge, SchemaCards};
use crate::text::str_eq;

verus! {

/// Position of the first edge from `from` to `to`.
pub open spec fn first_edge(edges: Seq<EdgeView>, from: Seq<char>, to: Seq<char>) -> Option<int>
    decreases edges.len(),
{
    if edges.len() == 0 {
        None
    } else if edges[0].from == from && edges[0].to == to {
        Some(0)
    } else {
        match first_edge(edges.skip(1), from, to) {
            Some(k) => Some(k + 1),
            None => None,
        }
    }
}

/// The first declared edge from `from` to `to`.
pub fn find_edge<'a>(cards: &'a SchemaCards, from: &str, to: &str) -> (r: Option<&'a JoinEdge>)
    ensures
        match first_edge(cards@.edges, from@, to@) {
            Some(k) => r matches Some(e) && e@ == cards@.edges[k],
            None => r is None,
        },
{
    let ghost es = cards@.edges;
    let mut i: usize = 0;
    assert(es.skip(0) =~= es);
    while i < cards.join_graph.edges.len()
        invariant
            es == cards@.edges,
            i <= es.len(),
            first_edge(es, from@, to@) == (match first_edge(es.skip(i as int), from@, to@) {
                Some(k) => Some(k + i),
                None => None::<int>,
            }),
        decreases es.len() - i,
    {
        let e = &cards.join_graph.edges[i];
        assert(es.skip(i as int)[0] == e@);
        if str_eq(e.from.as_str(), from) && str_eq(e.to.as_str(), to) {
            return Some(e);
        }
        assert(es.skip(i as int).skip(1) =~= es.skip(i + 1));
        i += 1;
    }
    None
}

/// Why an edge may not be used.
#[derive(Debug, Clone, Copy, PartialEq, Eq, Structural)]
pub enum EdgeError {
    /// No edge is declared between the two entities.
    Missing,
    /// The edge is declared but marked unsafe.
    Unsafe,
}

/// Checks that an edge from `from` to `to` is declared and marked safe.
pub fn assert_edge_safe(cards: &SchemaCards, from: &str, to: &str) -> (r: Result<(), EdgeError>)
    ensures
        match first_edge(cards@.edges, from@, to@) {
            Some(k) => if cards@.edges[k].safe {
                r is Ok
            } else {
                r == Err::<(), EdgeError>(EdgeError::Unsafe)
            },
            None => r == Err::<(), EdgeError>(EdgeError::Missing),
        },
{
    match find_edge(cards, from, to) {
        None => Err(EdgeError::Missing),
        Some(e) => {
            if e.safe {
                Ok(())
            } else {
                Err(EdgeError::Unsafe)
            }
        },
    }
}

} // verus!
