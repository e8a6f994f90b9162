use vstd::prelude::*;

use crate::card::{type_of, Card, CardID, CardType, StoreError};

verus! {

/// A prerequisite edge: `dependent` requires `dependency`.
#[derive(Clone, Copy, Debug, PartialEq, Eq, Structural)]
pub struct DepPair {
    pub dependent: CardID,
    pub dependency: CardID,
}

/// The cards that require `d`, in edge order.
pub open spec fn dependents_in(edges: Seq<DepPair>, d: CardID) -> Seq<CardID>
    decreases edges.len(),
{
    if edges.len() == 0 {
        Seq::empty()
    } else {
        let rest = dependents_in(edges.drop_last(), d);
        if edges.last().dependency == d {
            rest.push(edges.last().dependent)
        } else {
            rest
        }
    }
}

/// The cards that `c` requires, in edge order.
pub open spec fn dependencies_in(edges: Seq<DepPair>, c: CardID) -> Seq<CardID>
    decreases edges.len(),
{
    if edges.len() == 0 {
        Seq::empty()
    } else {
        let rest = dependencies_in(edges.drop_last(), c);
        if edges.last().dependent == c {
            rest.push(edges.last().dependency)
        } else {
            rest
        }
    }
}

/// The edge set holds the edge from `c` to `d`.
pub open spec fn has_edge(edges: Seq<DepPair>, c: CardID, d: CardID) -> bool {
    exists|i: int| 0 <= i < edges.len() && edges[i] == (DepPair { dependent: c, dependency: d })
}

proof fn lemma_dependents_in(edges: Seq<DepPair>, c: CardID, d: CardID)
    ensures
        dependents_in(edges, d).contains(c) <==> has_edge(edges, c, d),
        dependencies_in(edges, c).contains(d) <==> has_edge(edges, c, d),
    decreases edges.len(),
{
    if edges.len() > 0 {
        let rest = edges.drop_last();
        let e = DepPair { dependent: c, dependency: d };
        lemma_dependents_in(rest, c, d);
        if has_edge(rest, c, d) {
            let k = choose|k: int| 0 <= k < rest.len() && rest[k] == e;
            assert(edges[k] == e);
        }
        if has_edge(edges, c, d) && edges.last() != e {
            let k = choose|k: int| 0 <= k < edges.len() && edges[k] == e;
            assert(rest[k] == e);
        }
        if edges.last() == e {
            assert(edges[edges.len() - 1] == e);
        }
        let ds = dependents_in(rest, d);
        let cs = dependencies_in(rest, c);
        if edges.last().dependency == d {
            assert(dependents_in(edges, d) == ds.push(edges.last().dependent));
            assert(ds.push(edges.last().dependent)[ds.len() as int] == edges.last().dependent);
            if ds.contains(c) {
                let k = choose|k: int| 0 <= k < ds.len() && ds[k] == c;
                assert(ds.push(edges.last().dependent)[k] == c);
            }
            if dependents_in(edges, d).contains(c) && edges.last().dependent != c {
                let k = choose|k: int| 0 <= k < ds.len() + 1 && ds.push(edges.last().dependent)[k] == c;
                assert(ds[k] == c);
            }
        }
        if edges.last().dependent == c {
            assert(dependencies_in(edges, c) == cs.push(edges.last().dependency));
            assert(cs.push(edges.last().dependency)[cs.len() as int] == edges.last().dependency);
            if cs.contains(d) {
                let k = choose|k: int| 0 <= k < cs.len() && cs[k] == d;
                assert(cs.push(edges.last().dependency)[k] == d);
            }
            if dependencies_in(edges, c).contains(d) && edges.last().dependency != d {
                let k = choose|k: int| 0 <= k < cs.len() + 1 && cs.push(edges.last().dependency)[k] == d;
                assert(cs[k] == d);
            }
        }
    }
}

/// Dependents and dependencies are inverse views of one edge set: `c` is a
/// dependent of `d` exactly when `d` is a dependency of `c`.
pub proof fn lemma_inverse_views(edges: Seq<DepPair>, c: CardID, d: CardID)
    ensures
        dependents_in(edges, d).contains(c) <==> dependencies_in(edges, c).contains(d),
{
    lemma_dependents_in(edges, c, d);
}

/// The cards that require `dependency`.
pub fn get_dependents(edges: &Vec<DepPair>, dependency: CardID) -> (r: Vec<CardID>)
    ensures
        r@ == dependents_in(edges@, dependency),
{
    let mut out: Vec<CardID> = Vec::new();
    let mut i: usize = 0;
    while i < edges.len()
        invariant
            i <= edges@.len(),
            out@ == dependents_in(edges@.take(i as int), dependency),
        decreases edges@.len() - i,
    {
        assert(edges@.take(i as int + 1).drop_last() =~= edges@.take(i as int));
        if edges[i].dependency == dependency {
            out.push(edges[i].dependent);
        }
        i = i + 1;
    }
    assert(edges@.take(edges@.len() as int) =~= edges@);
    out
}

/// The cards that `dependent` requires.
pub fn get_dependencies(edges: &Vec<DepPair>, dependent: CardID) -> (r: Vec<CardID>)
    ensures
        r@ == dependencies_in(edges@, dependent),
{
    let mut out: Vec<CardID> = Vec::new();
    let mut i: usize = 0;
    while i < edges.len()
        invariant
            i <= edges@.len(),
            out@ == dependencies_in(edges@.take(i as int), dependent),
        decreases edges@.len() - i,
    {
        assert(edges@.take(i as int + 1).drop_last() =~= edges@.take(i as int));
        if edges[i].dependent == dependent {
            out.push(edges[i].dependency);
        }
        i = i + 1;
    }
    assert(edges@.take(edges@.len() as int) =~= edges@);
    out
}

/// Attaches to a bare card its dependents and dependencies; every other
/// field is kept.
pub fn fill_dependencies(edges: &Vec<DepPair>, card: Card) -> (r: Card)
    ensures
        r.dependents@ == dependents_in(edges@, card.id),
        r.dependencies@ == dependencies_in(edges@, card.id),
        r == (Card { dependents: r.dependents, dependencies: r.dependencies, ..card }),
{
    let mut card = card;
    card.dependents = get_dependents(edges, card.id);
    card.dependencies = get_dependencies(edges, card.id);
    card
}

/// Some card of the collection with this id is finished.
pub open spec fn finished_in(cards: Seq<Card>, id: CardID) -> bool {
    exists|k: int| 0 <= k < cards.len() && cards[k].id == id && type_of(cards[k].data) == CardType::Finished
}

/// Every dependency of the card is a finished card of the collection: the
/// gate a card passes before it is presented for review.
pub open spec fn prerequisites_met(card: Card, cards: Seq<Card>) -> bool {
    forall|j: int| 0 <= j < card.dependencies.len() ==> finished_in(cards, #[trigger] card.dependencies@[j])
}

fn is_finished_in(cards: &Vec<Card>, id: CardID) -> (r: bool)
    ensures
        r == finished_in(cards@, id),
{
    let mut k: usize = 0;
    while k < cards.len()
        invariant
            k <= cards@.len(),
            forall|m: int| 0 <= m < k ==> !(cards@[m].id == id && type_of(cards@[m].data) == CardType::Finished),
        decreases cards@.len() - k,
    {
        if cards[k].id == id && cards[k].cardtype() == CardType::Finished {
            return true;
        }
        k = k + 1;
    }
    false
}

/// Whether every dependency of the card is a finished card of `cards`.
pub fn dependencies_resolved(card: &Card, cards: &Vec<Card>) -> (r: bool)
    ensures
        r == prerequisites_met(*card, cards@),
{
    let mut j: usize = 0;
    while j < card.dependencies.len()
        invariant
            j <= card.dependencies@.len(),
            forall|m: int| 0 <= m < j ==> finished_in(cards@, #[trigger] card.dependencies@[m]),
        decreases card.dependencies@.len() - j,
    {
        if !is_finished_in(cards, card.dependencies[j]) {
            return false;
        }
        j = j + 1;
    }
    true
}

/// The ids, in order, of the candidates that may be presented for review.
/// With `enforce` set, a candidate needs its prerequisites met.
pub open spec fn gated_ids(candidates: Seq<Card>, cards: Seq<Card>, enforce: bool) -> Seq<CardID>
    decreases candidates.len(),
{
    if candidates.len() == 0 {
        Seq::empty()
    } else {
        let rest = gated_ids(candidates.drop_last(), cards, enforce);
        if !enforce || prerequisites_met(candidates.last(), cards) {
            rest.push(candidates.last().id)
        } else {
            rest
        }
    }
}

/// Builds the review queue from the candidates, holding back, when the
/// gate is enforced, every card with a prerequisite that is not finished.
pub fn gate_review_queue(candidates: &Vec<Card>, cards: &Vec<Card>, enforce: bool) -> (r: Vec<CardID>)
    ensures
        r@ == gated_ids(candidates@, cards@, enforce),
{
    let mut out: Vec<CardID> = Vec::new();
    let mut i: usize = 0;
    while i < candidates.len()
        invariant
            i <= candidates@.len(),
            out@ == gated_ids(candidates@.take(i as int), cards@, enforce),
        decreases candidates@.len() - i,
    {
        assert(candidates@.take(i as int + 1).drop_last() =~= candidates@.take(i as int));
        if !enforce || dependencies_resolved(&candidates[i], cards) {
            out.push(candidates[i].id);
        }
        i = i + 1;
    }
    assert(candidates@.take(candidates@.len() as int) =~= candidates@);
    out
}

/// No edge of `r` has `v` as its dependent: `v` requires nothing in `r`.
pub open spec fn free_in(r: Seq<DepPair>, v: CardID) -> bool {
    forall|i: int| 0 <= i < r.len() ==> #[trigger] r[i].dependent != v
}

/// `rank` places every card above each of its prerequisites.
pub open spec fn ranks(edges: Seq<DepPair>, rank: spec_fn(CardID) -> nat) -> bool {
    forall|i: int| 0 <= i < edges.len() ==> rank(#[trigger] edges[i].dependent) > rank(edges[i].dependency)
}

/// The prerequisite graph has no cycle: its cards can be ranked so that
/// every card ranks above what it requires.
pub open spec fn acyclic(edges: Seq<DepPair>) -> bool {
    exists|rank: spec_fn(CardID) -> nat| ranks(edges, rank)
}

/// Removing edges keeps a graph acyclic.
proof fn lemma_sub_acyclic(edges: Seq<DepPair>, sub: Seq<DepPair>)
    requires
        acyclic(edges),
        forall|i: int| 0 <= i < sub.len() ==> edges.contains(#[trigger] sub[i]),
    ensures
        acyclic(sub),
{
    let rank = choose|rank: spec_fn(CardID) -> nat| ranks(edges, rank);
    assert forall|i: int| 0 <= i < sub.len() implies rank(#[trigger] sub[i].dependent) > rank(sub[i].dependency) by {
        assert(edges.contains(sub[i]));
        let k = choose|k: int| 0 <= k < edges.len() && edges[k] == sub[i];
        assert(rank(edges[k].dependent) > rank(edges[k].dependency));
    }
    assert(ranks(sub, rank));
}

/// A non-empty graph in which every prerequisite requires something itself
/// has a cycle.
proof fn lemma_stuck_cyclic(r: Seq<DepPair>)
    requires
        r.len() > 0,
        forall|i: int| 0 <= i < r.len() ==> !free_in(r, #[trigger] r[i].dependency),
    ensures
        !acyclic(r),
{
    if acyclic(r) {
        let rank = choose|rank: spec_fn(CardID) -> nat| ranks(r, rank);
        lemma_stuck_unbounded(r, rank, rank(r[0].dependency) + 1);
        assert(rank(r[0].dependency) >= rank(r[0].dependency) + 1);
    }
}

proof fn lemma_stuck_unbounded(r: Seq<DepPair>, rank: spec_fn(CardID) -> nat, k: nat)
    requires
        ranks(r, rank),
        forall|i: int| 0 <= i < r.len() ==> !free_in(r, #[trigger] r[i].dependency),
    ensures
        forall|i: int| 0 <= i < r.len() ==> rank(#[trigger] r[i].dependency) >= k,
    decreases k,
{
    if k > 0 {
        lemma_stuck_unbounded(r, rank, (k - 1) as nat);
        assert forall|i: int| 0 <= i < r.len() implies rank(#[trigger] r[i].dependency) >= k by {
            assert(!free_in(r, r[i].dependency));
            let j = choose|j: int| 0 <= j < r.len() && r[j].dependent == r[i].dependency;
            assert(rank(r[j].dependent) > rank(r[j].dependency));
        }
    }
}

/// Ranking the edges that remain after those into free cards are taken away
/// ranks the whole graph.
proof fn lemma_peel_acyclic(r: Seq<DepPair>, out: Seq<DepPair>)
    requires
        acyclic(out),
        forall|i: int| 0 <= i < out.len() ==> r.contains(#[trigger] out[i]),
        forall|i: int| 0 <= i < r.len() ==> out.contains(#[trigger] r[i]) || free_in(r, r[i].dependency),
    ensures
        acyclic(r),
{
    let inner = choose|rank: spec_fn(CardID) -> nat| ranks(out, rank);
    let rank = |v: CardID| if free_in(r, v) { 0 } else { inner(v) + 1 };
    assert forall|i: int| 0 <= i < r.len() implies rank(#[trigger] r[i].dependent) > rank(r[i].dependency) by {
        let e = r[i];
        assert(!free_in(r, e.dependent)) by {
            assert(r[i].dependent == e.dependent);
        }
        if out.contains(e) {
            let k = choose|k: int| 0 <= k < out.len() && out[k] == e;
            assert(inner(out[k].dependent) > inner(out[k].dependency));
        }
    }
    assert(ranks(r, rank));
}

/// The edges of `r` whose prerequisite still requires something in `r`.
fn peel(r: &Vec<DepPair>) -> (out: Vec<DepPair>)
    ensures
        out@.len() <= r@.len(),
        forall|i: int| 0 <= i < out@.len() ==> r@.contains(#[trigger] out@[i]),
        forall|i: int| 0 <= i < r@.len() ==> out@.contains(#[trigger] r@[i]) || free_in(r@, r@[i].dependency),
        out@.len() == r@.len() ==> forall|i: int| 0 <= i < r@.len() ==> !free_in(r@, #[trigger] r@[i].dependency),
{
    let mut out: Vec<DepPair> = Vec::new();
    let mut i: usize = 0;
    while i < r.len()
        invariant
            i <= r@.len(),
            out@.len() <= i,
            forall|k: int| 0 <= k < out@.len() ==> r@.contains(#[trigger] out@[k]),
            forall|k: int| 0 <= k < i ==> out@.contains(#[trigger] r@[k]) || free_in(r@, r@[k].dependency),
            out@.len() == i ==> forall|k: int| 0 <= k < i ==> !free_in(r@, #[trigger] r@[k].dependency),
        decreases r@.len() - i,
    {
        let v = r[i].dependency;
        let mut j: usize = 0;
        let mut requires_some = false;
        while j < r.len()
            invariant
                j <= r@.len(),
                requires_some ==> !free_in(r@, v),
                !requires_some ==> forall|m: int| 0 <= m < j ==> r@[m].dependent != v,
            decreases r@.len() - j,
        {
            if r[j].dependent == v {
                requires_some = true;
            }
            j = j + 1;
        }
        let ghost before = out@;
        if requires_some {
            out.push(r[i]);
            proof {
                assert(out@[out@.len() - 1] == r@[i as int]);
                assert forall|k: int| 0 <= k < out@.len() implies r@.contains(#[trigger] out@[k]) by {
                    if k < before.len() {
                        assert(out@[k] == before[k]);
                    } else {
                        assert(r@[i as int] == out@[k]);
                    }
                }
                assert forall|k: int| 0 <= k < i + 1 implies out@.contains(#[trigger] r@[k]) || free_in(r@, r@[k].dependency) by {
                    if k < i {
                        if before.contains(r@[k]) {
                            let m = choose|m: int| 0 <= m < before.len() && before[m] == r@[k];
                            assert(out@[m] == r@[k]);
                        }
                    } else {
                        assert(out@[out@.len() - 1] == r@[k]);
                    }
                }
            }
        } else {
            assert(free_in(r@, v));
        }
        i = i + 1;
    }
    out
}

/// Accepts the edge set only if the prerequisite graph has no cycle; a cycle
/// is an invariant violation.
pub fn check_acyclic(edges: &Vec<DepPair>) -> (r: Result<(), StoreError>)
    ensures
        r is Ok <==> acyclic(edges@),
        r is Err ==> r == Err::<(), StoreError>(StoreError::InvariantViolation),
{
    let mut rest: Vec<DepPair> = edges.clone();
    assert(rest@ =~= edges@);
    loop
        invariant
            forall|i: int| 0 <= i < rest@.len() ==> edges@.contains(#[trigger] rest@[i]),
            acyclic(rest@) ==> acyclic(edges@),
        decreases rest@.len(),
    {
        if rest.len() == 0 {
            let ghost zero = |v: CardID| 0nat;
            assert(ranks(rest@, zero));
            return Ok(());
        }
        let next = peel(&rest);
        if next.len() == rest.len() {
            proof {
                lemma_stuck_cyclic(rest@);
                if acyclic(edges@) {
                    lemma_sub_acyclic(edges@, rest@);
                }
            }
            return Err(StoreError::InvariantViolation);
        }
        proof {
            if acyclic(next@) {
                lemma_peel_acyclic(rest@, next@);
            }
            assert forall|i: int| 0 <= i < next@.len() implies edges@.contains(#[trigger] next@[i]) by {
                assert(rest@.contains(next@[i]));
                let k = choose|k: int| 0 <= k < rest@.len() && rest@[k] == next@[i];
                assert(edges@.contains(rest@[k]));
            }
        }
        rest = next;
    }
}

/// An acyclic graph has no edge from a card to itself.
pub proof fn lemma_acyclic_no_self_edge(edges: Seq<DepPair>, i: int)
    requires
        acyclic(edges),
        0 <= i < edges.len(),
    ensures
        edges[i].dependent != edges[i].dependency,
{
    let rank = choose|rank: spec_fn(CardID) -> nat| ranks(edges, rank);
    assert(rank(edges[i].dependent) > rank(edges[i].dependency));
}

} // verus!
