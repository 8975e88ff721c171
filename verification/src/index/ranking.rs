//! The order in which the matches of a query are tried: the better tier
//! first; in one tier the higher score first; at one score the path with
//! fewer components first; and where all that is equal, the entry that
//! stands earlier in the index.

use vstd::prelude::*;
use vstd::relations::{sorted_by, total_ordering};
use vstd::seq_lib::{lemma_sorted_unique, to_multiset_build, to_multiset_insert, to_multiset_len};

verus! {

/// What is known of an entry when the matches of a query are ranked.
#[derive(Debug, Clone, Copy, PartialEq, Eq, Structural)]
pub struct Candidate {
    /// Where the entry stands in the index.
    pub position: usize,
    /// How the entry matched: 0 where the path holds the text as it is
    /// written, 1 where it holds it only when upper and lower case count as
    /// the same.
    pub tier: u8,
    /// A number that grows with the frecency score of the entry.
    pub score: u64,
    /// The number of components of the path.
    pub components: usize,
}

impl Candidate {
    /// Whether this candidate is tried before `other`.
    pub open spec fn precedes(self, other: Candidate) -> bool {
        ||| self.tier < other.tier
        ||| (self.tier == other.tier && self.score > other.score)
        ||| (self.tier == other.tier && self.score == other.score && self.components
            < other.components)
        ||| (self.tier == other.tier && self.score == other.score && self.components
            == other.components && self.position < other.position)
    }

    /// Whether this candidate is `other` or is tried before it.
    pub open spec fn at_most(self, other: Candidate) -> bool {
        self == other || self.precedes(other)
    }

    /// Whether this candidate is tried before `other`.
    pub fn comes_before(&self, other: &Candidate) -> (r: bool)
        ensures
            r == self.precedes(*other),
    {
        if self.tier != other.tier {
            self.tier < other.tier
        } else if self.score != other.score {
            self.score > other.score
        } else if self.components != other.components {
            self.components < other.components
        } else {
            self.position < other.position
        }
    }
}

/// The order of the ranking, as a relation.
pub open spec fn ranking_order() -> spec_fn(Candidate, Candidate) -> bool {
    |a: Candidate, b: Candidate| a.at_most(b)
}

/// The candidates in the order in which they are tried.
pub open spec fn ranked(candidates: Seq<Candidate>) -> Seq<Candidate> {
    candidates.sort_by(ranking_order())
}

/// The order of the ranking is total: of two different candidates exactly
/// one is tried before the other.
pub proof fn lemma_ranking_order_is_total()
    ensures
        total_ordering(ranking_order()),
{
    let order = ranking_order();
    assert forall|a: Candidate, b: Candidate| #[trigger] order(a, b) || #[trigger] order(b, a) by {
        if !a.precedes(b) && !b.precedes(a) {
            assert(a == b);
        }
    }
    assert forall|a: Candidate, b: Candidate| #[trigger]
        order(a, b) && #[trigger] order(b, a) implies a == b by {}
    assert forall|a: Candidate, b: Candidate, c: Candidate| #[trigger]
        order(a, b) && #[trigger] order(b, c) implies order(a, c) by {}
    assert forall|a: Candidate| #[trigger] order(a, a) by {}
}

/// The ranking holds exactly the candidates, each before those that it
/// precedes.
pub proof fn lemma_ranked(candidates: Seq<Candidate>)
    ensures
        ranked(candidates).to_multiset() == candidates.to_multiset(),
        ranked(candidates).len() == candidates.len(),
        forall|i: int, j: int|
            0 <= i < j < ranked(candidates).len() ==> (#[trigger] ranked(candidates)[i]).at_most(
                #[trigger] ranked(candidates)[j],
            ),
        forall|c: Candidate| candidates.contains(c) <==> ranked(candidates).contains(c),
{
    broadcast use vstd::seq_lib::group_to_multiset_ensures;

    lemma_ranking_order_is_total();
    candidates.lemma_sort_by_ensures(ranking_order());
    let sorted = ranked(candidates);
    to_multiset_len(candidates);
    to_multiset_len(sorted);
    assert forall|i: int, j: int| 0 <= i < j < sorted.len() implies (#[trigger] sorted[i]).at_most(
        #[trigger] sorted[j],
    ) by {
        assert(ranking_order()(sorted[i], sorted[j]));
    }
    assert forall|c: Candidate| candidates.contains(c) <==> sorted.contains(c) by {
        assert(candidates.to_multiset().count(c) == sorted.to_multiset().count(c));
    }
}

/// The candidates in the order in which they are tried.
pub fn rank_candidates(candidates: &Vec<Candidate>) -> (ranking: Vec<Candidate>)
    ensures
        ranking@ == ranked(candidates@),
{
    let ghost order = ranking_order();
    let mut ranking: Vec<Candidate> = Vec::new();
    let mut i: usize = 0;
    proof {
        lemma_ranking_order_is_total();
        assert(candidates@.take(0) =~= Seq::empty());
    }
    while i < candidates.len()
        invariant
            i <= candidates@.len(),
            order == ranking_order(),
            total_ordering(order),
            sorted_by(ranking@, order),
            ranking@.to_multiset() == candidates@.take(i as int).to_multiset(),
        decreases candidates@.len() - i,
    {
        let candidate = candidates[i];
        let mut at: usize = 0;
        while at < ranking.len() && !candidate.comes_before(&ranking[at])
            invariant
                at <= ranking@.len(),
                forall|k: int| 0 <= k < at ==> (#[trigger] ranking@[k]).at_most(candidate),
            decreases ranking@.len() - at,
        {
            at += 1;
        }
        let ghost before = ranking@;
        ranking.insert(at, candidate);
        proof {
            to_multiset_insert(before, at as int, candidate);
            to_multiset_build(candidates@.take(i as int), candidate);
            assert(candidates@.take(i as int).push(candidate) =~= candidates@.take(i + 1));
            assert forall|a: int, b: int| 0 <= a < b < ranking@.len() implies #[trigger] order(
                ranking@[a],
                ranking@[b],
            ) by {
                if b < at {
                    assert(order(before[a], before[b]));
                } else if b == at {
                    assert(before[a].at_most(candidate));
                } else if a < at {
                    assert(order(before[a], before[b - 1]));
                } else if a == at {
                    assert(candidate.precedes(before[at as int]));
                    if b - 1 > at {
                        assert(order(before[at as int], before[b - 1]));
                    }
                } else {
                    assert(order(before[a - 1], before[b - 1]));
                }
            }
        }
        i += 1;
    }
    proof {
        assert(candidates@.take(candidates@.len() as int) =~= candidates@);
        candidates@.lemma_sort_by_ensures(order);
        lemma_sorted_unique(ranking@, candidates@.sort_by(order), order);
    }
    ranking
}

} // verus!
