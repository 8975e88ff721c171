//! The question that the index answers: which remembered path matches a
//! text best.
//!
//! A path matches where it holds the text: in the first tier as the text
//! is written, in the second only when upper and lower case count as the
//! same. Where several paths match and one of them is an ancestor of all
//! the others, it is the answer. Else the matches are tried in the order of
//! their ranking, and the first that still exists is the answer; those that
//! were tried before it and exist no more leave the index.
//!
//! The index does not look at the disk and computes no score: whoever asks
//! brings, for each row, a number that grows with its frecency score and
//! whether its path exists.

use vstd::prelude::*;

use super::ranking::{lemma_ranked, rank_candidates, ranked, Candidate};
use super::table::{distinct_paths, holds_path, lemma_without, without, DirectoryIndex, Row};
use crate::paths::{
    count_path_components, path_component_count, path_has_prefix, path_starts_with,
};
use crate::text::{contains, lowercase, occurs_in, to_lowercase};

verus! {

/// The answer to a query.
#[derive(Debug, PartialEq, Eq)]
pub struct Answer {
    /// The path that matches best, if any matches.
    pub path: Option<String>,
    /// Whether rows left the index, so that it is to be saved.
    pub index_changed: bool,
}

/// How `path` matches `query`: 0 where it holds the text as it is written,
/// 1 where it holds it only in lower case, `None` where it does not.
pub open spec fn tier_of(path: Seq<char>, query: Seq<char>) -> Option<u8> {
    if occurs_in(query, path) {
        Some(0)
    } else if occurs_in(lowercase(query), lowercase(path)) {
        Some(1)
    } else {
        None
    }
}

/// The candidate that the row at `at` makes, if its path matches.
pub open spec fn candidate_at(rows: Seq<Row>, query: Seq<char>, scores: Seq<u64>, at: int) -> Option<
    Candidate,
> {
    match tier_of(rows[at].0, query) {
        Some(tier) => Some(
            Candidate {
                position: at as usize,
                tier,
                score: scores[at],
                components: path_component_count(rows[at].0) as usize,
            },
        ),
        None => None,
    }
}

/// The candidates among the first `upto` rows, in the order of the rows.
pub open spec fn candidates_of(rows: Seq<Row>, query: Seq<char>, scores: Seq<u64>, upto: int) -> Seq<
    Candidate,
>
    decreases upto,
{
    if upto <= 0 {
        Seq::empty()
    } else {
        let before = candidates_of(rows, query, scores, upto - 1);
        match candidate_at(rows, query, scores, upto - 1) {
            Some(candidate) => before.push(candidate),
            None => before,
        }
    }
}

/// Whether the path of candidate `a` is an ancestor of the paths of all
/// other candidates, of which there is one at least.
pub open spec fn is_common_ancestor(rows: Seq<Row>, candidates: Seq<Candidate>, a: int) -> bool {
    &&& candidates.len() > 1
    &&& forall|b: int|
        0 <= b < candidates.len() && b != a ==> path_has_prefix(
            rows[(#[trigger] candidates[b]).position as int].0,
            rows[candidates[a].position as int].0,
        )
}

/// The first candidate from `from` on whose path is an ancestor of the
/// paths of all candidates.
pub open spec fn first_common_ancestor(rows: Seq<Row>, candidates: Seq<Candidate>, from: int) -> Option<
    int,
>
    decreases candidates.len() - from,
{
    if from < 0 || from >= candidates.len() {
        None
    } else if is_common_ancestor(rows, candidates, from) {
        Some(from)
    } else {
        first_common_ancestor(rows, candidates, from + 1)
    }
}

/// The first place from `from` on in `ranking` whose path exists.
pub open spec fn first_existing(ranking: Seq<Candidate>, exists: Seq<bool>, from: int) -> Option<
    int,
>
    decreases ranking.len() - from,
{
    if from < 0 || from >= ranking.len() {
        None
    } else if exists[ranking[from].position as int] {
        Some(from)
    } else {
        first_existing(ranking, exists, from + 1)
    }
}

/// The number of candidates that are tried in vain: those before the first
/// that exists, or all of them.
pub open spec fn tried_in_vain(ranking: Seq<Candidate>, exists: Seq<bool>) -> int {
    match first_existing(ranking, exists, 0) {
        Some(hit) => hit,
        None => ranking.len() as int,
    }
}

/// The places of the rows that leave the index: those of the candidates
/// that are tried in vain.
pub open spec fn stale_rows(ranking: Seq<Candidate>, exists: Seq<bool>) -> Set<int> {
    Set::new(
        |p: int|
            exists|j: int|
                0 <= j < tried_in_vain(ranking, exists) && (#[trigger] ranking[j]).position == p,
    )
}

/// The path that answers the query.
pub open spec fn settled_path(
    rows: Seq<Row>,
    candidates: Seq<Candidate>,
    ancestor: Option<int>,
    exists: Seq<bool>,
) -> Option<Seq<char>> {
    if candidates.len() == 0 {
        None
    } else {
        match ancestor {
            Some(a) => Some(rows[candidates[a].position as int].0),
            None => match first_existing(ranked(candidates), exists, 0) {
                Some(hit) => Some(rows[ranked(candidates)[hit].position as int].0),
                None => None,
            },
        }
    }
}

/// The rows that the query leaves.
pub open spec fn settled_rows(
    rows: Seq<Row>,
    candidates: Seq<Candidate>,
    ancestor: Option<int>,
    exists: Seq<bool>,
) -> Seq<Row> {
    if candidates.len() == 0 || ancestor is Some {
        rows
    } else {
        without(rows, stale_rows(ranked(candidates), exists))
    }
}

/// Whether the query takes rows out.
pub open spec fn settles_with_change(
    candidates: Seq<Candidate>,
    ancestor: Option<int>,
    exists: Seq<bool>,
) -> bool {
    candidates.len() > 0 && ancestor is None && tried_in_vain(ranked(candidates), exists) > 0
}

/// Each candidate stands for a row.
pub open spec fn within(candidates: Seq<Candidate>, rows: int) -> bool {
    forall|i: int| 0 <= i < candidates.len() ==> (#[trigger] candidates[i]).position < rows
}

/// The ancestor as a place among the candidates.
pub open spec fn as_place(ancestor: Option<usize>) -> Option<int> {
    match ancestor {
        Some(a) => Some(a as int),
        None => None,
    }
}

/// The text of an optional string.
pub open spec fn text_of_path(path: Option<String>) -> Option<Seq<char>> {
    match path {
        Some(p) => Some(p@),
        None => None,
    }
}

/// The candidates of the first tier and without components that stand for
/// all rows, for an order by score alone.
pub open spec fn by_score(scores: Seq<u64>) -> Seq<Candidate> {
    Seq::new(
        scores.len(),
        |i: int| Candidate { position: i as usize, tier: 0, score: scores[i], components: 0 },
    )
}

/// A query whose only match exists no more has no answer, and the row of
/// that match leaves the index.
pub proof fn lemma_only_match_is_gone(
    rows: Seq<Row>,
    candidates: Seq<Candidate>,
    exists: Seq<bool>,
)
    requires
        distinct_paths(rows),
        exists.len() == rows.len(),
        candidates.len() == 1,
        candidates[0].position < rows.len(),
        !exists[candidates[0].position as int],
    ensures
        first_common_ancestor(rows, candidates, 0) is None,
        settled_path(rows, candidates, first_common_ancestor(rows, candidates, 0), exists) is None,
        settles_with_change(candidates, first_common_ancestor(rows, candidates, 0), exists),
        !holds_path(
            settled_rows(rows, candidates, first_common_ancestor(rows, candidates, 0), exists),
            rows[candidates[0].position as int].0,
        ),
{
    let ranking = ranked(candidates);
    let place = candidates[0].position as int;
    lemma_ranked(candidates);
    assert(candidates.contains(candidates[0]));
    assert(ranking.contains(ranking[0]));
    assert(candidates.contains(ranking[0]));
    assert(ranking[0] == candidates[0]);
    assert(first_common_ancestor(rows, candidates, 1) is None);
    assert(first_existing(ranking, exists, 1) is None);
    assert(first_existing(ranking, exists, 0) is None);
    let removed = stale_rows(ranking, exists);
    assert(removed.contains(place)) by {
        assert(0 <= 0 < tried_in_vain(ranking, exists) && ranking[0].position == place);
    }
    let left = without(rows, removed);
    lemma_without(rows, removed);
    if holds_path(left, rows[place].0) {
        let i = choose|i: int| 0 <= i < left.len() && (#[trigger] left[i]).0 == rows[place].0;
        let j = choose|j: int| 0 <= j < rows.len() && !removed.contains(j) && rows[j] == left[i];
        if j < place {
            assert(rows[j].0 != rows[place].0);
        } else if place < j {
            assert(rows[place].0 != rows[j].0);
        }
    }
}

impl DirectoryIndex {
    /// The candidates of a query: the rows whose paths match `query`, each
    /// with its tier, its score from `scores` and the number of its
    /// components, in the order of the rows.
    pub fn candidates(&self, query: &str, scores: &Vec<u64>) -> (found: Vec<Candidate>)
        requires
            scores@.len() == self.rows().len(),
        ensures
            found@ == candidates_of(self.rows(), query@, scores@, self.rows().len() as int),
            within(found@, self.rows().len() as int),
    {
        let query_lower = to_lowercase(query);
        let mut found: Vec<Candidate> = Vec::new();
        let mut i: usize = 0;
        while i < self.data.len()
            invariant
                i <= self.data@.len(),
                scores@.len() == self.rows().len(),
                query_lower@ == lowercase(query@),
                found@ == candidates_of(self.rows(), query@, scores@, i as int),
                within(found@, self.rows().len() as int),
            decreases self.data@.len() - i,
        {
            let path = self.data[i].0.as_str();
            let tier: Option<u8> = if contains(path, query) {
                Some(0)
            } else {
                let path_lower = to_lowercase(path);
                if contains(path_lower.as_str(), query_lower.as_str()) {
                    Some(1)
                } else {
                    None
                }
            };
            proof {
                assert(self.rows()[i as int].0 == path@);
                assert(tier == tier_of(path@, query@));
            }
            match tier {
                Some(tier) => {
                    let components = count_path_components(path);
                    found.push(Candidate { position: i, tier, score: scores[i], components });
                },
                None => {},
            }
            i += 1;
        }
        found
    }

    /// The first candidate whose path is an ancestor of the paths of all
    /// other candidates; none where there is a single candidate.
    pub fn common_ancestor(&self, candidates: &Vec<Candidate>) -> (ancestor: Option<usize>)
        requires
            within(candidates@, self.rows().len() as int),
        ensures
            as_place(ancestor) == first_common_ancestor(self.rows(), candidates@, 0),
            ancestor matches Some(a) ==> a < candidates@.len(),
    {
        if candidates.len() < 2 {
            proof {
                if candidates@.len() == 1 {
                    assert(first_common_ancestor(self.rows(), candidates@, 1) is None);
                }
            }
            return None;
        }
        let mut a: usize = 0;
        while a < candidates.len()
            invariant
                a <= candidates@.len(),
                candidates@.len() > 1,
                within(candidates@, self.rows().len() as int),
                first_common_ancestor(self.rows(), candidates@, 0) == first_common_ancestor(
                    self.rows(),
                    candidates@,
                    a as int,
                ),
            decreases candidates@.len() - a,
        {
            let base = self.data[candidates[a].position].0.as_str();
            let mut all = true;
            let mut b: usize = 0;
            while b < candidates.len() && all
                invariant
                    b <= candidates@.len(),
                    a < candidates@.len(),
                    within(candidates@, self.rows().len() as int),
                    base@ == self.rows()[candidates@[a as int].position as int].0,
                    all ==> forall|k: int|
                        0 <= k < b && k != a ==> path_has_prefix(
                            self.rows()[(#[trigger] candidates@[k]).position as int].0,
                            base@,
                        ),
                    !all ==> !is_common_ancestor(self.rows(), candidates@, a as int),
                decreases candidates@.len() - b,
            {
                let path = self.data[candidates[b].position].0.as_str();
                proof {
                    assert(path@ == self.rows()[candidates@[b as int].position as int].0);
                }
                if b != a && !path_starts_with(path, base) {
                    all = false;
                }
                b += 1;
            }
            if all {
                proof {
                    assert(is_common_ancestor(self.rows(), candidates@, a as int));
                }
                return Some(a);
            }
            a += 1;
        }
        None
    }

    /// Settles a query of which the candidates and their common ancestor
    /// are known.
    ///
    /// Without candidates there is no answer. With a common ancestor, its
    /// path is the answer, whatever the ranking and whether it exists or
    /// not. Else the candidates are tried in the order of their ranking: the
    /// first whose path exists is the answer, and the rows of those tried
    /// before it leave the index; where no path exists there is no answer
    /// and the rows of all candidates leave.
    pub fn settle(
        &mut self,
        candidates: &Vec<Candidate>,
        ancestor: Option<usize>,
        exists: &Vec<bool>,
    ) -> (answer: Answer)
        requires
            old(self).well_formed(),
            within(candidates@, old(self).rows().len() as int),
            ancestor matches Some(a) ==> a < candidates@.len(),
            exists@.len() == old(self).rows().len(),
        ensures
            text_of_path(answer.path) == settled_path(
                old(self).rows(),
                candidates@,
                as_place(ancestor),
                exists@,
            ),
            final(self).rows() == settled_rows(
                old(self).rows(),
                candidates@,
                as_place(ancestor),
                exists@,
            ),
            answer.index_changed == settles_with_change(candidates@, as_place(ancestor), exists@),
            final(self).path == old(self).path,
            final(self).well_formed(),
    {
        if candidates.len() == 0 {
            return Answer { path: None, index_changed: false };
        }
        match ancestor {
            Some(a) => {
                let path = self.data[candidates[a].position].0.clone();
                return Answer { path: Some(path), index_changed: false };
            },
            None => {},
        }
        let ranking = rank_candidates(candidates);
        proof {
            lemma_ranked(candidates@);
            assert(within(ranking@, self.rows().len() as int)) by {
                assert forall|i: int| 0 <= i < ranking@.len() implies (
                #[trigger] ranking@[i]).position < self.rows().len() by {
                    assert(ranking@.contains(ranking@[i]));
                    assert(candidates@.contains(ranking@[i]));
                }
            }
        }
        let total = self.data.len();
        let mut doomed: Vec<bool> = Vec::new();
        let mut filled: usize = 0;
        while filled < total
            invariant
                filled <= total,
                doomed@.len() == filled,
                forall|p: int| 0 <= p < filled ==> !(#[trigger] doomed@[p]),
            decreases total - filled,
        {
            doomed.push(false);
            filled += 1;
        }
        let mut tried: usize = 0;
        while tried < ranking.len() && !exists[ranking[tried].position]
            invariant
                tried <= ranking@.len(),
                total == self.rows().len(),
                doomed@.len() == total,
                exists@.len() == total,
                within(ranking@, total as int),
                first_existing(ranking@, exists@, 0) == first_existing(
                    ranking@,
                    exists@,
                    tried as int,
                ),
                forall|p: int|
                    0 <= p < total ==> ((#[trigger] doomed@[p]) <==> exists|j: int|
                        0 <= j < tried && (#[trigger] ranking@[j]).position == p),
            decreases ranking@.len() - tried,
        {
            let ghost before = doomed@;
            let place = ranking[tried].position;
            doomed.set(place, true);
            proof {
                assert forall|p: int| 0 <= p < total implies ((#[trigger] doomed@[p]) <==> exists|
                    j: int,
                |
                    0 <= j < tried + 1 && (#[trigger] ranking@[j]).position == p) by {
                    if p == place {
                        assert(ranking@[tried as int].position == p);
                    } else {
                        assert(doomed@[p] == before[p]);
                        if before[p] {
                            let j = choose|j: int|
                                0 <= j < tried && (#[trigger] ranking@[j]).position == p;
                            assert(0 <= j < tried + 1 && ranking@[j].position == p);
                        }
                        if exists|j: int|
                            0 <= j < tried + 1 && (#[trigger] ranking@[j]).position == p {
                            let j = choose|j: int|
                                0 <= j < tried + 1 && (#[trigger] ranking@[j]).position == p;
                            assert(j < tried);
                        }
                    }
                }
            }
            tried += 1;
        }
        let path = if tried < ranking.len() {
            Some(self.data[ranking[tried].position].0.clone())
        } else {
            None
        };
        proof {
            assert(tried_in_vain(ranking@, exists@) == tried);
            assert(Set::new(|p: int| 0 <= p < doomed@.len() && doomed@[p]) =~= stale_rows(
                ranking@,
                exists@,
            ));
        }
        if tried > 0 {
            self.remove_marked(&doomed);
        } else {
            proof {
                lemma_without(self.rows(), stale_rows(ranking@, exists@));
            }
        }
        Answer { path, index_changed: tried > 0 }
    }

    /// The path of the index that matches `query` best, by the scores
    /// `scores` and with `exists` telling which paths exist.
    ///
    /// The candidates are the rows whose paths hold `query`, as it is
    /// written or only in lower case. Where there are several and one of
    /// them is an ancestor of all the others, it is the answer. Else they
    /// are tried in the order of their ranking, and the first that exists is
    /// the answer; the rows tried in vain leave the index.
    pub fn z(&mut self, query: &str, scores: &Vec<u64>, exists: &Vec<bool>) -> (answer: Answer)
        requires
            old(self).well_formed(),
            scores@.len() == old(self).rows().len(),
            exists@.len() == old(self).rows().len(),
        ensures
            text_of_path(answer.path) == settled_path(
                old(self).rows(),
                candidates_of(old(self).rows(), query@, scores@, old(self).rows().len() as int),
                first_common_ancestor(
                    old(self).rows(),
                    candidates_of(old(self).rows(), query@, scores@, old(self).rows().len() as int),
                    0,
                ),
                exists@,
            ),
            final(self).rows() == settled_rows(
                old(self).rows(),
                candidates_of(old(self).rows(), query@, scores@, old(self).rows().len() as int),
                first_common_ancestor(
                    old(self).rows(),
                    candidates_of(old(self).rows(), query@, scores@, old(self).rows().len() as int),
                    0,
                ),
                exists@,
            ),
            answer.index_changed == settles_with_change(
                candidates_of(old(self).rows(), query@, scores@, old(self).rows().len() as int),
                first_common_ancestor(
                    old(self).rows(),
                    candidates_of(old(self).rows(), query@, scores@, old(self).rows().len() as int),
                    0,
                ),
                exists@,
            ),
            final(self).path == old(self).path,
            final(self).well_formed(),
    {
        let candidates = self.candidates(query, scores);
        let ancestor = self.common_ancestor(&candidates);
        self.settle(&candidates, ancestor, exists)
    }

    /// The paths of the index, the one with the highest score first; of two
    /// with the same score the one that stands first in the index.
    pub fn get_all_entries_ordered_by_rank(&self, scores: &Vec<u64>) -> (paths: Vec<String>)
        requires
            scores@.len() == self.rows().len(),
        ensures
            paths@.len() == self.rows().len(),
            forall|i: int|
                0 <= i < paths@.len() ==> (#[trigger] paths@[i])@ == self.rows()[ranked(
                    by_score(scores@),
                )[i].position as int].0,
    {
        let mut all: Vec<Candidate> = Vec::new();
        let mut i: usize = 0;
        while i < scores.len()
            invariant
                i <= scores@.len(),
                all@.len() == i,
                forall|k: int| 0 <= k < i ==> (#[trigger] all@[k]) == by_score(scores@)[k],
            decreases scores@.len() - i,
        {
            all.push(Candidate { position: i, tier: 0, score: scores[i], components: 0 });
            i += 1;
        }
        proof {
            assert(all@ =~= by_score(scores@));
            lemma_ranked(all@);
        }
        let ranking = rank_candidates(&all);
        let mut paths: Vec<String> = Vec::new();
        let mut k: usize = 0;
        while k < ranking.len()
            invariant
                k <= ranking@.len(),
                ranking@ == ranked(by_score(scores@)),
                scores@.len() == self.rows().len(),
                forall|c: Candidate| by_score(scores@).contains(c) <==> ranking@.contains(c),
                paths@.len() == k,
                forall|j: int|
                    0 <= j < k ==> (#[trigger] paths@[j])@ == self.rows()[ranking@[j].position as int].0,
            decreases ranking@.len() - k,
        {
            proof {
                assert(ranking@.contains(ranking@[k as int]));
                assert(by_score(scores@).contains(ranking@[k as int]));
            }
            paths.push(self.data[ranking[k].position].0.clone());
            k += 1;
        }
        paths
    }
}

} // verus!
