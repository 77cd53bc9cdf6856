use vstd::prelude::*;

use crate::region::Region;

verus! {

/// The selector's scan from index `i` on, carrying the best candidate seen so
/// far and its score: a strictly better score replaces the carried candidate,
/// an equal one does not.
pub open spec fn select_from(
    rs: Seq<Region>,
    scores: Seq<u64>,
    i: int,
    best: Region,
    best_score: u64,
) -> Region
    recommends
        rs.len() == scores.len(),
        0 <= i,
    decreases rs.len() - i,
{
    if i < 0 || i >= rs.len() {
        best
    } else if scores[i] > best_score {
        select_from(rs, scores, i + 1, rs[i], scores[i])
    } else {
        select_from(rs, scores, i + 1, best, best_score)
    }
}

/// The selector's result over a whole candidate sequence: scan in order from
/// a baseline score of zero, keep the first candidate of each strict
/// improvement, and fall back to `fallback` when no score beats zero.
pub open spec fn spec_select(rs: Seq<Region>, scores: Seq<u64>, fallback: Region) -> Region {
    select_from(rs, scores, 0, fallback, 0)
}

/// A scan over scores that never beat the carried one keeps the carried
/// candidate.
proof fn lemma_select_from_no_improvement(
    rs: Seq<Region>,
    scores: Seq<u64>,
    i: int,
    best: Region,
    best_score: u64,
)
    requires
        rs.len() == scores.len(),
        forall|j: int| i <= j < scores.len() ==> scores[j] <= best_score,
    ensures
        select_from(rs, scores, i, best, best_score) == best,
    decreases rs.len() - i,
{
    if 0 <= i < rs.len() {
        lemma_select_from_no_improvement(rs, scores, i + 1, best, best_score);
    }
}

/// A scan that has not yet reached `m`, the first index of the maximum score,
/// while carrying a score below that maximum, ends at candidate `m`.
proof fn lemma_select_from_first_max(
    rs: Seq<Region>,
    scores: Seq<u64>,
    i: int,
    best: Region,
    best_score: u64,
    m: int,
)
    requires
        rs.len() == scores.len(),
        0 <= i <= m < rs.len(),
        best_score < scores[m],
        forall|j: int| i <= j < m ==> scores[j] < scores[m],
        forall|j: int| m <= j < scores.len() ==> scores[j] <= scores[m],
    ensures
        select_from(rs, scores, i, best, best_score) == rs[m],
    decreases m - i,
{
    if i == m {
        lemma_select_from_no_improvement(rs, scores, m + 1, rs[m], scores[m]);
    } else if scores[i] > best_score {
        lemma_select_from_first_max(rs, scores, i + 1, rs[i], scores[i], m);
    } else {
        lemma_select_from_first_max(rs, scores, i + 1, best, best_score, m);
    }
}

/// First maximum wins: when `m` is the first index whose score reaches the
/// overall maximum, and that maximum beats the zero baseline, the selector
/// returns the candidate at `m` — later candidates with an equal score never
/// displace it.
pub proof fn lemma_first_max_wins(
    rs: Seq<Region>,
    scores: Seq<u64>,
    fallback: Region,
    m: int,
)
    requires
        rs.len() == scores.len(),
        0 <= m < rs.len(),
        scores[m] > 0,
        forall|j: int| 0 <= j < m ==> scores[j] < scores[m],
        forall|j: int| 0 <= j < scores.len() ==> scores[j] <= scores[m],
    ensures
        spec_select(rs, scores, fallback) == rs[m],
{
    lemma_select_from_first_max(rs, scores, 0, fallback, 0, m);
}

/// When no candidate scores above the zero baseline — an empty candidate
/// sequence included — the selector keeps the fallback.
pub proof fn lemma_no_positive_score_keeps_fallback(
    rs: Seq<Region>,
    scores: Seq<u64>,
    fallback: Region,
)
    requires
        rs.len() == scores.len(),
        forall|j: int| 0 <= j < scores.len() ==> scores[j] == 0,
    ensures
        spec_select(rs, scores, fallback) == fallback,
{
    lemma_select_from_no_improvement(rs, scores, 0, fallback, 0);
}

proof fn lemma_select_from_membership(
    rs: Seq<Region>,
    scores: Seq<u64>,
    i: int,
    best: Region,
    best_score: u64,
)
    requires
        rs.len() == scores.len(),
    ensures
        select_from(rs, scores, i, best, best_score) == best || rs.contains(
            select_from(rs, scores, i, best, best_score),
        ),
    decreases rs.len() - i,
{
    if 0 <= i < rs.len() {
        if scores[i] > best_score {
            lemma_select_from_membership(rs, scores, i + 1, rs[i], scores[i]);
        } else {
            lemma_select_from_membership(rs, scores, i + 1, best, best_score);
        }
    }
}

/// The selector returns the fallback or one of the candidates, never anything
/// else.
pub proof fn lemma_select_membership(rs: Seq<Region>, scores: Seq<u64>, fallback: Region)
    requires
        rs.len() == scores.len(),
    ensures
        spec_select(rs, scores, fallback) == fallback || rs.contains(
            spec_select(rs, scores, fallback),
        ),
{
    lemma_select_from_membership(rs, scores, 0, fallback, 0);
}

/// Picks the best-scoring candidate: scan the candidates in order and keep
/// the first one of each strict score improvement over the zero baseline,
/// returning `fallback` when no score beats zero.
pub fn select_best(regions: &Vec<Region>, scores: &Vec<u64>, fallback: Region) -> (r: Region)
    requires
        regions@.len() == scores@.len(),
    ensures
        r == spec_select(regions@, scores@, fallback),
{
    let mut best: Region = fallback;
    let mut best_score: u64 = 0;
    let mut k: usize = 0;
    while k < regions.len()
        invariant
            regions@.len() == scores@.len(),
            k <= regions@.len(),
            select_from(regions@, scores@, k as int, best, best_score) == spec_select(
                regions@,
                scores@,
                fallback,
            ),
        decreases regions@.len() - k,
    {
        let sc: u64 = scores[k];
        if sc > best_score {
            best_score = sc;
            best = regions[k];
        }
        k = k + 1;
    }
    best
}

} // verus!
