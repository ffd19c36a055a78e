//! What the filter lets in.

#[allow(unused_imports)]
use crate::clients::systemone::FilterScores;
#[allow(unused_imports)]
use crate::config::Config;
#[allow(unused_imports)]
use crate::order::{ahead, ranking};
#[allow(unused_imports)]
use crate::pipeline::admission::{
    by_evidence, decide, evidence_keys, picks, route, routed, score_of, Admission,
};
#[allow(unused_imports)]
use crate::score::Score;
#[allow(unused_imports)]
use crate::types::{Candidate, Citation, FilterRoute};
use vstd::prelude::*;

verus! {

/// A candidate that gives no instructions and is on the subject is a conflict exactly where it
/// contradicts a premise, whatever evidence it is; it is let in exactly where it contradicts none
/// and is evidence enough; every other candidate goes out.
pub proof fn law_routes(s: FilterScores, cfg: &Config, r: FilterRoute)
    requires
        call_ensures(route, (s, cfg), r),
    ensures
        ({
            let harmless = !cfg.injection_max.below(s.injection) && !s.relevant.below(
                cfg.relevant_min,
            );
            &&& r == FilterRoute::Conflict <==> harmless && cfg.contradicts_min.below(
                s.contradicts,
            )
            &&& r == FilterRoute::Include <==> harmless && !cfg.contradicts_min.below(
                s.contradicts,
            ) && cfg.evidence_min.at_most(s.evidence)
            &&& r == FilterRoute::Exclude <==> !harmless || (!cfg.contradicts_min.below(
                s.contradicts,
            ) && !cfg.evidence_min.at_most(s.evidence))
        }),
{
}

/// How strong the evidence is makes no difference to whether a candidate is a conflict.
pub proof fn law_conflict_whatever_the_evidence(
    s: FilterScores,
    t: FilterScores,
    cfg: &Config,
    a: FilterRoute,
    b: FilterRoute,
)
    requires
        call_ensures(route, (s, cfg), a),
        call_ensures(route, (t, cfg), b),
        s == (FilterScores { evidence: s.evidence, ..t }),
    ensures
        a == FilterRoute::Conflict <==> b == FilterRoute::Conflict,
{
}

/// The scores of a memory are the last that were given for it, and nothing where none were.
pub proof fn law_last_scores_count(scores: Seq<(u128, FilterScores)>, id: u128, k: int)
    requires
        0 <= k < scores.len() ==> scores[k].0 == id && forall|j: int|
            k < j < scores.len() ==> (#[trigger] scores[j]).0 != id,
        0 <= k < scores.len() || forall|j: int|
            0 <= j < scores.len() ==> (#[trigger] scores[j]).0 != id,
    ensures
        0 <= k < scores.len() ==> score_of(scores, id) == scores[k].1,
        !(0 <= k < scores.len()) ==> score_of(scores, id) == (FilterScores {
            injection: Score { bits: 0 },
            contradicts: Score { bits: 0 },
            relevant: Score { bits: 0 },
            evidence: Score { bits: 0 },
        }),
    decreases scores.len(),
{
    if scores.len() > 0 {
        assert(scores[scores.len() - 1] == scores.last());
        if scores.last().0 != id {
            let front = scores.drop_last();
            law_last_scores_count(front, id, if k < front.len() {
                k
            } else {
                -1
            });
        }
    }
}

/// Whether the candidate at a position goes to `want`.
pub open spec fn goes(
    candidates: Seq<Candidate>,
    scores: Seq<(u128, FilterScores)>,
    cfg: Config,
    i: int,
    want: FilterRoute,
) -> bool {
    0 <= i < candidates.len() && routed(score_of(scores, candidates[i].id), cfg) == want
}

/// The positions that are picked are exactly those of the candidates that go there, in order.
pub proof fn law_picks(
    candidates: Seq<Candidate>,
    scores: Seq<(u128, FilterScores)>,
    cfg: Config,
    want: FilterRoute,
)
    ensures
        forall|i: int| #[trigger]
            picks(candidates, scores, cfg, want).contains(i) <==> goes(
                candidates,
                scores,
                cfg,
                i,
                want,
            ),
        forall|j: int, k: int|
            0 <= j < k < picks(candidates, scores, cfg, want).len() ==> picks(
                candidates,
                scores,
                cfg,
                want,
            )[j] < picks(candidates, scores, cfg, want)[k],
    decreases candidates.len(),
{
    let all = picks(candidates, scores, cfg, want);
    if candidates.len() > 0 {
        let front = candidates.drop_last();
        let n = front.len() as int;
        law_picks(front, scores, cfg, want);
        let before = picks(front, scores, cfg, want);
        assert forall|i: int| #[trigger] all.contains(i) <==> goes(
            candidates,
            scores,
            cfg,
            i,
            want,
        ) by {
            assert(before.contains(i) <==> goes(front, scores, cfg, i, want));
            if 0 <= i < n {
                assert(front[i] == candidates[i]);
            }
            if before.contains(i) {
                let k = choose|k: int| 0 <= k < before.len() && before[k] == i;
                assert(all[k] == i);
            }
            if all.contains(i) && !before.contains(i) {
                let k = choose|k: int| 0 <= k < all.len() && all[k] == i;
                if k < before.len() {
                    assert(before[k] == i);
                }
                assert(i == n);
            }
            if i == n && goes(candidates, scores, cfg, i, want) {
                assert(all[before.len() as int] == n);
            }
        }
        assert forall|j: int, k: int| 0 <= j < k < all.len() implies all[j] < all[k] by {
            assert(before.contains(before[j]));
            if k < before.len() {
                assert(before[j] < before[k]);
            }
        }
    }
}

/// Whether a citation tells of a candidate, under this number, with this score and route.
pub open spec fn tells_of(
    cite: Citation,
    c: Candidate,
    index: int,
    noul: Score,
    to: FilterRoute,
) -> bool {
    &&& cite.id == c.id && cite.text == c.text && cite.statement == c.statement
    &&& cite.origin == c.origin && cite.grantor_name == c.grantor_name
    &&& cite.source == c.source && cite.occurred_at == c.occurred_at
    &&& cite.index == index && cite.noul == noul && cite.route == to
}

/// What is let in: of the candidates that the policy includes, the strongest evidence first, the
/// earlier one where two are as strong; all of them, or as many as may be cited. They are numbered
/// from zero. `at` is where each of the candidates that may be let in stands.
#[verifier::rlimit(40)]
pub proof fn law_let_in(
    candidates: &[Candidate],
    scores: &Vec<(u128, FilterScores)>,
    cfg: &Config,
    r: Admission,
) -> (at: Seq<int>)
    requires
        call_ensures(decide, (candidates, scores, cfg), r),
        candidates@.len() <= usize::MAX,
    ensures
        forall|i: int| #[trigger]
            at.contains(i) <==> goes(candidates@, scores@, *cfg, i, FilterRoute::Include),
        at.no_duplicates(),
        r.admitted@.len() == if at.len() <= cfg.max_citations {
            at.len() as int
        } else {
            cfg.max_citations as int
        },
        forall|k: int|
            0 <= k < r.admitted@.len() ==> tells_of(
                #[trigger] r.admitted@[k],
                candidates@[at[k]],
                k,
                score_of(scores@, candidates@[at[k]].id).evidence,
                FilterRoute::Include,
            ),
        forall|j: int, k: int|
            0 <= j < k < at.len() ==> {
                let a = score_of(scores@, candidates@[#[trigger] at[j]].id).evidence.total_key();
                let b = score_of(scores@, candidates@[#[trigger] at[k]].id).evidence.total_key();
                a > b || (a == b && at[j] < at[k])
            },
{
    let ins = picks(candidates@, scores@, *cfg, FilterRoute::Include);
    let keys = evidence_keys(candidates@, scores@, ins);
    let order = ranking(keys);
    let at = by_evidence(candidates@, scores@, *cfg);
    law_picks(candidates@, scores@, *cfg, FilterRoute::Include);
    assert forall|k: int| 0 <= k < order.len() implies #[trigger] order[k] < ins.len() by {
        assert(order.contains(order[k]));
    }
    assert forall|k: int| 0 <= k < ins.len() implies 0 <= #[trigger] ins[k] < candidates@.len() by {
        assert(ins.contains(ins[k]));
    }
    assert forall|j: int, k: int| 0 <= j < k < at.len() implies {
        let a = score_of(scores@, candidates@[#[trigger] at[j]].id).evidence.total_key();
        let b = score_of(scores@, candidates@[#[trigger] at[k]].id).evidence.total_key();
        a > b || (a == b && at[j] < at[k])
    } by {
        assert(ahead(keys, order[j], order[k]));
        assert(at[j] == ins[order[j] as int]);
        assert(at[k] == ins[order[k] as int]);
    }
    assert forall|i: int| #[trigger] at.contains(i) <==> goes(
        candidates@,
        scores@,
        *cfg,
        i,
        FilterRoute::Include,
    ) by {
        assert(ins.contains(i) <==> goes(candidates@, scores@, *cfg, i, FilterRoute::Include));
        if at.contains(i) {
            let k = choose|k: int| 0 <= k < at.len() && at[k] == i;
            assert(ins[order[k] as int] == i);
        }
        if ins.contains(i) {
            let x = choose|x: int| 0 <= x < ins.len() && ins[x] == i;
            lemma_increasing_bound(ins, x, candidates@.len() as int);
            assert(order.contains(x as usize));
            let k = choose|k: int| 0 <= k < order.len() && order[k] == x as usize;
            assert(at[k] == i);
        }
    }
    at
}

/// Where positions increase, none stands further back than its value.
proof fn lemma_increasing_bound(s: Seq<int>, x: int, n: int)
    requires
        0 <= x < s.len(),
        forall|k: int| 0 <= k < s.len() ==> 0 <= #[trigger] s[k] < n,
        forall|j: int, k: int| 0 <= j < k < s.len() ==> s[j] < s[k],
    ensures
        x <= s[x] < n,
    decreases x,
{
    if x > 0 {
        lemma_increasing_bound(s, x - 1, n);
        assert(s[x - 1] < s[x]);
    }
}

/// What conflicts: every candidate that the policy reports as a conflict, in order, numbered on
/// from what was let in. There is no cap. `at` is where each of them stands.
pub proof fn law_conflicts(
    candidates: &[Candidate],
    scores: &Vec<(u128, FilterScores)>,
    cfg: &Config,
    r: Admission,
) -> (at: Seq<int>)
    requires
        call_ensures(decide, (candidates, scores, cfg), r),
        r.admitted@.len() + r.conflicts@.len() <= usize::MAX,
    ensures
        forall|i: int| #[trigger]
            at.contains(i) <==> goes(candidates@, scores@, *cfg, i, FilterRoute::Conflict),
        forall|j: int, k: int| 0 <= j < k < at.len() ==> at[j] < at[k],
        r.conflicts@.len() == at.len(),
        forall|k: int|
            0 <= k < r.conflicts@.len() ==> tells_of(
                #[trigger] r.conflicts@[k],
                candidates@[at[k]],
                r.admitted@.len() + k,
                score_of(scores@, candidates@[at[k]].id).contradicts,
                FilterRoute::Conflict,
            ),
{
    law_picks(candidates@, scores@, *cfg, FilterRoute::Conflict);
    picks(candidates@, scores@, *cfg, FilterRoute::Conflict)
}

/// Every candidate keeps the scores that were given for it.
pub proof fn law_scores_kept(
    candidates: &[Candidate],
    scores: &Vec<(u128, FilterScores)>,
    cfg: &Config,
    r: Admission,
    k: int,
)
    requires
        call_ensures(decide, (candidates, scores, cfg), r),
    ensures
        r.scores@.len() == candidates@.len(),
        0 <= k < candidates@.len() ==> r.scores@[k] == (
            candidates@[k].id,
            score_of(scores@, candidates@[k].id),
        ),
{
}

} // verus!
