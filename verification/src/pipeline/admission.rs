//! Admission: which candidates an answer may rest on.

use crate::clients::systemone::FilterScores;
use crate::config::Config;
use crate::ids::id_text;
#[allow(unused_imports)]
use crate::ids::id_view;
#[allow(unused_imports)]
use crate::json::{items_view, lemma_items_push, no_fields, opt_text_view, real_view, JsonV};
use crate::json::{Fields, Json};
use crate::order::rank;
#[allow(unused_imports)]
use crate::order::{ahead, ranking, ranks};
use crate::score::Score;
#[allow(unused_imports)]
use crate::text::clipped;
use crate::text::{clip, same};
use crate::types::{Candidate, Citation, FilterRoute};
use vstd::prelude::*;

verus! {

// ---------------------------------------------------------------------------------------------
// The policy
// ---------------------------------------------------------------------------------------------

/// Where a candidate goes: out where it tries to give instructions or is off the subject, else to
/// the conflicts where it contradicts a premise, else in where it is evidence enough.
pub open spec fn routed(s: FilterScores, cfg: Config) -> FilterRoute {
    if cfg.injection_max.below(s.injection) {
        FilterRoute::Exclude
    } else if s.relevant.below(cfg.relevant_min) {
        FilterRoute::Exclude
    } else if cfg.contradicts_min.below(s.contradicts) {
        FilterRoute::Conflict
    } else if cfg.evidence_min.at_most(s.evidence) {
        FilterRoute::Include
    } else {
        FilterRoute::Exclude
    }
}

/// Where a candidate goes.
pub fn route(s: FilterScores, cfg: &Config) -> (r: FilterRoute)
    ensures
        r == routed(s, *cfg),
{
    if s.injection.gt(cfg.injection_max) {
        return FilterRoute::Exclude;
    }
    if s.relevant.lt(cfg.relevant_min) {
        return FilterRoute::Exclude;
    }
    if s.contradicts.gt(cfg.contradicts_min) {
        return FilterRoute::Conflict;
    }
    if s.evidence.ge(cfg.evidence_min) {
        return FilterRoute::Include;
    }
    FilterRoute::Exclude
}

/// The scores of a memory: the last that were given for it, or none.
pub open spec fn score_of(scores: Seq<(u128, FilterScores)>, id: u128) -> FilterScores
    decreases scores.len(),
{
    if scores.len() == 0 {
        FilterScores::none()
    } else if scores.last().0 == id {
        scores.last().1
    } else {
        score_of(scores.drop_last(), id)
    }
}

/// The scores of a memory.
fn scores_for(scores: &Vec<(u128, FilterScores)>, id: u128) -> (r: FilterScores)
    ensures
        r == score_of(scores@, id),
{
    let mut n: usize = scores.len();
    assert(scores@.take(n as int) =~= scores@);
    while n > 0
        invariant
            n <= scores@.len(),
            score_of(scores@, id) == score_of(scores@.take(n as int), id),
        decreases n,
    {
        assert(scores@.take(n as int).drop_last() =~= scores@.take(n - 1));
        if scores[n - 1].0 == id {
            return scores[n - 1].1;
        }
        n = n - 1;
    }
    FilterScores::default()
}

// ---------------------------------------------------------------------------------------------
// Admission
// ---------------------------------------------------------------------------------------------

/// What the filter made of the candidates.
#[derive(Debug)]
pub struct Admission {
    pub admitted: Vec<Citation>,
    pub conflicts: Vec<Citation>,
    /// The scores of each candidate, in order.
    pub scores: Vec<(u128, FilterScores)>,
}

/// A candidate as a citation.
pub open spec fn citation_of(
    c: Candidate,
    index: usize,
    noul: Score,
    route: FilterRoute,
) -> Citation {
    Citation {
        id: c.id,
        index,
        statement: c.statement,
        noul,
        origin: c.origin,
        grantor_name: c.grantor_name,
        source: c.source,
        occurred_at: c.occurred_at,
        route,
        text: c.text,
    }
}

fn citation(c: &Candidate, index: usize, noul: Score, route: FilterRoute) -> (r: Citation)
    ensures
        r == citation_of(*c, index, noul, route),
{
    Citation {
        id: c.id,
        index,
        statement: c.statement.clone(),
        noul,
        origin: c.origin.clone(),
        grantor_name: c.grantor_name.clone(),
        source: c.source.clone(),
        occurred_at: c.occurred_at,
        route,
        text: c.text.clone(),
    }
}

/// The positions of the candidates that go to `want`, in order.
pub open spec fn picks(
    candidates: Seq<Candidate>,
    scores: Seq<(u128, FilterScores)>,
    cfg: Config,
    want: FilterRoute,
) -> Seq<int>
    decreases candidates.len(),
{
    if candidates.len() == 0 {
        Seq::empty()
    } else {
        let before = picks(candidates.drop_last(), scores, cfg, want);
        if routed(score_of(scores, candidates.last().id), cfg) == want {
            before.push(candidates.len() - 1)
        } else {
            before
        }
    }
}

/// What positions are ranked by: the evidence of the candidate there, earlier ones first where it
/// is the same.
pub open spec fn evidence_keys(
    candidates: Seq<Candidate>,
    scores: Seq<(u128, FilterScores)>,
    at: Seq<int>,
) -> Seq<(Score, u128)> {
    at.map_values(|i: int| (score_of(scores, candidates[i].id).evidence, i as u128))
}

/// The positions of the included candidates, the strongest evidence first.
pub open spec fn by_evidence(
    candidates: Seq<Candidate>,
    scores: Seq<(u128, FilterScores)>,
    cfg: Config,
) -> Seq<int> {
    let at = picks(candidates, scores, cfg, FilterRoute::Include);
    ranking(evidence_keys(candidates, scores, at)).map_values(|k: usize| at[k as int])
}

/// Whether this is what the filter makes of the candidates, given their scores: the included ones
/// by evidence, no more than may be cited, numbered from zero; then every conflicting one, in
/// order, numbered on.
pub open spec fn admits(
    candidates: Seq<Candidate>,
    scores: Seq<(u128, FilterScores)>,
    cfg: Config,
    admitted: Seq<Citation>,
    conflicts: Seq<Citation>,
) -> bool {
    let ins = picks(candidates, scores, cfg, FilterRoute::Include);
    let keys = evidence_keys(candidates, scores, ins);
    let best = by_evidence(candidates, scores, cfg);
    let against = picks(candidates, scores, cfg, FilterRoute::Conflict);
    &&& ranks(keys, ins.len() as int, ranking(keys))
    &&& admitted.len() == if best.len() <= cfg.max_citations {
        best.len() as int
    } else {
        cfg.max_citations as int
    }
    &&& forall|k: int|
        0 <= k < admitted.len() ==> #[trigger] admitted[k] == citation_of(
            candidates[best[k]],
            k as usize,
            score_of(scores, candidates[best[k]].id).evidence,
            FilterRoute::Include,
        )
    &&& conflicts.len() == against.len()
    &&& forall|k: int|
        0 <= k < conflicts.len() ==> #[trigger] conflicts[k] == citation_of(
            candidates[against[k]],
            (admitted.len() + k) as usize,
            score_of(scores, candidates[against[k]].id).contradicts,
            FilterRoute::Conflict,
        )
}

/// The positions that are picked are positions, each later than the one before.
proof fn lemma_picks(
    candidates: Seq<Candidate>,
    scores: Seq<(u128, FilterScores)>,
    cfg: Config,
    want: FilterRoute,
)
    ensures
        forall|k: int|
            0 <= k < picks(candidates, scores, cfg, want).len() ==> {
                let i = #[trigger] picks(candidates, scores, cfg, want)[k];
                0 <= i < candidates.len() && routed(score_of(scores, candidates[i].id), cfg) == want
            },
        forall|j: int, k: int|
            0 <= j < k < picks(candidates, scores, cfg, want).len() ==> picks(
                candidates,
                scores,
                cfg,
                want,
            )[j] < picks(candidates, scores, cfg, want)[k],
        picks(candidates, scores, cfg, want).len() <= candidates.len(),
    decreases candidates.len(),
{
    if candidates.len() > 0 {
        lemma_picks(candidates.drop_last(), scores, cfg, want);
        let front = candidates.drop_last();
        let before = picks(front, scores, cfg, want);
        assert forall|k: int| 0 <= k < picks(candidates, scores, cfg, want).len() implies {
            let i = #[trigger] picks(candidates, scores, cfg, want)[k];
            0 <= i < candidates.len() && routed(score_of(scores, candidates[i].id), cfg) == want
        } by {
            if k < before.len() {
                assert(before[k] < front.len());
                assert(front[before[k]] == candidates[before[k]]);
            }
        }
    }
}

/// Included and conflicting candidates are different ones.
proof fn lemma_picks_apart(
    candidates: Seq<Candidate>,
    scores: Seq<(u128, FilterScores)>,
    cfg: Config,
)
    ensures
        picks(candidates, scores, cfg, FilterRoute::Include).len() + picks(
            candidates,
            scores,
            cfg,
            FilterRoute::Conflict,
        ).len() <= candidates.len(),
    decreases candidates.len(),
{
    if candidates.len() > 0 {
        lemma_picks_apart(candidates.drop_last(), scores, cfg);
    }
}

/// The positions of the candidates that go to `want`, in order.
fn pick(
    candidates: &[Candidate],
    scores: &Vec<(u128, FilterScores)>,
    cfg: &Config,
    want: FilterRoute,
) -> (r: Vec<usize>)
    ensures
        r@.map_values(|i: usize| i as int) == picks(candidates@, scores@, *cfg, want),
{
    let mut out: Vec<usize> = Vec::new();
    let mut i: usize = 0;
    assert(out@.map_values(|i: usize| i as int) =~= picks(candidates@.take(0), scores@, *cfg, want));
    while i < candidates.len()
        invariant
            i <= candidates@.len(),
            out@.map_values(|i: usize| i as int) == picks(
                candidates@.take(i as int),
                scores@,
                *cfg,
                want,
            ),
        decreases candidates@.len() - i,
    {
        let ghost before = out@;
        assert(candidates@.take(i + 1).drop_last() =~= candidates@.take(i as int));
        if route(scores_for(scores, candidates[i].id), cfg) == want {
            out.push(i);
            assert(out@.map_values(|i: usize| i as int) =~= before.map_values(
                |i: usize| i as int,
            ).push(i as int));
        }
        i = i + 1;
    }
    assert(candidates@.take(i as int) =~= candidates@);
    out
}

/// The positions `at`, the strongest evidence first.
fn sort_by_evidence(
    candidates: &[Candidate],
    scores: &Vec<(u128, FilterScores)>,
    at: &Vec<usize>,
    Ghost(positions): Ghost<Seq<int>>,
) -> (r: Vec<usize>)
    requires
        positions == at@.map_values(|i: usize| i as int),
        forall|k: int| 0 <= k < at@.len() ==> #[trigger] at@[k] < candidates@.len(),
        forall|j: int, k: int| 0 <= j < k < at@.len() ==> at@[j] < at@[k],
    ensures
        ranks(
            evidence_keys(candidates@, scores@, positions),
            at@.len() as int,
            ranking(evidence_keys(candidates@, scores@, positions)),
        ),
        r@.len() == at@.len(),
        forall|k: int|
            0 <= k < r@.len() ==> #[trigger] r@[k] < candidates@.len() && r@[k] as int
                == positions[ranking(evidence_keys(candidates@, scores@, positions))[k] as int],
{
    let ghost want = evidence_keys(candidates@, scores@, positions);
    let mut keys: Vec<(Score, u128)> = Vec::new();
    let mut i: usize = 0;
    while i < at.len()
        invariant
            i <= at@.len(),
            positions == at@.map_values(|i: usize| i as int),
            forall|k: int| 0 <= k < at@.len() ==> #[trigger] at@[k] < candidates@.len(),
            want == evidence_keys(candidates@, scores@, positions),
            keys@ == want.take(i as int),
        decreases at@.len() - i,
    {
        let p: usize = at[i];
        keys.push((scores_for(scores, candidates[p].id).evidence, p as u128));
        assert(positions[i as int] == p);
        assert(keys@ =~= want.take(i + 1));
        i = i + 1;
    }
    assert(want.take(i as int) =~= want);
    assert forall|a: int, b: int| 0 <= a < keys@.len() && 0 <= b < keys@.len() && a != b implies (
    #[trigger] keys@[a]).1 != (#[trigger] keys@[b]).1 by {
        assert(keys@[a].1 == at@[a] as u128);
        assert(keys@[b].1 == at@[b] as u128);
        if a < b {
            assert(at@[a] < at@[b]);
        } else {
            assert(at@[b] < at@[a]);
        }
    }
    let order = rank(&keys);
    let mut out: Vec<usize> = Vec::new();
    let mut k: usize = 0;
    while k < order.len()
        invariant
            k <= order@.len(),
            ranks(keys@, at@.len() as int, order@),
            positions == at@.map_values(|i: usize| i as int),
            forall|k: int| 0 <= k < at@.len() ==> #[trigger] at@[k] < candidates@.len(),
            out@.len() == k,
            forall|j: int|
                0 <= j < k ==> #[trigger] out@[j] < candidates@.len() && out@[j] as int
                    == positions[order@[j] as int],
        decreases order@.len() - k,
    {
        assert(order@.contains(order@[k as int]));
        out.push(at[order[k]]);
        k = k + 1;
    }
    out
}

/// Splits the candidates by their scores into those that an answer may rest on and those that
/// conflict with the question. Only the former are capped.
pub fn decide(
    candidates: &[Candidate],
    scores: &Vec<(u128, FilterScores)>,
    cfg: &Config,
) -> (r: Admission)
    ensures
        admits(candidates@, scores@, *cfg, r.admitted@, r.conflicts@),
        r.scores@ == candidates@.map_values(|c: Candidate| (c.id, score_of(scores@, c.id))),
{
    let includes = pick(candidates, scores, cfg, FilterRoute::Include);
    let against = pick(candidates, scores, cfg, FilterRoute::Conflict);
    let ghost ins = picks(candidates@, scores@, *cfg, FilterRoute::Include);
    let ghost cons = picks(candidates@, scores@, *cfg, FilterRoute::Conflict);
    proof {
        lemma_picks(candidates@, scores@, *cfg, FilterRoute::Include);
        lemma_picks(candidates@, scores@, *cfg, FilterRoute::Conflict);
        lemma_picks_apart(candidates@, scores@, *cfg);
        assert forall|k: int| 0 <= k < includes@.len() implies #[trigger] includes@[k]
            < candidates@.len() by {
            assert(ins[k] == includes@[k]);
        }
        assert forall|j: int, k: int| 0 <= j < k < includes@.len() implies includes@[j]
            < includes@[k] by {
            assert(ins[j] == includes@[j]);
            assert(ins[k] == includes@[k]);
        }
    }
    let best = sort_by_evidence(candidates, scores, &includes, Ghost(ins));
    let ghost all = by_evidence(candidates@, scores@, *cfg);
    let mut admitted: Vec<Citation> = Vec::new();
    while admitted.len() < best.len() && admitted.len() < cfg.max_citations
        invariant
            admitted@.len() <= best@.len(),
            admitted@.len() <= cfg.max_citations,
            best@.len() == all.len(),
            forall|k: int|
                0 <= k < best@.len() ==> #[trigger] best@[k] < candidates@.len() && best@[k] as int
                    == all[k],
            forall|k: int|
                0 <= k < admitted@.len() ==> #[trigger] admitted@[k] == citation_of(
                    candidates@[all[k]],
                    k as usize,
                    score_of(scores@, candidates@[all[k]].id).evidence,
                    FilterRoute::Include,
                ),
        decreases best@.len() - admitted@.len(),
    {
        let k: usize = admitted.len();
        let c = &candidates[best[k]];
        let noul: Score = scores_for(scores, c.id).evidence;
        admitted.push(citation(c, k, noul, FilterRoute::Include));
    }
    let total: usize = candidates.len();
    let mut conflicts: Vec<Citation> = Vec::new();
    while conflicts.len() < against.len()
        invariant
            conflicts@.len() <= against@.len(),
            total == candidates@.len(),
            admitted@.len() + against@.len() <= total,
            cons == against@.map_values(|i: usize| i as int),
            forall|k: int|
                0 <= k < cons.len() ==> 0 <= #[trigger] cons[k] < candidates@.len(),
            forall|k: int|
                0 <= k < conflicts@.len() ==> #[trigger] conflicts@[k] == citation_of(
                    candidates@[cons[k]],
                    (admitted@.len() + k) as usize,
                    score_of(scores@, candidates@[cons[k]].id).contradicts,
                    FilterRoute::Conflict,
                ),
        decreases against@.len() - conflicts@.len(),
    {
        let k: usize = conflicts.len();
        assert(cons[k as int] == against@[k as int]);
        let c = &candidates[against[k]];
        let noul: Score = scores_for(scores, c.id).contradicts;
        conflicts.push(citation(c, admitted.len() + k, noul, FilterRoute::Conflict));
    }
    let mut by_id: Vec<(u128, FilterScores)> = Vec::new();
    let ghost every = candidates@.map_values(|c: Candidate| (c.id, score_of(scores@, c.id)));
    while by_id.len() < total
        invariant
            total == candidates@.len(),
            every == candidates@.map_values(|c: Candidate| (c.id, score_of(scores@, c.id))),
            by_id@.len() <= candidates@.len(),
            by_id@ == every.take(by_id@.len() as int),
        decreases candidates@.len() - by_id@.len(),
    {
        let i: usize = by_id.len();
        by_id.push((candidates[i].id, scores_for(scores, candidates[i].id)));
        assert(by_id@ =~= every.take(i + 1));
    }
    assert(by_id@ =~= every);
    Admission { admitted, conflicts, scores: by_id }
}

// ---------------------------------------------------------------------------------------------
// The record of an admission
// ---------------------------------------------------------------------------------------------

/// How much of a memory's statement and text is recorded.
pub const STATEMENT_KEPT: usize = 400;

/// The fields of a candidate's record.
pub open spec fn row_fields(
    c: Candidate,
    s: FilterScores,
    route: FilterRoute,
) -> Seq<(Seq<char>, JsonV)> {
    no_fields().push(("id"@, JsonV::Str(id_view(c.id)))).push(
        ("statement"@, JsonV::Str(clipped(c.statement@, STATEMENT_KEPT as nat))),
    ).push(
        (
            "text"@,
            if c.text@ == c.statement@ {
                JsonV::Null
            } else {
                JsonV::Str(clipped(c.text@, STATEMENT_KEPT as nat))
            },
        ),
    ).push(("noul"@, real_view(s.evidence))).push(("injection"@, real_view(s.injection))).push(
        ("contradicts"@, real_view(s.contradicts)),
    ).push(("relevant"@, real_view(s.relevant))).push(("evidence"@, real_view(s.evidence))).push(
        ("rrf"@, real_view(c.rrf_score)),
    ).push(("origin"@, JsonV::Str(c.origin@))).push(("source"@, opt_text_view(c.source))).push(
        ("grantor"@, opt_text_view(c.grantor_name)),
    ).push(("route"@, JsonV::Str(route.name()))).push(
        ("admitted"@, JsonV::Bool(route == FilterRoute::Include)),
    )
}

/// What a candidate is ranked by in the record: its evidence, where that is a number that can be
/// recorded.
pub open spec fn recorded(s: Score) -> Score {
    if s.finite() {
        s
    } else {
        Score { bits: 0 }
    }
}

/// What the candidates are ranked by in the record, earlier ones first where it is the same.
pub open spec fn record_keys(
    candidates: Seq<Candidate>,
    scores: Seq<(u128, FilterScores)>,
) -> Seq<(Score, u128)> {
    candidates.map(
        |i: int, c: Candidate| (recorded(score_of(scores, c.id).evidence), i as u128),
    )
}

/// The record of candidate `i`.
pub open spec fn record_of(
    candidates: Seq<Candidate>,
    scores: Seq<(u128, FilterScores)>,
    cfg: Config,
    i: int,
) -> JsonV {
    let s = score_of(scores, candidates[i].id);
    JsonV::Obj(row_fields(candidates[i], s, routed(s, cfg)))
}

/// The record of an admission: every candidate, the strongest evidence first.
pub open spec fn ranked_view(
    candidates: Seq<Candidate>,
    scores: Seq<(u128, FilterScores)>,
    cfg: Config,
) -> JsonV {
    JsonV::Arr(
        ranking(record_keys(candidates, scores)).map_values(
            |k: usize| record_of(candidates, scores, cfg, k as int),
        ),
    )
}

/// What is recorded of a candidate.
fn row(c: &Candidate, s: FilterScores, route: FilterRoute) -> (r: Json)
    ensures
        r@ == JsonV::Obj(row_fields(*c, s, route)),
{
    let text: Json = if same(c.text.as_str(), c.statement.as_str()) {
        Json::Null
    } else {
        Json::Str(clip(c.text.as_str(), STATEMENT_KEPT))
    };
    let f = Fields::new().with("id", Json::Str(id_text(c.id))).with(
        "statement",
        Json::Str(clip(c.statement.as_str(), STATEMENT_KEPT)),
    ).with("text", text).with("noul", Json::double(s.evidence)).with(
        "injection",
        Json::double(s.injection),
    ).with("contradicts", Json::double(s.contradicts)).with(
        "relevant",
        Json::double(s.relevant),
    ).with("evidence", Json::double(s.evidence)).with("rrf", Json::double(c.rrf_score)).with(
        "origin",
        Json::text(c.origin.as_str()),
    ).with("source", Json::opt_text(&c.source)).with("grantor", Json::opt_text(&c.grantor_name)).with(
        "route",
        Json::text(route.as_str()),
    ).with("admitted", Json::Bool(route == FilterRoute::Include));
    f.done()
}

/// The record of an admission: every candidate with its scores and where it went, the strongest
/// evidence first.
pub fn ranked_rows(
    candidates: &[Candidate],
    scores: &Vec<(u128, FilterScores)>,
    cfg: &Config,
) -> (r: Json)
    ensures
        r@ == ranked_view(candidates@, scores@, *cfg),
        ranks(
            record_keys(candidates@, scores@),
            candidates@.len() as int,
            ranking(record_keys(candidates@, scores@)),
        ),
{
    let ghost want = record_keys(candidates@, scores@);
    let mut keys: Vec<(Score, u128)> = Vec::new();
    let mut i: usize = 0;
    while i < candidates.len()
        invariant
            i <= candidates@.len(),
            want == record_keys(candidates@, scores@),
            keys@ == want.take(i as int),
        decreases candidates@.len() - i,
    {
        let evidence: Score = scores_for(scores, candidates[i].id).evidence;
        let key: Score = if evidence.is_finite() {
            evidence
        } else {
            Score { bits: 0 }
        };
        keys.push((key, i as u128));
        assert(keys@ =~= want.take(i + 1));
        i = i + 1;
    }
    assert(keys@ =~= want);
    let order = rank(&keys);
    let ghost all = order@.map_values(|k: usize| record_of(candidates@, scores@, *cfg, k as int));
    let mut rows: Vec<Json> = Vec::new();
    let mut k: usize = 0;
    while k < order.len()
        invariant
            k <= order@.len(),
            ranks(keys@, candidates@.len() as int, order@),
            all == order@.map_values(|k: usize| record_of(candidates@, scores@, *cfg, k as int)),
            items_view(rows@) == all.take(k as int),
        decreases order@.len() - k,
    {
        assert(order@.contains(order@[k as int]));
        let c = &candidates[order[k]];
        let s: FilterScores = scores_for(scores, c.id);
        let one = row(c, s, route(s, cfg));
        proof {
            lemma_items_push(rows@, one);
        }
        rows.push(one);
        assert(items_view(rows@) =~= all.take(k + 1));
        k = k + 1;
    }
    assert(all.take(k as int) =~= all);
    Json::array(rows)
}

// ---------------------------------------------------------------------------------------------
// Laws
// ---------------------------------------------------------------------------------------------

/// The policy looks at injection first and at evidence last: a candidate that gives instructions,
/// or is off the subject, goes out whatever else it is; one that contradicts a premise is reported
/// as a conflict and never let in; evidence alone lets in what passed all three.
pub proof fn law_policy_order(s: FilterScores, cfg: Config)
    ensures
        cfg.injection_max.below(s.injection) ==> routed(s, cfg) == FilterRoute::Exclude,
        s.relevant.below(cfg.relevant_min) ==> routed(s, cfg) == FilterRoute::Exclude,
        cfg.contradicts_min.below(s.contradicts) ==> routed(s, cfg) != FilterRoute::Include,
        routed(s, cfg) == FilterRoute::Include ==> cfg.evidence_min.at_most(s.evidence),
{
}

/// The cap is on what is let in: no more is admitted than may be cited, and every conflict is
/// kept.
pub proof fn law_cap_is_on_includes_only(
    candidates: Seq<Candidate>,
    scores: Seq<(u128, FilterScores)>,
    cfg: Config,
    admitted: Seq<Citation>,
    conflicts: Seq<Citation>,
)
    requires
        admits(candidates, scores, cfg, admitted, conflicts),
    ensures
        admitted.len() <= cfg.max_citations,
        conflicts.len() == picks(candidates, scores, cfg, FilterRoute::Conflict).len(),
{
}

/// Citations are numbered from zero without a gap, what was let in first, so no two have the same
/// number.
pub proof fn law_citations_are_numbered(
    candidates: Seq<Candidate>,
    scores: Seq<(u128, FilterScores)>,
    cfg: Config,
    admitted: Seq<Citation>,
    conflicts: Seq<Citation>,
    k: int,
)
    requires
        admits(candidates, scores, cfg, admitted, conflicts),
        candidates.len() <= usize::MAX,
        0 <= k < admitted.len() + conflicts.len(),
    ensures
        (admitted + conflicts)[k].index == k,
{
    lemma_picks_apart(candidates, scores, cfg);
    let n = admitted.len() as int;
    if k < n {
        assert((admitted + conflicts)[k] == admitted[k]);
    } else {
        assert((admitted + conflicts)[k] == conflicts[k - n]);
    }
}

/// Whatever is cited was a candidate that the policy sent there.
pub proof fn law_cited_was_routed(
    candidates: Seq<Candidate>,
    scores: Seq<(u128, FilterScores)>,
    cfg: Config,
    admitted: Seq<Citation>,
    conflicts: Seq<Citation>,
    k: int,
)
    requires
        admits(candidates, scores, cfg, admitted, conflicts),
    ensures
        0 <= k < admitted.len() ==> exists|i: int|
            0 <= i < candidates.len() && (#[trigger] candidates[i]).id == admitted[k].id
                && routed(score_of(scores, candidates[i].id), cfg) == FilterRoute::Include,
        0 <= k < conflicts.len() ==> exists|i: int|
            0 <= i < candidates.len() && (#[trigger] candidates[i]).id == conflicts[k].id
                && routed(score_of(scores, candidates[i].id), cfg) == FilterRoute::Conflict,
{
    let ins = picks(candidates, scores, cfg, FilterRoute::Include);
    let cons = picks(candidates, scores, cfg, FilterRoute::Conflict);
    let order = ranking(evidence_keys(candidates, scores, ins));
    lemma_picks(candidates, scores, cfg, FilterRoute::Include);
    lemma_picks(candidates, scores, cfg, FilterRoute::Conflict);
    if 0 <= k < admitted.len() {
        assert(order.contains(order[k]));
        let i = ins[order[k] as int];
        assert(admitted[k].id == candidates[i].id);
    }
    if 0 <= k < conflicts.len() {
        let i = cons[k];
        assert(conflicts[k].id == candidates[i].id);
    }
}

/// No citation that was let in is stronger evidence than one before it.
pub proof fn law_admitted_by_evidence(
    candidates: Seq<Candidate>,
    scores: Seq<(u128, FilterScores)>,
    cfg: Config,
    admitted: Seq<Citation>,
    conflicts: Seq<Citation>,
    j: int,
    k: int,
)
    requires
        admits(candidates, scores, cfg, admitted, conflicts),
        0 <= j < k < admitted.len(),
    ensures
        admitted[j].noul.total_key() >= admitted[k].noul.total_key(),
{
    let ins = picks(candidates, scores, cfg, FilterRoute::Include);
    let keys = evidence_keys(candidates, scores, ins);
    let order = ranking(keys);
    assert(ahead(keys, order[j], order[k]));
    assert(order.contains(order[j]));
    assert(order.contains(order[k]));
    assert(admitted[j].noul == keys[order[j] as int].0);
    assert(admitted[k].noul == keys[order[k] as int].0);
}

/// Where the cap cuts, it cuts the weakest: no candidate that is left out for want of room is
/// stronger evidence than one that was let in.
pub proof fn law_cap_cuts_the_weakest(
    candidates: Seq<Candidate>,
    scores: Seq<(u128, FilterScores)>,
    cfg: Config,
    admitted: Seq<Citation>,
    conflicts: Seq<Citation>,
    j: int,
    k: int,
)
    requires
        admits(candidates, scores, cfg, admitted, conflicts),
        0 <= j < admitted.len() <= k < by_evidence(candidates, scores, cfg).len(),
    ensures
        admitted[j].noul.total_key() >= score_of(
            scores,
            candidates[by_evidence(candidates, scores, cfg)[k]].id,
        ).evidence.total_key(),
{
    let ins = picks(candidates, scores, cfg, FilterRoute::Include);
    let keys = evidence_keys(candidates, scores, ins);
    let order = ranking(keys);
    assert(ahead(keys, order[j], order[k]));
    assert(order.contains(order[j]));
    assert(order.contains(order[k]));
    assert(admitted[j].noul == keys[order[j] as int].0);
}

} // verus!
