//! How an ask and the verification of its drafts go on.

#[allow(unused_imports)]
use crate::clients::systemone::{FilterScores, KindResult};
#[allow(unused_imports)]
use crate::config::Config;
#[allow(unused_imports)]
use crate::laws::claiming::{statement_shares, text_shares};
#[allow(unused_imports)]
use crate::laws::publishing::{
    attributed, lemma_relied_on, lemma_turned_down, lemma_unfailed, marked, turned_down,
};
#[allow(unused_imports)]
use crate::laws::verdicts::{cited_under, law_first_under, lemma_all_backed, stands_somewhere};
#[allow(unused_imports)]
use crate::pipeline::admission::{route, routed, score_of};
#[allow(unused_imports)]
use crate::pipeline::kind::{is_chitchat, settle_kind, KindChoice};
#[allow(unused_imports)]
use crate::pipeline::run::{all_ok, all_supported, scored, supported_in, AskRun, Phase};
#[allow(unused_imports)]
use crate::pipeline::verify::{
    best_section, cites_of, claims, failed, law_empty_where_every_claim_failed, no_section,
    quotes_of, sections, stripped, tokens, weight,
};
#[allow(unused_imports)]
use crate::pipeline::verify_run::{
    attributable, plan_claim, relates, settles, ClaimPlan, Relation, VerifyRun,
};
#[allow(unused_imports)]
use crate::score::Score;
#[allow(unused_imports)]
use crate::text::{joined, trimmed};
#[allow(unused_imports)]
use crate::types::{
    AdmittedCitations, Ask, AskRequest, Candidate, Citation, ClaimVerdict, Stage, StageRecord,
};
use vstd::prelude::*;

verus! {

// ---------------------------------------------------------------------------------------------
// Verification
// ---------------------------------------------------------------------------------------------

/// Where some section shares two words, one of them is the best.
proof fn lemma_best_exists(words: Set<Seq<char>>, secs: Seq<(usize, Seq<char>)>)
    ensures
        !no_section(words, secs) ==> exists|k: int| best_section(words, secs, k),
    decreases secs.len(),
{
    if secs.len() > 0 && !no_section(words, secs) {
        let front = secs.drop_last();
        let n = front.len() as int;
        lemma_best_exists(words, front);
        assert(forall|j: int| 0 <= j < n ==> front[j] == secs[j]);
        if no_section(words, front) {
            assert forall|j: int| 0 <= j < n implies #[trigger] weight(words, secs[j]) < 2 by {
                assert(weight(words, front[j]) < 2);
            }
            assert(best_section(words, secs, n));
        } else {
            let k = choose|k: int| best_section(words, front, k);
            assert forall|j: int| 0 <= j < n implies #[trigger] weight(words, secs[j]) <= weight(
                words,
                secs[k],
            ) by {
                assert(weight(words, front[j]) <= weight(words, front[k]));
            }
            if weight(words, secs[n]) > weight(words, secs[k]) {
                assert(best_section(words, secs, n));
            } else {
                assert forall|j: int| 0 <= j < k implies #[trigger] weight(words, secs[j]) < weight(
                    words,
                    secs[k],
                ) by {
                    assert(weight(words, front[j]) < weight(words, front[k]));
                }
                assert(best_section(words, secs, k));
            }
        }
    }
}

/// A claim that cites a memory goes on to the scorer exactly where every one of its quotations
/// stands in a memory it cites, and is then held against the memory it cites first. Else it is
/// fabricated.
pub proof fn law_plan_for_a_claim_that_cites(
    claim: &str,
    cites: &AdmittedCitations,
    r: ClaimPlan,
)
    requires
        call_ensures(plan_claim, (claim, cites), r),
        cites_of(claim@).len() > 0,
    ensures
        r is Relate <==> quotes_of(claim@).len() > 0 && forall|q: int|
            0 <= q < quotes_of(claim@).len() ==> stands_somewhere(
                #[trigger] quotes_of(claim@)[q],
                claim@,
                *cites,
            ),
        r matches ClaimPlan::Relate { index, section } ==> index == cites_of(claim@)[0] && (
        forall|i: int| #[trigger]
            cited_under(cites.included() + cites.conflicting(), index, i) ==> section@ == (
            cites.included() + cites.conflicting())[i].text@) && ((forall|i: int|
            0 <= i < (cites.included() + cites.conflicting()).len() ==> (#[trigger] (
            cites.included() + cites.conflicting())[i]).index != index) ==> section@.len() == 0),
        r matches ClaimPlan::Settled(v) ==> v.claim@ == claim@ && v.verdict@ == "fabricated"@
            && v.memory_index == Some(cites_of(claim@)[0]),
{
    lemma_all_backed(claim@, *cites);
    if let ClaimPlan::Relate { index, section } = r {
        let all = cites.included() + cites.conflicting();
        law_first_under(all, index);
        assert forall|i: int| #[trigger] cited_under(all, index, i) implies section@
            == all[i].text@ by {
            assert(all[i].index == index);
            let c = cites.under(index)->0;
            let h = choose|h: int| #[trigger] cited_under(all, index, h) && all[h] == c;
            if h < i {
                assert(all[h].index != index);
            }
            if i < h {
                assert(all[i].index != index);
            }
        }
    }
}

/// A claim that cites nothing goes on to the scorer exactly where it has two content words and
/// shares two with the text or the statement of some memory. Else it is unsupported.
pub proof fn law_plan_for_a_claim_that_cites_nothing(
    claim: &str,
    cites: &AdmittedCitations,
    r: ClaimPlan,
)
    requires
        call_ensures(plan_claim, (claim, cites), r),
        cites_of(claim@).len() == 0,
    ensures
        r is Relate <==> tokens(claim@).len() >= 2 && exists|i: int|
            0 <= i < (cites.included() + cites.conflicting()).len() && (text_shares(
                claim@,
                #[trigger] (cites.included() + cites.conflicting())[i],
            ) >= 2 || statement_shares(claim@, (cites.included() + cites.conflicting())[i]) >= 2),
        r matches ClaimPlan::Settled(v) ==> v.claim@ == claim@ && v.verdict@ == "unsupported"@
            && v.memory_index is None,
{
    let all = cites.included() + cites.conflicting();
    let secs = sections(all);
    let w = tokens(claim@);
    assert(r is Relate <==> attributable(claim@, *cites));
    if no_section(w, secs) {
        assert forall|i: int| 0 <= i < all.len() implies text_shares(claim@, #[trigger] all[i]) < 2
            && statement_shares(claim@, all[i]) < 2 by {
            lemma_section_shares(claim@, all, i);
            assert(weight(w, secs[2 * i]) < 2);
            assert(weight(w, secs[2 * i + 1]) < 2);
        }
    } else {
        let k = choose|k: int| 0 <= k < secs.len() && !(#[trigger] weight(w, secs[k]) < 2);
        lemma_section_shares(claim@, all, k / 2);
        assert(k == 2 * (k / 2) || k == 2 * (k / 2) + 1);
        assert(text_shares(claim@, all[k / 2]) >= 2 || statement_shares(claim@, all[k / 2]) >= 2);
    }
}

proof fn lemma_section_shares(claim: Seq<char>, cites: Seq<Citation>, i: int)
    requires
        0 <= i < cites.len(),
    ensures
        weight(tokens(claim), sections(cites)[2 * i]) == text_shares(claim, cites[i]),
        weight(tokens(claim), sections(cites)[2 * i + 1]) == statement_shares(claim, cites[i]),
        sections(cites)[2 * i] == (cites[i].index, trimmed(cites[i].text@)),
        sections(cites)[2 * i + 1] == (cites[i].index, trimmed(cites[i].statement@)),
{
    let w = tokens(claim);
    let t = tokens(trimmed(cites[i].text@));
    let s = tokens(trimmed(cites[i].statement@));
    assert(t.intersect(w) =~= w.intersect(t));
    assert(s.intersect(w) =~= w.intersect(s));
}

/// What a claim without a citation is held against shares no fewer of its content words than the
/// text or the statement of any memory does.
pub proof fn law_uncited_claim_is_held_against_the_closest(
    claim: &str,
    cites: &AdmittedCitations,
    index: usize,
    section: String,
    i: int,
)
    requires
        call_ensures(plan_claim, (claim, cites), ClaimPlan::Relate { index, section }),
        cites_of(claim@).len() == 0,
        0 <= i < (cites.included() + cites.conflicting()).len(),
    ensures
        tokens(claim@).intersect(tokens(section@)).len() >= 2,
        text_shares(claim@, (cites.included() + cites.conflicting())[i]) <= tokens(
            claim@,
        ).intersect(tokens(section@)).len(),
        statement_shares(claim@, (cites.included() + cites.conflicting())[i]) <= tokens(
            claim@,
        ).intersect(tokens(section@)).len(),
        exists|j: int|
            0 <= j < (cites.included() + cites.conflicting()).len() && (#[trigger] (
            cites.included() + cites.conflicting())[j]).index == index && (section@ == trimmed(
                (cites.included() + cites.conflicting())[j].text@,
            ) || section@ == trimmed((cites.included() + cites.conflicting())[j].statement@)),
{
    let all = cites.included() + cites.conflicting();
    let secs = sections(all);
    let w = tokens(claim@);
    assert(relates(claim@, *cites) == Some((index, section@)));
    assert(attributable(claim@, *cites));
    lemma_best_exists(w, secs);
    let k = choose|k: int| best_section(w, secs, k);
    assert(secs[k] == (index, section@));
    assert(tokens(section@).intersect(w) =~= w.intersect(tokens(section@)));
    assert(weight(w, secs[k]) == w.intersect(tokens(section@)).len());
    lemma_section_shares(claim@, all, i);
    assert(weight(w, secs[2 * i]) <= weight(w, secs[k]));
    assert(weight(w, secs[2 * i + 1]) <= weight(w, secs[k]));
    lemma_section_shares(claim@, all, k / 2);
    assert(k == 2 * (k / 2) || k == 2 * (k / 2) + 1);
    assert(all[k / 2].index == index);
}

/// The scorer's answer is the verdict on the claim in turn, unless the scorer is less sure than it
/// must be; the claim is then unsupported. The memory is the one that was asked about, and the
/// verdicts before stay.
pub proof fn law_answers_become_verdicts(
    run: &mut VerifyRun,
    choice: String,
    confidence: Score,
    min: Score,
)
    requires
        call_ensures(VerifyRun::answer, (run, choice, confidence, min), ()),
        old(run).wf(),
        old(run).awaited() is Some,
    ensures
        final(run).given().len() == old(run).given().len() + 1,
        forall|k: int|
            0 <= k < old(run).given().len() ==> final(run).given()[k] == old(run).given()[k],
        ({
            let v = final(run).given()[old(run).given().len() as int];
            &&& v.claim@ == old(run).claims()[old(run).given().len() as int]
            &&& v.memory_index == old(run).awaited()
            &&& confidence.below(min) ==> v.verdict@ == "unsupported"@
            &&& !confidence.below(min) ==> v.verdict@ == choice@
        }),
        final(run).awaited() is None,
{
    let n = old(run).given().len() as int;
    assert(final(run).given().last() == final(run).given()[n]);
    assert forall|k: int| 0 <= k < n implies final(run).given()[k] == old(run).given()[k] by {
        assert(old(run).given() == final(run).given().take(n));
    }
    assert(final(run).given()[n].claim@ == final(run).claims()[n]);
}

/// No claim is passed over: the verdicts are on the first claims of the draft, in order, and the
/// scorer is asked about the next. A verdict that is given without asking is never support.
pub proof fn law_claims_are_taken_in_turn(
    run: &mut VerifyRun,
    cites: &AdmittedCitations,
    r: Option<Relation>,
)
    requires
        call_ensures(VerifyRun::advance, (run, cites), r),
        old(run).wf(),
        old(run).awaited() is None,
    ensures
        final(run).claims() == old(run).claims(),
        r is None ==> final(run).given().len() == final(run).claims().len(),
        r matches Some(q) ==> final(run).given().len() < final(run).claims().len() && q.claim@
            == final(run).claims()[final(run).given().len() as int],
        forall|k: int|
            0 <= k < final(run).given().len() ==> (#[trigger] final(run).given()[k]).claim@
                == final(run).claims()[k],
        forall|k: int|
            old(run).given().len() <= k < final(run).given().len() ==> {
                let v = #[trigger] final(run).given()[k];
                v.verdict@ == "unsupported"@ || v.verdict@ == "fabricated"@
            },
        forall|k: int|
            0 <= k < old(run).given().len() ==> final(run).given()[k] == old(run).given()[k],
{
    let n = old(run).given().len() as int;
    assert forall|k: int| 0 <= k < n implies final(run).given()[k] == old(run).given()[k] by {
        assert(old(run).given() == final(run).given().take(n));
    }
    assert forall|k: int| n <= k < final(run).given().len() implies ({
        let v = #[trigger] final(run).given()[k];
        v.verdict@ == "unsupported"@ || v.verdict@ == "fabricated"@
    }) by {
        assert(settles(final(run).claims()[k], *cites, final(run).given()[k]));
    }
}

// ---------------------------------------------------------------------------------------------
// The course of an ask
// ---------------------------------------------------------------------------------------------

/// The kind of a question is what the scorer chose where it is sure enough, and a plain lookup
/// where not.
pub proof fn law_kind_settled(k: &KindResult, min: Score, r: KindChoice)
    requires
        call_ensures(settle_kind, (k, min), r),
    ensures
        k.confidence.below(min) ==> r.kind@ == "atomic_lookup"@ && r.fell_back,
        !k.confidence.below(min) ==> r.kind@ == k.choice@ && !r.fell_back,
        r.confidence == k.confidence,
{
}

/// A question is small talk exactly where that is its kind and the scorer is sure enough.
pub proof fn law_small_talk(kind: &str, confidence: Score, min: Score, r: bool)
    requires
        call_ensures(is_chitchat, (kind, confidence, min), r),
    ensures
        r <==> kind@ == "chitchat"@ && min.at_most(confidence),
{
}

/// Memory is passed over exactly where the scorer took the question for small talk and was sure
/// enough; every other question is embedded.
pub proof fn law_only_sure_small_talk_skips_memory(
    run: &mut AskRun,
    k: &KindResult,
    ms: u64,
    cfg: &Config,
    fell_back: bool,
)
    requires
        call_ensures(AskRun::on_kind, (run, k, ms, cfg), fell_back),
    ensures
        ({
            let sure = !k.confidence.below(cfg.kind_confidence_min)
                && cfg.kind_confidence_min.at_most(k.confidence);
            let talk = k.choice@ == "chitchat"@ && sure;
            &&& final(run).phase == if talk {
                Phase::Admitted
            } else {
                Phase::Embed
            }
            &&& !old(run).ask.chitchat ==> final(run).ask.chitchat == talk
            &&& final(run).ask.kind_confidence == Some(k.confidence)
            &&& k.confidence.below(cfg.kind_confidence_min) ==> (final(run).ask.kind matches Some(x)
                && x@ == "atomic_lookup"@)
            &&& !k.confidence.below(cfg.kind_confidence_min) ==> (final(run).ask.kind matches Some(
                x,
            ) && x@ == k.choice@)
            &&& final(run).ask.question == old(run).ask.question
            &&& final(run).ask.stages@ == old(run).ask.stages@.push(
                StageRecord { stage: Stage::Kind, ms, ok: true },
            )
        }),
{
    reveal_strlit("atomic_lookup");
    reveal_strlit("chitchat");
    assert("atomic_lookup"@.len() == 13);
    assert("chitchat"@.len() == 8);
}

/// Small talk is answered without memories. Another question for which nothing was let in is told
/// so, without citations and without a draft; else a draft is asked for from what was let in and
/// what conflicts.
pub proof fn law_answer_begins(run: &mut AskRun, cfg: &Config)
    requires
        call_ensures(AskRun::begin_answer, (run, cfg), ()),
    ensures
        old(run).ask.chitchat ==> final(run).phase == Phase::Chitchat && final(run).ask
            == old(run).ask,
        !old(run).ask.chitchat && old(run).ask.admitted@.len() == 0 ==> final(run).phase
            == Phase::Done && final(run).ask.empty && final(run).ask.admitted@.len() == 0 && final(run).ask.conflicts@.len() == 0 && (final(run).ask.answer matches Some(a) && a@
            == "I don't have that in my memory."@),
        !old(run).ask.chitchat && old(run).ask.admitted@.len() > 0 ==> final(run).phase == (
        Phase::Generate { attempt: 0 }) && (final(run).cites matches Some(c) && c.included() == old(run).ask.admitted@ && c.conflicting() == old(run).ask.conflicts@) && final(run).ask
            == old(run).ask,
{
}

/// A draft is verified next, whatever it says, and nothing of it is an answer yet.
pub proof fn law_drafts_are_verified(run: &mut AskRun, text: String, ms: u64, cfg: &Config)
    requires
        call_ensures(AskRun::on_draft, (run, text, ms, cfg), ()),
        old(run).phase is Generate,
    ensures
        final(run).phase == (Phase::Verify { attempt: old(run).phase->Generate_attempt }),
        final(run).draft == text,
        final(run).ask.answer == old(run).ask.answer,
        final(run).cites == old(run).cites,
        final(run).ask.stages@ == old(run).ask.stages@.push(
            StageRecord { stage: Stage::Generate, ms, ok: true },
        ),
{
}

/// Another draft is asked for exactly where some claim is not supported and another is allowed.
/// Nothing is published then.
pub proof fn law_another_draft(
    run: &mut AskRun,
    verdicts: Vec<ClaimVerdict>,
    ms: u64,
    cfg: &Config,
)
    requires
        call_ensures(AskRun::on_verdicts, (run, verdicts, ms, cfg), ()),
        old(run).phase is Verify,
    ensures
        final(run).phase is Generate <==> old(run).phase->Verify_attempt < cfg.verify_regen_max
            && exists|k: int|
            0 <= k < verdicts@.len() && (#[trigger] verdicts@[k]).verdict@ != "supports"@,
        final(run).phase is Generate ==> final(run).phase->Generate_attempt
            == old(run).phase->Verify_attempt + 1 && final(run).ask.answer == old(run).ask.answer
            && final(run).ask.admitted == old(run).ask.admitted && final(run).ask.conflicts == old(run).ask.conflicts,
        !(final(run).phase is Generate) ==> final(run).phase == Phase::Done,
        final(run).ask.verdicts == verdicts,
        final(run).ask.stages@ == old(run).ask.stages@.push(
            StageRecord { stage: Stage::Verify, ms, ok: true },
        ),
{
    if !all_supported(verdicts@) {
        let k = choose|k: int| 0 <= k < verdicts@.len() && !(#[trigger] verdicts@[k]).supported();
        assert(verdicts@[k].verdict@ != "supports"@);
    }
    if exists|k: int| 0 <= k < verdicts@.len() && (#[trigger] verdicts@[k]).verdict@
        != "supports"@ {
        let k = choose|k: int|
            0 <= k < verdicts@.len() && (#[trigger] verdicts@[k]).verdict@ != "supports"@;
        assert(!verdicts@[k].supported());
    }
}

/// What is published at the end: of the draft the claims that no verdict turns down, of the
/// citations those that the text rests on, and the plain words where nothing is left.
pub proof fn law_answer_is_what_was_not_turned_down(
    run: &mut AskRun,
    verdicts: Vec<ClaimVerdict>,
    ms: u64,
    cfg: &Config,
)
    requires
        call_ensures(AskRun::on_verdicts, (run, verdicts, ms, cfg), ()),
        old(run).phase is Verify,
        final(run).phase == Phase::Done,
    ensures
        ({
            let draft = old(run).draft@;
            let text = joined(
                claims(draft).filter(|p: Seq<char>| !turned_down(verdicts@, p)),
                " "@,
            );
            let kept = |c: Citation|
                marked(text, c.index) || attributed(text, verdicts@, c.index);
            let ask = final(run).ask;
            &&& ask.empty <==> forall|k: int|
                0 <= k < claims(draft).len() ==> turned_down(verdicts@, #[trigger] claims(draft)[k])
            &&& ask.empty ==> (ask.answer matches Some(a) && a@
                == "I don't have that in my memory."@) && ask.admitted@.len() == 0
                && ask.conflicts@.len() == 0
            &&& !ask.empty ==> (ask.answer matches Some(a) && a@ == text) && ask.admitted@ == old(run).ask.admitted@.filter(kept) && ask.conflicts@ == old(run).ask.conflicts@.filter(kept)
        }),
{
    let draft = old(run).draft@;
    law_empty_where_every_claim_failed(draft, verdicts@);
    lemma_unfailed(claims(draft), verdicts@, |p: Seq<char>| !turned_down(verdicts@, p));
    assert forall|k: int| 0 <= k < claims(draft).len() implies (turned_down(
        verdicts@,
        #[trigger] claims(draft)[k],
    ) <==> failed(verdicts@, claims(draft)[k])) by {
        lemma_turned_down(verdicts@, claims(draft)[k]);
    }
    let text = stripped(draft, verdicts@);
    let kept = |c: Citation| marked(text, c.index) || attributed(text, verdicts@, c.index);
    lemma_relied_on(old(run).ask.admitted@, text, verdicts@, kept);
    lemma_relied_on(old(run).ask.conflicts@, text, verdicts@, kept);
}

/// A stage that fails ends the ask and is recorded as failed, and changes nothing else.
pub proof fn law_failure_ends_the_ask(run: &mut AskRun, ms: u64)
    requires
        call_ensures(AskRun::on_failure, (run, ms), ()),
    ensures
        final(run).phase == Phase::Failed,
        final(run).ask == (Ask { stages: final(run).ask.stages, ..old(run).ask }),
        ({
            let stage = match old(run).phase {
                Phase::Kind => Stage::Kind,
                Phase::Embed => Stage::Embed,
                Phase::Retrieve => Stage::Retrieve,
                Phase::Admit => Stage::Admit,
                Phase::Verify { .. } => Stage::Verify,
                _ => Stage::Generate,
            };
            old(run).phase is Kind || old(run).phase is Embed || old(run).phase is Retrieve || old(run).phase is Admit || old(run).phase is Chitchat || old(run).phase is Generate
                || old(run).phase is Verify ==> final(run).ask.stages@ == old(run).ask.stages@.push(
                StageRecord { stage, ms, ok: false },
            )
        }),
{
}

/// Each candidate keeps its scores, its evidence as its noul, and where the policy sent it.
pub proof fn law_candidates_keep_their_scores(
    run: &mut AskRun,
    scores: &Vec<(u128, FilterScores)>,
    ms: u64,
    cfg: &Config,
    k: int,
)
    requires
        call_ensures(AskRun::on_scored, (run, scores, ms, cfg), ()),
        0 <= k < old(run).ask.candidates@.len(),
    ensures
        final(run).phase == Phase::Admitted,
        final(run).ask.candidates@.len() == old(run).ask.candidates@.len(),
        ({
            let was = old(run).ask.candidates@[k];
            let now = final(run).ask.candidates@[k];
            let s = score_of(scores@, was.id);
            &&& now.id == was.id && now.text == was.text && now.statement == was.statement
            &&& now.origin == was.origin && now.rrf_score == was.rrf_score
            &&& now.injection == Some(s.injection) && now.contradicts == Some(s.contradicts)
            &&& now.relevant == Some(s.relevant) && now.evidence == Some(s.evidence)
            &&& now.noul == Some(s.evidence)
            &&& now.route == Some(routed(s, *cfg))
        }),
{
    let was = old(run).ask.candidates@[k];
    assert(final(run).ask.candidates@[k] == scored(was, score_of(scores@, was.id), *cfg));
}

/// The count of supported claims is that of the verdicts that say so.
pub proof fn law_supported_count(verdicts: Seq<ClaimVerdict>)
    ensures
        supported_in(verdicts) == verdicts.filter(
            |v: ClaimVerdict| v.verdict@ == "supports"@,
        ).len(),
    decreases verdicts.len(),
{
    let good = |v: ClaimVerdict| v.verdict@ == "supports"@;
    if verdicts.len() > 0 {
        law_supported_count(verdicts.drop_last());
        crate::laws::publishing::lemma_filter_last(verdicts, good);
    } else {
        reveal(Seq::filter);
    }
}

/// A draft is in order exactly where every verdict supports its claim.
pub proof fn law_all_ok(verdicts: &Vec<ClaimVerdict>, r: bool)
    requires
        call_ensures(all_ok, (verdicts,), r),
    ensures
        r <==> forall|k: int|
            0 <= k < verdicts@.len() ==> (#[trigger] verdicts@[k]).verdict@ == "supports"@,
{
    if r {
        assert forall|k: int| 0 <= k < verdicts@.len() implies (#[trigger] verdicts@[k]).verdict@
            == "supports"@ by {
            assert(verdicts@[k].supported());
        }
    } else {
        let k = choose|k: int| 0 <= k < verdicts@.len() && !(#[trigger] verdicts@[k]).supported();
        assert(verdicts@[k].verdict@ != "supports"@);
    }
}

/// Only a question with words is taken up, and it starts with its kind.
pub proof fn law_only_questions_with_words(
    ask_id: u128,
    req: AskRequest,
    r: Result<AskRun, &'static str>,
)
    requires
        call_ensures(AskRun::start, (ask_id, req), r),
    ensures
        r is Err <==> trimmed(req.question@).len() == 0,
        r matches Err(why) ==> why@ == "question must not be empty"@,
        r matches Ok(run) ==> run.phase == Phase::Kind && run.ask.question == req.question
            && run.ask.brain_id == req.brain_id && run.ask.ask_id == ask_id && run.ask.answer
            is None && run.ask.stages@.len() == 0 && run.ask.admitted@.len() == 0,
{
}

/// A verification starts with every claim of the draft and no verdict, and ends with its verdicts
/// as they were given.
pub proof fn law_verification_starts_and_ends(
    text: &str,
    start: VerifyRun,
    run: VerifyRun,
    verdicts: Vec<ClaimVerdict>,
)
    requires
        call_ensures(VerifyRun::start, (text,), start),
        call_ensures(VerifyRun::finish, (run,), verdicts),
        run.wf(),
        run.claims() == claims(text@),
    ensures
        start.claims() == claims(text@),
        start.given().len() == 0 && start.awaited() is None,
        verdicts@ == run.given(),
        verdicts@.len() == claims(text@).len(),
        forall|k: int|
            0 <= k < verdicts@.len() ==> (#[trigger] verdicts@[k]).claim@ == claims(text@)[k],
{
}

/// The embedding is followed by the searches, and what they found by the filter; neither answers.
pub proof fn law_searches_follow(run: &mut AskRun, ms: u64)
    requires
        call_ensures(AskRun::on_embedded, (run, ms), ()),
    ensures
        final(run).phase == Phase::Retrieve,
        final(run).ask == (Ask { stages: final(run).ask.stages, ..old(run).ask }),
        final(run).ask.stages@ == old(run).ask.stages@.push(
            StageRecord { stage: Stage::Embed, ms, ok: true },
        ),
{
}

/// What the searches found is what is filtered.
pub proof fn law_filter_follows(run: &mut AskRun, candidates: Vec<Candidate>, ms: u64)
    requires
        call_ensures(AskRun::on_retrieved, (run, candidates, ms), ()),
    ensures
        final(run).phase == Phase::Admit,
        final(run).ask.candidates == candidates,
        final(run).ask.question == old(run).ask.question,
        final(run).ask.answer == old(run).ask.answer,
        final(run).ask.stages@ == old(run).ask.stages@.push(
            StageRecord { stage: Stage::Retrieve, ms, ok: true },
        ),
{
}

/// Small talk is answered with what the generator says, without citations or verdicts of its own.
pub proof fn law_small_talk_is_answered(run: &mut AskRun, text: String, ms: u64)
    requires
        call_ensures(AskRun::on_chitchat, (run, text, ms), ()),
    ensures
        final(run).phase == Phase::Done,
        final(run).ask.answer == Some(text),
        final(run).ask.empty == old(run).ask.empty,
        final(run).ask.admitted == old(run).ask.admitted,
        final(run).ask.verdicts == old(run).ask.verdicts,
        final(run).ask.stages@ == old(run).ask.stages@.push(
            StageRecord { stage: Stage::Generate, ms, ok: true },
        ),
{
}

} // verus!
