//! What the client is told, and what is kept of an ask.

#[allow(unused_imports)]
use crate::clients::systemone::FilterScores;
#[allow(unused_imports)]
use crate::config::Config;
#[allow(unused_imports)]
use crate::error::RecallError;
#[allow(unused_imports)]
use crate::http::ask::{
    admitted_event, citation_view, citations_view, open_answer, progress_event, sync_reply,
    AnswerStream, Event, Opening, Progress,
};
#[allow(unused_imports)]
use crate::ids::id_view;
#[allow(unused_imports)]
use crate::json::{real_view, Json, JsonV, Num};
#[allow(unused_imports)]
use crate::laws::scoring::{holds, lemma_holds, size};
#[allow(unused_imports)]
use crate::order::{ahead, ranking};
#[allow(unused_imports)]
use crate::pipeline::admission::{ranked_rows, record_keys, record_of, recorded, routed, score_of};
#[allow(unused_imports)]
use crate::store::{candidate_view, cited_as, record_of as kept_of, stage_view, AskRecord};
#[allow(unused_imports)]
use crate::types::{Ask, Candidate, Citation, FilterRoute, Stage, StageRecord};
use vstd::prelude::*;

verus! {

/// Whether a value tells of a citation: its id, the number it is cited by, what it says, how
/// strong it is, where it comes from and where it went.
pub open spec fn tells_citation(v: JsonV, c: Citation) -> bool {
    &&& size(v) == 10
    &&& holds(v, "id"@, JsonV::Str(id_view(c.id)))
    &&& holds(v, "index"@, JsonV::Num(Num::Uint(c.index as u64)))
    &&& holds(v, "statement"@, JsonV::Str(c.statement@))
    &&& holds(v, "text"@, JsonV::Str(c.text@))
    &&& holds(v, "origin"@, JsonV::Str(c.origin@))
    &&& c.noul.finite() ==> holds(v, "noul"@, JsonV::Num(Num::Real(c.noul)))
    &&& c.grantor_name matches Some(g) ==> holds(v, "grantor_name"@, JsonV::Str(g@))
    &&& c.grantor_name is None ==> holds(v, "grantor_name"@, JsonV::Null)
    &&& c.source matches Some(s) ==> holds(v, "source"@, JsonV::Str(s@))
    &&& c.source is None ==> holds(v, "source"@, JsonV::Null)
    &&& c.route == FilterRoute::Include ==> holds(v, "route"@, JsonV::Str("include"@))
    &&& c.route == FilterRoute::Conflict ==> holds(v, "route"@, JsonV::Str("conflict"@))
}

proof fn lemma_tells_citation(c: Citation)
    ensures
        tells_citation(citation_view(c), c),
{
    let v = citation_view(c);
    lemma_holds(v, 0);
    lemma_holds(v, 1);
    lemma_holds(v, 2);
    lemma_holds(v, 3);
    lemma_holds(v, 4);
    lemma_holds(v, 5);
    lemma_holds(v, 6);
    lemma_holds(v, 8);
    lemma_holds(v, 9);
}

/// Whether a value tells of every citation, in order.
pub open spec fn tells_citations(v: JsonV, cites: Seq<Citation>) -> bool {
    v matches JsonV::Arr(list) && list.len() == cites.len() && forall|k: int|
        0 <= k < cites.len() ==> tells_citation(#[trigger] list[k], cites[k])
}

proof fn lemma_tells_citations(cites: Seq<Citation>)
    ensures
        tells_citations(citations_view(cites), cites),
{
    let list = citations_view(cites)->Arr_0;
    assert forall|k: int| 0 <= k < cites.len() implies tells_citation(
        #[trigger] list[k],
        cites[k],
    ) by {
        lemma_tells_citation(cites[k]);
    }
}

/// The client is told every citation that was let in, and out of how many candidates.
pub proof fn law_admission_is_told(ask: &Ask, r: Event)
    requires
        call_ensures(admitted_event, (ask,), r),
    ensures
        r.name@ == "admitted"@,
        size(r.data@) == 2,
        exists|v: JsonV| #[trigger]
            holds(r.data@, "citations"@, v) && tells_citations(v, ask.admitted@),
        holds(r.data@, "candidate_count"@, JsonV::Num(Num::Uint(ask.candidates@.len() as u64))),
{
    lemma_tells_citations(ask.admitted@);
    lemma_holds(r.data@, 0);
    lemma_holds(r.data@, 1);
}

/// An answer in one piece says what was published, with the citations it rests on, and whether it
/// is empty.
pub proof fn law_reply_in_one_piece(ask: &Ask, r: Json)
    requires
        call_ensures(sync_reply, (ask,), r),
    ensures
        size(r@) == 5,
        holds(r@, "ask_id"@, JsonV::Str(id_view(ask.ask_id))),
        ask.answer matches Some(a) ==> holds(r@, "text"@, JsonV::Str(a@)),
        ask.answer is None ==> holds(r@, "text"@, JsonV::Str(Seq::empty())),
        exists|v: JsonV| #[trigger]
            holds(r@, "citations"@, v) && tells_citations(v, ask.admitted@),
        holds(r@, "empty"@, JsonV::Bool(ask.empty)),
{
    lemma_tells_citations(ask.admitted@);
    lemma_holds(r@, 0);
    lemma_holds(r@, 1);
    lemma_holds(r@, 2);
    lemma_holds(r@, 3);
}

/// A streamed answer opens with what was let in exactly where something was. Else the client is
/// told that nothing was, and the answer says so, without citations.
pub proof fn law_stream_opens(ask: Ask, r: Opening)
    requires
        call_ensures(open_answer, (ask,), r),
    ensures
        r is Empty <==> ask.admitted@.len() == 0,
        r matches Opening::Empty { ask: empty, told, done } ==> {
            &&& told.name@ == "empty"@ && size(told.data@) == 1
            &&& holds(told.data@, "reason"@, JsonV::Str("no_admitted_citation"@))
            &&& done.name@ == "done"@
            &&& holds(done.data@, "ask_id"@, JsonV::Str(id_view(ask.ask_id)))
            &&& empty.empty && empty.admitted@.len() == 0 && empty.conflicts@.len() == 0
            &&& empty.answer matches Some(a) && a@ == "I don't have that in my memory."@
            &&& empty.ask_id == ask.ask_id && empty.candidates == ask.candidates
            &&& empty.question == ask.question && empty.stages == ask.stages
        },
        r matches Opening::Cited { cites, told, stream } ==> {
            &&& told.name@ == "admitted"@
            &&& exists|v: JsonV| #[trigger]
                holds(told.data@, "citations"@, v) && tells_citations(v, ask.admitted@)
            &&& cites.included() == ask.admitted@ && cites.conflicting() == ask.conflicts@
            &&& stream.ask == ask && stream.answer@.len() == 0
        },
{
    match r {
        Opening::Empty { ask: empty, told, done } => {
            lemma_holds(told.data@, 0);
            lemma_holds(done.data@, 0);
        },
        Opening::Cited { cites, told, stream } => {
            lemma_tells_citations(ask.admitted@);
            lemma_holds(told.data@, 0);
        },
    }
}

/// Every piece of a streamed answer is sent on as it is and kept after those before it.
pub proof fn law_pieces_are_sent_and_kept(stream: &mut AnswerStream, text: &str, r: Event)
    requires
        call_ensures(AnswerStream::on_piece, (stream, text), r),
    ensures
        r.name@ == "token"@,
        size(r.data@) == 1,
        holds(r.data@, "text"@, JsonV::Str(text@)),
        final(stream).answer@.len() == old(stream).answer@.len() + text@.len(),
        final(stream).answer@.take(old(stream).answer@.len() as int) == old(stream).answer@,
        final(stream).answer@.skip(old(stream).answer@.len() as int) == text@,
        final(stream).ask == old(stream).ask,
{
    lemma_holds(r.data@, 0);
    assert(final(stream).answer@.take(old(stream).answer@.len() as int) =~= old(stream).answer@);
    assert(final(stream).answer@.skip(old(stream).answer@.len() as int) =~= text@);
}

/// A stream that breaks off keeps what was sent and tells the client of the error.
pub proof fn law_broken_stream(stream: AnswerStream, e: &RecallError, r: (Ask, Event))
    requires
        call_ensures(AnswerStream::on_break, (stream, e), r),
    ensures
        r.0.answer matches Some(a) && a@ == stream.answer@,
        r.0.stages == stream.ask.stages && r.0.admitted == stream.ask.admitted,
        r.0.verdicts == stream.ask.verdicts && r.0.ask_id == stream.ask.ask_id,
        r.1.name@ == "error"@,
        holds(r.1.data@, "code"@, JsonV::Str(e.code_name())),
        holds(r.1.data@, "message"@, JsonV::Str(e.wording())),
        size(r.1.data@) == 2,
{
    lemma_holds(r.1.data@, 0);
    lemma_holds(r.1.data@, 1);
}

/// A stream that ends keeps the whole answer and the time it took, and says how many candidates
/// there were and how many were let in.
pub proof fn law_ended_stream(stream: AnswerStream, ms: u64, r: (Ask, Event))
    requires
        call_ensures(AnswerStream::on_end, (stream, ms), r),
    ensures
        r.0.answer matches Some(a) && a@ == stream.answer@,
        r.0.stages@ == stream.ask.stages@.push(
            StageRecord { stage: Stage::Generate, ms, ok: true },
        ),
        r.0.admitted == stream.ask.admitted && r.0.candidates == stream.ask.candidates,
        r.1.name@ == "done"@,
        size(r.1.data@) == 2,
        holds(r.1.data@, "ask_id"@, JsonV::Str(id_view(stream.ask.ask_id))),
        exists|usage: JsonV| #[trigger]
            holds(r.1.data@, "usage"@, usage) && size(usage) == 2 && holds(
                usage,
                "candidates"@,
                JsonV::Num(Num::Uint(stream.ask.candidates@.len() as u64)),
            ) && holds(
                usage,
                "admitted"@,
                JsonV::Num(Num::Uint(stream.ask.admitted@.len() as u64)),
            ),
{
    lemma_holds(r.1.data@, 0);
    lemma_holds(r.1.data@, 1);
    let usage = r.1.data@->Obj_0[1].1;
    lemma_holds(usage, 0);
    lemma_holds(usage, 1);
}

/// A stage is told of when it starts, and when it ends with how it went and how long it took.
pub proof fn law_progress(p: &Progress, r: Event)
    requires
        call_ensures(progress_event, (p,), r),
    ensures
        r.name@ == "stage"@,
        *p matches Progress::Entered(stage) ==> size(r.data@) == 2 && holds(
            r.data@,
            "stage"@,
            JsonV::Str(stage.name()),
        ) && holds(r.data@, "status"@, JsonV::Str("started"@)),
        *p matches Progress::Finished { stage, ms, ok } ==> size(r.data@) == 3 && holds(
            r.data@,
            "stage"@,
            JsonV::Str(stage.name()),
        ) && holds(r.data@, "ms"@, JsonV::Num(Num::Uint(ms))) && (ok ==> holds(
            r.data@,
            "status"@,
            JsonV::Str("ok"@),
        )) && (!ok ==> holds(r.data@, "status"@, JsonV::Str("failed"@))),
{
    lemma_holds(r.data@, 0);
    lemma_holds(r.data@, 1);
    if *p is Finished {
        lemma_holds(r.data@, 2);
    }
}

/// The names of the stages.
pub proof fn law_stage_names()
    ensures
        Stage::Kind.name() == "kind"@,
        Stage::Embed.name() == "embed"@,
        Stage::Retrieve.name() == "retrieve"@,
        Stage::Admit.name() == "admit"@,
        Stage::Generate.name() == "generate"@,
        Stage::Verify.name() == "verify"@,
{
}

// ---------------------------------------------------------------------------------------------
// What is kept
// ---------------------------------------------------------------------------------------------

/// A memory is cited exactly where a citation has its id, and as the first of those.
pub proof fn law_cited_as(cites: Seq<Citation>, id: u128)
    ensures
        cited_as(cites, id) is Some <==> exists|k: int|
            0 <= k < cites.len() && (#[trigger] cites[k]).id == id,
        cited_as(cites, id) matches Some(c) ==> exists|k: int|
            0 <= k < cites.len() && #[trigger] cites[k] == c && c.id == id && forall|j: int|
                0 <= j < k ==> (#[trigger] cites[j]).id != id,
    decreases cites.len(),
{
    if cites.len() > 0 {
        let rest = cites.drop_first();
        assert(cites[0] == cites.first());
        assert(forall|k: int| 0 <= k < rest.len() ==> rest[k] == cites[k + 1]);
        if cites.first().id != id {
            law_cited_as(rest, id);
            if let Some(c) = cited_as(rest, id) {
                let k = choose|k: int|
                    0 <= k < rest.len() && #[trigger] rest[k] == c && c.id == id && forall|j: int|
                        0 <= j < k ==> (#[trigger] rest[j]).id != id;
                assert(cites[k + 1] == c);
                assert forall|j: int| 0 <= j < k + 1 implies (#[trigger] cites[j]).id != id by {
                    if j > 0 {
                        assert(rest[j - 1].id != id);
                    }
                }
            } else if exists|k: int| 0 <= k < cites.len() && (#[trigger] cites[k]).id == id {
                let k = choose|k: int| 0 <= k < cites.len() && (#[trigger] cites[k]).id == id;
                assert(rest[k - 1].id == id);
            }
        }
    }
}

/// Every candidate is kept, in order, the rejected ones too: whether it was admitted, its score,
/// and how it was ranked. The ids of what was admitted and the stages are kept in order.
#[verifier::rlimit(40)]
pub proof fn law_record_of_an_ask(ask: &Ask, r: AskRecord)
    requires
        call_ensures(kept_of, (ask,), r),
    ensures
        r.candidates@ matches JsonV::Arr(list) && list.len() == ask.candidates@.len() && (forall|k: int|
            0 <= k < list.len() ==> {
                let v = #[trigger] list[k];
                let c = ask.candidates@[k];
                let admitted = exists|j: int|
                    0 <= j < ask.admitted@.len() && (#[trigger] ask.admitted@[j]).id == c.id;
                &&& size(v) == 4
                &&& holds(v, "id"@, JsonV::Str(id_view(c.id)))
                &&& holds(v, "admitted"@, JsonV::Bool(admitted))
                &&& c.rrf_score.finite() ==> holds(
                    v,
                    "rrf_score"@,
                    JsonV::Num(Num::Real(c.rrf_score)),
                )
                &&& !admitted ==> match c.noul {
                    Some(n) => n.finite() ==> holds(v, "noul"@, JsonV::Num(Num::Real(n))),
                    None => holds(v, "noul"@, JsonV::Null),
                }
                &&& admitted ==> exists|j: int|
                    0 <= j < ask.admitted@.len() && (#[trigger] ask.admitted@[j]).id == c.id
                        && holds(v, "noul"@, real_view(ask.admitted@[j].noul))
            }),
        r.admitted_ids@ matches JsonV::Arr(ids) && ids.len() == ask.admitted@.len() && (forall|k: int|
            0 <= k < ids.len() ==> #[trigger] ids[k] == JsonV::Str(id_view(ask.admitted@[k].id))),
        r.stages@ matches JsonV::Arr(stages) && stages.len() == ask.stages@.len() && (forall|k: int|
            0 <= k < stages.len() ==> {
                let v = #[trigger] stages[k];
                let s = ask.stages@[k];
                &&& size(v) == 3
                &&& holds(v, "stage"@, JsonV::Str(s.stage.name()))
                &&& holds(v, "ms"@, JsonV::Num(Num::Uint(s.ms)))
                &&& holds(v, "ok"@, JsonV::Bool(s.ok))
            }),
{
    let list = r.candidates@->Arr_0;
    assert forall|k: int| 0 <= k < list.len() implies ({
        let v = #[trigger] list[k];
        let c = ask.candidates@[k];
        let admitted = exists|j: int|
            0 <= j < ask.admitted@.len() && (#[trigger] ask.admitted@[j]).id == c.id;
        &&& size(v) == 4
        &&& holds(v, "id"@, JsonV::Str(id_view(c.id)))
        &&& holds(v, "admitted"@, JsonV::Bool(admitted))
        &&& c.rrf_score.finite() ==> holds(v, "rrf_score"@, JsonV::Num(Num::Real(c.rrf_score)))
        &&& !admitted ==> match c.noul {
            Some(n) => n.finite() ==> holds(v, "noul"@, JsonV::Num(Num::Real(n))),
            None => holds(v, "noul"@, JsonV::Null),
        }
        &&& admitted ==> exists|j: int|
            0 <= j < ask.admitted@.len() && (#[trigger] ask.admitted@[j]).id == c.id && holds(
                v,
                "noul"@,
                real_view(ask.admitted@[j].noul),
            )
    }) by {
        let v = list[k];
        assert(v == candidate_view(ask.admitted@, ask.candidates@[k]));
        law_cited_as(ask.admitted@, ask.candidates@[k].id);
        lemma_holds(v, 0);
        lemma_holds(v, 1);
        lemma_holds(v, 2);
        lemma_holds(v, 3);
    }
    let stages = r.stages@->Arr_0;
    assert forall|k: int| 0 <= k < stages.len() implies ({
        let v = #[trigger] stages[k];
        let s = ask.stages@[k];
        &&& size(v) == 3
        &&& holds(v, "stage"@, JsonV::Str(s.stage.name()))
        &&& holds(v, "ms"@, JsonV::Num(Num::Uint(s.ms)))
        &&& holds(v, "ok"@, JsonV::Bool(s.ok))
    }) by {
        assert(stages[k] == stage_view(ask.stages@[k]));
        lemma_holds(stages[k], 0);
        lemma_holds(stages[k], 1);
        lemma_holds(stages[k], 2);
    }
}

/// The record of an admission has every candidate once, the strongest evidence first and the
/// earlier one where two are as strong, with its scores and whether it was admitted. `at` is where
/// each of them stands.
#[verifier::rlimit(40)]
pub proof fn law_record_of_an_admission(
    candidates: &[Candidate],
    scores: &Vec<(u128, FilterScores)>,
    cfg: &Config,
    r: Json,
) -> (at: Seq<usize>)
    requires
        call_ensures(ranked_rows, (candidates, scores, cfg), r),
    ensures
        at.len() == candidates@.len(),
        forall|x: usize| #[trigger] at.contains(x) <==> x < candidates@.len(),
        forall|j: int, k: int|
            0 <= j < k < at.len() ==> {
                let a = recorded(
                    score_of(scores@, candidates@[#[trigger] at[j] as int].id).evidence,
                ).total_key();
                let b = recorded(
                    score_of(scores@, candidates@[#[trigger] at[k] as int].id).evidence,
                ).total_key();
                a > b || (a == b && at[j] < at[k])
            },
        r@ matches JsonV::Arr(rows) && rows.len() == at.len() && (forall|k: int|
            0 <= k < rows.len() ==> {
                let v = #[trigger] rows[k];
                let c = candidates@[at[k] as int];
                let s = score_of(scores@, c.id);
                &&& size(v) == 14
                &&& holds(v, "id"@, JsonV::Str(id_view(c.id)))
                &&& holds(v, "evidence"@, real_view(s.evidence))
                &&& holds(v, "noul"@, real_view(s.evidence))
                &&& holds(v, "injection"@, real_view(s.injection))
                &&& holds(v, "contradicts"@, real_view(s.contradicts))
                &&& holds(v, "relevant"@, real_view(s.relevant))
                &&& holds(v, "rrf"@, real_view(c.rrf_score))
                &&& holds(v, "origin"@, JsonV::Str(c.origin@))
                &&& holds(v, "route"@, JsonV::Str(routed(s, *cfg).name()))
                &&& holds(
                    v,
                    "admitted"@,
                    JsonV::Bool(routed(s, *cfg) == FilterRoute::Include),
                )
                &&& c.statement@.len() <= 400 ==> holds(v, "statement"@, JsonV::Str(c.statement@))
                &&& c.text@ == c.statement@ ==> holds(v, "text"@, JsonV::Null)
                &&& c.text@ != c.statement@ && c.text@.len() <= 400 ==> holds(
                    v,
                    "text"@,
                    JsonV::Str(c.text@),
                )
            }),
{
    let keys = record_keys(candidates@, scores@);
    let at = ranking(keys);
    assert forall|k: int| 0 <= k < at.len() implies #[trigger] at[k] < candidates@.len() by {
        assert(at.contains(at[k]));
    }
    assert forall|j: int, k: int| 0 <= j < k < at.len() implies ({
        let a = recorded(
            score_of(scores@, candidates@[#[trigger] at[j] as int].id).evidence,
        ).total_key();
        let b = recorded(
            score_of(scores@, candidates@[#[trigger] at[k] as int].id).evidence,
        ).total_key();
        a > b || (a == b && at[j] < at[k])
    }) by {
        assert(ahead(keys, at[j], at[k]));
    }
    let rows = r@->Arr_0;
    assert forall|k: int| 0 <= k < rows.len() implies ({
        let v = #[trigger] rows[k];
        let c = candidates@[at[k] as int];
        let s = score_of(scores@, c.id);
        &&& size(v) == 14
        &&& holds(v, "id"@, JsonV::Str(id_view(c.id)))
        &&& holds(v, "evidence"@, real_view(s.evidence))
        &&& holds(v, "noul"@, real_view(s.evidence))
        &&& holds(v, "injection"@, real_view(s.injection))
        &&& holds(v, "contradicts"@, real_view(s.contradicts))
        &&& holds(v, "relevant"@, real_view(s.relevant))
        &&& holds(v, "rrf"@, real_view(c.rrf_score))
        &&& holds(v, "origin"@, JsonV::Str(c.origin@))
        &&& holds(v, "route"@, JsonV::Str(routed(s, *cfg).name()))
        &&& holds(v, "admitted"@, JsonV::Bool(routed(s, *cfg) == FilterRoute::Include))
        &&& c.statement@.len() <= 400 ==> holds(v, "statement"@, JsonV::Str(c.statement@))
        &&& c.text@ == c.statement@ ==> holds(v, "text"@, JsonV::Null)
        &&& c.text@ != c.statement@ && c.text@.len() <= 400 ==> holds(
            v,
            "text"@,
            JsonV::Str(c.text@),
        )
    }) by {
        let v = rows[k];
        assert(v == record_of(candidates@, scores@, *cfg, at[k] as int));
        lemma_holds(v, 0);
        lemma_holds(v, 1);
        lemma_holds(v, 2);
        lemma_holds(v, 3);
        lemma_holds(v, 4);
        lemma_holds(v, 5);
        lemma_holds(v, 6);
        lemma_holds(v, 7);
        lemma_holds(v, 8);
        lemma_holds(v, 9);
        lemma_holds(v, 12);
        lemma_holds(v, 13);
    }
    at
}

} // verus!
