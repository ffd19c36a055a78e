//! What the dashboard makes of the log.

#[allow(unused_imports)]
use crate::clients::systemone::or_zero;
#[allow(unused_imports)]
use crate::dash::detail::{row_verdict, skip_reason};
#[allow(unused_imports)]
use crate::dash::ingest::{
    applied, hit_in, id_in, is_true, on_stage, ranked_in, room, round_in, text_or, tidied, total_of,
    verdicts_of, whole_at, whole_opt,
};
#[allow(unused_imports)]
use crate::dash::keys::{command_of, Command, Key};
#[allow(unused_imports)]
use crate::dash::lines::Tone;
#[allow(unused_imports)]
use crate::dash::panels::{event_tone, stage_tone};
#[allow(unused_imports)]
use crate::dash::state::{
    about, find_ask, find_stage, lemma_find_ask, lemma_find_stage, App, AppV, Ask, AskV, NoteV,
    PieceV, StageHitV,
};
#[allow(unused_imports)]
use crate::dash::window::{longest, ms_order, tail, Stage, StageV};
#[allow(unused_imports)]
use crate::json::{json_of, list_of, JsonV};
#[allow(unused_imports)]
use crate::laws::verdicts::law_has;
#[allow(unused_imports)]
use crate::score::Score;
#[allow(unused_imports)]
use crate::text::{begins, occurs_at, trimmed};
#[allow(unused_imports)]
use vstd::arithmetic::div_mod::lemma_basic_div;
#[allow(unused_imports)]
use vstd::arithmetic::power2::{lemma2_to64, lemma2_to64_rest, lemma_pow2_strictly_increases, pow2};
use vstd::prelude::*;

verus! {

// ---------------------------------------------------------------------------------------------
// Which ask a line is about
// ---------------------------------------------------------------------------------------------

/// A line is about an ask exactly where the id of the one begins with that of the other.
pub proof fn law_about(own: Seq<char>, id: Seq<char>)
    ensures
        about(own, id) <==> (exists|rest: Seq<char>| own == #[trigger] (id + rest)) || (exists|rest: Seq<char>| id == #[trigger] (own + rest)),
{
    lemma_begins(own, id);
    lemma_begins(id, own);
}

proof fn lemma_begins(h: Seq<char>, b: Seq<char>)
    ensures
        begins(h, b) <==> exists|rest: Seq<char>| h == #[trigger] (b + rest),
{
    let n = b.len() as int;
    if begins(h, b) {
        assert(h =~= b + h.skip(n)) by {
            assert forall|k: int| 0 <= k < h.len() implies h[k] == (b + h.skip(n))[k] by {
                if k < n {
                    assert(h.subrange(0, n)[k] == b[k]);
                }
            }
        }
    }
    if exists|rest: Seq<char>| h == #[trigger] (b + rest) {
        let rest = choose|rest: Seq<char>| h == #[trigger] (b + rest);
        assert(h.subrange(0, n) =~= b);
        assert(occurs_at(h, b, 0));
    }
}

/// Of several asks that a line could be about it is about the first.
pub proof fn law_first_ask(asks: Seq<AskV>, id: Seq<char>)
    ensures
        match find_ask(asks, id) {
            Some(k) => 0 <= k < asks.len() && about(asks[k].id, id) && forall|j: int|
                0 <= j < k ==> !about((#[trigger] asks[j]).id, id),
            None => forall|j: int| 0 <= j < asks.len() ==> !about((#[trigger] asks[j]).id, id),
        },
    decreases asks.len(),
{
    if asks.len() > 0 {
        let front = asks.drop_last();
        law_first_ask(front, id);
        assert(forall|j: int| 0 <= j < front.len() ==> front[j] == asks[j]);
    }
}

/// An ask that is not there yet is added as the newest, and the oldest makes room where two
/// hundred are there. An ask that is there stays where it is.
pub proof fn law_where_an_ask_stands(app: AppV, id: Seq<char>)
    requires
        app.wf(),
    ensures
        find_ask(app.asks, id) matches Some(k) ==> app.place(id) == k && app.ensured(id) == app
            && app.ask_for(id) == app.asks[k],
        find_ask(app.asks, id) is None ==> app.ask_for(id) == AskV::fresh(id) && app.place(id) == if
            app.asks.len() < 200 {
            app.asks.len() as int
        } else {
            199
        },
        find_ask(app.asks, id) is None && app.asks.len() < 200 ==> app.ensured(id).asks
            == app.asks.push(AskV::fresh(id)),
        find_ask(app.asks, id) is None && app.asks.len() == 200 ==> app.ensured(id).asks
            == app.asks.skip(1).push(AskV::fresh(id)),
        find_ask(app.asks, id) is None && !app.inspect ==> app.ensured(id).selected == Some(
            app.place(id) as usize,
        ),
{
    lemma_find_ask(app.asks, id);
    if find_ask(app.asks, id) is None && app.asks.len() == 200 {
        assert(app.asks.push(AskV::fresh(id)).drop_first() =~= app.asks.skip(1).push(
            AskV::fresh(id),
        ));
    }
}

// ---------------------------------------------------------------------------------------------
// What each line tells
// ---------------------------------------------------------------------------------------------

proof fn lemma_messages()
    ensures
        "ask started"@.len() == 11 && "ask started"@[0] == 'a',
        "kind chosen"@.len() == 11 && "kind chosen"@[0] == 'k',
        "embedded"@.len() == 8 && "embedded"@[0] == 'e',
        "retrieved from nexus"@.len() == 20 && "retrieved from nexus"@[0] == 'r',
        "retrieve merged"@.len() == 15 && "retrieve merged"@[0] == 'r',
        "stage ok"@.len() == 8 && "stage ok"@[0] == 's',
        "stage failed"@.len() == 12 && "stage failed"@[0] == 's',
        "admission complete"@.len() == 18 && "admission complete"@[0] == 'a',
        "ask detail"@.len() == 10 && "ask detail"@[0] == 'a',
        "generated"@.len() == 9 && "generated"@[0] == 'g',
        "verify verdicts"@.len() == 15 && "verify verdicts"@[0] == 'v',
        "answer published"@.len() == 16 && "answer published"@[0] == 'a',
        "empty admission; skipping generator"@.len() == 35
            && "empty admission; skipping generator"@[0] == 'e',
        "verify failed; regenerating once"@.len() == 32 && "verify failed; regenerating once"@[0]
            == 'v',
        "withheld secret-sensitivity rows"@.len() == 32 && "withheld secret-sensitivity rows"@[0]
            == 'w',
        "retrying once"@.len() == 13 && "retrying once"@[0] == 'r',
        "failed to persist"@.len() == 17 && "failed to persist"@[0] == 'f',
{
    reveal_strlit("ask started");
    reveal_strlit("kind chosen");
    reveal_strlit("embedded");
    reveal_strlit("retrieved from nexus");
    reveal_strlit("retrieve merged");
    reveal_strlit("stage ok");
    reveal_strlit("stage failed");
    reveal_strlit("admission complete");
    reveal_strlit("ask detail");
    reveal_strlit("generated");
    reveal_strlit("verify verdicts");
    reveal_strlit("answer published");
    reveal_strlit("empty admission; skipping generator");
    reveal_strlit("verify failed; regenerating once");
    reveal_strlit("withheld secret-sensitivity rows");
    reveal_strlit("retrying once");
    reveal_strlit("failed to persist");
}

/// What a line says.
pub open spec fn says(v: JsonV, message: Seq<char>) -> bool {
    text_or(v, "message"@) == message
}

/// The ask that a line is about, after the line.
pub open spec fn told_ask(app: AppV, v: JsonV) -> AskV {
    applied(app, v).asks[app.place(text_or(v, "ask_id"@))]
}

/// The ask that a line is about, before the line.
pub open spec fn asked(app: AppV, v: JsonV) -> AskV {
    app.ask_for(text_or(v, "ask_id"@))
}

/// Whether a line names the ask it is about.
pub open spec fn named(v: JsonV) -> bool {
    text_or(v, "ask_id"@).len() > 0
}

/// The counters and the events are as they were.
pub open spec fn nothing_counted(app: AppV, after: AppV) -> bool {
    &&& after.total_asks == app.total_asks && after.empty_admits == app.empty_admits
    &&& after.errors == app.errors && after.events == app.events && after.stages == app.stages
    &&& after.threshold == app.threshold && after.calibrated == app.calibrated
}

/// A started ask has its question, its brain and its moment.
pub proof fn law_started(app: AppV, v: JsonV)
    requires
        app.wf(),
        says(v, "ask started"@),
    ensures
        named(v) ==> told_ask(app, v) == (AskV {
            question: text_or(v, "question"@),
            brain_id: text_or(v, "brain_id"@),
            as_of: tidied(text_or(v, "as_of"@)),
            ..asked(app, v)
        }) && nothing_counted(app, applied(app, v)),
        !named(v) ==> applied(app, v) == app,
{
    law_where_an_ask_stands(app, id_in(v));
    law_first_ask(app.asks, id_in(v));
}

/// The kind of a question is told with how sure the scorer was, what it chose itself and whether
/// that stood. Small talk stays small talk.
pub proof fn law_kind_told(app: AppV, v: JsonV)
    requires
        app.wf(),
        says(v, "kind chosen"@),
    ensures
        named(v) ==> told_ask(app, v) == (AskV {
            kind: text_or(v, "kind"@),
            kind_confidence: v.number_at("confidence"@),
            model_choice: text_or(v, "model_choice"@),
            fell_back: v.flag_at("fell_back"@),
            chitchat: asked(app, v).chitchat || v.flag_at("chitchat"@) == Some(true),
            ..asked(app, v)
        }) && nothing_counted(app, applied(app, v)),
        !named(v) ==> applied(app, v) == app,
{
    lemma_messages();
    law_where_an_ask_stands(app, id_in(v));
    law_first_ask(app.asks, id_in(v));
}

/// What the embedding and the searches gave is told of the ask.
#[verifier::rlimit(40)]
pub proof fn law_retrieval_told(app: AppV, v: JsonV)
    requires
        app.wf(),
        named(v),
    ensures
        says(v, "embedded"@) ==> told_ask(app, v) == (AskV {
            embed_dims: whole_opt(v, "dims"@),
            ..asked(app, v)
        }) && nothing_counted(app, applied(app, v)),
        says(v, "retrieved from nexus"@) ==> told_ask(app, v) == (AskV {
            personal: whole_at(v, "personal"@),
            granted: whole_at(v, "granted"@),
            retrieve_k: whole_at(v, "k"@),
            ..asked(app, v)
        }) && nothing_counted(app, applied(app, v)),
        says(v, "retrieve merged"@) ==> told_ask(app, v) == (AskV {
            merged: whole_at(v, "merged"@),
            top_rrf: or_zero(v.number_at("top_rrf"@)),
            ..asked(app, v)
        }) && nothing_counted(app, applied(app, v)),
{
    lemma_messages();
    law_where_an_ask_stands(app, id_in(v));
    law_first_ask(app.asks, id_in(v));
}

/// What the generator and the verification gave is told of the ask: a draft is added to those
/// before it, and so is a round of verdicts.
#[verifier::rlimit(40)]
pub proof fn law_drafts_told(app: AppV, v: JsonV)
    requires
        app.wf(),
        named(v),
    ensures
        says(v, "generated"@) ==> told_ask(app, v) == (AskV {
            chitchat: asked(app, v).chitchat || v.flag_at("chitchat"@) == Some(true),
            generate_citations: if v.number_at("citations"@) is Some {
                whole_opt(v, "citations"@)
            } else {
                asked(app, v).generate_citations
            },
            drafts: if v.text_at("answer"@) is Some {
                asked(app, v).drafts.push(v.text_at("answer"@)->0)
            } else {
                asked(app, v).drafts
            },
            ..asked(app, v)
        }) && nothing_counted(app, applied(app, v)),
        says(v, "verify verdicts"@) ==> told_ask(app, v) == (AskV {
            verify_rounds: asked(app, v).verify_rounds.push(round_in(v)),
            ..asked(app, v)
        }) && nothing_counted(app, applied(app, v)),
        says(v, "empty admission; skipping generator"@) ==> told_ask(app, v) == (AskV {
            skip_generate: true,
            ..asked(app, v)
        }) && nothing_counted(app, applied(app, v)),
        says(v, "ask detail"@) ==> told_ask(app, v) == (AskV {
            question: if v.text_at("question"@) is Some {
                v.text_at("question"@)->0
            } else {
                asked(app, v).question
            },
            ranked: if ranked_in(v).len() > 0 {
                ranked_in(v)
            } else {
                asked(app, v).ranked
            },
            ..asked(app, v)
        }) && nothing_counted(app, applied(app, v)),
{
    lemma_messages();
    law_where_an_ask_stands(app, id_in(v));
    law_first_ask(app.asks, id_in(v));
}

/// A round of verification is told with its number, its counts and its verdicts.
pub proof fn law_round_told(v: JsonV)
    ensures
        round_in(v).attempt == whole_at(v, "attempt"@),
        round_in(v).claims == whole_at(v, "claims"@),
        round_in(v).supported == whole_at(v, "supported"@),
        round_in(v).all_ok <==> v.flag_at("all_ok"@) == Some(true),
        round_in(v).verdicts == verdicts_of(list_of(v.field("verdicts"@))),
{
}

/// An answer that is published completes its ask. An ask that was not complete counts as one more,
/// and as one more empty one where the answer is empty; one that was complete counts as empty only
/// where it was not before.
#[verifier::rlimit(40)]
pub proof fn law_published_told(app: AppV, v: JsonV)
    requires
        app.wf(),
        says(v, "answer published"@),
        named(v),
        app.total_asks < u64::MAX,
        app.empty_admits < u64::MAX,
    ensures
        ({
            let after = applied(app, v);
            let was = asked(app, v);
            let empty = v.flag_at("empty"@) == Some(true);
            &&& told_ask(app, v) == (AskV {
                chitchat: was.chitchat || v.flag_at("chitchat"@) == Some(true),
                published: v.text_at("answer"@),
                empty,
                complete: true,
                ..was
            })
            &&& was.complete ==> after.total_asks == app.total_asks
            &&& !was.complete ==> after.total_asks == app.total_asks + 1
            &&& empty && !was.complete ==> after.empty_admits == app.empty_admits + 1
            &&& empty && was.complete && !was.empty ==> after.empty_admits == app.empty_admits + 1
            &&& empty && was.complete && was.empty ==> after.empty_admits == app.empty_admits
            &&& !empty ==> after.empty_admits == app.empty_admits
            &&& after.errors == app.errors && after.events == app.events
        }),
{
    lemma_messages();
    law_where_an_ask_stands(app, id_in(v));
    law_first_ask(app.asks, id_in(v));
}

/// An admission completes its ask: what was let in, out of how many, and under which threshold. An
/// ask counts once, and as empty where nothing was let in. A question and a record that are there
/// are kept where the line brings none.
#[verifier::rlimit(40)]
pub proof fn law_admission_told(app: AppV, v: JsonV)
    requires
        app.wf(),
        says(v, "admission complete"@),
        app.asks.len() < 200,
        app.total_asks < u64::MAX,
        app.empty_admits < u64::MAX,
    ensures
        ({
            let after = applied(app, v);
            let id = text_or(v, "ask_id"@);
            let known = named(v) && find_ask(app.asks, id) is Some;
            let at = if known {
                find_ask(app.asks, id)->0
            } else {
                app.asks.len() as int
            };
            let was = if known {
                app.asks[at]
            } else {
                AskV::fresh(id)
            };
            let none = whole_at(v, "admitted"@) == 0;
            &&& after.asks.len() == app.asks.len() + if known {
                0int
            } else {
                1int
            }
            &&& after.asks[at] == (AskV {
                question: if was.question.len() == 0 {
                    text_or(v, "question"@)
                } else {
                    was.question
                },
                admitted: whole_at(v, "admitted"@),
                candidates: whole_at(v, "candidates"@),
                conflicts: whole_at(v, "conflicts"@),
                top_noul: or_zero(v.number_at("top_noul"@)),
                empty: none,
                threshold: after.threshold,
                calibrated: after.calibrated,
                ranked: if ranked_in(v).len() > 0 {
                    ranked_in(v)
                } else {
                    was.ranked
                },
                complete: true,
                ..was
            })
            &&& v.number_at("threshold"@) matches Some(t) ==> after.threshold == t
            &&& v.number_at("threshold"@) is None ==> after.threshold == app.threshold
            &&& v.flag_at("calibrated"@) matches Some(c) ==> after.calibrated == c
            &&& v.flag_at("calibrated"@) is None ==> after.calibrated == app.calibrated
            &&& was.complete ==> after.total_asks == app.total_asks && after.empty_admits
                == app.empty_admits
            &&& !was.complete ==> after.total_asks == app.total_asks + 1
            &&& !was.complete && none ==> after.empty_admits == app.empty_admits + 1
            &&& !was.complete && !none ==> after.empty_admits == app.empty_admits
            &&& after.errors == app.errors
            &&& !app.inspect ==> after.selected == Some(at as usize)
            &&& app.inspect ==> after.selected == app.selected
            &&& forall|k: int|
                0 <= k < app.asks.len() && k != at ==> after.asks[k] == app.asks[k]
        }),
{
    lemma_messages();
    lemma_find_ask(app.asks, id_in(v));
}

/// An admission of an ask that is not known yet, where two hundred are there, drops the oldest and
/// stands as the newest.
pub proof fn law_admission_drops_the_oldest(app: AppV, v: JsonV)
    requires
        app.wf(),
        says(v, "admission complete"@),
        app.asks.len() == 200,
        !named(v) || find_ask(app.asks, text_or(v, "ask_id"@)) is None,
    ensures
        ({
            let after = applied(app, v);
            &&& after.asks.len() == 200
            &&& forall|k: int| 0 <= k < 199 ==> after.asks[k] == app.asks[k + 1]
            &&& after.asks[199].id == text_or(v, "ask_id"@)
            &&& after.asks[199].complete
            &&& after.asks[199].admitted == whole_at(v, "admitted"@)
            &&& !app.inspect ==> after.selected == Some(199usize)
        }),
{
    lemma_messages();
    lemma_find_ask(app.asks, id_in(v));
}

/// Of the events the latest hundred are kept.
pub proof fn law_events_are_capped(app: AppV, kind: Seq<char>, detail: Seq<PieceV>)
    requires
        app.events.len() <= 100,
    ensures
        app.events.len() < 100 ==> app.noted(kind, detail).events == app.events.push(
            NoteV { kind, detail },
        ),
        app.events.len() == 100 ==> app.noted(kind, detail).events == app.events.skip(1).push(
            NoteV { kind, detail },
        ),
{
    if app.events.len() == 100 {
        assert(app.events.push(NoteV { kind, detail }).skip(1) =~= app.events.skip(1).push(
            NoteV { kind, detail },
        ));
    }
}

/// The end of a stage is taken into the stage and, where the line names one, into its ask, whose
/// time grows by as much. A failure is one more error, is noted, and marks the ask.
#[verifier::rlimit(40)]
pub proof fn law_stage_told(app: AppV, v: JsonV, ok: bool)
    requires
        app.wf(),
        room(app, v),
        ok ==> says(v, "stage ok"@),
        !ok ==> says(v, "stage failed"@),
        v.text_at("stage"@) is Some,
        v.number_at("ms"@) is Some,
    ensures
        ({
            let after = applied(app, v);
            let name = v.text_at("stage"@)->0;
            let ms = whole_at(v, "ms"@);
            &&& after.errors == app.errors + if ok {
                0int
            } else {
                1int
            }
            &&& after.total_asks == app.total_asks && after.empty_admits == app.empty_admits
            &&& ok ==> after.events == app.events
            &&& !ok ==> after.events.len() > 0 && after.events.last() == (NoteV {
                kind: name + " FAILED"@,
                detail: seq![PieceV::Text(text_or(v, "error"@))],
            })
            &&& find_stage(app.stages, name) matches Some(k) ==> after.stages
                == app.stages.update(k, (name, app.stages[k].1.pushed(ms, ok)))
            &&& find_stage(app.stages, name) is None ==> after.stages == app.stages.push(
                (name, StageV::fresh().pushed(ms, ok)),
            )
            &&& !named(v) ==> after.asks == app.asks
            &&& named(v) ==> {
                let was = asked(app, v);
                let now = told_ask(app, v);
                &&& now == (AskV {
                    stages: now.stages,
                    total_ms: now.total_ms,
                    failed: was.failed || !ok,
                    ..was
                })
                &&& now.stages == was.stages.push(
                    StageHitV { name, ms, ok, error: text_or(v, "error"@) },
                )
                &&& now.total_ms == total_of(was.stages) + ms
            }
        }),
{
    lemma_messages();
    let id = id_in(v);
    let hit = hit_in(v, ok);
    let ran = app.stage_run(hit.name, hit.ms, ok);
    law_where_an_ask_stands(app, id);
    law_first_ask(app.asks, id);
    law_first_ask(ran.asks, id);
    assert(ran.asks == app.asks);
    assert(ran.place(id) == app.place(id));
    assert(ran.ask_for(id) == app.ask_for(id));
    let was = app.ask_for(id);
    assert(was.stages.push(hit).drop_last() =~= was.stages);
    assert(applied(app, v) == on_stage(app, v, ok));
    if !ok {
        let told = if id.len() == 0 {
            ran
        } else {
            ran.with_ask(
                id,
                AskV {
                    stages: was.stages.push(hit),
                    total_ms: total_of(was.stages.push(hit)) as u64,
                    failed: was.failed || !ok,
                    ..was
                },
            )
        };
        let note = NoteV {
            kind: hit.name + " FAILED"@,
            detail: Seq::<PieceV>::empty().push(PieceV::Text(hit.error)),
        };
        assert(Seq::<PieceV>::empty().push(PieceV::Text(hit.error)) =~= seq![
            PieceV::Text(hit.error),
        ]);
        assert(told.events == app.events);
        assert(tail(app.events.push(note), 100).last() == note);
    }
}

/// The time that runs took together grows by that of the one that is added.
pub proof fn law_total(hits: Seq<StageHitV>, hit: StageHitV)
    ensures
        total_of(hits.push(hit)) == total_of(hits) + hit.ms,
        total_of(Seq::empty()) == 0,
{
    assert(hits.push(hit).drop_last() =~= hits);
}

/// An event is noted after those before it.
#[verifier::rlimit(40)]
pub proof fn law_events_told(app: AppV, v: JsonV)
    requires
        app.wf(),
        app.errors < u64::MAX,
        app.events.len() < 100,
    ensures
        says(v, "withheld secret-sensitivity rows"@) ==> applied(app, v) == (AppV {
            events: app.events.push(
                NoteV {
                    kind: "WITHHELD"@,
                    detail: seq![
                        PieceV::Plain(or_zero(v.number_at("withheld"@))),
                        PieceV::Text(" secret rows"@),
                    ],
                },
            ),
            ..app
        }),
        says(v, "retrying once"@) ==> applied(app, v) == (AppV {
            events: app.events.push(
                NoteV { kind: "RETRY"@, detail: seq![PieceV::Text(text_or(v, "stage"@))] },
            ),
            ..app
        }),
        (exists|rest: Seq<char>|
            text_or(v, "message"@) == #[trigger] ("failed to persist"@ + rest)) ==> applied(app, v)
            == (AppV {
            errors: (app.errors + 1) as u64,
            events: app.events.push(
                NoteV {
                    kind: "PERSIST"@,
                    detail: seq![PieceV::Text(text_or(v, "message"@))],
                },
            ),
            ..app
        }),
{
    lemma_messages();
    let m = text_or(v, "message"@);
    lemma_begins(m, "failed to persist"@);
    let p = Seq::<PieceV>::empty();
    assert(p.push(PieceV::Plain(or_zero(v.number_at("withheld"@)))).push(
        PieceV::Text(" secret rows"@),
    ) =~= seq![
        PieceV::Plain(or_zero(v.number_at("withheld"@))),
        PieceV::Text(" secret rows"@),
    ]);
    assert(p.push(PieceV::Text(text_or(v, "stage"@))) =~= seq![
        PieceV::Text(text_or(v, "stage"@)),
    ]);
    assert(p.push(PieceV::Text(m)) =~= seq![PieceV::Text(m)]);
    if exists|rest: Seq<char>| m == #[trigger] ("failed to persist"@ + rest) {
        let rest = choose|rest: Seq<char>| m == #[trigger] ("failed to persist"@ + rest);
        assert(m[0] == 'f');
    }
}

/// A draft that is replaced is noted, and its ask keeps the highest number of such drafts.
pub proof fn law_regeneration_told(app: AppV, v: JsonV)
    requires
        app.wf(),
        says(v, "verify failed; regenerating once"@),
    ensures
        ({
            let after = applied(app, v);
            let n = if v.number_at("attempt"@) is Some {
                (v.number_at("attempt"@)->0).truncated() as u64
            } else {
                (Score { bits: 0x3ff0_0000_0000_0000 }).truncated() as u64
            };
            &&& named(v) ==> told_ask(app, v) == (AskV {
                regens: if n > asked(app, v).regens {
                    n
                } else {
                    asked(app, v).regens
                },
                ..asked(app, v)
            })
            &&& !named(v) ==> after.asks == app.asks
            &&& after.events.len() > 0 && after.events.last().kind == "REGEN"@
            &&& after.errors == app.errors && after.total_asks == app.total_asks
        }),
{
    lemma_messages();
    law_where_an_ask_stands(app, id_in(v));
    law_first_ask(app.asks, id_in(v));
}

/// A line that says anything else changes nothing.
pub proof fn law_other_lines(app: AppV, v: JsonV)
    requires
        !says(v, "ask started"@) && !says(v, "kind chosen"@) && !says(v, "embedded"@),
        !says(v, "retrieved from nexus"@) && !says(v, "retrieve merged"@) && !says(v, "stage ok"@),
        !says(v, "stage failed"@) && !says(v, "admission complete"@) && !says(v, "ask detail"@),
        !says(v, "generated"@) && !says(v, "verify verdicts"@) && !says(v, "answer published"@),
        !says(v, "empty admission; skipping generator"@),
        !says(v, "verify failed; regenerating once"@),
        !says(v, "withheld secret-sensitivity rows"@) && !says(v, "retrying once"@),
        forall|rest: Seq<char>|
            text_or(v, "message"@) != #[trigger] ("failed to persist"@ + rest),
    ensures
        applied(app, v) == app,
{
    lemma_begins(text_or(v, "message"@), "failed to persist"@);
}

/// A line of the log that is no JSON changes nothing, and one that can be counted does what it
/// says.
pub proof fn law_lines_are_taken_in(app: &mut App, line: &str, taken: bool)
    requires
        call_ensures(App::ingest, (app, line), taken),
    ensures
        json_of(line@) is None ==> !taken,
        !taken ==> final(app)@ == old(app)@,
        taken ==> final(app)@ == applied(old(app)@, json_of(line@)->0),
        json_of(line@) matches Some(v) ==> (taken <==> room(old(app)@, v)),
{
}

/// As long as no counter is full and no time too long, every line that is JSON is taken in.
pub proof fn law_room(app: AppV, v: JsonV)
    requires
        app.errors < u64::MAX,
        app.total_asks < u64::MAX,
        app.empty_admits < u64::MAX,
        forall|k: int| 0 <= k < app.stages.len() ==> (#[trigger] app.stages[k]).1.fails < u64::MAX,
        forall|k: int|
            0 <= k < app.asks.len() ==> total_of((#[trigger] app.asks[k]).stages) + whole_at(
                v,
                "ms"@,
            ) <= u64::MAX,
    ensures
        room(app, v),
{
    lemma_find_ask(app.asks, id_in(v));
    lemma_find_stage(app.stages, text_or(v, "stage"@));
}

// ---------------------------------------------------------------------------------------------
// What is read from a line
// ---------------------------------------------------------------------------------------------

/// A text, a number and a truth value are read from a field only where it holds one.
pub proof fn law_fields(v: JsonV, key: Seq<char>)
    ensures
        v.text_at(key) matches Some(s) ==> v.field(key) == Some(JsonV::Str(s)),
        v.field(key) matches Some(JsonV::Str(s)) ==> v.text_at(key) == Some(s) && text_or(v, key)
            == s,
        v.text_at(key) is None ==> text_or(v, key).len() == 0,
        v.flag_at(key) matches Some(b) ==> v.field(key) == Some(JsonV::Bool(b)),
        v.field(key) matches Some(JsonV::Bool(b)) ==> v.flag_at(key) == Some(b),
        v.number_at(key) is Some <==> (v.field(key) matches Some(x) && x is Num),
        is_true(v, key) <==> v.field(key) == Some(JsonV::Bool(true)),
        whole_opt(v, key) is Some <==> v.number_at(key) is Some,
        v.number_at(key) is None ==> whole_at(v, key) == 0,
        v.number_at(key) matches Some(n) ==> whole_at(v, key) == n.truncated() as u64 && whole_opt(
            v,
            key,
        ) == Some(n.truncated() as u64),
{
    let zero = Score { bits: 0 };
    lemma2_to64();
    lemma2_to64_rest();
    lemma_pow2_strictly_increases(53, 1075);
    lemma_basic_div(zero.significand() as int, pow2(1075) as int);
    assert(zero.truncated() == 0);
}

/// The wrapping of an optional value is taken off.
pub proof fn law_tidy(inner: Seq<char>)
    ensures
        trimmed("Some("@ + inner + ")"@) == "Some("@ + inner + ")"@ ==> tidied(
            "Some("@ + inner + ")"@,
        ) == inner,
        tidied(Seq::empty()).len() == 0,
{
    reveal_strlit("Some(");
    reveal_strlit(")");
    reveal_strlit("None");
    let t = "Some("@ + inner + ")"@;
    assert(t.subrange(0, 5) =~= "Some("@);
    assert(t.skip(5).drop_last() =~= inner);
    assert(t[0] == 'S' && "None"@[0] == 'N');
    crate::text::lemma_trimmed(Seq::empty());
}

// ---------------------------------------------------------------------------------------------
// Stages
// ---------------------------------------------------------------------------------------------

/// The latest hundred and twenty runs of a stage are kept, the newest last, and its failures are
/// counted.
pub proof fn law_stage_runs(stage: &mut Stage, ms: u64, ok: bool)
    requires
        call_ensures(Stage::push, (stage, ms, ok), ()),
        old(stage).samples@.len() <= 120,
        ok || old(stage).fails < u64::MAX,
    ensures
        final(stage).samples@.len() > 0 && final(stage).samples@.last() == ms,
        old(stage).samples@.len() < 120 ==> final(stage).samples@ == old(stage).samples@.push(ms),
        old(stage).samples@.len() == 120 ==> final(stage).samples@ == old(stage).samples@.skip(
            1,
        ).push(ms),
        final(stage).fails == old(stage).fails + if ok {
            0int
        } else {
            1int
        },
{
    if old(stage).samples@.len() == 120 {
        assert(old(stage).samples@.push(ms).skip(1) =~= old(stage).samples@.skip(1).push(ms));
    }
}

/// The latency in the middle is one of the samples, and the others are as many on either side of
/// it: it stands in the middle of them in order.
pub proof fn law_middle(stage: &Stage, r: u64) -> (order: Seq<u64>)
    requires
        call_ensures(Stage::p50, (stage,), r),
        stage.samples@.len() > 0,
    ensures
        order.to_multiset() == stage.samples@.to_multiset(),
        forall|i: int, j: int| 0 <= i < j < order.len() ==> order[i] <= order[j],
        order.len() == stage.samples@.len(),
        r == order[stage.samples@.len() as int / 2],
{
    let s = stage.samples@;
    let order = s.sort_by(ms_order());
    s.lemma_sort_by_ensures(ms_order());
    order.to_multiset_ensures();
    s.to_multiset_ensures();
    assert forall|i: int, j: int| 0 <= i < j < order.len() implies order[i] <= order[j] by {
        assert(ms_order()(order[i], order[j]));
    }
    order
}

/// The latest and the longest latency are those of the samples.
pub proof fn law_latest_and_longest(stage: &Stage, last: u64, max: u64)
    requires
        call_ensures(Stage::last, (stage,), last),
        call_ensures(Stage::max, (stage,), max),
    ensures
        stage.samples@.len() > 0 ==> last == stage.samples@[stage.samples@.len() - 1],
        stage.samples@.len() == 0 ==> last == 0 && max == 0,
        forall|k: int| 0 <= k < stage.samples@.len() ==> #[trigger] stage.samples@[k] <= max,
        stage.samples@.len() > 0 ==> stage.samples@.contains(max),
{
    lemma_longest(stage.samples@);
}

proof fn lemma_longest(s: Seq<u64>)
    ensures
        forall|k: int| 0 <= k < s.len() ==> #[trigger] s[k] <= longest(s),
        s.len() > 0 ==> s.contains(longest(s)),
        s.len() == 0 ==> longest(s) == 0,
    decreases s.len(),
{
    if s.len() > 0 {
        let t = s.drop_last();
        lemma_longest(t);
        assert(forall|k: int| 0 <= k < t.len() ==> t[k] == s[k]);
        assert(s[s.len() - 1] == s.last());
        if longest(t) >= s.last() && t.len() > 0 {
            let k = choose|k: int| 0 <= k < t.len() && t[k] == longest(t);
            assert(s[k] == longest(s));
        }
    }
}

/// A stage is good up to a fifth of a second in its middle, bad above two seconds, and between
/// them a warning.
pub proof fn law_stage_tone(stage: &Stage, p50: u64, r: Tone)
    requires
        call_ensures(Stage::p50, (stage,), p50),
        call_ensures(stage_tone, (stage,), r),
    ensures
        r == Tone::Good <==> p50 <= 200,
        r == Tone::Bad <==> p50 > 2000,
        r == Tone::Warn <==> 200 < p50 <= 2000,
{
}

// ---------------------------------------------------------------------------------------------
// How an ask ended
// ---------------------------------------------------------------------------------------------

/// An ask has failed where it is marked so before it is complete, or where it had citations, never
/// got an answer and some run of a stage failed; it is under way where it is neither that nor
/// complete; else it is empty or answered.
pub proof fn law_how_an_ask_ended(ask: &Ask, r: (&'static str, Tone))
    requires
        call_ensures(row_verdict, (ask,), r),
    ensures
        ({
            let a = ask@;
            let broke_off = a.complete && a.published is None && !a.skip_generate && a.admitted > 0
                && exists|k: int| 0 <= k < a.stages.len() && !(#[trigger] a.stages[k]).ok;
            let failed = (!a.complete && a.failed) || broke_off;
            &&& failed ==> r.0@ == "failed"@ && r.1 == Tone::Bad
            &&& !failed && !a.complete ==> r.0@ == "running"@ && r.1 == Tone::Dim
            &&& !failed && a.complete && a.empty ==> r.0@ == "empty"@ && r.1 == Tone::Warn
            &&& !failed && a.complete && !a.empty ==> r.0@ == "answered"@ && r.1 == Tone::Good
        }),
{
}

/// Why a stage was not run: small talk needs no memory, without citations there is nothing to
/// write or to verify, and a complete ask runs nothing more.
pub proof fn law_why_a_stage_was_skipped(ask: &Ask, name: &str, r: Option<&'static str>)
    requires
        call_ensures(skip_reason, (ask, name), r),
    ensures
        ({
            let talk = ask.chitchat && (name@ == "embed"@ || name@ == "retrieve"@ || name@
                == "admit"@ || name@ == "verify"@);
            let bare = ask.skip_generate && (name@ == "generate"@ || name@ == "verify"@);
            &&& talk ==> (r matches Some(s) && s@ == "skipped   chitchat"@)
            &&& !talk && bare ==> (r matches Some(s) && s@ == "skipped   nothing admitted"@)
            &&& !talk && !bare && ask.complete ==> (r matches Some(s) && s@ == "not run"@)
            &&& !talk && !bare && !ask.complete ==> r is None
        }),
{
}

/// How an event is coloured.
pub proof fn law_event_tone(kind: &str, r: Tone)
    requires
        call_ensures(event_tone, (kind,), r),
    ensures
        (exists|a: Seq<char>, b: Seq<char>| kind@ == #[trigger] (a + "FAILED"@ + b)) ==> r
            == Tone::Bad,
        r == Tone::Bad ==> exists|a: Seq<char>, b: Seq<char>| kind@ == #[trigger] (a + "FAILED"@
            + b),
{
    law_has(kind@, "FAILED"@);
}

// ---------------------------------------------------------------------------------------------
// Keys
// ---------------------------------------------------------------------------------------------

/// What each key asks for.
pub proof fn law_keys(key: Key, ctrl: bool, r: Command)
    requires
        call_ensures(command_of, (key, ctrl), r),
    ensures
        r == Command::Quit <==> key == Key::Char('q') || (key == Key::Char('c') && ctrl),
        r == Command::Up <==> key == Key::Up || key == Key::Char('k'),
        r == Command::Down <==> key == Key::Down || key == Key::Char('j'),
        r == Command::Top <==> key == Key::Home || key == Key::Char('g'),
        r == Command::Bottom <==> key == Key::End || key == Key::Char('G'),
        r == Command::PageUp <==> key == Key::PageUp || (key == Key::Char('u') && ctrl),
        r == Command::PageDown <==> key == Key::PageDown || (key == Key::Char('d') && ctrl),
        r == Command::Back <==> key == Key::Esc,
        r == Command::Open <==> key == Key::Enter,
{
}

/// The keys move the selection by one among the asks, open and close the ask that is selected,
/// scroll only in an open one, and end the dashboard.
pub proof fn law_key_effects(app: &mut App, key: Key, ctrl: bool, quit: bool, c: Command)
    requires
        call_ensures(App::on_key, (app, key, ctrl), quit),
        call_ensures(command_of, (key, ctrl), c),
        old(app)@.wf(),
    ensures
        ({
            let was = old(app)@;
            let now = final(app)@;
            let n = was.asks.len() as int;
            let from = match was.selected {
                Some(s) => s as int,
                None => n - 1,
            };
            &&& quit <==> c == Command::Quit || (c == Command::Back && !was.inspect)
            &&& now.asks == was.asks && now.stages == was.stages && now.events == was.events
            &&& !was.inspect && c == Command::Up && n > 0 ==> now.selected == Some(
                (if from == 0 {
                    0
                } else {
                    from - 1
                }) as usize,
            )
            &&& !was.inspect && c == Command::Down && n > 0 ==> now.selected == Some(
                (if from == n - 1 {
                    n - 1
                } else {
                    from + 1
                }) as usize,
            )
            &&& was.inspect ==> now.selected == was.selected
            &&& !was.inspect && c != Command::Open ==> now.scroll == was.scroll
            &&& c == Command::Open && was.selected is Some ==> now.inspect == !was.inspect
            &&& c == Command::Open && was.selected is Some && !was.inspect ==> now.scroll == 0
            &&& c == Command::Back ==> !now.inspect
            &&& was.inspect && c == Command::Up ==> now.scroll == if was.scroll == 0 {
                0
            } else {
                was.scroll - 1
            }
            &&& was.inspect && c == Command::Down && was.scroll < u16::MAX ==> now.scroll
                == was.scroll + 1
            &&& was.inspect && c == Command::Top ==> now.scroll == 0
            &&& was.inspect && c == Command::Bottom ==> now.scroll == u16::MAX
        }),
{
}

} // verus!
