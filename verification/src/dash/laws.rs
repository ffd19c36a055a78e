//! What holds of the dashboard whatever the log says.

#[allow(unused_imports)]
use crate::clients::systemone::{or_zero, FilterScores};
#[allow(unused_imports)]
use crate::dash::ingest::{
    admission_asks, admission_place, applied, hit_in, id_in, is_run, is_true, on_admission, on_detail,
    on_embedded, on_generated, on_kind, on_merged, on_published, on_regenerated, on_retrieved,
    on_skipped, on_stage, on_started, on_verdicts, ranked_in, room, round_in, row_of, tells_a_run,
    text_or, tidied, total_of, whole_at, whole_opt,
};
#[allow(unused_imports)]
use crate::dash::keys::Command;
#[allow(unused_imports)]
use crate::dash::state::{about, find_ask, lemma_find_ask, AppV, AskV, CandidateRowV, ASKS_KEPT};
#[allow(unused_imports)]
use crate::ids::id_view;
#[allow(unused_imports)]
use crate::json::{field_in, JsonV};
#[allow(unused_imports)]
use crate::pipeline::admission::{row_fields, STATEMENT_KEPT};
#[allow(unused_imports)]
use crate::score::{Score, ONE_BITS};
#[allow(unused_imports)]
use crate::text::{begins, clipped, opt_view};
#[allow(unused_imports)]
use crate::types::{Candidate, FilterRoute};
use vstd::prelude::*;

verus! {

// ---------------------------------------------------------------------------------------------
// Counting
// ---------------------------------------------------------------------------------------------

/// The first ask that an id is about is found by a search.
proof fn lemma_first_is_found(asks: Seq<AskV>, id: Seq<char>, k: int)
    requires
        0 <= k < asks.len(),
        about(asks[k].id, id),
        forall|j: int| 0 <= j < k ==> !about((#[trigger] asks[j]).id, id),
    ensures
        find_ask(asks, id) == Some(k),
    decreases asks.len(),
{
    let front = asks.drop_last();
    if k < front.len() {
        assert(front[k] == asks[k]);
        assert forall|j: int| 0 <= j < k implies !about((#[trigger] front[j]).id, id) by {
            assert(front[j] == asks[j]);
        }
        lemma_first_is_found(front, id, k);
    } else {
        lemma_find_ask(front, id);
        if find_ask(front, id) is Some {
            let j = find_ask(front, id)->0;
            assert(front[j] == asks[j]);
        }
    }
}

/// Nothing before the first ask that an id is about is about it.
proof fn lemma_nothing_before(asks: Seq<AskV>, id: Seq<char>)
    requires
        find_ask(asks, id) is Some,
    ensures
        forall|j: int| 0 <= j < find_ask(asks, id)->0 ==> !about((#[trigger] asks[j]).id, id),
    decreases asks.len(),
{
    let front = asks.drop_last();
    if find_ask(front, id) is Some {
        lemma_nothing_before(front, id);
        assert forall|j: int| 0 <= j < find_ask(asks, id)->0 implies !about(
            (#[trigger] asks[j]).id,
            id,
        ) by {
            lemma_find_ask(front, id);
            assert(front[j] == asks[j]);
        }
    } else {
        lemma_find_ask(front, id);
        assert forall|j: int| 0 <= j < find_ask(asks, id)->0 implies !about(
            (#[trigger] asks[j]).id,
            id,
        ) by {
            assert(front[j] == asks[j]);
        }
    }
}

/// Once the ask for an id was changed, it is still the ask for that id.
proof fn lemma_ask_stays(app: AppV, id: Seq<char>, ask: AskV)
    requires
        app.wf(),
        ask.id == app.ask_for(id).id,
    ensures
        find_ask(app.with_ask(id, ask).asks, id) == Some(app.place(id)),
        app.with_ask(id, ask).ask_for(id) == ask,
        app.with_ask(id, ask).wf(),
{
    let asks = app.with_ask(id, ask).asks;
    let k = app.place(id);
    lemma_find_ask(app.asks, id);
    if find_ask(app.asks, id) is Some {
        lemma_nothing_before(app.asks, id);
        assert forall|j: int| 0 <= j < k implies !about((#[trigger] asks[j]).id, id) by {
            assert(asks[j] == app.asks[j]);
        }
    } else {
        let more = app.ensured(id).asks;
        assert(more[k] == AskV::fresh(id));
        assert(id.subrange(0, id.len() as int) =~= id);
        assert(begins(id, id));
        assert forall|j: int| 0 <= j < k implies !about((#[trigger] asks[j]).id, id) by {
            if app.asks.len() == ASKS_KEPT {
                assert(asks[j] == app.asks[j + 1]);
            } else {
                assert(asks[j] == app.asks[j]);
            }
        }
    }
    lemma_first_is_found(asks, id, k);
}

/// After an answer was published for an ask, neither an admission nor another answer counts it.
proof fn lemma_published_counts_once(app: AppV, v: JsonV, w: JsonV)
    requires
        app.wf(),
        id_in(v).len() > 0,
        id_in(w) == id_in(v),
    ensures
        on_published(on_published(app, v), w).total_asks == on_published(app, v).total_asks,
        on_admission(on_published(app, v), w).total_asks == on_published(app, v).total_asks,
{
    let id = id_in(v);
    let one = on_published(app, v);
    let ask = one.asks[app.place(id)];
    lemma_find_ask(app.asks, id);
    assert(ask.id == app.ask_for(id).id);
    lemma_ask_stays(app, id, ask);
    assert(app.with_ask(id, ask).asks =~= one.asks);
    assert(one.ask_for(id).complete);
    lemma_find_ask(one.asks, id);
}

/// After the admission of an ask, neither an answer nor another admission counts it.
proof fn lemma_admitted_counts_once(app: AppV, v: JsonV, w: JsonV)
    requires
        app.wf(),
        id_in(v).len() > 0,
        id_in(w) == id_in(v),
    ensures
        on_published(on_admission(app, v), w).total_asks == on_admission(app, v).total_asks,
        on_admission(on_admission(app, v), w).total_asks == on_admission(app, v).total_asks,
{
    let id = id_in(v);
    let one = on_admission(app, v);
    let at = admission_place(app, id);
    let asks = admission_asks(app, id);
    lemma_find_ask(app.asks, id);
    let k = if asks.len() > ASKS_KEPT {
        at - 1
    } else {
        at
    };
    assert(one.asks[k].complete);
    assert(id.subrange(0, id.len() as int) =~= id);
    assert(begins(id, id));
    assert(about(one.asks[k].id, id));
    if find_ask(app.asks, id) is Some {
        lemma_nothing_before(app.asks, id);
    }
    assert forall|j: int| 0 <= j < k implies !about((#[trigger] one.asks[j]).id, id) by {
        if asks.len() > ASKS_KEPT {
            assert(one.asks[j].id == app.asks[j + 1].id);
        } else {
            assert(one.asks[j].id == app.asks[j].id);
        }
    }
    lemma_first_is_found(one.asks, id, k);
}

/// Whether a line tells that an ask came to an end: its admission is complete, or its answer was
/// published.
pub open spec fn tells_an_end(v: JsonV) -> bool {
    text_or(v, "message"@) == "admission complete"@ || text_or(v, "message"@)
        == "answer published"@
}

/// What such a line does.
proof fn lemma_end(app: AppV, v: JsonV)
    requires
        tells_an_end(v),
    ensures
        applied(app, v) == if text_or(v, "message"@) == "admission complete"@ {
            on_admission(app, v)
        } else {
            on_published(app, v)
        },
{
    reveal_strlit("ask started");
    reveal_strlit("kind chosen");
    reveal_strlit("embedded");
    reveal_strlit("retrieved from nexus");
    reveal_strlit("retrieve merged");
    reveal_strlit("stage ok");
    reveal_strlit("stage failed");
    reveal_strlit("admission complete");
    reveal_strlit("ask detail");
    reveal_strlit("generated");
    reveal_strlit("verify verdicts");
    reveal_strlit("answer published");
    assert("ask started"@.len() == 11 && "kind chosen"@.len() == 11 && "embedded"@.len() == 8);
    assert("retrieved from nexus"@.len() == 20 && "retrieve merged"@.len() == 15);
    assert("stage ok"@.len() == 8 && "stage failed"@.len() == 12);
    assert("admission complete"@.len() == 18 && "ask detail"@.len() == 10);
    assert("generated"@.len() == 9 && "verify verdicts"@.len() == 15);
    assert("answer published"@.len() == 16);
}

/// An ask is counted once: after its admission, or after an answer was published for it, neither
/// an admission nor an answer counts it again.
pub proof fn law_ask_counts_once(app: AppV, v: JsonV, w: JsonV)
    requires
        app.wf(),
        tells_an_end(v),
        tells_an_end(w),
        id_in(v).len() > 0,
        id_in(w) == id_in(v),
    ensures
        applied(applied(app, v), w).total_asks == applied(app, v).total_asks,
{
    lemma_end(app, v);
    lemma_end(applied(app, v), w);
    lemma_published_counts_once(app, v, w);
    lemma_admitted_counts_once(app, v, w);
}

// ---------------------------------------------------------------------------------------------
// What a line does to the asks
// ---------------------------------------------------------------------------------------------

/// Whether `after` has the asks of `app` and shows the same of them.
spec fn same_asks(app: AppV, after: AppV) -> bool {
    after.asks == app.asks && after.selected == app.selected && after.inspect == app.inspect
}

/// Whether `after` differs from `app`, as far as the asks go, at most in the ask for `id`, which
/// keeps its id.
spec fn one_changed(app: AppV, id: Seq<char>, after: AppV) -> bool {
    let ask = after.asks[app.place(id)];
    same_asks(app.with_ask(id, ask), after) && ask.id == app.ask_for(id).id
}

/// Whether the ask for `id` keeps its stages and its time.
spec fn time_kept(app: AppV, id: Seq<char>, after: AppV) -> bool {
    let ask = after.asks[app.place(id)];
    ask.stages == app.ask_for(id).stages && ask.total_ms == app.ask_for(id).total_ms
}

/// Whether `after` differs from `app`, as far as the asks go, at most in what is known of the ask
/// for `id` beside its stages.
spec fn told_of(app: AppV, id: Seq<char>, after: AppV) -> bool {
    same_asks(app, after) || (one_changed(app, id, after) && time_kept(app, id, after))
}

proof fn lemma_told(app: AppV, id: Seq<char>, ask: AskV)
    requires
        ask.id == app.ask_for(id).id,
        ask.stages == app.ask_for(id).stages,
        ask.total_ms == app.ask_for(id).total_ms,
    ensures
        told_of(app, id, app.with_ask(id, ask)),
{
    lemma_find_ask(app.asks, id);
    let after = app.with_ask(id, ask);
    assert(after.asks[app.place(id)] == ask);
}

proof fn lemma_started(app: AppV, v: JsonV)
    ensures
        told_of(app, id_in(v), on_started(app, v)),
{
    let id = id_in(v);
    lemma_told(
        app,
        id,
        AskV {
            question: text_or(v, "question"@),
            brain_id: text_or(v, "brain_id"@),
            as_of: tidied(text_or(v, "as_of"@)),
            ..app.ask_for(id)
        },
    );
}

proof fn lemma_found(app: AppV, v: JsonV)
    ensures
        told_of(app, id_in(v), on_embedded(app, v)),
        told_of(app, id_in(v), on_retrieved(app, v)),
        told_of(app, id_in(v), on_merged(app, v)),
{
    let id = id_in(v);
    let had = app.ask_for(id);
    lemma_told(app, id, AskV { embed_dims: whole_opt(v, "dims"@), ..had });
    lemma_told(
        app,
        id,
        AskV {
            personal: whole_at(v, "personal"@),
            granted: whole_at(v, "granted"@),
            retrieve_k: whole_at(v, "k"@),
            ..had
        },
    );
    lemma_told(
        app,
        id,
        AskV {
            merged: whole_at(v, "merged"@),
            top_rrf: or_zero(v.number_at("top_rrf"@)),
            ..had
        },
    );
}

proof fn lemma_kind(app: AppV, v: JsonV)
    ensures
        told_of(app, id_in(v), on_kind(app, v)),
{
    let id = id_in(v);
    let had = app.ask_for(id);
    lemma_told(
        app,
        id,
        AskV {
            kind: text_or(v, "kind"@),
            kind_confidence: v.number_at("confidence"@),
            model_choice: text_or(v, "model_choice"@),
            fell_back: v.flag_at("fell_back"@),
            chitchat: had.chitchat || is_true(v, "chitchat"@),
            ..had
        },
    );
}

proof fn lemma_detailed(app: AppV, v: JsonV)
    ensures
        told_of(app, id_in(v), on_detail(app, v)),
{
    let id = id_in(v);
    let had = app.ask_for(id);
    lemma_told(
        app,
        id,
        AskV {
            question: match v.text_at("question"@) {
                Some(q) => q,
                None => had.question,
            },
            ranked: if ranked_in(v).len() > 0 {
                ranked_in(v)
            } else {
                had.ranked
            },
            ..had
        },
    );
}

proof fn lemma_written(app: AppV, v: JsonV)
    ensures
        told_of(app, id_in(v), on_generated(app, v)),
        told_of(app, id_in(v), on_verdicts(app, v)),
        told_of(app, id_in(v), on_skipped(app, v)),
{
    let id = id_in(v);
    let had = app.ask_for(id);
    lemma_told(
        app,
        id,
        AskV {
            chitchat: had.chitchat || is_true(v, "chitchat"@),
            generate_citations: match whole_opt(v, "citations"@) {
                Some(n) => Some(n),
                None => had.generate_citations,
            },
            drafts: match v.text_at("answer"@) {
                Some(a) => had.drafts.push(a),
                None => had.drafts,
            },
            ..had
        },
    );
    lemma_told(app, id, AskV { verify_rounds: had.verify_rounds.push(round_in(v)), ..had });
    lemma_told(app, id, AskV { skip_generate: true, ..had });
}

proof fn lemma_published(app: AppV, v: JsonV)
    ensures
        told_of(app, id_in(v), on_published(app, v)),
{
    let id = id_in(v);
    let had = app.ask_for(id);
    lemma_told(
        app,
        id,
        AskV {
            chitchat: had.chitchat || is_true(v, "chitchat"@),
            published: v.text_at("answer"@),
            empty: is_true(v, "empty"@),
            complete: true,
            ..had
        },
    );
}

proof fn lemma_regenerated(app: AppV, v: JsonV)
    ensures
        told_of(app, id_in(v), on_regenerated(app, v)),
{
    let id = id_in(v);
    let had = app.ask_for(id);
    let attempt = match v.number_at("attempt"@) {
        Some(n) => n,
        None => Score { bits: ONE_BITS },
    };
    let n = attempt.truncated() as u64;
    lemma_told(
        app,
        id,
        AskV {
            regens: if n > had.regens {
                n
            } else {
                had.regens
            },
            ..had
        },
    );
}

/// What the end of a stage does to the asks.
proof fn lemma_ran(app: AppV, v: JsonV, ok: bool)
    ensures
        same_asks(app, on_stage(app, v, ok)) || {
            let had = app.ask_for(id_in(v));
            let ask = on_stage(app, v, ok).asks[app.place(id_in(v))];
            &&& id_in(v).len() > 0
            &&& one_changed(app, id_in(v), on_stage(app, v, ok))
            &&& ask.stages == had.stages.push(hit_in(v, ok))
            &&& ask.total_ms == total_of(ask.stages) as u64
        },
{
    let id = id_in(v);
    let hit = hit_in(v, ok);
    let ran = app.stage_run(hit.name, hit.ms, ok);
    assert(same_asks(app, ran));
    let had = app.ask_for(id);
    lemma_find_ask(app.asks, id);
    assert(ran.place(id) == app.place(id));
    assert(ran.ask_for(id) == had);
    let now = AskV {
        stages: had.stages.push(hit),
        total_ms: total_of(had.stages.push(hit)) as u64,
        failed: had.failed || !ok,
        ..had
    };
    assert(ran.with_ask(id, now).asks[app.place(id)] == now);
    assert(same_asks(app.with_ask(id, now), ran.with_ask(id, now)));
}

/// A line does one of three things to the asks: it tells something of one, it tells of the end of
/// a stage, or it tells of an admission.
proof fn lemma_effect(app: AppV, v: JsonV)
    ensures
        ({
            let after = applied(app, v);
            ||| told_of(app, id_in(v), after)
            ||| tells_a_run(v) && (after == on_stage(app, v, true) || after == on_stage(
                app,
                v,
                false,
            ))
            ||| after == on_admission(app, v)
        }),
{
    lemma_started(app, v);
    lemma_kind(app, v);
    lemma_found(app, v);
    lemma_detailed(app, v);
    lemma_written(app, v);
    lemma_published(app, v);
    lemma_regenerated(app, v);
}

// ---------------------------------------------------------------------------------------------
// The ask that is shown
// ---------------------------------------------------------------------------------------------

/// Whether the oldest of as many asks as are kept made room for a new one.
pub open spec fn oldest_dropped(asks: Seq<AskV>, after: Seq<AskV>) -> bool {
    &&& asks.len() == ASKS_KEPT
    &&& after.len() == ASKS_KEPT
    &&& forall|k: int| 0 <= k < ASKS_KEPT - 1 ==> (#[trigger] after[k]).id == asks[k + 1].id
}

/// Whether the ask that is shown in full in `app` is the one that is shown in `after`, unless it
/// was the oldest and made room for another.
pub open spec fn still_shown(app: AppV, after: AppV) -> bool {
    app.inspect ==> {
        &&& after.inspect
        &&& app.selected is None ==> after.selected is None
        &&& app.selected matches Some(s) ==> {
            ||| after.selected == app.selected && after.asks[s as int].id == app.asks[s as int].id
            ||| s > 0 && after.selected == Some((s - 1) as usize) && after.asks[s - 1].id
                == app.asks[s as int].id
            ||| s == 0 && oldest_dropped(app.asks, after.asks)
        }
    }
}

proof fn lemma_shown_where_one_changed(app: AppV, id: Seq<char>, after: AppV)
    requires
        app.wf(),
        one_changed(app, id, after),
    ensures
        still_shown(app, after),
{
    lemma_find_ask(app.asks, id);
}

proof fn lemma_shown_on_admission(app: AppV, v: JsonV)
    requires
        app.wf(),
    ensures
        still_shown(app, on_admission(app, v)),
{
    lemma_find_ask(app.asks, id_in(v));
}

/// No line of the log takes away the ask that is shown in full, but for one that makes room for a
/// new ask by dropping it.
pub proof fn law_shown_ask_stays(app: AppV, v: JsonV)
    requires
        app.wf(),
    ensures
        still_shown(app, applied(app, v)),
{
    lemma_effect(app, v);
    lemma_ran(app, v, true);
    lemma_ran(app, v, false);
    lemma_shown_on_admission(app, v);
    if one_changed(app, id_in(v), applied(app, v)) {
        lemma_shown_where_one_changed(app, id_in(v), applied(app, v));
    }
}

// ---------------------------------------------------------------------------------------------
// The time an ask took
// ---------------------------------------------------------------------------------------------

/// Whether the time of every ask is that of its stages together.
pub open spec fn summed(asks: Seq<AskV>) -> bool {
    forall|k: int|
        0 <= k < asks.len() ==> (#[trigger] asks[k]).total_ms == total_of(asks[k].stages)
}

/// What happens to the dashboard: a line of the log comes in, a command is given, or the scroll
/// position is settled.
pub enum Step {
    Line(JsonV),
    Asked(Command),
    Settled(int),
}

/// What the dashboard knows after a step. A line that the counters cannot take is passed over.
pub open spec fn stepped(app: AppV, step: Step) -> AppV {
    match step {
        Step::Line(v) => if room(app, v) {
            applied(app, v)
        } else {
            app
        },
        Step::Asked(c) => app.commanded(c),
        Step::Settled(to) => app.scrolled(to),
    }
}

/// What the dashboard knows after some steps, from the beginning.
pub open spec fn reached(steps: Seq<Step>) -> AppV
    decreases steps.len(),
{
    if steps.len() == 0 {
        AppV::fresh()
    } else {
        stepped(reached(steps.drop_last()), steps.last())
    }
}

proof fn lemma_summed_where_one_changed(app: AppV, id: Seq<char>, after: AppV)
    requires
        summed(app.asks),
        one_changed(app, id, after),
        ({
            let ask = after.asks[app.place(id)];
            ask.total_ms == total_of(ask.stages)
        }),
    ensures
        summed(after.asks),
{
    lemma_find_ask(app.asks, id);
}

/// The ask for an id has its time from its stages.
proof fn lemma_summed_ask(app: AppV, id: Seq<char>)
    requires
        summed(app.asks),
    ensures
        app.ask_for(id).total_ms == total_of(app.ask_for(id).stages),
        find_ask(app.asks, id) is None ==> app.ask_for(id).stages.len() == 0,
        find_ask(app.asks, id) matches Some(k) ==> app.ask_for(id) == app.asks[k],
{
    lemma_find_ask(app.asks, id);
}

proof fn lemma_summed_on_admission(app: AppV, v: JsonV)
    requires
        summed(app.asks),
    ensures
        summed(on_admission(app, v).asks),
{
    lemma_find_ask(app.asks, id_in(v));
}

/// A line of the log leaves the time of every ask the sum of its stages.
pub proof fn law_line_keeps_the_sums(app: AppV, v: JsonV)
    requires
        summed(app.asks),
        room(app, v),
    ensures
        summed(applied(app, v).asks),
{
    let id = id_in(v);
    let after = applied(app, v);
    let had = app.ask_for(id);
    lemma_effect(app, v);
    lemma_ran(app, v, true);
    lemma_ran(app, v, false);
    lemma_summed_ask(app, id);
    lemma_summed_on_admission(app, v);
    if tells_a_run(v) && is_run(v) && id.len() > 0 {
        assert forall|ok: bool| total_of(#[trigger] had.stages.push(hit_in(v, ok))) <= u64::MAX by {
            assert(had.stages.push(hit_in(v, ok)).drop_last() =~= had.stages);
        }
    }
    if !same_asks(app, after) && after != on_admission(app, v) {
        lemma_summed_where_one_changed(app, id, after);
    }
}

/// In every state that the dashboard can reach, the time of an ask is that of its stages together.
pub proof fn law_time_is_that_of_the_stages(steps: Seq<Step>)
    ensures
        summed(reached(steps).asks),
    decreases steps.len(),
{
    if steps.len() > 0 {
        let before = reached(steps.drop_last());
        law_time_is_that_of_the_stages(steps.drop_last());
        match steps.last() {
            Step::Line(v) => {
                if room(before, v) {
                    law_line_keeps_the_sums(before, v);
                }
            },
            Step::Asked(_) | Step::Settled(_) => {},
        }
    }
}

// ---------------------------------------------------------------------------------------------
// Reading the record of an admission
// ---------------------------------------------------------------------------------------------

/// The first field of a name is the one that is read.
proof fn lemma_field_at(fields: Seq<(Seq<char>, JsonV)>, key: Seq<char>, k: int)
    requires
        0 <= k < fields.len(),
        fields[k].0 == key,
        forall|j: int| 0 <= j < k ==> (#[trigger] fields[j]).0 != key,
    ensures
        field_in(fields, key) == Some(fields[k].1),
    decreases k,
{
    if k > 0 {
        let rest = fields.drop_first();
        assert(rest[k - 1] == fields[k]);
        assert forall|j: int| 0 <= j < k - 1 implies (#[trigger] rest[j]).0 != key by {
            assert(rest[j] == fields[j + 1]);
        }
        assert(fields[0].0 != key);
        lemma_field_at(rest, key, k - 1);
    }
}

/// The names in the record of a candidate are different.
proof fn lemma_record_names()
    ensures
        "id"@.len() == 2 && "rrf"@.len() == 3 && "text"@.len() == 4 && "noul"@.len() == 4,
        "route"@.len() == 5 && "origin"@.len() == 6 && "source"@.len() == 6 && "grantor"@.len()
            == 7,
        "relevant"@.len() == 8 && "evidence"@.len() == 8 && "admitted"@.len() == 8,
        "statement"@.len() == 9 && "injection"@.len() == 9 && "contradicts"@.len() == 11,
        "text"@[0] == 't' && "noul"@[0] == 'n' && "origin"@[0] == 'o' && "source"@[0] == 's',
        "relevant"@[0] == 'r' && "evidence"@[0] == 'e' && "admitted"@[0] == 'a',
        "statement"@[0] == 's' && "injection"@[0] == 'i',
{
    reveal_strlit("id");
    reveal_strlit("rrf");
    reveal_strlit("text");
    reveal_strlit("noul");
    reveal_strlit("route");
    reveal_strlit("origin");
    reveal_strlit("source");
    reveal_strlit("grantor");
    reveal_strlit("relevant");
    reveal_strlit("evidence");
    reveal_strlit("admitted");
    reveal_strlit("statement");
    reveal_strlit("injection");
    reveal_strlit("contradicts");
}

/// The number that a recorded double is read back as.
pub open spec fn read_back(s: Score) -> Option<Score> {
    if s.finite() {
        Some(s)
    } else {
        None
    }
}

/// What the service records of a candidate, the dashboard reads: the same scores, the same route
/// and whether it was let in.
pub proof fn law_record_reads_back(c: Candidate, s: FilterScores, route: FilterRoute)
    requires
        s.evidence.finite(),
    ensures
        row_of(JsonV::Obj(row_fields(c, s, route))) == Some(
            CandidateRowV {
                id: id_view(c.id),
                statement: clipped(c.statement@, STATEMENT_KEPT as nat),
                text: if c.text@ == c.statement@ {
                    Seq::empty()
                } else {
                    clipped(c.text@, STATEMENT_KEPT as nat)
                },
                noul: s.evidence,
                origin: c.origin@,
                admitted: route == FilterRoute::Include,
                injection: read_back(s.injection),
                contradicts: read_back(s.contradicts),
                relevant: read_back(s.relevant),
                evidence: Some(s.evidence),
                route: route.name(),
                rrf: read_back(c.rrf_score),
                source: match opt_view(c.source) {
                    Some(x) => x,
                    None => Seq::empty(),
                },
                grantor: match opt_view(c.grantor_name) {
                    Some(x) => x,
                    None => Seq::empty(),
                },
            },
        ),
{
    let f = row_fields(c, s, route);
    lemma_record_names();
    assert(f.len() == 14);
    assert(f[0].0 == "id"@ && f[1].0 == "statement"@ && f[2].0 == "text"@ && f[3].0 == "noul"@);
    assert(f[4].0 == "injection"@ && f[5].0 == "contradicts"@ && f[6].0 == "relevant"@);
    assert(f[7].0 == "evidence"@ && f[8].0 == "rrf"@ && f[9].0 == "origin"@);
    assert(f[10].0 == "source"@ && f[11].0 == "grantor"@ && f[12].0 == "route"@);
    assert(f[13].0 == "admitted"@);
    lemma_field_at(f, "id"@, 0);
    lemma_field_at(f, "statement"@, 1);
    lemma_field_at(f, "text"@, 2);
    lemma_field_at(f, "noul"@, 3);
    lemma_field_at(f, "injection"@, 4);
    lemma_field_at(f, "contradicts"@, 5);
    lemma_field_at(f, "relevant"@, 6);
    lemma_field_at(f, "evidence"@, 7);
    lemma_field_at(f, "rrf"@, 8);
    lemma_field_at(f, "origin"@, 9);
    lemma_field_at(f, "source"@, 10);
    lemma_field_at(f, "grantor"@, 11);
    lemma_field_at(f, "route"@, 12);
    lemma_field_at(f, "admitted"@, 13);
}

} // verus!
