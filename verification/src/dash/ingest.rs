//! Reading the log: what each line does to what the dashboard knows.

#[allow(unused_imports)]
use crate::clients::systemone::or_zero;
#[allow(unused_imports)]
use crate::dash::state::{
    asks_view, find_ask, find_stage, hits_view, lemma_find_ask, pieces_view, rounds_view, rows_view,
    verdicts_view, AppV, AskV, CandidateRowV, PieceV, StageHitV, VerdictRowV, VerifyRoundV,
};
use crate::dash::state::{
    App, Ask, CandidateRow, Piece, StageHit, VerdictRow, VerifyRound,
};
#[allow(unused_imports)]
use crate::json::{items_view, json_of, list_of, JsonV};
use crate::json::{parse, Json};
use crate::score::{Score, ONE_BITS};
#[allow(unused_imports)]
use crate::text::{begins, trimmed, views};
use crate::text::{chars_of, same, starts_with, string_of, trim};
use vstd::prelude::*;
use vstd::string::*;

verus! {

// ---------------------------------------------------------------------------------------------
// Fields of a line
// ---------------------------------------------------------------------------------------------

/// The text of a field, or nothing.
pub open spec fn text_or(v: JsonV, key: Seq<char>) -> Seq<char> {
    match v.text_at(key) {
        Some(s) => s,
        None => Seq::empty(),
    }
}

/// The number of a field as a whole number, or zero.
pub open spec fn whole_at(v: JsonV, key: Seq<char>) -> u64 {
    or_zero(v.number_at(key)).truncated() as u64
}

/// Whether a field is there and true.
pub open spec fn is_true(v: JsonV, key: Seq<char>) -> bool {
    v.flag_at(key) == Some(true)
}

/// The number of a field as a whole number.
pub open spec fn whole_opt(v: JsonV, key: Seq<char>) -> Option<u64> {
    match v.number_at(key) {
        Some(n) => Some(n.truncated() as u64),
        None => None,
    }
}

fn get_text(v: &Json, key: &str) -> (r: String)
    ensures
        r@ == text_or(v@, key@),
{
    match v.str_at(key) {
        Some(s) => s.to_owned(),
        None => String::new(),
    }
}

fn get_whole(v: &Json, key: &str) -> (r: u64)
    ensures
        r == whole_at(v@, key@),
{
    match v.score_at(key) {
        Some(n) => n.whole(),
        None => Score { bits: 0 }.whole(),
    }
}

fn get_score(v: &Json, key: &str) -> (r: Score)
    ensures
        r == or_zero(v@.number_at(key@)),
{
    match v.score_at(key) {
        Some(n) => n,
        None => Score { bits: 0 },
    }
}

fn get_true(v: &Json, key: &str) -> (r: bool)
    ensures
        r == is_true(v@, key@),
{
    match v.bool_at(key) {
        Some(b) => b,
        None => false,
    }
}

fn get_whole_opt(v: &Json, key: &str) -> (r: Option<u64>)
    ensures
        r == whole_opt(v@, key@),
{
    match v.score_at(key) {
        Some(n) => Some(n.whole()),
        None => None,
    }
}

/// An optional value as the log prints it, without its wrapping.
pub open spec fn tidied(s: Seq<char>) -> Seq<char> {
    let t = trimmed(s);
    let rest = t.skip("Some("@.len() as int);
    if t.len() == 0 || t == "None"@ {
        Seq::empty()
    } else if begins(t, "Some("@) && rest.len() > 0 && rest.last() == ')' {
        rest.drop_last()
    } else {
        t
    }
}

/// An optional value as the log prints it, without its wrapping.
pub fn tidy_debug_opt(s: &str) -> (r: String)
    ensures
        r@ == tidied(s@),
{
    let t = trim(s);
    if t.as_str().is_empty() || same(t.as_str(), "None") {
        return String::new();
    }
    if starts_with(t.as_str(), "Some(") {
        let v = chars_of(t.as_str());
        let n: usize = chars_of("Some(").len();
        if n < v.len() && v[v.len() - 1] == ')' {
            assert(v@.subrange(n as int, v@.len() - 1) =~= t@.skip(n as int).drop_last());
            return string_of(&v, n, v.len() - 1);
        }
    }
    t
}

// ---------------------------------------------------------------------------------------------
// Lists in a line
// ---------------------------------------------------------------------------------------------

/// A candidate of the record of an admission. A row without its verdict, statement, score or
/// origin is none.
pub open spec fn row_of(v: JsonV) -> Option<CandidateRowV> {
    match (v.flag_at("admitted"@), v.text_at("statement"@), v.number_at("noul"@), v.field(
        "origin"@,
    )) {
        (Some(admitted), Some(statement), Some(noul), Some(origin)) => Some(
            CandidateRowV {
                id: text_or(v, "id"@),
                statement,
                text: text_or(v, "text"@),
                noul,
                origin: match origin.text() {
                    Some(s) => s,
                    None => "?"@,
                },
                admitted,
                injection: v.number_at("injection"@),
                contradicts: v.number_at("contradicts"@),
                relevant: v.number_at("relevant"@),
                evidence: v.number_at("evidence"@),
                route: match v.text_at("route"@) {
                    Some(s) => s,
                    None => if admitted {
                        "include"@
                    } else {
                        "exclude"@
                    },
                },
                rrf: v.number_at("rrf"@),
                source: text_or(v, "source"@),
                grantor: text_or(v, "grantor"@),
            },
        ),
        _ => None,
    }
}

/// The candidates of the record of an admission.
pub open spec fn rows_of(items: Seq<JsonV>) -> Seq<CandidateRowV>
    decreases items.len(),
{
    if items.len() == 0 {
        Seq::empty()
    } else {
        match row_of(items.last()) {
            Some(r) => rows_of(items.drop_last()).push(r),
            None => rows_of(items.drop_last()),
        }
    }
}

/// A verdict of a verification. One without its claim or its verdict is none.
pub open spec fn verdict_of(v: JsonV) -> Option<VerdictRowV> {
    match (v.text_at("claim"@), v.text_at("verdict"@)) {
        (Some(claim), Some(verdict)) => Some(
            VerdictRowV { claim, verdict, memory_index: v.count_at("memory_index"@) },
        ),
        _ => None,
    }
}

/// The verdicts of a verification.
pub open spec fn verdicts_of(items: Seq<JsonV>) -> Seq<VerdictRowV>
    decreases items.len(),
{
    if items.len() == 0 {
        Seq::empty()
    } else {
        match verdict_of(items.last()) {
            Some(r) => verdicts_of(items.drop_last()).push(r),
            None => verdicts_of(items.drop_last()),
        }
    }
}

/// The record of an admission in a line.
pub open spec fn ranked_in(v: JsonV) -> Seq<CandidateRowV> {
    rows_of(list_of(v.field("ranked"@)))
}

/// The verdicts in a line.
pub open spec fn verdicts_in(v: JsonV) -> Seq<VerdictRowV> {
    verdicts_of(list_of(v.field("verdicts"@)))
}

/// A candidate of the record of an admission.
pub fn candidate_row(v: &Json) -> (r: Option<CandidateRow>)
    ensures
        match r {
            Some(row) => row_of(v@) == Some(row@),
            None => row_of(v@) is None,
        },
{
    let admitted: bool = match v.bool_at("admitted") {
        Some(b) => b,
        None => return None,
    };
    let statement: String = match v.str_at("statement") {
        Some(s) => s.to_owned(),
        None => return None,
    };
    let noul: Score = match v.score_at("noul") {
        Some(n) => n,
        None => return None,
    };
    let origin: String = match v.get("origin") {
        Some(o) => match o.as_str() {
            Some(s) => s.to_owned(),
            None => "?".to_owned(),
        },
        None => return None,
    };
    let route: String = match v.str_at("route") {
        Some(s) => s.to_owned(),
        None => if admitted {
            "include".to_owned()
        } else {
            "exclude".to_owned()
        },
    };
    Some(
        CandidateRow {
            id: get_text(v, "id"),
            statement,
            text: get_text(v, "text"),
            noul,
            origin,
            admitted,
            injection: v.score_at("injection"),
            contradicts: v.score_at("contradicts"),
            relevant: v.score_at("relevant"),
            evidence: v.score_at("evidence"),
            route,
            rrf: v.score_at("rrf"),
            source: get_text(v, "source"),
            grantor: get_text(v, "grantor"),
        },
    )
}

/// A verdict of a verification.
pub fn verdict_row(v: &Json) -> (r: Option<VerdictRow>)
    ensures
        match r {
            Some(row) => verdict_of(v@) == Some(row@),
            None => verdict_of(v@) is None,
        },
{
    let claim: String = match v.str_at("claim") {
        Some(s) => s.to_owned(),
        None => return None,
    };
    let verdict: String = match v.str_at("verdict") {
        Some(s) => s.to_owned(),
        None => return None,
    };
    Some(VerdictRow { claim, verdict, memory_index: v.u64_at("memory_index") })
}

/// The candidates of a list.
pub fn candidate_rows(items: &Vec<Json>) -> (r: Vec<CandidateRow>)
    ensures
        rows_view(r@) == rows_of(items_view(items@)),
{
    let ghost all = items_view(items@);
    let mut out: Vec<CandidateRow> = Vec::new();
    let mut i: usize = 0;
    assert(rows_view(out@) =~= rows_of(all.take(0)));
    while i < items.len()
        invariant
            i <= items@.len(),
            all == items_view(items@),
            rows_view(out@) == rows_of(all.take(i as int)),
        decreases items@.len() - i,
    {
        assert(all.take(i + 1).drop_last() =~= all.take(i as int));
        assert(all.take(i + 1).last() == items@[i as int]@);
        if let Some(row) = candidate_row(&items[i]) {
            let ghost before = out@;
            out.push(row);
            assert(rows_view(out@) =~= rows_view(before).push(row@));
        }
        i = i + 1;
    }
    assert(all.take(i as int) =~= all);
    out
}

/// The verdicts of a list.
pub fn verdict_rows(items: &Vec<Json>) -> (r: Vec<VerdictRow>)
    ensures
        verdicts_view(r@) == verdicts_of(items_view(items@)),
{
    let ghost all = items_view(items@);
    let mut out: Vec<VerdictRow> = Vec::new();
    let mut i: usize = 0;
    assert(verdicts_view(out@) =~= verdicts_of(all.take(0)));
    while i < items.len()
        invariant
            i <= items@.len(),
            all == items_view(items@),
            verdicts_view(out@) == verdicts_of(all.take(i as int)),
        decreases items@.len() - i,
    {
        assert(all.take(i + 1).drop_last() =~= all.take(i as int));
        assert(all.take(i + 1).last() == items@[i as int]@);
        if let Some(row) = verdict_row(&items[i]) {
            let ghost before = out@;
            out.push(row);
            assert(verdicts_view(out@) =~= verdicts_view(before).push(row@));
        }
        i = i + 1;
    }
    assert(all.take(i as int) =~= all);
    out
}

/// The record of an admission in a line, as a list or as the text of one.
pub fn parse_ranked(v: &Json) -> (r: Vec<CandidateRow>)
    ensures
        rows_view(r@) == ranked_in(v@),
{
    let none: Vec<Json> = Vec::new();
    assert(items_view(none@) =~= Seq::<JsonV>::empty());
    match v.get("ranked") {
        Some(Json::Arr(items)) => {
            assert(v@.field("ranked"@)->0->Arr_0 =~= items_view(items@));
            candidate_rows(items)
        },
        Some(Json::Str(s)) => match parse(s.as_str()) {
            Some(Json::Arr(items)) => {
                assert(json_of(s@)->0->Arr_0 =~= items_view(items@));
                candidate_rows(&items)
            },
            _ => candidate_rows(&none),
        },
        _ => candidate_rows(&none),
    }
}

/// The verdicts in a line, as a list or as the text of one.
pub fn parse_verdicts(v: &Json) -> (r: Vec<VerdictRow>)
    ensures
        verdicts_view(r@) == verdicts_in(v@),
{
    let none: Vec<Json> = Vec::new();
    assert(items_view(none@) =~= Seq::<JsonV>::empty());
    match v.get("verdicts") {
        Some(Json::Arr(items)) => {
            assert(v@.field("verdicts"@)->0->Arr_0 =~= items_view(items@));
            verdict_rows(items)
        },
        Some(Json::Str(s)) => match parse(s.as_str()) {
            Some(Json::Arr(items)) => {
                assert(json_of(s@)->0->Arr_0 =~= items_view(items@));
                verdict_rows(&items)
            },
            _ => verdict_rows(&none),
        },
        _ => verdict_rows(&none),
    }
}

// ---------------------------------------------------------------------------------------------
// What each line does
// ---------------------------------------------------------------------------------------------

/// The time that runs of stages took together.
pub open spec fn total_of(hits: Seq<StageHitV>) -> nat
    decreases hits.len(),
{
    if hits.len() == 0 {
        0
    } else {
        total_of(hits.drop_last()) + hits.last().ms as nat
    }
}

/// The id of the ask a line is about; empty where it is about none.
pub open spec fn id_in(v: JsonV) -> Seq<char> {
    text_or(v, "ask_id"@)
}

pub open spec fn on_started(app: AppV, v: JsonV) -> AppV {
    if id_in(v).len() == 0 {
        app
    } else {
        app.with_ask(
            id_in(v),
            AskV {
                question: text_or(v, "question"@),
                brain_id: text_or(v, "brain_id"@),
                as_of: tidied(text_or(v, "as_of"@)),
                ..app.ask_for(id_in(v))
            },
        )
    }
}

pub open spec fn on_kind(app: AppV, v: JsonV) -> AppV {
    if id_in(v).len() == 0 {
        app
    } else {
        let ask = app.ask_for(id_in(v));
        app.with_ask(
            id_in(v),
            AskV {
                kind: text_or(v, "kind"@),
                kind_confidence: v.number_at("confidence"@),
                model_choice: text_or(v, "model_choice"@),
                fell_back: v.flag_at("fell_back"@),
                chitchat: ask.chitchat || is_true(v, "chitchat"@),
                ..ask
            },
        )
    }
}

pub open spec fn on_embedded(app: AppV, v: JsonV) -> AppV {
    if id_in(v).len() == 0 {
        app
    } else {
        app.with_ask(
            id_in(v),
            AskV { embed_dims: whole_opt(v, "dims"@), ..app.ask_for(id_in(v)) },
        )
    }
}

pub open spec fn on_retrieved(app: AppV, v: JsonV) -> AppV {
    if id_in(v).len() == 0 {
        app
    } else {
        app.with_ask(
            id_in(v),
            AskV {
                personal: whole_at(v, "personal"@),
                granted: whole_at(v, "granted"@),
                retrieve_k: whole_at(v, "k"@),
                ..app.ask_for(id_in(v))
            },
        )
    }
}

pub open spec fn on_merged(app: AppV, v: JsonV) -> AppV {
    if id_in(v).len() == 0 {
        app
    } else {
        app.with_ask(
            id_in(v),
            AskV {
                merged: whole_at(v, "merged"@),
                top_rrf: or_zero(v.number_at("top_rrf"@)),
                ..app.ask_for(id_in(v))
            },
        )
    }
}

/// The run of a stage that a line tells of.
pub open spec fn hit_in(v: JsonV, ok: bool) -> StageHitV {
    StageHitV {
        name: text_or(v, "stage"@),
        ms: whole_at(v, "ms"@),
        ok,
        error: text_or(v, "error"@),
    }
}

/// Whether a line tells of a run of a stage: it names the stage and the time.
pub open spec fn is_run(v: JsonV) -> bool {
    v.text_at("stage"@) is Some && v.number_at("ms"@) is Some
}

pub open spec fn on_stage(app: AppV, v: JsonV, ok: bool) -> AppV {
    if !is_run(v) {
        app
    } else {
        let hit = hit_in(v, ok);
        let ran = app.stage_run(hit.name, hit.ms, ok);
        let told = if id_in(v).len() == 0 {
            ran
        } else {
            let ask = ran.ask_for(id_in(v));
            ran.with_ask(
                id_in(v),
                AskV {
                    stages: ask.stages.push(hit),
                    total_ms: total_of(ask.stages.push(hit)) as u64,
                    failed: ask.failed || !ok,
                    ..ask
                },
            )
        };
        if ok {
            told
        } else {
            AppV { errors: (told.errors + 1) as u64, ..told }.noted(
                hit.name + " FAILED"@,
                Seq::empty().push(PieceV::Text(hit.error)),
            )
        }
    }
}

/// Where the ask of an admission stands once there is one for it.
pub open spec fn admission_place(app: AppV, id: Seq<char>) -> int {
    if id.len() == 0 {
        app.asks.len() as int
    } else {
        match find_ask(app.asks, id) {
            Some(k) => k,
            None => app.asks.len() as int,
        }
    }
}

/// The asks once there is one for an admission.
pub open spec fn admission_asks(app: AppV, id: Seq<char>) -> Seq<AskV> {
    if admission_place(app, id) == app.asks.len() {
        app.asks.push(AskV::fresh(id))
    } else {
        app.asks
    }
}

/// What an admission makes of its ask. An ask that has its question keeps it, and one that has
/// a record keeps it unless the line brings one.
pub open spec fn admitted_ask(ask: AskV, v: JsonV, threshold: Score, calibrated: bool) -> AskV {
    AskV {
        question: if ask.question.len() == 0 {
            text_or(v, "question"@)
        } else {
            ask.question
        },
        admitted: whole_at(v, "admitted"@),
        candidates: whole_at(v, "candidates"@),
        top_noul: or_zero(v.number_at("top_noul"@)),
        empty: whole_at(v, "admitted"@) == 0,
        conflicts: whole_at(v, "conflicts"@),
        threshold,
        calibrated,
        ranked: if ranked_in(v).len() > 0 {
            ranked_in(v)
        } else {
            ask.ranked
        },
        complete: true,
        ..ask
    }
}

pub open spec fn on_admission(app: AppV, v: JsonV) -> AppV {
    let threshold = match v.number_at("threshold"@) {
        Some(t) => t,
        None => app.threshold,
    };
    let calibrated = match v.flag_at("calibrated"@) {
        Some(c) => c,
        None => app.calibrated,
    };
    let at = admission_place(app, id_in(v));
    let asks = admission_asks(app, id_in(v));
    let ask = asks[at];
    let counts = !ask.complete;
    AppV {
        asks: asks.update(at, admitted_ask(ask, v, threshold, calibrated)),
        threshold,
        calibrated,
        total_asks: if counts {
            (app.total_asks + 1) as u64
        } else {
            app.total_asks
        },
        empty_admits: if counts && whole_at(v, "admitted"@) == 0 {
            (app.empty_admits + 1) as u64
        } else {
            app.empty_admits
        },
        ..app
    }.follow(at).capped()
}

pub open spec fn on_detail(app: AppV, v: JsonV) -> AppV {
    if id_in(v).len() == 0 {
        app
    } else {
        let ask = app.ask_for(id_in(v));
        app.with_ask(
            id_in(v),
            AskV {
                question: match v.text_at("question"@) {
                    Some(q) => q,
                    None => ask.question,
                },
                ranked: if ranked_in(v).len() > 0 {
                    ranked_in(v)
                } else {
                    ask.ranked
                },
                ..ask
            },
        )
    }
}

pub open spec fn on_generated(app: AppV, v: JsonV) -> AppV {
    if id_in(v).len() == 0 {
        app
    } else {
        let ask = app.ask_for(id_in(v));
        app.with_ask(
            id_in(v),
            AskV {
                chitchat: ask.chitchat || is_true(v, "chitchat"@),
                generate_citations: match whole_opt(v, "citations"@) {
                    Some(n) => Some(n),
                    None => ask.generate_citations,
                },
                drafts: match v.text_at("answer"@) {
                    Some(a) => ask.drafts.push(a),
                    None => ask.drafts,
                },
                ..ask
            },
        )
    }
}

/// The verification that a line tells of.
pub open spec fn round_in(v: JsonV) -> VerifyRoundV {
    VerifyRoundV {
        attempt: whole_at(v, "attempt"@),
        all_ok: is_true(v, "all_ok"@),
        claims: whole_at(v, "claims"@),
        supported: whole_at(v, "supported"@),
        verdicts: verdicts_in(v),
    }
}

pub open spec fn on_verdicts(app: AppV, v: JsonV) -> AppV {
    if id_in(v).len() == 0 {
        app
    } else {
        let ask = app.ask_for(id_in(v));
        app.with_ask(
            id_in(v),
            AskV { verify_rounds: ask.verify_rounds.push(round_in(v)), ..ask },
        )
    }
}

pub open spec fn on_published(app: AppV, v: JsonV) -> AppV {
    if id_in(v).len() == 0 {
        app
    } else {
        let ask = app.ask_for(id_in(v));
        let empty = is_true(v, "empty"@);
        let told = app.with_ask(
            id_in(v),
            AskV {
                chitchat: ask.chitchat || is_true(v, "chitchat"@),
                published: v.text_at("answer"@),
                empty,
                complete: true,
                ..ask
            },
        );
        AppV {
            total_asks: if ask.complete {
                told.total_asks
            } else {
                (told.total_asks + 1) as u64
            },
            empty_admits: if empty && (!ask.complete || !ask.empty) {
                (told.empty_admits + 1) as u64
            } else {
                told.empty_admits
            },
            ..told
        }
    }
}

pub open spec fn on_skipped(app: AppV, v: JsonV) -> AppV {
    if id_in(v).len() == 0 {
        app
    } else {
        app.with_ask(id_in(v), AskV { skip_generate: true, ..app.ask_for(id_in(v)) })
    }
}

pub open spec fn on_regenerated(app: AppV, v: JsonV) -> AppV {
    let attempt = match v.number_at("attempt"@) {
        Some(n) => n,
        None => Score { bits: ONE_BITS },
    };
    let told = if id_in(v).len() == 0 {
        app
    } else {
        let ask = app.ask_for(id_in(v));
        let n = attempt.truncated() as u64;
        app.with_ask(
            id_in(v),
            AskV {
                regens: if n > ask.regens {
                    n
                } else {
                    ask.regens
                },
                ..ask
            },
        )
    };
    told.noted(
        "REGEN"@,
        Seq::empty().push(PieceV::Text("verify attempt "@)).push(PieceV::Plain(attempt)),
    )
}

pub open spec fn on_withheld(app: AppV, v: JsonV) -> AppV {
    app.noted(
        "WITHHELD"@,
        Seq::empty().push(PieceV::Plain(or_zero(v.number_at("withheld"@)))).push(
            PieceV::Text(" secret rows"@),
        ),
    )
}

pub open spec fn on_retry(app: AppV, v: JsonV) -> AppV {
    app.noted("RETRY"@, Seq::empty().push(PieceV::Text(text_or(v, "stage"@))))
}

pub open spec fn on_unsaved(app: AppV, message: Seq<char>) -> AppV {
    AppV { errors: (app.errors + 1) as u64, ..app }.noted(
        "PERSIST"@,
        Seq::empty().push(PieceV::Text(message)),
    )
}

/// What a line of the log does to what the dashboard knows.
pub open spec fn applied(app: AppV, v: JsonV) -> AppV {
    let m = text_or(v, "message"@);
    if m == "ask started"@ {
        on_started(app, v)
    } else if m == "kind chosen"@ {
        on_kind(app, v)
    } else if m == "embedded"@ {
        on_embedded(app, v)
    } else if m == "retrieved from nexus"@ {
        on_retrieved(app, v)
    } else if m == "retrieve merged"@ {
        on_merged(app, v)
    } else if m == "stage ok"@ {
        on_stage(app, v, true)
    } else if m == "stage failed"@ {
        on_stage(app, v, false)
    } else if m == "admission complete"@ {
        on_admission(app, v)
    } else if m == "ask detail"@ {
        on_detail(app, v)
    } else if m == "generated"@ {
        on_generated(app, v)
    } else if m == "verify verdicts"@ {
        on_verdicts(app, v)
    } else if m == "answer published"@ {
        on_published(app, v)
    } else if m == "empty admission; skipping generator"@ {
        on_skipped(app, v)
    } else if m == "verify failed; regenerating once"@ {
        on_regenerated(app, v)
    } else if m == "withheld secret-sensitivity rows"@ {
        on_withheld(app, v)
    } else if m == "retrying once"@ {
        on_retry(app, v)
    } else if begins(m, "failed to persist"@) {
        on_unsaved(app, m)
    } else {
        app
    }
}

/// Whether a line is on the end of a stage.
pub open spec fn tells_a_run(v: JsonV) -> bool {
    text_or(v, "message"@) == "stage ok"@ || text_or(v, "message"@) == "stage failed"@
}

/// Whether what the end of a stage adds can be counted: the time of the ask it belongs to, if it
/// belongs to one, and where it failed the failures of the stage and the errors.
pub open spec fn room_for_run(app: AppV, v: JsonV, ok: bool) -> bool {
    is_run(v) ==> {
        &&& id_in(v).len() > 0 ==> (find_ask(app.asks, id_in(v)) matches Some(k) ==> total_of(
            app.asks[k].stages,
        ) + whole_at(v, "ms"@) <= u64::MAX)
        &&& !ok ==> app.errors < u64::MAX && (find_stage(app.stages, text_or(v, "stage"@)) matches
            Some(k) ==> app.stages[k].1.fails < u64::MAX)
    }
}

/// Whether an admission can be counted, where it counts.
pub open spec fn room_for_admission(app: AppV, v: JsonV) -> bool {
    !admission_asks(app, id_in(v))[admission_place(app, id_in(v))].complete ==> {
        &&& app.total_asks < u64::MAX
        &&& whole_at(v, "admitted"@) == 0 ==> app.empty_admits < u64::MAX
    }
}

/// Whether a published answer can be counted, where it counts.
pub open spec fn room_for_answer(app: AppV, v: JsonV) -> bool {
    let ask = app.ask_for(id_in(v));
    id_in(v).len() > 0 ==> {
        &&& !ask.complete ==> app.total_asks < u64::MAX
        &&& is_true(v, "empty"@) && (!ask.complete || !ask.empty) ==> app.empty_admits < u64::MAX
    }
}

/// Whether what a line adds to the counters can be counted.
pub open spec fn room(app: AppV, v: JsonV) -> bool {
    let m = text_or(v, "message"@);
    if m == "stage ok"@ {
        room_for_run(app, v, true)
    } else if m == "stage failed"@ {
        room_for_run(app, v, false)
    } else if m == "admission complete"@ {
        room_for_admission(app, v)
    } else if m == "answer published"@ {
        room_for_answer(app, v)
    } else if begins(m, "failed to persist"@) {
        app.errors < u64::MAX
    } else {
        true
    }
}

/// Changing one ask changes what it stands for.
proof fn lemma_asks_update(asks: Seq<Ask>, i: int, ask: Ask)
    requires
        0 <= i < asks.len(),
    ensures
        asks_view(asks.update(i, ask)) == asks_view(asks).update(i, ask@),
{
    assert(asks_view(asks.update(i, ask)) =~= asks_view(asks).update(i, ask@));
}

impl App {
    fn ask_started(&mut self, v: &Json)
        requires
            old(self)@.wf(),
        ensures
            final(self)@ == on_started(old(self)@, v@),
            final(self)@.wf(),
    {
        let id = get_text(v, "ask_id");
        if id.as_str().is_empty() {
            return;
        }
        let i: usize = self.ensure_ask(id.as_str());
        let ghost before = self.asks@;
        let ask = &mut self.asks[i];
        ask.question = get_text(v, "question");
        ask.brain_id = get_text(v, "brain_id");
        ask.as_of = tidy_debug_opt(get_text(v, "as_of").as_str());
        proof {
            lemma_asks_update(before, i as int, self.asks@[i as int]);
            assert(self.asks@ =~= before.update(i as int, self.asks@[i as int]));
        }
    }

    fn kind_chosen(&mut self, v: &Json)
        requires
            old(self)@.wf(),
        ensures
            final(self)@ == on_kind(old(self)@, v@),
            final(self)@.wf(),
    {
        let id = get_text(v, "ask_id");
        if id.as_str().is_empty() {
            return;
        }
        let i: usize = self.ensure_ask(id.as_str());
        let ghost before = self.asks@;
        let ask = &mut self.asks[i];
        ask.kind = get_text(v, "kind");
        ask.kind_confidence = v.score_at("confidence");
        ask.model_choice = get_text(v, "model_choice");
        ask.fell_back = v.bool_at("fell_back");
        if get_true(v, "chitchat") {
            ask.chitchat = true;
        }
        proof {
            lemma_asks_update(before, i as int, self.asks@[i as int]);
            assert(self.asks@ =~= before.update(i as int, self.asks@[i as int]));
        }
    }

    fn embedded(&mut self, v: &Json)
        requires
            old(self)@.wf(),
        ensures
            final(self)@ == on_embedded(old(self)@, v@),
            final(self)@.wf(),
    {
        let id = get_text(v, "ask_id");
        if id.as_str().is_empty() {
            return;
        }
        let i: usize = self.ensure_ask(id.as_str());
        let ghost before = self.asks@;
        let ask = &mut self.asks[i];
        ask.embed_dims = get_whole_opt(v, "dims");
        proof {
            lemma_asks_update(before, i as int, self.asks@[i as int]);
            assert(self.asks@ =~= before.update(i as int, self.asks@[i as int]));
        }
    }

    fn retrieved(&mut self, v: &Json)
        requires
            old(self)@.wf(),
        ensures
            final(self)@ == on_retrieved(old(self)@, v@),
            final(self)@.wf(),
    {
        let id = get_text(v, "ask_id");
        if id.as_str().is_empty() {
            return;
        }
        let i: usize = self.ensure_ask(id.as_str());
        let ghost before = self.asks@;
        let ask = &mut self.asks[i];
        ask.personal = get_whole(v, "personal");
        ask.granted = get_whole(v, "granted");
        ask.retrieve_k = get_whole(v, "k");
        proof {
            lemma_asks_update(before, i as int, self.asks@[i as int]);
            assert(self.asks@ =~= before.update(i as int, self.asks@[i as int]));
        }
    }

    fn merged(&mut self, v: &Json)
        requires
            old(self)@.wf(),
        ensures
            final(self)@ == on_merged(old(self)@, v@),
            final(self)@.wf(),
    {
        let id = get_text(v, "ask_id");
        if id.as_str().is_empty() {
            return;
        }
        let i: usize = self.ensure_ask(id.as_str());
        let ghost before = self.asks@;
        let ask = &mut self.asks[i];
        ask.merged = get_whole(v, "merged");
        ask.top_rrf = get_score(v, "top_rrf");
        proof {
            lemma_asks_update(before, i as int, self.asks@[i as int]);
            assert(self.asks@ =~= before.update(i as int, self.asks@[i as int]));
        }
    }

    fn detailed(&mut self, v: &Json)
        requires
            old(self)@.wf(),
        ensures
            final(self)@ == on_detail(old(self)@, v@),
            final(self)@.wf(),
    {
        let id = get_text(v, "ask_id");
        if id.as_str().is_empty() {
            return;
        }
        let i: usize = self.ensure_ask(id.as_str());
        let ghost before = self.asks@;
        let ask = &mut self.asks[i];
        if let Some(q) = v.str_at("question") {
            ask.question = q.to_owned();
        }
        let ranked = parse_ranked(v);
        if ranked.len() > 0 {
            ask.ranked = ranked;
        }
        proof {
            lemma_asks_update(before, i as int, self.asks@[i as int]);
            assert(self.asks@ =~= before.update(i as int, self.asks@[i as int]));
        }
    }

    fn generated(&mut self, v: &Json)
        requires
            old(self)@.wf(),
        ensures
            final(self)@ == on_generated(old(self)@, v@),
            final(self)@.wf(),
    {
        let id = get_text(v, "ask_id");
        if id.as_str().is_empty() {
            return;
        }
        let i: usize = self.ensure_ask(id.as_str());
        let ghost before = self.asks@;
        let ask = &mut self.asks[i];
        if get_true(v, "chitchat") {
            ask.chitchat = true;
        }
        if let Some(n) = get_whole_opt(v, "citations") {
            ask.generate_citations = Some(n);
        }
        let ghost drafts = ask.drafts@;
        if let Some(answer) = v.str_at("answer") {
            ask.drafts.push(answer.to_owned());
            assert(views(ask.drafts@) =~= views(drafts).push(answer@));
        }
        proof {
            lemma_asks_update(before, i as int, self.asks@[i as int]);
            assert(self.asks@ =~= before.update(i as int, self.asks@[i as int]));
        }
    }

    fn verified(&mut self, v: &Json)
        requires
            old(self)@.wf(),
        ensures
            final(self)@ == on_verdicts(old(self)@, v@),
            final(self)@.wf(),
    {
        let id = get_text(v, "ask_id");
        if id.as_str().is_empty() {
            return;
        }
        let i: usize = self.ensure_ask(id.as_str());
        let ghost before = self.asks@;
        let ask = &mut self.asks[i];
        let round = VerifyRound {
            attempt: get_whole(v, "attempt"),
            all_ok: get_true(v, "all_ok"),
            claims: get_whole(v, "claims"),
            supported: get_whole(v, "supported"),
            verdicts: parse_verdicts(v),
        };
        let ghost rounds = ask.verify_rounds@;
        ask.verify_rounds.push(round);
        assert(rounds_view(ask.verify_rounds@) =~= rounds_view(rounds).push(round@));
        proof {
            lemma_asks_update(before, i as int, self.asks@[i as int]);
            assert(self.asks@ =~= before.update(i as int, self.asks@[i as int]));
        }
    }

    fn skipped(&mut self, v: &Json)
        requires
            old(self)@.wf(),
        ensures
            final(self)@ == on_skipped(old(self)@, v@),
            final(self)@.wf(),
    {
        let id = get_text(v, "ask_id");
        if id.as_str().is_empty() {
            return;
        }
        let i: usize = self.ensure_ask(id.as_str());
        let ghost before = self.asks@;
        let ask = &mut self.asks[i];
        ask.skip_generate = true;
        proof {
            lemma_asks_update(before, i as int, self.asks@[i as int]);
            assert(self.asks@ =~= before.update(i as int, self.asks@[i as int]));
        }
    }

    fn published(&mut self, v: &Json)
        requires
            old(self)@.wf(),
            room_for_answer(old(self)@, v@),
        ensures
            final(self)@ == on_published(old(self)@, v@),
            final(self)@.wf(),
    {
        let id = get_text(v, "ask_id");
        if id.as_str().is_empty() {
            return;
        }
        let empty = get_true(v, "empty");
        let i: usize = self.ensure_ask(id.as_str());
        let ghost before = self.asks@;
        let ask = &mut self.asks[i];
        let was_complete = ask.complete;
        let was_empty = ask.empty;
        if get_true(v, "chitchat") {
            ask.chitchat = true;
        }
        ask.published = match v.str_at("answer") {
            Some(a) => Some(a.to_owned()),
            None => None,
        };
        ask.empty = empty;
        ask.complete = true;
        proof {
            lemma_asks_update(before, i as int, self.asks@[i as int]);
            assert(self.asks@ =~= before.update(i as int, self.asks@[i as int]));
        }
        if !was_complete {
            self.total_asks = self.total_asks + 1;
        }
        if empty && (!was_complete || !was_empty) {
            self.empty_admits = self.empty_admits + 1;
        }
    }

    fn regenerated(&mut self, v: &Json)
        requires
            old(self)@.wf(),
        ensures
            final(self)@ == on_regenerated(old(self)@, v@),
            final(self)@.wf(),
    {
        let attempt: Score = match v.score_at("attempt") {
            Some(n) => n,
            None => Score { bits: ONE_BITS },
        };
        let id = get_text(v, "ask_id");
        if !id.as_str().is_empty() {
            let i: usize = self.ensure_ask(id.as_str());
            let ghost before = self.asks@;
            let ask = &mut self.asks[i];
            let n: u64 = attempt.whole();
            if n > ask.regens {
                ask.regens = n;
            }
            proof {
                lemma_asks_update(before, i as int, self.asks@[i as int]);
                assert(self.asks@ =~= before.update(i as int, self.asks@[i as int]));
            }
        }
        let mut detail: Vec<Piece> = Vec::new();
        detail.push(Piece::Text("verify attempt ".to_owned()));
        detail.push(Piece::Plain(attempt));
        assert(pieces_view(detail@) =~= Seq::empty().push(PieceV::Text("verify attempt "@)).push(
            PieceV::Plain(attempt),
        ));
        self.note("REGEN".to_owned(), detail);
    }

    fn withheld(&mut self, v: &Json)
        requires
            old(self)@.wf(),
        ensures
            final(self)@ == on_withheld(old(self)@, v@),
            final(self)@.wf(),
    {
        let n: Score = get_score(v, "withheld");
        let mut detail: Vec<Piece> = Vec::new();
        detail.push(Piece::Plain(n));
        detail.push(Piece::Text(" secret rows".to_owned()));
        assert(pieces_view(detail@) =~= Seq::empty().push(PieceV::Plain(n)).push(
            PieceV::Text(" secret rows"@),
        ));
        self.note("WITHHELD".to_owned(), detail);
    }

    /// Takes an event in that is text alone.
    fn note_text(&mut self, kind: String, text: String)
        requires
            old(self)@.wf(),
        ensures
            final(self)@ == old(self)@.noted(kind@, Seq::empty().push(PieceV::Text(text@))),
            final(self)@.wf(),
    {
        let ghost words = text@;
        let mut detail: Vec<Piece> = Vec::new();
        detail.push(Piece::Text(text));
        assert(pieces_view(detail@) =~= Seq::empty().push(PieceV::Text(words)));
        self.note(kind, detail);
    }

    fn unsaved(&mut self, message: &str)
        requires
            old(self)@.wf(),
            old(self).errors < u64::MAX,
        ensures
            final(self)@ == on_unsaved(old(self)@, message@),
            final(self)@.wf(),
    {
        self.errors = self.errors + 1;
        self.note_text("PERSIST".to_owned(), message.to_owned());
    }

    fn stage_done(&mut self, v: &Json, ok: bool)
        requires
            old(self)@.wf(),
            room_for_run(old(self)@, v@, ok),
        ensures
            final(self)@ == on_stage(old(self)@, v@, ok),
            final(self)@.wf(),
    {
        if v.str_at("stage").is_none() || v.score_at("ms").is_none() {
            return;
        }
        let name = get_text(v, "stage");
        let ms: u64 = get_whole(v, "ms");
        let error = get_text(v, "error");
        self.push_stage(name.as_str(), ms, ok);
        let ghost ran = self@;
        let id = get_text(v, "ask_id");
        if !id.as_str().is_empty() {
            proof {
                lemma_find_ask(self@.asks, id@);
            }
            let i: usize = self.ensure_ask(id.as_str());
            let ghost before = self.asks@;
            let ghost had = self@.asks[i as int];
            assert(had == ran.ask_for(id@));
            assert(had == before[i as int]@);
            assert(total_of(had.stages) + ms <= u64::MAX) by {
                if find_ask(ran.asks, id@) is None {
                    assert(had == AskV::fresh(id@));
                }
            }
            let ask = &mut self.asks[i];
            let ghost hits = ask.stages@;
            ask.stages.push(
                StageHit { name: name.clone(), ms, ok, error: error.clone() },
            );
            proof {
                let hit = hit_in(v@, ok);
                assert(hits_view(ask.stages@) =~= hits_view(hits).push(hit));
                assert(hits_view(hits).push(hit).drop_last() =~= hits_view(hits));
            }
            ask.total_ms = total_ms(&ask.stages);
            if !ok {
                ask.failed = true;
            }
            proof {
                lemma_asks_update(before, i as int, self.asks@[i as int]);
                assert(self.asks@ =~= before.update(i as int, self.asks@[i as int]));
            }
        }
        if !ok {
            self.errors = self.errors + 1;
            let mut kind = name;
            kind.append(" FAILED");
            self.note_text(kind, error);
        }
    }

    fn admitted(&mut self, v: &Json)
        requires
            old(self)@.wf(),
            room_for_admission(old(self)@, v@),
        ensures
            final(self)@ == on_admission(old(self)@, v@),
            final(self)@.wf(),
    {
        let id = get_text(v, "ask_id");
        let admitted: u64 = get_whole(v, "admitted");
        if let Some(t) = v.score_at("threshold") {
            self.threshold = t;
        }
        if let Some(c) = v.bool_at("calibrated") {
            self.calibrated = c;
        }
        let threshold: Score = self.threshold;
        let calibrated: bool = self.calibrated;
        let found: Option<usize> = if id.as_str().is_empty() {
            None
        } else {
            self.position(id.as_str())
        };
        let ghost start = old(self)@;
        let idx: usize = match found {
            Some(k) => k,
            None => {
                let ghost before = self.asks@;
                self.asks.push(Ask::new(id.as_str()));
                assert(asks_view(self.asks@) =~= asks_view(before).push(AskV::fresh(id@)));
                self.asks.len() - 1
            },
        };
        assert(idx == admission_place(start, id@));
        assert(asks_view(self.asks@) == admission_asks(start, id@));
        let ghost before = self.asks@;
        let ghost had = before[idx as int]@;
        assert(had == admission_asks(start, id@)[idx as int]);
        let counts = !self.asks[idx].complete;
        let ask = &mut self.asks[idx];
        take_admission(ask, v, threshold, calibrated);
        proof {
            lemma_asks_update(before, idx as int, self.asks@[idx as int]);
            assert(self.asks@ =~= before.update(idx as int, self.asks@[idx as int]));
        }
        if counts {
            self.total_asks = self.total_asks + 1;
            if admitted == 0 {
                self.empty_admits = self.empty_admits + 1;
            }
        }
        self.follow(idx);
        self.cap();
    }

    fn has_room_for_run(&self, v: &Json, ok: bool) -> (r: bool)
        ensures
            r == room_for_run(self@, v@, ok),
    {
        if v.str_at("stage").is_none() || v.score_at("ms").is_none() {
            return true;
        }
        if !ok {
            if self.errors == u64::MAX {
                return false;
            }
            if let Some(s) = self.stage(get_text(v, "stage").as_str()) {
                if s.fails == u64::MAX {
                    return false;
                }
            }
        }
        let id = get_text(v, "ask_id");
        if id.as_str().is_empty() {
            return true;
        }
        match self.position(id.as_str()) {
            Some(k) => {
                assert(self@.asks[k as int] == self.asks@[k as int]@);
                fits(&self.asks[k].stages, get_whole(v, "ms"))
            },
            None => true,
        }
    }

    fn has_room_for_admission(&self, v: &Json) -> (r: bool)
        ensures
            r == room_for_admission(self@, v@),
    {
        let id = get_text(v, "ask_id");
        let found: Option<usize> = if id.as_str().is_empty() {
            None
        } else {
            self.position(id.as_str())
        };
        let counts: bool = match found {
            Some(k) => {
                assert(self@.asks[k as int] == self.asks@[k as int]@);
                !self.asks[k].complete
            },
            None => true,
        };
        !counts || (self.total_asks < u64::MAX && (get_whole(v, "admitted") != 0
            || self.empty_admits < u64::MAX))
    }

    fn has_room_for_answer(&self, v: &Json) -> (r: bool)
        ensures
            r == room_for_answer(self@, v@),
    {
        let id = get_text(v, "ask_id");
        if id.as_str().is_empty() {
            return true;
        }
        let (complete, was_empty): (bool, bool) = match self.position(id.as_str()) {
            Some(k) => {
                assert(self@.asks[k as int] == self.asks@[k as int]@);
                (self.asks[k].complete, self.asks[k].empty)
            },
            None => {
                assert(self@.ask_for(id@) == AskV::fresh(id@));
                (false, false)
            },
        };
        if !complete && self.total_asks == u64::MAX {
            return false;
        }
        !(get_true(v, "empty") && (!complete || !was_empty)) || self.empty_admits < u64::MAX
    }

    /// Whether what a line adds to the counters can be counted.
    pub fn has_room(&self, v: &Json) -> (r: bool)
        ensures
            r == room(self@, v@),
    {
        let message = get_text(v, "message");
        let m = message.as_str();
        if same(m, "stage ok") {
            self.has_room_for_run(v, true)
        } else if same(m, "stage failed") {
            self.has_room_for_run(v, false)
        } else if same(m, "admission complete") {
            self.has_room_for_admission(v)
        } else if same(m, "answer published") {
            self.has_room_for_answer(v)
        } else if starts_with(m, "failed to persist") {
            self.errors < u64::MAX
        } else {
            true
        }
    }

    /// Takes a line of the log in.
    pub fn apply(&mut self, v: &Json)
        requires
            old(self)@.wf(),
            room(old(self)@, v@),
        ensures
            final(self)@ == applied(old(self)@, v@),
            final(self)@.wf(),
    {
        let message = get_text(v, "message");
        let m = message.as_str();
        if same(m, "ask started") {
            self.ask_started(v);
        } else if same(m, "kind chosen") {
            self.kind_chosen(v);
        } else if same(m, "embedded") {
            self.embedded(v);
        } else if same(m, "retrieved from nexus") {
            self.retrieved(v);
        } else if same(m, "retrieve merged") {
            self.merged(v);
        } else if same(m, "stage ok") {
            self.stage_done(v, true);
        } else if same(m, "stage failed") {
            self.stage_done(v, false);
        } else if same(m, "admission complete") {
            self.admitted(v);
        } else if same(m, "ask detail") {
            self.detailed(v);
        } else if same(m, "generated") {
            self.generated(v);
        } else if same(m, "verify verdicts") {
            self.verified(v);
        } else if same(m, "answer published") {
            self.published(v);
        } else if same(m, "empty admission; skipping generator") {
            self.skipped(v);
        } else if same(m, "verify failed; regenerating once") {
            self.regenerated(v);
        } else if same(m, "withheld secret-sensitivity rows") {
            self.withheld(v);
        } else if same(m, "retrying once") {
            self.note_text("RETRY".to_owned(), get_text(v, "stage"));
        } else if starts_with(m, "failed to persist") {
            self.unsaved(m);
        }
    }

    /// Takes a line of the log in, if it is JSON and the counters can take it. Says whether it was
    /// taken in; nothing changes where it was not.
    pub fn ingest(&mut self, line: &str) -> (taken: bool)
        requires
            old(self)@.wf(),
        ensures
            taken == (json_of(line@) matches Some(v) && room(old(self)@, v)),
            final(self)@ == match json_of(line@) {
                Some(v) => if taken {
                    applied(old(self)@, v)
                } else {
                    old(self)@
                },
                None => old(self)@,
            },
            final(self)@.wf(),
    {
        match parse(line) {
            Some(v) => if self.has_room(&v) {
                self.apply(&v);
                true
            } else {
                false
            },
            None => false,
        }
    }
}

/// Takes an admission into its ask.
fn take_admission(ask: &mut Ask, v: &Json, threshold: Score, calibrated: bool)
    ensures
        final(ask)@ == admitted_ask(old(ask)@, v@, threshold, calibrated),
{
    let admitted: u64 = get_whole(v, "admitted");
    if ask.question.as_str().is_empty() {
        ask.question = get_text(v, "question");
    }
    ask.admitted = admitted;
    ask.candidates = get_whole(v, "candidates");
    ask.top_noul = get_score(v, "top_noul");
    ask.empty = admitted == 0;
    ask.conflicts = get_whole(v, "conflicts");
    ask.threshold = threshold;
    ask.calibrated = calibrated;
    let ranked = parse_ranked(v);
    if ranked.len() > 0 {
        ask.ranked = ranked;
    }
    ask.complete = true;
}

/// The time that runs of stages took together.
fn total_ms(hits: &Vec<StageHit>) -> (r: u64)
    requires
        total_of(hits_view(hits@)) <= u64::MAX,
    ensures
        r == total_of(hits_view(hits@)),
{
    let ghost all = hits_view(hits@);
    let mut sum: u64 = 0;
    let mut i: usize = 0;
    while i < hits.len()
        invariant
            i <= hits@.len(),
            all == hits_view(hits@),
            total_of(all) <= u64::MAX,
            sum == total_of(all.take(i as int)),
        decreases hits@.len() - i,
    {
        assert(all.take(i + 1).drop_last() =~= all.take(i as int));
        proof {
            lemma_total_grows(all, i + 1);
        }
        sum = sum + hits[i].ms;
        i = i + 1;
    }
    assert(all.take(i as int) =~= all);
    sum
}

/// Whether the time that runs of stages took together, and `more`, can be counted.
fn fits(hits: &Vec<StageHit>, more: u64) -> (r: bool)
    ensures
        r == (total_of(hits_view(hits@)) + more <= u64::MAX),
{
    let ghost all = hits_view(hits@);
    let mut left: u64 = u64::MAX - more;
    let mut i: usize = 0;
    while i < hits.len()
        invariant
            i <= hits@.len(),
            all == hits_view(hits@),
            left + more + total_of(all.take(i as int)) == u64::MAX,
        decreases hits@.len() - i,
    {
        assert(all.take(i + 1).drop_last() =~= all.take(i as int));
        let ms: u64 = hits[i].ms;
        if ms > left {
            proof {
                lemma_total_grows(all, i + 1);
            }
            return false;
        }
        left = left - ms;
        i = i + 1;
    }
    assert(all.take(i as int) =~= all);
    true
}

/// The time of the first runs is no more than that of all.
proof fn lemma_total_grows(hits: Seq<StageHitV>, n: int)
    requires
        0 <= n <= hits.len(),
    ensures
        total_of(hits.take(n)) <= total_of(hits),
    decreases hits.len(),
{
    if n == hits.len() {
        assert(hits.take(n) =~= hits);
    } else {
        assert(hits.drop_last().take(n) =~= hits.take(n));
        lemma_total_grows(hits.drop_last(), n);
    }
}

} // verus!
