//! The streamed answer: which events the client is sent, and what is kept of the ask.

use crate::error::RecallError;
use crate::ids::id_text;
#[allow(unused_imports)]
use crate::ids::id_view;
#[allow(unused_imports)]
use crate::json::{items_view, lemma_items_push, no_fields, opt_text_view, real_view, JsonV, Num};
use crate::json::{Fields, Json};
#[allow(unused_imports)]
use crate::types::{Timestamp, EMPTY_ADMIT_TEXT};
use crate::types::{AdmittedCitations, Ask, Citation, Stage, StageRecord};
use crate::when::stamp;
#[allow(unused_imports)]
use crate::when::stamp_of;
use vstd::prelude::*;
use vstd::string::*;

verus! {

/// A step of the pipeline, as it is reported while it runs.
#[derive(Debug, Clone, Copy, PartialEq, Eq, Structural)]
pub enum Progress {
    Entered(Stage),
    Finished { stage: Stage, ms: u64, ok: bool },
}

/// An event of the stream.
#[derive(Debug)]
pub struct Event {
    pub name: &'static str,
    pub data: Json,
}

impl Event {
    /// Whether the event has this name and these fields.
    pub open spec fn says(self, name: Seq<char>, fields: Seq<(Seq<char>, JsonV)>) -> bool {
        self.name@ == name && self.data@ == JsonV::Obj(fields)
    }
}

/// What an event on the progress of a stage says.
pub open spec fn progress_fields(p: Progress) -> Seq<(Seq<char>, JsonV)> {
    match p {
        Progress::Entered(stage) => no_fields().push(("stage"@, JsonV::Str(stage.name()))).push(
            ("status"@, JsonV::Str("started"@)),
        ),
        Progress::Finished { stage, ms, ok } => no_fields().push(
            ("stage"@, JsonV::Str(stage.name())),
        ).push(
            (
                "status"@,
                JsonV::Str(
                    if ok {
                        "ok"@
                    } else {
                        "failed"@
                    },
                ),
            ),
        ).push(("ms"@, JsonV::Num(Num::Uint(ms)))),
    }
}

pub fn progress_event(p: &Progress) -> (r: Event)
    ensures
        r.says("stage"@, progress_fields(*p)),
{
    let f = match p {
        Progress::Entered(stage) => Fields::new().with("stage", Json::text(stage.as_str())).with(
            "status",
            Json::text("started"),
        ),
        Progress::Finished { stage, ms, ok } => {
            let status: &str = if *ok {
                "ok"
            } else {
                "failed"
            };
            Fields::new().with("stage", Json::text(stage.as_str())).with(
                "status",
                Json::text(status),
            ).with("ms", Json::count(*ms))
        },
    };
    Event { name: "stage", data: f.done() }
}

/// What an event on an error says.
pub open spec fn error_fields(code: Seq<char>, message: Seq<char>) -> Seq<(Seq<char>, JsonV)> {
    no_fields().push(("code"@, JsonV::Str(code))).push(("message"@, JsonV::Str(message)))
}

pub fn error_event(code: &str, message: &str) -> (r: Event)
    ensures
        r.says("error"@, error_fields(code@, message@)),
{
    let f = Fields::new().with("code", Json::text(code)).with("message", Json::text(message));
    Event { name: "error", data: f.done() }
}

/// The event that tells of an error of the pipeline.
pub fn failure_event(e: &RecallError) -> (r: Event)
    ensures
        r.says("error"@, error_fields(e.code_name(), e.wording())),
{
    error_event(e.code(), e.message().as_str())
}

/// What the last event of a stream says.
pub open spec fn done_fields(ask: Ask) -> Seq<(Seq<char>, JsonV)> {
    no_fields().push(("ask_id"@, JsonV::Str(id_view(ask.ask_id)))).push(
        (
            "usage"@,
            JsonV::Obj(
                no_fields().push(
                    ("candidates"@, JsonV::Num(Num::Uint(ask.candidates@.len() as u64))),
                ).push(("admitted"@, JsonV::Num(Num::Uint(ask.admitted@.len() as u64)))),
            ),
        ),
    )
}

pub fn done_event(ask: &Ask) -> (r: Event)
    ensures
        r.says("done"@, done_fields(*ask)),
{
    let usage = Fields::new().with("candidates", Json::count(ask.candidates.len() as u64)).with(
        "admitted",
        Json::count(ask.admitted.len() as u64),
    );
    let f = Fields::new().with("ask_id", Json::Str(id_text(ask.ask_id))).with(
        "usage",
        usage.done(),
    );
    Event { name: "done", data: f.done() }
}

/// A moment as the client is told it: nothing where there is none.
pub open spec fn moment_view(t: Option<Timestamp>) -> JsonV {
    match t {
        Some(t) => match stamp_of(t.secs, t.nanos) {
            Some(s) => JsonV::Str(s),
            None => JsonV::Null,
        },
        None => JsonV::Null,
    }
}

/// What the client is told of a citation.
pub open spec fn citation_view(c: Citation) -> JsonV {
    JsonV::Obj(
        no_fields().push(("id"@, JsonV::Str(id_view(c.id)))).push(
            ("index"@, JsonV::Num(Num::Uint(c.index as u64))),
        ).push(("statement"@, JsonV::Str(c.statement@))).push(("noul"@, real_view(c.noul))).push(
            ("origin"@, JsonV::Str(c.origin@)),
        ).push(("grantor_name"@, opt_text_view(c.grantor_name))).push(
            ("source"@, opt_text_view(c.source)),
        ).push(("occurred_at"@, moment_view(c.occurred_at))).push(
            ("route"@, JsonV::Str(c.route.name())),
        ).push(("text"@, JsonV::Str(c.text@))),
    )
}

/// What the client is told of the citations of an ask, in order.
pub open spec fn citations_view(cites: Seq<Citation>) -> JsonV {
    JsonV::Arr(cites.map_values(|c: Citation| citation_view(c)))
}

fn citation(c: &Citation) -> (r: Json)
    ensures
        r@ == citation_view(*c),
{
    let occurred: Json = match c.occurred_at {
        Some(t) => match stamp(t) {
            Some(s) => Json::Str(s),
            None => Json::Null,
        },
        None => Json::Null,
    };
    let f = Fields::new().with("id", Json::Str(id_text(c.id))).with(
        "index",
        Json::count(c.index as u64),
    ).with("statement", Json::text(c.statement.as_str())).with("noul", Json::double(c.noul)).with(
        "origin",
        Json::text(c.origin.as_str()),
    ).with("grantor_name", Json::opt_text(&c.grantor_name)).with(
        "source",
        Json::opt_text(&c.source),
    ).with("occurred_at", occurred).with("route", Json::text(c.route.as_str())).with(
        "text",
        Json::text(c.text.as_str()),
    );
    f.done()
}

fn citations(cites: &Vec<Citation>) -> (r: Json)
    ensures
        r@ == citations_view(cites@),
{
    let ghost all = cites@.map_values(|c: Citation| citation_view(c));
    let mut out: Vec<Json> = Vec::new();
    let mut i: usize = 0;
    assert(items_view(out@) =~= all.take(0));
    while i < cites.len()
        invariant
            i <= cites@.len(),
            all == cites@.map_values(|c: Citation| citation_view(c)),
            items_view(out@) == all.take(i as int),
        decreases cites@.len() - i,
    {
        let one = citation(&cites[i]);
        proof {
            lemma_items_push(out@, one);
        }
        out.push(one);
        assert(items_view(out@) =~= all.take(i + 1));
        i = i + 1;
    }
    assert(all.take(i as int) =~= all);
    Json::array(out)
}

/// What the event on an admission says: what was let in, and out of how many.
pub open spec fn admitted_fields(ask: Ask) -> Seq<(Seq<char>, JsonV)> {
    no_fields().push(("citations"@, citations_view(ask.admitted@))).push(
        ("candidate_count"@, JsonV::Num(Num::Uint(ask.candidates@.len() as u64))),
    )
}

/// The event on an admission.
pub fn admitted_event(ask: &Ask) -> (r: Event)
    ensures
        r.says("admitted"@, admitted_fields(*ask)),
{
    let f = Fields::new().with("citations", citations(&ask.admitted)).with(
        "candidate_count",
        Json::count(ask.candidates.len() as u64),
    );
    Event { name: "admitted", data: f.done() }
}

/// The reply to an ask that is answered in one piece.
pub fn sync_reply(ask: &Ask) -> (r: Json)
    ensures
        r@ == JsonV::Obj(
            no_fields().push(("ask_id"@, JsonV::Str(id_view(ask.ask_id)))).push(
                (
                    "text"@,
                    JsonV::Str(
                        match ask.answer {
                            Some(a) => a@,
                            None => Seq::empty(),
                        },
                    ),
                ),
            ).push(("citations"@, citations_view(ask.admitted@))).push(
                ("empty"@, JsonV::Bool(ask.empty)),
            ).push(("usage"@, JsonV::Obj(no_fields()))),
        ),
{
    let text: Json = match &ask.answer {
        Some(a) => Json::text(a.as_str()),
        None => Json::Str(String::new()),
    };
    let f = Fields::new().with("ask_id", Json::Str(id_text(ask.ask_id))).with("text", text).with(
        "citations",
        citations(&ask.admitted),
    ).with("empty", Json::Bool(ask.empty)).with("usage", Fields::new().done());
    f.done()
}

/// How a stream goes on once the candidates were filtered.
#[derive(Debug)]
pub enum Opening {
    /// Nothing was let in: the client is told so, and the stream ends.
    Empty { ask: Ask, told: Event, done: Event },
    /// The client is told what was let in, then the answer is streamed from it.
    Cited { cites: AdmittedCitations, told: Event, stream: AnswerStream },
}

/// An answer being streamed, and what of it was sent so far.
#[derive(Debug)]
pub struct AnswerStream {
    pub ask: Ask,
    pub answer: String,
}

/// Decides how a stream goes on once the candidates were filtered.
pub fn open_answer(ask: Ask) -> (r: Opening)
    ensures
        match r {
            Opening::Empty { ask: empty, told, done } => {
                &&& ask.admitted@.len() == 0
                &&& told.says(
                    "empty"@,
                    no_fields().push(("reason"@, JsonV::Str("no_admitted_citation"@))),
                )
                &&& done.says("done"@, done_fields(empty))
                &&& empty.empty && (empty.answer matches Some(a) && a@ == EMPTY_ADMIT_TEXT@)
                &&& empty.admitted@.len() == 0 && empty.conflicts@.len() == 0
                &&& empty == (Ask {
                    answer: empty.answer,
                    empty: true,
                    admitted: empty.admitted,
                    conflicts: empty.conflicts,
                    ..ask
                })
            },
            Opening::Cited { cites, told, stream } => {
                &&& ask.admitted@.len() > 0
                &&& told.says("admitted"@, admitted_fields(ask))
                &&& cites.included() == ask.admitted@ && cites.conflicting() == ask.conflicts@
                &&& stream.ask == ask && stream.answer@.len() == 0
            },
        },
{
    match ask.citations_for_generate() {
        Some(cites) => {
            let told = admitted_event(&ask);
            Opening::Cited { cites, told, stream: AnswerStream { ask, answer: String::new() } }
        },
        None => {
            let empty = ask.into_empty_admit();
            let f = Fields::new().with("reason", Json::text("no_admitted_citation"));
            let done = done_event(&empty);
            Opening::Empty { ask: empty, told: Event { name: "empty", data: f.done() }, done }
        },
    }
}

impl AnswerStream {
    /// A piece of the answer came: it is sent on, and kept.
    pub fn on_piece(&mut self, text: &str) -> (r: Event)
        ensures
            r.says("token"@, no_fields().push(("text"@, JsonV::Str(text@)))),
            final(self).answer@ == old(self).answer@ + text@,
            final(self).ask == old(self).ask,
    {
        self.answer.append(text);
        let f = Fields::new().with("text", Json::text(text));
        Event { name: "token", data: f.done() }
    }

    /// The stream broke off. What was sent cannot be taken back, so nothing is retried: the client
    /// is told, and keeps what it has.
    pub fn on_break(self, e: &RecallError) -> (r: (Ask, Event))
        ensures
            r.0 == (Ask { answer: Some(self.answer), ..self.ask }),
            r.1.says("error"@, error_fields(e.code_name(), e.wording())),
    {
        let event = failure_event(e);
        let mut ask = self.ask;
        ask.answer = Some(self.answer);
        (ask, event)
    }

    /// The answer is complete.
    pub fn on_end(self, ms: u64) -> (r: (Ask, Event))
        ensures
            r.0 == (Ask { answer: Some(self.answer), stages: r.0.stages, ..self.ask }),
            r.0.stages@ == self.ask.stages@.push(
                StageRecord { stage: Stage::Generate, ms, ok: true },
            ),
            r.1.says("done"@, done_fields(r.0)),
    {
        let mut ask = self.ask;
        ask.stages.push(StageRecord { stage: Stage::Generate, ms, ok: true });
        ask.answer = Some(self.answer);
        let event = done_event(&ask);
        (ask, event)
    }
}

} // verus!
