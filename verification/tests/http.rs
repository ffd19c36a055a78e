use recall::config::{Config, Env};
use recall::http::ask::{
    admitted_event, done_event, error_event, failure_event, open_answer, progress_event, sync_reply,
    Opening, Progress,
};
use recall::http::auth::{constant_time_eq, require_service_token};
use recall::http::health::{healthz, probed, readyz, Check, PROBE_LIMIT_MS};
use recall::http::index::{
    default_sensitivity, default_state, delete_reply, put_reply, UpsertChunk,
};
use recall::http::{router, Handler, Method};
use recall::error::{after_attempt, IndexFault, RecallError, Retry};
use recall::score::{Score, ONE_BITS};
use recall::store::record_of;
use recall::json::Json;
use recall::types::{
    Ask, AskRequest, Candidate, Citation, FilterRoute, Stage, StageRecord, Timestamp,
    EMPTY_ADMIT_TEXT,
};

#[test]
fn compares_exactly() {
    assert!(constant_time_eq(b"tok", b"tok"));
    assert!(!constant_time_eq(b"tok", b"tox"));
    assert!(!constant_time_eq(b"tok", b"token"), "length must not match");
    assert!(!constant_time_eq(b"", b"x"));
}

#[test]
fn only_the_token_passes() {
    assert_eq!(require_service_token(Some("tok"), Some("Bearer tok")), Ok(()));
    assert_eq!(require_service_token(Some("tok"), Some("Bearer  tok \n")), Ok(()));
    assert_eq!(
        require_service_token(Some("tok"), Some("Bearer tox")),
        Err("invalid service token")
    );
    assert_eq!(
        require_service_token(Some("tok"), Some("Basic tok")),
        Err("missing Bearer service token")
    );
    assert_eq!(require_service_token(Some("tok"), None), Err("missing Bearer service token"));
    assert_eq!(
        require_service_token(None, Some("Bearer ")),
        Err("service token not configured")
    );
}

#[test]
fn the_corpus_is_behind_the_token() {
    let open: Vec<&str> = router(true).iter().filter(|r| !r.protected).map(|r| r.path).collect();
    assert_eq!(open, vec!["/healthz", "/readyz"]);
    assert_eq!(router(true).len(), 7);
    let read_only = router(false);
    assert_eq!(read_only.len(), 5);
    assert!(read_only.iter().all(|r| r.method == Method::Get || r.method == Method::Post));
    let put = router(true).into_iter().find(|r| r.handler == Handler::PutChunk).unwrap();
    assert_eq!(put.path, "/v1/index/chunks/{id}");
    assert_eq!(put.method, Method::Put);
    assert!(put.protected);
}

fn cfg() -> Config {
    Config::from_env(&Env { vars: vec![], decimals: vec![] })
}

#[test]
fn readiness_needs_every_dependency() {
    let up = Check { ms: 3, ok: true };
    let down = Check { ms: 9, ok: false };
    let (status, body) = readyz(up, up, up, up, &cfg());
    assert_eq!(status, 200);
    assert_eq!(body.bool_at("ok"), Some(true));
    let (status, body) = readyz(up, up, down, up, &cfg());
    assert_eq!(status, 503);
    assert_eq!(body.bool_at("ok"), Some(false));
    assert_eq!(body.bool_at("system_one"), Some(false));
    assert_eq!(body.u64_at("system_one_ms"), Some(9));
    assert_eq!(body.bool_at("generator"), Some(true));
    assert_eq!(body.bool_at("admit_threshold_calibrated"), Some(false));
    assert_eq!(f64::from_bits(body.score_at("admit_threshold").unwrap().bits), 0.1);
    assert_eq!(healthz().bool_at("ok"), Some(true));
}

#[test]
fn a_dependency_that_never_answers_is_down() {
    assert_eq!(probed(Some(true), 5), Check { ms: 5, ok: true });
    assert_eq!(probed(Some(false), 5), Check { ms: 5, ok: false });
    assert_eq!(probed(None, PROBE_LIMIT_MS), Check { ms: PROBE_LIMIT_MS, ok: false });
    let up = probed(Some(true), 1);
    let (status, body) = readyz(up, up, up, probed(None, PROBE_LIMIT_MS), &cfg());
    assert_eq!(status, 503);
    assert_eq!(body.bool_at("generator"), Some(false));
}

fn chunk() -> UpsertChunk<f32> {
    UpsertChunk {
        brain_id: 1,
        text: "text".into(),
        statement: "statement".into(),
        embedding: None,
        origin: "granted".into(),
        grantor_brain_id: None,
        grantor_name: Some("Ana".into()),
        sensitivity: default_sensitivity(),
        valid_from: None,
        valid_to: None,
        state: default_state(),
    }
}

fn refused(c: &UpsertChunk<f32>) -> String {
    match c.validate() {
        Err(RecallError::BadRequest(why)) => why,
        other => panic!("{other:?}"),
    }
}

#[test]
fn a_chunk_must_keep_the_rules() {
    assert!(chunk().validate().is_ok());
    let mut c = chunk();
    c.sensitivity = "secret".into();
    assert_eq!(refused(&c), "sensitivity 'secret' is never indexed");
    let mut c = chunk();
    c.state = "pending".into();
    assert_eq!(refused(&c), "state 'pending' is never indexed");
    let mut c = chunk();
    c.sensitivity = "odd".into();
    assert_eq!(refused(&c), "unknown sensitivity 'odd'");
    let mut c = chunk();
    c.origin = "odd".into();
    assert_eq!(refused(&c), "unknown origin 'odd'");
    let mut c = chunk();
    c.grantor_name = None;
    assert_eq!(refused(&c), "granted chunks must carry a grantor_name");
    c.origin = "personal".into();
    assert!(c.validate().is_ok());
    let mut c = chunk();
    c.statement = " \n".into();
    assert_eq!(refused(&c), "text and statement must be non-empty");
    let mut c = chunk();
    c.embedding = Some(vec![0.0; 3]);
    assert_eq!(refused(&c), "embedding must have 768 dimensions, got 3");
    c.embedding = Some(vec![0.0; 768]);
    assert!(c.validate().is_ok());
    assert_eq!(chunk().embed_text(), "statement text");
    assert_eq!(put_reply(255).str_at("id"), Some("00000000-0000-0000-0000-0000000000ff"));
    assert_eq!(put_reply(255).bool_at("ok"), Some(true));
    assert_eq!(delete_reply(1, 4).u64_at("deleted"), Some(4));
}

fn ask() -> Ask {
    Ask::new(
        0x10,
        AskRequest { brain_id: 2, question: "Q?".into(), as_of: None, trace_id: None },
    )
}

fn cite(id: u128) -> Citation {
    Citation {
        id,
        index: 0,
        statement: "s".into(),
        noul: Score { bits: ONE_BITS },
        origin: "personal".into(),
        grantor_name: None,
        source: None,
        occurred_at: None,
        route: FilterRoute::Include,
        text: "t".into(),
    }
}

fn cand(id: u128, noul: Option<f64>) -> Candidate {
    Candidate {
        id,
        statement: "s".into(),
        text: "t".into(),
        origin: "personal".into(),
        grantor_name: None,
        source: None,
        occurred_at: None,
        rrf_score: Score { bits: 0.5f64.to_bits() },
        noul: noul.map(|x| Score { bits: x.to_bits() }),
        injection: None,
        contradicts: None,
        relevant: None,
        evidence: None,
        route: None,
    }
}

#[test]
fn a_stream_without_evidence_says_so_and_ends() {
    match open_answer(ask()) {
        Opening::Empty { ask, told, done } => {
            assert_eq!(told.name, "empty");
            assert_eq!(told.data.str_at("reason"), Some("no_admitted_citation"));
            assert_eq!(done.name, "done");
            assert_eq!(
                done.data.str_at("ask_id"),
                Some("00000000-0000-0000-0000-000000000010")
            );
            assert!(ask.empty);
            assert_eq!(ask.answer.as_deref(), Some(EMPTY_ADMIT_TEXT));
        }
        other => panic!("{other:?}"),
    }
}

#[test]
fn a_stream_sends_and_keeps_its_pieces() {
    let mut a = ask();
    a.admitted.push(cite(1));
    a.candidates.push(cand(1, None));
    let mut stream = match open_answer(a) {
        Opening::Cited { cites, told, stream } => {
            assert_eq!(cites.len(), 1);
            assert_eq!(told.name, "admitted");
            assert_eq!(told.data.u64_at("candidate_count"), Some(1));
            stream
        }
        other => panic!("{other:?}"),
    };
    let e = stream.on_piece("Ana ");
    assert_eq!(e.name, "token");
    assert_eq!(e.data.str_at("text"), Some("Ana "));
    stream.on_piece("was");
    let (done, event) = stream.on_end(12);
    assert_eq!(done.answer.as_deref(), Some("Ana was"));
    assert_eq!(done.stages, vec![StageRecord { stage: Stage::Generate, ms: 12, ok: true }]);
    assert_eq!(event.name, "done");
    let usage = event.data.get("usage").unwrap();
    assert_eq!(usage.u64_at("candidates"), Some(1));
    assert_eq!(usage.u64_at("admitted"), Some(1));
}

#[test]
fn the_client_is_told_what_was_let_in() {
    let mut a = ask();
    let mut c = cite(7);
    c.occurred_at = Some(Timestamp { secs: 1_431_648_000, nanos: 500_000_000 });
    c.source = Some("mail".into());
    a.admitted.push(c);
    a.candidates.push(cand(7, None));
    a.candidates.push(cand(8, None));
    let e = admitted_event(&a);
    assert_eq!(e.name, "admitted");
    assert_eq!(e.data.u64_at("candidate_count"), Some(2));
    let told = match e.data.get("citations") {
        Some(Json::Arr(items)) => &items[0],
        other => panic!("{other:?}"),
    };
    assert_eq!(told.str_at("id"), Some("00000000-0000-0000-0000-000000000007"));
    assert_eq!(told.str_at("occurred_at"), Some("2015-05-15T00:00:00.500Z"));
    assert_eq!(told.str_at("source"), Some("mail"));
    assert_eq!(told.str_at("route"), Some("include"));
    assert!(matches!(told.get("grantor_name"), Some(Json::Null)));
    a.answer = Some("So it is.".into());
    let reply = sync_reply(&a);
    assert_eq!(reply.str_at("text"), Some("So it is."));
    assert_eq!(reply.str_at("ask_id"), Some("00000000-0000-0000-0000-000000000010"));
    assert_eq!(reply.bool_at("empty"), Some(false));
    assert!(matches!(reply.get("citations"), Some(Json::Arr(items)) if items.len() == 1));
    assert!(matches!(reply.get("usage"), Some(Json::Obj(fields)) if fields.is_empty()));
}

#[test]
fn a_broken_stream_keeps_what_was_sent() {
    let mut a = ask();
    a.admitted.push(cite(1));
    let mut stream = match open_answer(a) {
        Opening::Cited { stream, .. } => stream,
        other => panic!("{other:?}"),
    };
    stream.on_piece("half");
    let e = RecallError::Timeout { stage: Stage::Generate, ms: 7 };
    let (kept, event) = stream.on_break(&e);
    assert_eq!(kept.answer.as_deref(), Some("half"));
    assert!(kept.stages.is_empty());
    assert_eq!(event.name, "error");
    assert_eq!(event.data.str_at("code"), Some("timeout"));
    assert_eq!(event.data.str_at("message"), Some("generate timed out after 7ms"));
}

#[test]
fn progress_is_told_per_stage() {
    let e = progress_event(&Progress::Entered(Stage::Kind));
    assert_eq!(e.name, "stage");
    assert_eq!(e.data.str_at("stage"), Some("kind"));
    assert_eq!(e.data.str_at("status"), Some("started"));
    let e = progress_event(&Progress::Finished { stage: Stage::Admit, ms: 5, ok: false });
    assert_eq!(e.data.str_at("stage"), Some("admit"));
    assert_eq!(e.data.str_at("status"), Some("failed"));
    assert_eq!(e.data.u64_at("ms"), Some(5));
    assert_eq!(error_event("c", "m").data.str_at("message"), Some("m"));
    assert_eq!(failure_event(&RecallError::NotFound).data.str_at("code"), Some("not_found"));
    assert_eq!(done_event(&ask()).name, "done");
}

#[test]
fn a_record_keeps_what_was_rejected() {
    let mut a = ask();
    a.candidates.push(cand(1, Some(0.25)));
    a.candidates.push(cand(2, Some(0.75)));
    a.candidates.push(cand(3, None));
    a.admitted.push(cite(2));
    a.stages.push(StageRecord { stage: Stage::Verify, ms: 9, ok: true });
    let r = record_of(&a);
    match r.candidates {
        Json::Arr(list) => {
            assert_eq!(list.len(), 3);
            assert_eq!(list[0].bool_at("admitted"), Some(false));
            assert_eq!(f64::from_bits(list[0].score_at("noul").unwrap().bits), 0.25);
            assert_eq!(list[1].bool_at("admitted"), Some(true));
            assert_eq!(f64::from_bits(list[1].score_at("noul").unwrap().bits), 1.0);
            assert!(matches!(list[2].get("noul"), Some(Json::Null)));
            assert_eq!(f64::from_bits(list[2].score_at("rrf_score").unwrap().bits), 0.5);
        }
        other => panic!("{other:?}"),
    }
    match r.admitted_ids {
        Json::Arr(list) => {
            assert_eq!(list.len(), 1);
            assert_eq!(list[0].as_str(), Some("00000000-0000-0000-0000-000000000002"));
        }
        other => panic!("{other:?}"),
    }
    match r.stages {
        Json::Arr(list) => {
            assert_eq!(list[0].str_at("stage"), Some("verify"));
            assert_eq!(list[0].u64_at("ms"), Some(9));
            assert_eq!(list[0].bool_at("ok"), Some(true));
        }
        other => panic!("{other:?}"),
    }
}

fn upstream(timeout: bool, connect: bool, request: bool) -> RecallError {
    RecallError::Upstream { stage: Stage::Embed, timeout, connect, request, source: "why".into() }
}

fn status(status: u16) -> RecallError {
    RecallError::UpstreamStatus { stage: Stage::Verify, status, body: "b".into() }
}

#[test]
fn errors_have_their_code_status_and_words() {
    let all = vec![
        (
            RecallError::Timeout { stage: Stage::Admit, ms: 50 },
            "timeout",
            504,
            "admit timed out after 50ms",
        ),
        (upstream(false, false, false), "upstream_error", 502, "embed upstream failed: why"),
        (status(418), "upstream_error", 502, "verify returned 418: b"),
        (
            RecallError::Index { fault: IndexFault::Other, source: "db".into() },
            "index_error",
            500,
            "index query failed: db",
        ),
        (RecallError::BadRequest("no".into()), "bad_request", 400, "invalid request: no"),
        (RecallError::AtCapacity, "at_capacity", 503, "at capacity"),
        (RecallError::NotFound, "not_found", 404, "ask not found"),
    ];
    for (e, code, status, words) in all {
        assert_eq!(e.code(), code);
        assert_eq!(e.status(), status);
        assert_eq!(e.message(), words);
        let r = e.reply();
        assert_eq!((r.code, r.status, r.message.as_str()), (code, status, words));
        assert_eq!(r.retry_after, if code == "at_capacity" { Some(2) } else { None });
    }
}

#[test]
fn only_transient_errors_are_retried_and_only_once() {
    for e in [
        RecallError::Timeout { stage: Stage::Kind, ms: 1 },
        upstream(true, false, false),
        upstream(false, true, false),
        upstream(false, false, true),
        status(500),
        status(429),
        RecallError::Index { fault: IndexFault::PoolTimedOut, source: "".into() },
        RecallError::Index { fault: IndexFault::Io, source: "".into() },
        RecallError::Index { fault: IndexFault::PoolClosed, source: "".into() },
    ] {
        assert!(e.is_transient());
        assert!(matches!(after_attempt::<u8>(true, Err(e)), Retry::Again));
    }
    for e in [
        upstream(false, false, false),
        status(404),
        RecallError::Index { fault: IndexFault::Other, source: "".into() },
        RecallError::BadRequest("".into()),
        RecallError::AtCapacity,
        RecallError::NotFound,
    ] {
        assert!(!e.is_transient());
        assert!(matches!(after_attempt::<u8>(true, Err(e)), Retry::Give(Err(_))));
    }
    assert!(matches!(after_attempt::<u8>(false, Err(status(500))), Retry::Give(Err(_))));
    assert!(matches!(after_attempt(true, Ok(1u8)), Retry::Give(Ok(1))));
}
