use recall::clients::systemone::{FilterScores, KindResult};
use recall::config::{Config, Env};
use recall::pipeline::kind::{is_chitchat, settle_kind};
use recall::pipeline::run::{all_ok, count_supported, AskRun, Phase};
use recall::score::Score;
use recall::types::{
    AskRequest, Candidate, ClaimVerdict, FilterRoute, Stage, StageRecord, Timestamp,
    EMPTY_ADMIT_TEXT,
};

fn score(x: f64) -> Score {
    Score { bits: x.to_bits() }
}

fn cfg() -> Config {
    Config::from_env(&Env { vars: vec![], decimals: vec![] })
}

fn start() -> AskRun {
    AskRun::start(
        1,
        AskRequest { brain_id: 2, question: "When?".into(), as_of: None, trace_id: None },
    )
    .unwrap()
}

fn kind(choice: &str, confidence: f64) -> KindResult {
    KindResult { choice: choice.into(), confidence: score(confidence) }
}

fn cand(id: u128) -> Candidate {
    Candidate {
        id,
        statement: "Ana was born on March 14.".into(),
        text: "Ana was born on March 14.".into(),
        origin: "personal".into(),
        grantor_name: None,
        source: None,
        occurred_at: None,
        rrf_score: score(0.0),
        noul: None,
        injection: None,
        contradicts: None,
        relevant: None,
        evidence: None,
        route: None,
    }
}

fn good() -> FilterScores {
    FilterScores {
        injection: score(0.0),
        contradicts: score(0.0),
        relevant: score(0.9),
        evidence: score(0.8),
    }
}

fn verdict(claim: &str, verdict: &str) -> ClaimVerdict {
    ClaimVerdict { claim: claim.into(), verdict: verdict.into(), memory_index: Some(0) }
}

fn admitted() -> AskRun {
    let cfg = cfg();
    let mut run = start();
    run.on_kind(&kind("atomic_lookup", 0.9), 1, &cfg);
    run.on_embedded(2);
    run.on_retrieved(vec![cand(7)], 3);
    run.on_scored(&vec![(7, good())], 4, &cfg);
    run
}

#[test]
fn a_question_must_have_words() {
    let r = AskRun::start(
        1,
        AskRequest { brain_id: 2, question: " \n".into(), as_of: None, trace_id: None },
    );
    assert_eq!(r.unwrap_err(), "question must not be empty");
}

#[test]
fn an_unsure_kind_is_a_lookup() {
    let k = settle_kind(&kind("chitchat", 0.5), score(0.8));
    assert_eq!(k.kind, "atomic_lookup");
    assert!(k.fell_back);
    assert_eq!(k.confidence, score(0.5));
    let k = settle_kind(&kind("chitchat", 0.8), score(0.8));
    assert_eq!(k.kind, "chitchat");
    assert!(!k.fell_back);
    assert!(is_chitchat("chitchat", score(0.8), score(0.8)));
    assert!(!is_chitchat("chitchat", score(0.79), score(0.8)));
    assert!(!is_chitchat("temporal", score(0.9), score(0.8)));
}

#[test]
fn small_talk_needs_no_memory() {
    let cfg = cfg();
    let mut run = start();
    assert!(!run.on_kind(&kind("chitchat", 0.95), 5, &cfg));
    assert_eq!(run.phase, Phase::Admitted);
    assert!(run.ask.chitchat);
    run.begin_answer(&cfg);
    assert_eq!(run.phase, Phase::Chitchat);
    run.on_chitchat("Hi!".into(), 6);
    assert_eq!(run.phase, Phase::Done);
    assert_eq!(run.ask.answer.as_deref(), Some("Hi!"));
    assert_eq!(run.ask.stages.len(), 2);
}

#[test]
fn candidates_keep_their_scores_and_routes() {
    let run = admitted();
    assert_eq!(run.phase, Phase::Admitted);
    let c = &run.ask.candidates[0];
    assert_eq!(c.evidence, Some(score(0.8)));
    assert_eq!(c.noul, Some(score(0.8)));
    assert_eq!(c.relevant, Some(score(0.9)));
    assert_eq!(c.route, Some(FilterRoute::Include));
    assert_eq!(run.ask.admitted.len(), 1);
    let stages: Vec<Stage> = run.ask.stages.iter().map(|s| s.stage).collect();
    assert_eq!(stages, vec![Stage::Kind, Stage::Embed, Stage::Retrieve, Stage::Admit]);
}

#[test]
fn nothing_admitted_never_reaches_the_generator() {
    let cfg = cfg();
    let mut run = start();
    run.on_kind(&kind("temporal", 0.9), 1, &cfg);
    run.on_embedded(2);
    run.on_retrieved(vec![cand(7)], 3);
    run.on_scored(&vec![], 4, &cfg);
    run.begin_answer(&cfg);
    assert_eq!(run.phase, Phase::Done);
    assert!(run.ask.empty);
    assert_eq!(run.ask.answer.as_deref(), Some(EMPTY_ADMIT_TEXT));
    assert!(run.cites.is_none());
}

#[test]
fn a_supported_draft_is_published() {
    let cfg = cfg();
    let mut run = admitted();
    run.begin_answer(&cfg);
    assert_eq!(run.phase, Phase::Generate { attempt: 0 });
    assert_eq!(run.cites.as_ref().unwrap().len(), 1);
    run.on_draft("Born \"March 14\" [memory_0].".into(), 5, &cfg);
    assert_eq!(run.phase, Phase::Verify { attempt: 0 });
    run.on_verdicts(vec![verdict("Born \"March 14\" [memory_0].", "supports")], 6, &cfg);
    assert_eq!(run.phase, Phase::Done);
    assert!(!run.ask.empty);
    assert_eq!(run.ask.answer.as_deref(), Some("Born \"March 14\" [memory_0]."));
    assert_eq!(run.ask.admitted.len(), 1);
    assert_eq!(run.ask.verdicts.len(), 1);
}

#[test]
fn a_draft_is_replaced_once_and_then_stripped() {
    let cfg = cfg();
    let mut run = admitted();
    run.begin_answer(&cfg);
    run.on_draft("Bad. Good.".into(), 5, &cfg);
    run.on_verdicts(vec![verdict("Bad.", "fabricated"), verdict("Good.", "supports")], 6, &cfg);
    assert_eq!(run.phase, Phase::Generate { attempt: 1 });
    assert!(run.ask.answer.is_none());
    run.on_draft("Bad. Good.".into(), 7, &cfg);
    run.on_verdicts(vec![verdict("Bad.", "fabricated"), verdict("Good.", "supports")], 8, &cfg);
    assert_eq!(run.phase, Phase::Done);
    assert_eq!(run.ask.answer.as_deref(), Some("Good."));
    assert_eq!(run.ask.admitted.len(), 1);
    assert_eq!(run.ask.stages.len(), 8);
}

#[test]
fn a_draft_of_which_nothing_is_left_is_empty() {
    let mut cfg = cfg();
    cfg.verify_regen_max = 0;
    let mut run = admitted();
    run.begin_answer(&cfg);
    run.on_draft("Bad.".into(), 5, &cfg);
    run.on_verdicts(vec![verdict("Bad.", "contradicts")], 6, &cfg);
    assert_eq!(run.phase, Phase::Done);
    assert!(run.ask.empty);
    assert_eq!(run.ask.answer.as_deref(), Some(EMPTY_ADMIT_TEXT));
    assert!(run.ask.admitted.is_empty());
}

#[test]
fn a_failed_stage_ends_the_ask() {
    let mut run = start();
    run.on_failure(9);
    assert_eq!(run.phase, Phase::Failed);
    assert_eq!(run.ask.stages, vec![StageRecord { stage: Stage::Kind, ms: 9, ok: false }]);
}

#[test]
fn verdicts_are_counted() {
    let vs = vec![verdict("a", "supports"), verdict("b", "unsupported"), verdict("c", "supports")];
    assert_eq!(count_supported(&vs), 2);
    assert!(!all_ok(&vs));
    assert!(all_ok(&vec![]));
}

#[test]
fn a_question_is_about_now_unless_it_says_when() {
    let now = Timestamp { secs: 9, nanos: 0 };
    let mut run = start();
    assert_eq!(run.ask.as_of_or(now), now);
    let then = Timestamp { secs: 1, nanos: 2 };
    run.ask.as_of = Some(then);
    assert_eq!(run.ask.as_of_or(now), then);
}
