use recall::clients::systemone::{
    argmax, choice_of, choice_of_relate, filter_request, filter_request_at, is_laya, kind_request,
    read_filter, read_kind, read_relate, relate_request, Answer, SystemOneClient, CONTRADICTS,
};
use recall::error::RecallError;
use recall::json::{Fields, Json};
use recall::score::Score;
use recall::types::{Candidate, Stage, Timestamp};

fn score(x: f64) -> Score {
    Score { bits: x.to_bits() }
}

fn value(s: Score) -> f64 {
    f64::from_bits(s.bits)
}

fn answer(noul: Option<f64>) -> Answer {
    Answer { noul: noul.map(score), choice: None, confidence: None, probabilities: None }
}

fn cand(id: u128) -> Candidate {
    Candidate {
        id,
        statement: "s".into(),
        text: format!("text {id}"),
        origin: "granted".into(),
        grantor_name: Some("Ana".into()),
        source: None,
        occurred_at: None,
        rrf_score: score(0.0),
        noul: None,
        injection: None,
        contradicts: None,
        relevant: None,
        evidence: None,
        route: None,
    }
}

#[test]
fn relate_confidence_is_the_chosen_class_probability() {
    let a = Answer {
        noul: None,
        choice: Some("supports".into()),
        confidence: Some(score(0.435)),
        probabilities: Some(vec![
            ("supports".into(), score(0.7939)),
            ("contradicts".into(), score(0.048)),
            ("says_nothing".into(), score(0.1581)),
        ]),
    };
    let r = choice_of_relate(&a);
    assert_eq!(r.choice, "supports");
    assert!((value(r.confidence) - 0.7939).abs() < 1e-9);
}

#[test]
fn a_choice_without_its_probability_keeps_the_confidence() {
    let mut a = answer(None);
    a.choice = Some("supports".into());
    a.confidence = Some(score(0.4));
    assert_eq!(choice_of_relate(&a).confidence, score(0.4));
    a.probabilities = Some(vec![("contradicts".into(), score(0.9))]);
    assert_eq!(choice_of_relate(&a).confidence, score(0.4));
    a.confidence = None;
    assert_eq!(choice_of_relate(&a).confidence, score(0.0));
}

#[test]
fn without_a_choice_the_most_probable_is_taken() {
    let mut a = answer(None);
    a.probabilities = Some(vec![
        ("one".into(), score(0.2)),
        ("two".into(), score(0.5)),
        ("three".into(), score(0.5)),
        ("four".into(), score(0.1)),
    ]);
    let k = argmax(&a, "none");
    assert_eq!(k.choice, "three");
    assert_eq!(k.confidence, score(0.5));
    a.confidence = Some(score(0.9));
    assert_eq!(choice_of(&a, "none").confidence, score(0.9));
    a.probabilities = Some(vec![]);
    assert_eq!(choice_of(&a, "none").choice, "none");
    a.probabilities = None;
    let k = choice_of(&a, "none");
    assert_eq!(k.choice, "none");
    assert_eq!(k.confidence, score(0.0));
    assert_eq!(choice_of_relate(&a).choice, "says_nothing");
}

fn text<'a>(v: &'a Json, path: &[&str]) -> &'a str {
    let mut at = v;
    for key in path {
        at = at.get(key).unwrap();
    }
    at.as_str().unwrap()
}

#[test]
fn requests_name_model_state_and_questions() {
    let k = kind_request("When?");
    assert_eq!(text(&k, &["model"]), "recall-systemone");
    assert_eq!(text(&k, &["state", "question"]), "When?");
    assert_eq!(text(&k, &["questions", "kind", "type"]), "choice");
    assert_eq!(
        text(&k, &["questions", "kind", "criteria", "chitchat"]),
        "Greeting, thanks, or small talk with no memory claim."
    );
    let r = relate_request("c", "s");
    assert_eq!(text(&r, &["state", "claim"]), "c");
    assert_eq!(text(&r, &["state", "section"]), "s");
    assert_eq!(
        text(&r, &["questions", "relate", "criteria", "says_nothing"]),
        "The section is silent on the claim."
    );
}

#[test]
fn each_candidate_is_asked_about_on_four_aspects() {
    let q = filter_request("When?", "2024-01-01T00:00:00+00:00", &[cand(7), cand(8)]);
    assert_eq!(text(&q, &["state", "as_of"]), "2024-01-01T00:00:00+00:00");
    match q.get("state").unwrap().get("candidates").unwrap() {
        Json::Arr(list) => {
            assert_eq!(list.len(), 2);
            assert_eq!(text(&list[1], &["id"]), "m1");
            assert_eq!(text(&list[1], &["grantor"]), "Ana");
            assert_eq!(text(&list[1], &["text"]), "text 8");
        }
        other => panic!("{other:?}"),
    }
    match q.get("questions").unwrap() {
        Json::Obj(list) => assert_eq!(list.len(), 8),
        other => panic!("{other:?}"),
    }
    assert_eq!(text(&q, &["questions", "m1_contradicts", "instructions"]), CONTRADICTS);
    assert_eq!(text(&q, &["questions", "m1_contradicts", "about"]), "m1");
    assert_eq!(text(&q, &["questions", "m0_evidence", "type"]), "noul");
}

#[test]
fn the_moment_of_a_question_is_written_out() {
    let at = Timestamp { secs: 1_431_648_000, nanos: 0 };
    let q = filter_request_at("When?", at, &[cand(1)]).unwrap().unwrap();
    assert_eq!(text(&q, &["state", "as_of"]), "2015-05-15T00:00:00+00:00");
    let never = Timestamp { secs: i64::MAX, nanos: 0 };
    match filter_request_at("When?", never, &[cand(1)]) {
        Err(RecallError::BadRequest(why)) => assert_eq!(why, "as_of is out of range"),
        other => panic!("{other:?}"),
    }
}

#[test]
fn nothing_to_score_is_not_asked_about() {
    for secs in [0, i64::MAX] {
        assert!(filter_request_at("When?", Timestamp { secs, nanos: 0 }, &[]).unwrap().is_none());
    }
}

fn all(i: usize) -> Vec<(String, Answer)> {
    vec![
        (format!("m{i}_injection"), answer(Some(-0.5))),
        (format!("m{i}_contradicts"), answer(Some(0.25))),
        (format!("m{i}_relevant"), answer(Some(1.5))),
        (format!("m{i}_evidence"), answer(Some(1.0))),
    ]
}

#[test]
fn scores_are_held_between_zero_and_one() {
    let mut answers = all(1);
    answers.extend(all(0));
    let scores = read_filter(&answers, &[cand(7), cand(8)]).unwrap();
    assert_eq!(scores.len(), 2);
    assert_eq!(scores[0].0, 7);
    assert_eq!(scores[1].0, 8);
    assert_eq!(scores[1].1.injection, score(0.0));
    assert_eq!(scores[1].1.contradicts, score(0.25));
    assert_eq!(scores[1].1.relevant, score(1.0));
    assert_eq!(scores[1].1.evidence, score(1.0));
}

fn omitted(e: RecallError, want: Stage, what: &str) {
    match e {
        RecallError::UpstreamStatus { stage, status, body } => {
            assert_eq!(stage, want);
            assert_eq!(status, 502);
            assert_eq!(body, format!("system one omitted {what}"));
        }
        other => panic!("{other:?}"),
    }
}

#[test]
fn an_omitted_answer_is_an_error() {
    let mut answers = all(0);
    answers.extend(all(1));
    answers[6].1.noul = None;
    let e = read_filter(&answers, &[cand(7), cand(8)]).unwrap_err();
    omitted(e, Stage::Admit, "m1_relevant");
    omitted(read_filter(&vec![], &[cand(7)]).unwrap_err(), Stage::Admit, "m0_injection");
    omitted(read_kind(&vec![]).unwrap_err(), Stage::Kind, "kind");
    omitted(read_relate(&vec![]).unwrap_err(), Stage::Verify, "relate");
    assert!(read_filter(&vec![], &[]).unwrap().is_empty());
}

#[test]
fn answers_are_read_by_name() {
    let mut a = answer(None);
    a.choice = Some("temporal".into());
    a.confidence = Some(score(0.9));
    let k = read_kind(&vec![("other".into(), answer(None)), ("kind".into(), a)]).unwrap();
    assert_eq!(k.choice, "temporal");
    assert_eq!(k.confidence, score(0.9));
    let r = read_relate(&vec![("relate".into(), answer(None))]).unwrap();
    assert_eq!(r.choice, "says_nothing");
}

#[test]
fn only_the_real_backend_is_healthy() {
    assert!(SystemOneClient::healthy_laya(true, r#"{"backend":"laya"}"#));
    assert!(!SystemOneClient::healthy_laya(true, r#"{"backend":"stub"}"#));
    assert!(!SystemOneClient::healthy_laya(false, r#"{"backend":"laya"}"#));
    assert!(!SystemOneClient::healthy_laya(true, "laya"));
    let f = Fields::new().with("backend", Json::text("laya"));
    assert!(is_laya(&f.done()));
    assert!(!is_laya(&Json::Null));
}

#[test]
fn addresses_have_one_slash() {
    let c = SystemOneClient::new("http://host:1//");
    assert_eq!(c.endpoint(), "http://host:1/v1/systemone");
    assert_eq!(c.health_endpoint(), "http://host:1/healthz");
}
