use recall::clients::systemone::FilterScores;
use recall::config::{Config, Env};
use recall::json::Json;
use recall::pipeline::admission::{decide, ranked_rows, route};
use recall::score::Score;
use recall::types::{Candidate, FilterRoute};

fn score(x: f64) -> Score {
    Score { bits: x.to_bits() }
}

fn cfg(inj: f64, contra: f64, rel: f64, ev: f64, max: usize) -> Config {
    let mut c = Config::from_env(&Env { vars: vec![], decimals: vec![] });
    c.injection_max = score(inj);
    c.contradicts_min = score(contra);
    c.relevant_min = score(rel);
    c.evidence_min = score(ev);
    c.max_citations = max;
    c
}

fn s(inj: f64, contra: f64, rel: f64, ev: f64) -> FilterScores {
    FilterScores {
        injection: score(inj),
        contradicts: score(contra),
        relevant: score(rel),
        evidence: score(ev),
    }
}

fn cand(id: u128, text: &str) -> Candidate {
    Candidate {
        id,
        statement: format!("statement {id}"),
        text: text.into(),
        origin: "personal".into(),
        grantor_name: None,
        source: Some("notes".into()),
        occurred_at: None,
        rrf_score: score(0.0),
        noul: None,
        injection: None,
        contradicts: None,
        relevant: None,
        evidence: None,
        route: None,
    }
}

#[test]
fn policy_order() {
    let c = cfg(0.70, 0.70, 0.45, 0.55, 4);
    assert_eq!(route(s(0.8, 0.0, 1.0, 1.0), &c), FilterRoute::Exclude);
    assert_eq!(route(s(0.1, 0.8, 1.0, 1.0), &c), FilterRoute::Conflict);
    assert_eq!(route(s(0.1, 0.8, 0.2, 0.9), &c), FilterRoute::Exclude);
    assert_eq!(route(s(0.1, 0.1, 0.2, 0.9), &c), FilterRoute::Exclude);
    assert_eq!(route(s(0.1, 0.1, 0.6, 0.6), &c), FilterRoute::Include);
    assert_eq!(route(s(0.1, 0.1, 0.6, 0.4), &c), FilterRoute::Exclude);
}

#[test]
fn citation_cap_is_includes_only() {
    let c = cfg(0.70, 0.70, 0.45, 0.55, 2);
    let includes = 5;
    assert!(includes > c.max_citations);

    let candidates: Vec<Candidate> = (0..8).map(|i| cand(i, "t")).collect();
    let scores: Vec<(u128, FilterScores)> = (0..8)
        .map(|i| {
            let contra = if i < 5 { 0.0 } else { 0.9 };
            (i, s(0.0, contra, 1.0, 0.6 + i as f64 / 100.0))
        })
        .collect();
    let a = decide(&candidates, &scores, &c);
    assert_eq!(a.admitted.len(), 2);
    assert_eq!(a.conflicts.len(), 3);
}

#[test]
fn admitted_come_by_evidence_and_are_numbered_on() {
    let c = cfg(0.70, 0.70, 0.45, 0.55, 4);
    let candidates = vec![cand(10, "a"), cand(11, "b"), cand(12, "c"), cand(13, "d")];
    let scores = vec![
        (10, s(0.0, 0.0, 1.0, 0.6)),
        (11, s(0.0, 0.9, 1.0, 0.9)),
        (12, s(0.0, 0.0, 1.0, 0.8)),
        (13, s(0.0, 0.0, 1.0, 0.6)),
    ];
    let a = decide(&candidates, &scores, &c);
    let ids: Vec<u128> = a.admitted.iter().map(|x| x.id).collect();
    // The stronger first; of two that are as strong, the earlier candidate.
    assert_eq!(ids, vec![12, 10, 13]);
    let numbers: Vec<usize> =
        a.admitted.iter().chain(a.conflicts.iter()).map(|x| x.index).collect();
    assert_eq!(numbers, vec![0, 1, 2, 3]);
    assert_eq!(a.conflicts[0].id, 11);
    assert_eq!(a.conflicts[0].noul, score(0.9));
    assert_eq!(a.conflicts[0].route, FilterRoute::Conflict);
    assert_eq!(a.admitted[0].noul, score(0.8));
    assert_eq!(a.scores.len(), 4);
}

#[test]
fn a_candidate_without_scores_goes_out() {
    let c = cfg(0.70, 0.70, 0.45, 0.55, 4);
    let a = decide(&[cand(1, "a")], &vec![], &c);
    assert!(a.admitted.is_empty());
    assert!(a.conflicts.is_empty());
    assert_eq!(a.scores, vec![(1, FilterScores::default())]);
}

#[test]
fn the_last_scores_of_a_memory_count() {
    let c = cfg(0.70, 0.70, 0.45, 0.55, 4);
    let scores = vec![(1, s(0.0, 0.0, 1.0, 0.1)), (1, s(0.0, 0.0, 1.0, 0.9))];
    assert_eq!(decide(&[cand(1, "a")], &scores, &c).admitted.len(), 1);
}

#[test]
fn no_number_is_neither_relevant_nor_an_injection() {
    let c = cfg(0.70, 0.70, 0.45, 0.55, 4);
    assert_eq!(route(s(f64::NAN, 0.0, 1.0, 1.0), &c), FilterRoute::Include);
    assert_eq!(route(s(0.0, 0.0, 1.0, f64::NAN), &c), FilterRoute::Exclude);
    assert_eq!(route(s(-0.0, 0.0, 0.45, 0.55), &c), FilterRoute::Include);
}

fn field<'a>(v: &'a Json, key: &str) -> &'a Json {
    v.get(key).unwrap()
}

#[test]
fn the_record_ranks_every_candidate() {
    let c = cfg(0.70, 0.70, 0.45, 0.55, 1);
    let mut long = cand(0xa1a2a3a4b1b2c1c2d1d2d3d4d5d6d7d8, "x");
    long.statement = "y".repeat(401);
    let mut same = cand(2, "same");
    same.statement = "same".into();
    let scores = vec![
        (long.id, s(0.0, 0.0, 1.0, f64::NAN)),
        (2, s(0.0, 0.0, 1.0, 0.7)),
    ];
    let rows = match ranked_rows(&[long, same], &scores, &c) {
        Json::Arr(rows) => rows,
        other => panic!("{other:?}"),
    };
    assert_eq!(rows.len(), 2);
    assert_eq!(field(&rows[0], "id").as_str(), Some("00000000-0000-0000-0000-000000000002"));
    assert_eq!(field(&rows[0], "route").as_str(), Some("include"));
    assert_eq!(field(&rows[0], "admitted").as_bool(), Some(true));
    assert!(matches!(field(&rows[0], "text"), Json::Null));
    assert_eq!(field(&rows[0], "noul").as_score(), Some(score(0.7)));
    assert_eq!(field(&rows[1], "id").as_str(), Some("a1a2a3a4-b1b2-c1c2-d1d2-d3d4d5d6d7d8"));
    assert_eq!(field(&rows[1], "statement").as_str().unwrap().chars().count(), 401);
    assert!(field(&rows[1], "statement").as_str().unwrap().ends_with('…'));
    assert_eq!(field(&rows[1], "text").as_str(), Some("x"));
    assert!(matches!(field(&rows[1], "noul"), Json::Null));
    assert_eq!(field(&rows[1], "route").as_str(), Some("exclude"));
    assert_eq!(field(&rows[1], "source").as_str(), Some("notes"));
}

#[test]
fn the_cap_cuts_the_weakest() {
    let cands: Vec<Candidate> = (1..=6).map(|id| cand(id, "a fact")).collect();
    let scores: Vec<(u128, FilterScores)> =
        [0.5, 0.9, 0.2, 0.8, 0.9, 0.1].iter().enumerate().map(|(i, e)| (i as u128 + 1, s(0.0, 0.0, 1.0, *e))).collect();
    let a = decide(&cands, &scores, &cfg(0.7, 0.7, 0.1, 0.1, 3));
    let ids: Vec<u128> = a.admitted.iter().map(|c| c.id).collect();
    assert_eq!(ids, vec![2, 5, 4]);
}
