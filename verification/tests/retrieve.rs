use recall::pipeline::retrieve::{candidates_of, rrf_merge, SearchRow};
use recall::score::Score;
use recall::types::{Candidate, Timestamp};

fn score(x: f64) -> Score {
    Score { bits: x.to_bits() }
}

fn value(s: Score) -> f64 {
    f64::from_bits(s.bits)
}

fn cand(id: u128, origin: &str) -> Candidate {
    Candidate {
        id,
        statement: format!("{origin}-{id}"),
        text: format!("{origin}-{id}"),
        origin: origin.into(),
        grantor_name: None,
        source: None,
        occurred_at: None,
        rrf_score: score(0.0),
        noul: None,
        injection: None,
        contradicts: None,
        relevant: None,
        evidence: None,
        route: None,
    }
}

fn row(id: u128, text: &str) -> SearchRow {
    SearchRow {
        id,
        text: text.into(),
        memory_id: None,
        memory_statement: None,
        score: None,
        origin: None,
        grantor_name: None,
        source_name: None,
        source_channel: None,
        occurred_at: None,
        sensitivity: None,
        state: None,
    }
}

#[test]
fn rrf_keeps_granted_lexical_hit_instead_of_truncating_personal() {
    let personal: Vec<_> = (1..=32).map(|i| cand(i, "personal")).collect();
    let granted = vec![cand(99, "granted")];
    let out = rrf_merge(personal, granted, 32);
    assert!(
        out.iter().any(|c| c.id == 99),
        "granted rank-1 must survive fusion; concat+truncate dropped it"
    );
    assert_eq!(out.len(), 32);
}

#[test]
fn rrf_dedups_by_memory_id_and_caps() {
    let a = cand(1, "personal");
    let dup = cand(1, "granted");
    let out = rrf_merge(vec![a], vec![dup], 4);
    assert_eq!(out.len(), 1);
    assert!(value(out[0].rrf_score) > 1.0 / 61.0);
}

#[test]
fn secret_and_pending_never_become_candidates() {
    let mut secret = row(1, "x");
    secret.sensitivity = Some("secret".into());
    let mut pending = row(2, "y");
    pending.state = Some("pending".into());
    assert_eq!(secret.sensitivity.as_deref(), Some("secret"));
    assert_eq!(pending.state.as_deref(), Some("pending"));

    let (out, withheld) = candidates_of(&vec![secret, row(3, "z"), pending], "personal");
    assert_eq!(withheld, 2);
    assert_eq!(out.len(), 1);
    assert_eq!(out[0].id, 3);
}

#[test]
fn fusion_scores_are_those_of_doubles() {
    let personal: Vec<_> = (1..=50).map(|i| cand(i, "personal")).collect();
    let granted: Vec<_> = (20..=90).map(|i| cand(i, "granted")).collect();
    let out = rrf_merge(personal, granted, 1000);
    assert_eq!(out.len(), 90);
    for c in &out {
        let mut want = 0.0;
        if c.id <= 50 {
            want += 1.0 / (60.0 + (c.id - 1) as f64 + 1.0);
        }
        if c.id >= 20 {
            want += 1.0 / (60.0 + (c.id - 20) as f64 + 1.0);
        }
        assert_eq!(c.rrf_score.bits, f64::to_bits(want), "id {}", c.id);
    }
    for pair in out.windows(2) {
        let (a, b) = (&pair[0], &pair[1]);
        assert!(
            value(a.rrf_score) > value(b.rrf_score)
                || (a.rrf_score == b.rrf_score && a.id < b.id)
        );
    }
}

#[test]
fn the_first_entry_of_a_memory_is_kept() {
    let out = rrf_merge(vec![cand(7, "personal")], vec![cand(8, "granted"), cand(7, "granted")], 9);
    assert_eq!(out[0].id, 7);
    assert_eq!(out[0].origin, "personal");
    assert_eq!(out[0].rrf_score.bits, (1.0f64 / 61.0 + 1.0 / 62.0).to_bits());
    assert_eq!(out[1].id, 8);
}

#[test]
fn nothing_is_kept_where_nothing_may_be() {
    assert!(rrf_merge(vec![cand(1, "personal")], vec![], 0).is_empty());
    assert!(rrf_merge(vec![], vec![], 5).is_empty());
}

#[test]
fn a_row_becomes_its_memory() {
    let mut r = row(1, "chunk");
    r.memory_id = Some(9);
    r.memory_statement = Some("statement".into());
    r.source_channel = Some("mail".into());
    r.score = Some(score(0.5));
    r.grantor_name = Some("Ana".into());
    r.occurred_at = Some(Timestamp { secs: 5, nanos: 6 });
    r.sensitivity = Some("sensitive".into());
    let plain = row(2, "bare");
    let (out, withheld) = candidates_of(&vec![r, plain], "granted");
    assert_eq!(withheld, 0);
    assert_eq!(out[0].id, 9);
    assert_eq!(out[0].statement, "statement");
    assert_eq!(out[0].text, "chunk");
    assert_eq!(out[0].source.as_deref(), Some("mail"));
    assert_eq!(out[0].rrf_score, score(0.5));
    assert_eq!(out[0].grantor_name.as_deref(), Some("Ana"));
    assert_eq!(out[0].occurred_at, Some(Timestamp { secs: 5, nanos: 6 }));
    assert_eq!(out[1].id, 2);
    assert_eq!(out[1].statement, "bare");
    assert_eq!(out[1].origin, "granted");
}

#[test]
fn neither_list_crowds_out_the_other() {
    let personal: Vec<Candidate> = (100..140).map(|id| cand(id, "personal")).collect();
    let granted: Vec<Candidate> = (0..10).map(|id| cand(id, "granted")).collect();
    let merged = rrf_merge(personal, granted, 20);
    for p in 0..10usize {
        let mine = merged.iter().position(|c| c.id == 100 + p as u128).unwrap();
        let theirs = merged.iter().position(|c| c.id == p as u128).unwrap();
        assert!(mine < 2 * p + 2 && theirs < 2 * p + 2);
    }
}
