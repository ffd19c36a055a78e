use recall::pipeline::verify_run::{plan_claim, ClaimPlan, VerifyRun};
use recall::score::{Score, ONE_BITS};
use recall::types::{AdmittedCitations, Citation, FilterRoute};

fn score(x: f64) -> Score {
    Score { bits: x.to_bits() }
}

fn cites() -> AdmittedCitations {
    let one = |index: usize, text: &str| Citation {
        id: index as u128,
        index,
        statement: text.into(),
        noul: Score { bits: ONE_BITS },
        origin: "personal".into(),
        grantor_name: None,
        source: None,
        occurred_at: None,
        route: FilterRoute::Include,
        text: text.into(),
    };
    AdmittedCitations::new(
        vec![one(0, "Ana was born on March 14."), one(1, "The dog house is painted green.")],
        vec![],
    )
    .unwrap()
}

#[test]
fn a_quoted_claim_is_related_to_the_memory_it_cites() {
    match plan_claim("Born \"March 14\" [memory_0].", &cites()) {
        ClaimPlan::Relate { index, section } => {
            assert_eq!(index, 0);
            assert_eq!(section, "Ana was born on March 14.");
        }
        ClaimPlan::Settled(_) => panic!("the scorer must be asked"),
    }
}

#[test]
fn an_uncited_paraphrase_is_related_to_its_section() {
    match plan_claim("Your dog house is green.", &cites()) {
        ClaimPlan::Relate { index, section } => {
            assert_eq!(index, 1);
            assert_eq!(section, "The dog house is painted green.");
        }
        ClaimPlan::Settled(_) => panic!("the scorer must be asked"),
    }
}

#[test]
fn every_claim_gets_one_verdict_in_order() {
    let cites = cites();
    let mut run =
        VerifyRun::start("Hello there. Born \"March 14\" [memory_0]. Your dog house is green.");
    let q = run.advance(&cites).unwrap();
    assert_eq!(q.claim, "Born \"March 14\" [memory_0].");
    assert_eq!(q.section, "Ana was born on March 14.");
    run.answer("supports".into(), score(0.9), score(0.75));
    let q = run.advance(&cites).unwrap();
    assert_eq!(q.claim, "Your dog house is green.");
    run.answer("supports".into(), score(0.6), score(0.75));
    assert!(run.advance(&cites).is_none());
    let verdicts = run.finish();
    assert_eq!(verdicts.len(), 3);
    assert_eq!(verdicts[0].verdict, "unsupported");
    assert_eq!(verdicts[0].memory_index, None);
    assert_eq!(verdicts[1].verdict, "supports");
    assert_eq!(verdicts[1].memory_index, Some(0));
    assert_eq!(verdicts[2].verdict, "unsupported");
    assert_eq!(verdicts[2].memory_index, Some(1));
}

#[test]
fn an_empty_draft_has_no_claims() {
    let mut run = VerifyRun::start("  \n ");
    assert!(run.advance(&cites()).is_none());
    assert!(run.finish().is_empty());
}
