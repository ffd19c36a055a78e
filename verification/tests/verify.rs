use recall::pipeline::verify::{
    apply_publish, attribute_uncited, cited_indices, content_tokens, in_text, local_verdict,
    memory_cites, normalize, quotes, shared_tokens, split_claims, strip_failed,
};
use recall::score::{Score, ONE_BITS};
use recall::types::{AdmittedCitations, Citation, ClaimVerdict, FilterRoute, EMPTY_ADMIT_TEXT};

fn cite(index: usize, text: &str) -> Citation {
    Citation {
        id: index as u128 + 1,
        index,
        statement: text.into(),
        noul: Score { bits: ONE_BITS },
        origin: "personal".into(),
        grantor_name: None,
        source: None,
        occurred_at: None,
        route: FilterRoute::Include,
        text: text.into(),
    }
}

fn citeset(text: &str) -> AdmittedCitations {
    AdmittedCitations::new(vec![cite(0, text)], vec![]).unwrap()
}

fn verdict(claim: &str, verdict: &str, memory_index: Option<usize>) -> ClaimVerdict {
    ClaimVerdict { claim: claim.into(), verdict: verdict.into(), memory_index }
}

#[test]
fn missing_cite_is_unsupported() {
    let v = local_verdict("Ana was born in March.", &citeset("Ana March 14")).unwrap();
    assert_eq!(v.verdict, "unsupported");
}

#[test]
fn missing_quote_is_fabricated() {
    let v = local_verdict("Ana was born in March [memory_0].", &citeset("March 14")).unwrap();
    assert_eq!(v.verdict, "fabricated");
}

#[test]
fn quote_not_in_cited_memory_is_fabricated() {
    let c = citeset("Ana, my younger sister, was born on March 14.");
    let v = local_verdict("The badge PIN is \"3301\" [memory_0].", &c).unwrap();
    assert_eq!(v.verdict, "fabricated");
}

#[test]
fn matching_quote_needs_choice() {
    let c = citeset("Ana, my younger sister, was born on March 14.");
    assert!(local_verdict("Ana was born on \"March 14\" [memory_0].", &c,).is_none());
}

#[test]
fn strip_drops_failed_sentences() {
    let text = "Keep this [memory_0]. Drop this.";
    let vs = vec![
        ClaimVerdict {
            claim: "Keep this [memory_0].".into(),
            verdict: "supports".into(),
            memory_index: Some(0),
        },
        ClaimVerdict {
            claim: "Drop this.".into(),
            verdict: "unsupported".into(),
            memory_index: None,
        },
    ];
    assert_eq!(strip_failed(text, &vs), "Keep this [memory_0].");
}

#[test]
fn apply_publish_drops_uncited_citations() {
    let text = "Only zero [memory_0].";
    let vs = vec![ClaimVerdict {
        claim: "Only zero [memory_0].".into(),
        verdict: "supports".into(),
        memory_index: Some(0),
    }];
    let mut admitted = vec![cite(0, "a"), cite(1, "b")];
    let mut conflicts = vec![];
    let out = apply_publish(text, &vs, &mut admitted, &mut conflicts);
    assert_eq!(out.text, "Only zero [memory_0].");
    assert!(!out.empty);
    assert_eq!(admitted.len(), 1);
    assert_eq!(admitted[0].index, 0);
}

#[test]
fn apply_publish_all_fail_becomes_empty_admit() {
    let text = "Bad [memory_0]. Also bad [memory_1].";
    let vs = vec![
        ClaimVerdict {
            claim: "Bad [memory_0].".into(),
            verdict: "unsupported".into(),
            memory_index: Some(0),
        },
        ClaimVerdict {
            claim: "Also bad [memory_1].".into(),
            verdict: "fabricated".into(),
            memory_index: Some(1),
        },
    ];
    let mut admitted = vec![cite(0, "a"), cite(1, "b")];
    let mut conflicts = vec![];
    let out = apply_publish(text, &vs, &mut admitted, &mut conflicts);
    assert_eq!(out.text, EMPTY_ADMIT_TEXT);
    assert!(out.empty);
    assert!(admitted.is_empty());
    assert!(conflicts.is_empty());
}

#[test]
fn uncited_paraphrase_attributes_the_matching_memory() {
    let cites = AdmittedCitations::new(
        vec![
            cite(0, "Speaker 00 experienced heavy traffic near their house."),
            cite(1, "User is working on a Rust project using Cargo"),
        ],
        vec![],
    )
    .unwrap();
    let (idx, section) =
        attribute_uncited("You are working on a Rust project using Cargo.", &cites).unwrap();
    assert_eq!(idx, 1);
    assert!(section.contains("Cargo"));
}

#[test]
fn persona_sentence_is_not_attributed() {
    let cites = citeset("Speaker 00 experienced heavy traffic near their house.");
    assert!(attribute_uncited("I am the memory of the user, Speaker 00.", &cites).is_none());
}

#[test]
fn apply_publish_keeps_citation_from_memory_index() {
    let text = "You are working on a Rust project using Cargo.";
    let vs = vec![ClaimVerdict {
        claim: text.into(),
        verdict: "supports".into(),
        memory_index: Some(1),
    }];
    let mut admitted = vec![cite(0, "traffic"), cite(1, "cargo")];
    let mut conflicts = vec![];
    let out = apply_publish(text, &vs, &mut admitted, &mut conflicts);
    assert_eq!(out.text, text);
    assert!(!out.empty);
    assert_eq!(admitted.len(), 1);
    assert_eq!(admitted[0].index, 1);
}

#[test]
fn claims_end_at_period_question_mark_and_newline() {
    assert_eq!(
        split_claims(" One. Two?\nThree \n\n four"),
        vec!["One.", "Two?", "Three", "four"]
    );
    assert!(split_claims(" \n \t ").is_empty());
    assert_eq!(split_claims("3.14"), vec!["3.", "14"]);
}

#[test]
fn a_claim_splits_to_itself() {
    for claim in split_claims("First, a thing. Is it? yes\nlast") {
        assert_eq!(split_claims(&claim), vec![claim.clone()]);
    }
}

#[test]
fn cites_are_read_in_order() {
    assert_eq!(memory_cites("a [memory_2] b [memory_0][memory_12]"), vec![2, 0, 12]);
    assert_eq!(memory_cites("[memory_+3]"), vec![3]);
    assert!(memory_cites("[memory_x] [memory_] [memory_1").is_empty());
    assert!(memory_cites("[memory_99999999999999999999999]").is_empty());
    assert_eq!(memory_cites("é [memory_1] “ü”"), vec![1]);
    // The first closing bracket ends the mark, whatever stands before it.
    assert!(memory_cites("[memory_[memory_1]").is_empty());
}

#[test]
fn quotes_of_each_kind_are_read() {
    assert_eq!(quotes("he said \"one\", “two” and 'three'"), vec!["one", "two", "three"]);
    assert!(quotes("\"  \" and “ ”").is_empty());
    assert!(quotes("an open \" quote").is_empty());
    assert_eq!(quotes("“a\"b”"), vec!["a\"b"]);
}

#[test]
fn content_words_are_long_and_lower_case() {
    let mut words = content_tokens("The CAT, the cat and a dog-house in ÉTÉ");
    words.sort();
    assert_eq!(words, vec!["and", "cat", "dog", "house", "the", "été"]);
}

#[test]
fn spans_are_found_whatever_their_case_and_spacing() {
    let low: String = normalize("  “March”  14th'").into_iter().collect();
    assert_eq!(low, "march14th");
    assert!(in_text("MARCH 14", "born on March  14."));
    assert!(!in_text("April", "born on March 14."));
    assert!(!in_text(" ' ", "born on March 14."));
}

#[test]
fn local_verdict_keeps_the_first_cited_index() {
    let c = citeset("Ana was born on March 14.");
    let v = local_verdict("Ana [memory_7] was \"born in May\" [memory_0].", &c).unwrap();
    assert_eq!(v.verdict, "fabricated");
    assert_eq!(v.memory_index, Some(7));
    assert_eq!(v.claim, "Ana [memory_7] was \"born in May\" [memory_0].");
    assert!(local_verdict("She was \"born on March\" [memory_7] [memory_0].", &c).is_none());
}

#[test]
fn the_best_section_is_the_first_of_the_longest_overlap() {
    let cites = AdmittedCitations::new(
        vec![cite(3, "red green"), cite(4, "  red green blue  "), cite(5, "blue green red")],
        vec![cite(6, "red green blue yellow")],
    )
    .unwrap();
    assert_eq!(attribute_uncited("red green blue", &cites), Some((4, "red green blue")));
    assert_eq!(
        attribute_uncited("yellow red green blue", &cites),
        Some((6, "red green blue yellow"))
    );
    assert_eq!(attribute_uncited("red", &cites), None);
}

#[test]
fn cited_indices_are_collected_over_claims() {
    let cited = cited_indices("One [memory_1]. Two [memory_4] [memory_1]? Three.");
    let mut list: Vec<usize> = cited.into_iter().collect();
    list.sort();
    assert_eq!(list, vec![1, 4]);
}

#[test]
fn nothing_failed_nothing_stripped() {
    assert_eq!(strip_failed("One. Two?\nThree", &[]), "One. Two? Three");
}

#[test]
fn a_claim_that_failed_once_is_stripped_everywhere() {
    let vs = vec![verdict("Same.", "supports", None), verdict("Same.", "contradicts", None)];
    assert_eq!(strip_failed("Same. Other. Same.", &vs), "Other.");
}

#[test]
fn publishing_keeps_conflicts_that_are_cited() {
    let text = "It conflicts [memory_1].";
    let vs = vec![verdict(text, "supports", Some(1))];
    let mut admitted = vec![cite(0, "a")];
    let mut conflicts = vec![cite(1, "b"), cite(2, "c")];
    let out = apply_publish(text, &vs, &mut admitted, &mut conflicts);
    assert!(!out.empty);
    assert!(admitted.is_empty());
    assert_eq!(conflicts.len(), 1);
    assert_eq!(conflicts[0].index, 1);
}

#[test]
fn shared_words_are_counted_from_either_side() {
    let (a, b) = ("Ana lives in DENVER, near Ana's aunt.", "The aunt of ana: Denver is far.");
    let n = shared_tokens(&content_tokens(a), b);
    assert_eq!(n, 3);
    assert_eq!(n, shared_tokens(&content_tokens(b), a));
    assert_eq!(shared_tokens(&content_tokens(a), ""), 0);
}

#[test]
fn claims_joined_by_newlines_split_back() {
    for text in ["A b. C?  d\n\ne f", "", " . ? ", "no end", "Ends.\n"] {
        let claims = split_claims(text);
        assert_eq!(split_claims(&claims.join("\n")), claims);
    }
}

#[test]
fn citations_are_those_of_either_part() {
    let (a, b) = ("One [memory_1]. Two [memory_2].", " Three [memory_1] [memory_9]");
    let whole = cited_indices(&format!("{a}{b}"));
    let parts: std::collections::HashSet<usize> =
        cited_indices(a).union(&cited_indices(b)).copied().collect();
    assert_eq!(whole, parts);
}

#[test]
fn a_publication_is_empty_where_every_claim_failed() {
    let text = "A. B.";
    let one = [verdict("A.", "fabricated", None), verdict("B.", "supports", Some(0))];
    let all = [verdict("A.", "fabricated", None), verdict("B.", "unsupported", None)];
    assert!(!apply_publish(text, &one, &mut vec![], &mut vec![]).empty);
    assert!(apply_publish(text, &all, &mut vec![], &mut vec![]).empty);
    assert!(apply_publish(" ", &[], &mut vec![], &mut vec![]).empty);
}
