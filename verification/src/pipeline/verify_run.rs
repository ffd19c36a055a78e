//! The verification of a draft, claim by claim. What a claim says of a memory is asked of the
//! scorer; the run says what to ask next and takes the answers.

use crate::pipeline::verify::{attribute_uncited, local_verdict, memory_cites, split_claims};
#[allow(unused_imports)]
use crate::pipeline::verify::{
    best_section, cites_of, claims, law_strip_keeps_the_rest, local, no_section, sections, tokens,
    unfailed, weight,
};
use crate::score::Score;
#[allow(unused_imports)]
use crate::text::views;
use crate::types::{AdmittedCitations, ClaimVerdict};
use vstd::prelude::*;

verus! {

/// Whether a claim without a citation can be attributed to a section.
pub open spec fn attributable(claim: Seq<char>, admitted: AdmittedCitations) -> bool {
    tokens(claim).len() >= 2 && !no_section(tokens(claim), sections(admitted.every()))
}

/// The index and the section that the scorer is asked about for a claim, if it is asked: the
/// memory that the claim cites first, or the section that a claim without citations is about.
pub open spec fn relates(claim: Seq<char>, admitted: AdmittedCitations) -> Option<
    (usize, Seq<char>),
> {
    let secs = sections(admitted.every());
    if cites_of(claim).len() == 0 {
        if attributable(claim, admitted) {
            Some(secs[choose|k: int| best_section(tokens(claim), secs, k)])
        } else {
            None
        }
    } else if local(claim, admitted) is None {
        let index = cites_of(claim)[0];
        Some(
            (
                index,
                match admitted.under(index) {
                    Some(c) => c.text@,
                    None => Seq::empty(),
                },
            ),
        )
    } else {
        None
    }
}

/// Whether `v` is what the local checks say of a claim that the scorer is not asked about.
pub open spec fn settles(
    claim: Seq<char>,
    admitted: AdmittedCitations,
    v: ClaimVerdict,
) -> bool {
    &&& relates(claim, admitted) is None
    &&& v.claim@ == claim
    &&& local(claim, admitted) == Some((v.verdict@, v.memory_index))
}

/// The verdict that an answer of the scorer amounts to: what it chose, unless it is not sure
/// enough.
pub open spec fn judged(choice: Seq<char>, confidence: Score, min: Score) -> Seq<char> {
    if confidence.below(min) {
        "unsupported"@
    } else {
        choice
    }
}

/// Two sections that are both the best are the same.
proof fn lemma_best_unique(
    words: Set<Seq<char>>,
    secs: Seq<(usize, Seq<char>)>,
    a: int,
    b: int,
)
    requires
        best_section(words, secs, a),
        best_section(words, secs, b),
    ensures
        a == b,
{
    assert(weight(words, secs[a]) <= weight(words, secs[b]));
    assert(weight(words, secs[b]) <= weight(words, secs[a]));
}

/// What is to be done about one claim.
#[derive(Debug)]
pub enum ClaimPlan {
    /// The local checks decide.
    Settled(ClaimVerdict),
    /// The scorer is asked how the section relates to the claim.
    Relate { index: usize, section: String },
}

/// What is to be done about a claim.
pub fn plan_claim(claim: &str, admitted: &AdmittedCitations) -> (r: ClaimPlan)
    ensures
        match r {
            ClaimPlan::Settled(v) => settles(claim@, *admitted, v),
            ClaimPlan::Relate { index, section } => relates(claim@, *admitted) == Some(
                (index, section@),
            ),
        },
{
    match local_verdict(claim, admitted) {
        Some(v) => {
            if v.memory_index.is_none() {
                if let Some((index, section)) = attribute_uncited(claim, admitted) {
                    proof {
                        let secs = sections(admitted.every());
                        let words = tokens(claim@);
                        let k = choose|k: int| #[trigger]
                            best_section(words, secs, k) && secs[k] == (index, section@);
                        lemma_best_unique(words, secs, k, choose|k: int| best_section(words, secs, k));
                    }
                    return ClaimPlan::Relate { index, section: section.to_owned() };
                }
            }
            ClaimPlan::Settled(v)
        },
        None => {
            let index: usize = memory_cites(claim)[0];
            let section: String = match admitted.by_index(index) {
                Some(c) => c.text.clone(),
                None => String::new(),
            };
            ClaimPlan::Relate { index, section }
        },
    }
}

/// A verification under way.
#[derive(Debug)]
pub struct VerifyRun {
    parts: Vec<String>,
    verdicts: Vec<ClaimVerdict>,
    asked: Option<usize>,
}

/// A question for the scorer: how does the section relate to the claim?
#[derive(Debug)]
pub struct Relation {
    pub claim: String,
    pub section: String,
}

impl VerifyRun {
    /// The claims of the draft.
    pub closed spec fn claims(self) -> Seq<Seq<char>> {
        views(self.parts@)
    }

    /// The verdicts so far.
    pub closed spec fn given(self) -> Seq<ClaimVerdict> {
        self.verdicts@
    }

    /// The index of the memory that the scorer was asked about, while its answer is awaited.
    pub closed spec fn awaited(self) -> Option<usize> {
        self.asked
    }

    /// The verdicts are those of the first claims, in order, and an answer is awaited only for a
    /// claim that has none.
    pub open spec fn wf(self) -> bool {
        &&& self.given().len() <= self.claims().len()
        &&& forall|k: int|
            0 <= k < self.given().len() ==> (#[trigger] self.given()[k]).claim@ == self.claims()[k]
        &&& self.awaited() is Some ==> self.given().len() < self.claims().len()
    }

    /// Every claim has its verdict.
    pub open spec fn complete(self) -> bool {
        self.given().len() == self.claims().len()
    }

    pub fn start(text: &str) -> (r: VerifyRun)
        ensures
            r.wf(),
            r.claims() == claims(text@),
            r.given().len() == 0,
            r.awaited() is None,
    {
        VerifyRun { parts: split_claims(text), verdicts: Vec::new(), asked: None }
    }

    /// Settles claims up to the next one that the scorer must be asked about.
    pub fn advance(&mut self, admitted: &AdmittedCitations) -> (r: Option<Relation>)
        requires
            old(self).wf(),
            old(self).awaited() is None,
        ensures
            final(self).wf(),
            final(self).claims() == old(self).claims(),
            old(self).given().is_prefix_of(final(self).given()),
            forall|k: int|
                old(self).given().len() <= k < final(self).given().len() ==> settles(
                    final(self).claims()[k],
                    *admitted,
                    #[trigger] final(self).given()[k],
                ),
            r is None <==> final(self).complete(),
            r is None ==> final(self).awaited() is None,
            r matches Some(q) ==> q.claim@ == final(self).claims()[final(self).given().len() as int]
                && (final(self).awaited() matches Some(index) && relates(q.claim@, *admitted)
                == Some((index, q.section@))),
    {
        while self.verdicts.len() < self.parts.len()
            invariant
                self.wf(),
                self.awaited() is None,
                self.claims() == old(self).claims(),
                old(self).given().is_prefix_of(self.given()),
                forall|k: int|
                    old(self).given().len() <= k < self.given().len() ==> settles(
                        self.claims()[k],
                        *admitted,
                        #[trigger] self.given()[k],
                    ),
            decreases self.parts@.len() - self.verdicts@.len(),
        {
            let ghost before = self.given();
            let claim = self.parts[self.verdicts.len()].clone();
            assert(claim@ == self.claims()[before.len() as int]);
            match plan_claim(claim.as_str(), admitted) {
                ClaimPlan::Settled(v) => {
                    self.verdicts.push(v);
                    assert(self.given() == before.push(v));
                },
                ClaimPlan::Relate { index, section } => {
                    self.asked = Some(index);
                    assert(self.given() == before);
                    return Some(Relation { claim, section });
                },
            }
        }
        None
    }

    /// Takes the scorer's answer to what was asked last.
    pub fn answer(&mut self, choice: String, confidence: Score, min: Score)
        requires
            old(self).wf(),
            old(self).awaited() is Some,
        ensures
            final(self).wf(),
            final(self).claims() == old(self).claims(),
            final(self).awaited() is None,
            final(self).given().len() == old(self).given().len() + 1,
            old(self).given().is_prefix_of(final(self).given()),
            final(self).given().last().verdict@ == judged(choice@, confidence, min),
            final(self).given().last().memory_index == old(self).awaited(),
    {
        let claim = self.parts[self.verdicts.len()].clone();
        assert(claim@ == self.claims()[self.given().len() as int]);
        let verdict: String = if confidence.lt(min) {
            "unsupported".to_owned()
        } else {
            choice
        };
        let ghost before = self.given();
        let v = ClaimVerdict { claim, verdict, memory_index: self.asked };
        self.verdicts.push(v);
        self.asked = None;
        assert(self.given() == before.push(v));
    }

    /// The verdicts, one for each claim of the draft, in order.
    pub fn finish(self) -> (r: Vec<ClaimVerdict>)
        requires
            self.wf(),
            self.complete(),
        ensures
            r@ == self.given(),
            r@.len() == self.claims().len(),
    {
        self.verdicts
    }
}

/// The local checks never support a claim: only the scorer can.
pub proof fn law_support_is_asked_for(
    claim: Seq<char>,
    admitted: AdmittedCitations,
    v: ClaimVerdict,
)
    requires
        settles(claim, admitted, v),
    ensures
        !v.supported(),
{
    reveal_strlit("supports");
    reveal_strlit("unsupported");
    reveal_strlit("fabricated");
    assert("supports"@.len() == 8);
    assert("unsupported"@.len() == 11);
    assert("fabricated"@.len() == 10);
}

/// An answer supports a claim only where the scorer chose so and was sure enough.
pub proof fn law_support_needs_confidence(choice: Seq<char>, confidence: Score, min: Score)
    ensures
        judged(choice, confidence, min) == "supports"@ <==> choice == "supports"@
            && !confidence.below(min),
{
    reveal_strlit("supports");
    reveal_strlit("unsupported");
    assert("supports"@.len() == 8);
    assert("unsupported"@.len() == 11);
}

/// Only verified text is published: once every claim of a draft has its verdict, a claim that
/// survives is one that a verdict supports.
pub proof fn law_published_claims_are_supported(
    run: VerifyRun,
    text: Seq<char>,
    claim: Seq<char>,
)
    requires
        run.wf(),
        run.complete(),
        run.claims() == claims(text),
        unfailed(claims(text), run.given()).contains(claim),
    ensures
        exists|k: int|
            0 <= k < run.given().len() && (#[trigger] run.given()[k]).claim@ == claim
                && run.given()[k].supported(),
{
    law_strip_keeps_the_rest(claims(text), run.given(), claim);
    let k = choose|k: int| 0 <= k < claims(text).len() && claims(text)[k] == claim;
    assert(run.given()[k].claim@ == claim);
}

} // verus!
