//! What an ask carries from the request to the published answer.

use crate::score::Score;
use crate::text::is_blank;
#[allow(unused_imports)]
use crate::text::trimmed;
use vstd::prelude::*;

verus! {

/// The answer given when nothing was admitted, or nothing survived verification.
pub const EMPTY_ADMIT_TEXT: &'static str = "I don't have that in my memory.";

/// A stage of the pipeline.
#[derive(Debug, Clone, Copy, PartialEq, Eq, Structural)]
pub enum Stage {
    Kind,
    Embed,
    Retrieve,
    Admit,
    Generate,
    Verify,
}

impl Stage {
    /// The name of the stage on the wire and in the log.
    pub open spec fn name(self) -> Seq<char> {
        match self {
            Stage::Kind => "kind"@,
            Stage::Embed => "embed"@,
            Stage::Retrieve => "retrieve"@,
            Stage::Admit => "admit"@,
            Stage::Generate => "generate"@,
            Stage::Verify => "verify"@,
        }
    }

    pub fn as_str(self) -> (r: &'static str)
        ensures
            r@ == self.name(),
    {
        match self {
            Stage::Kind => "kind",
            Stage::Embed => "embed",
            Stage::Retrieve => "retrieve",
            Stage::Admit => "admit",
            Stage::Generate => "generate",
            Stage::Verify => "verify",
        }
    }
}

/// How long a stage took and whether it succeeded.
#[derive(Debug, Clone, Copy, PartialEq, Eq, Structural)]
pub struct StageRecord {
    pub stage: Stage,
    pub ms: u64,
    pub ok: bool,
}

/// Where the filter sends a candidate.
#[derive(Debug, Clone, Copy, PartialEq, Eq, Structural)]
pub enum FilterRoute {
    Include,
    Conflict,
    Exclude,
}

impl FilterRoute {
    /// The name of the route in the log.
    pub open spec fn name(self) -> Seq<char> {
        match self {
            FilterRoute::Include => "include"@,
            FilterRoute::Conflict => "conflict"@,
            FilterRoute::Exclude => "exclude"@,
        }
    }

    pub fn as_str(self) -> (r: &'static str)
        ensures
            r@ == self.name(),
    {
        match self {
            FilterRoute::Include => "include",
            FilterRoute::Conflict => "conflict",
            FilterRoute::Exclude => "exclude",
        }
    }
}

/// A moment: seconds since the Unix epoch and nanoseconds within the second.
#[derive(Debug, Clone, Copy, PartialEq, Eq, Structural)]
pub struct Timestamp {
    pub secs: i64,
    pub nanos: u32,
}

/// A memory that retrieval found, with what the filter made of it.
#[derive(Debug)]
pub struct Candidate {
    pub id: u128,
    pub statement: String,
    pub text: String,
    pub origin: String,
    pub grantor_name: Option<String>,
    pub source: Option<String>,
    pub occurred_at: Option<Timestamp>,
    pub rrf_score: Score,
    pub noul: Option<Score>,
    pub injection: Option<Score>,
    pub contradicts: Option<Score>,
    pub relevant: Option<Score>,
    pub evidence: Option<Score>,
    pub route: Option<FilterRoute>,
}

impl Clone for Candidate {
    fn clone(&self) -> (r: Self)
        ensures
            r == *self,
    {
        Candidate {
            id: self.id,
            statement: self.statement.clone(),
            text: self.text.clone(),
            origin: self.origin.clone(),
            grantor_name: self.grantor_name.clone(),
            source: self.source.clone(),
            occurred_at: self.occurred_at,
            rrf_score: self.rrf_score,
            noul: self.noul,
            injection: self.injection,
            contradicts: self.contradicts,
            relevant: self.relevant,
            evidence: self.evidence,
            route: self.route,
        }
    }
}

/// An admitted memory, under the index by which the answer cites it.
#[derive(Debug)]
pub struct Citation {
    pub id: u128,
    pub index: usize,
    pub statement: String,
    pub noul: Score,
    pub origin: String,
    pub grantor_name: Option<String>,
    pub source: Option<String>,
    pub occurred_at: Option<Timestamp>,
    pub route: FilterRoute,
    pub text: String,
}

impl Clone for Citation {
    fn clone(&self) -> (r: Self)
        ensures
            r == *self,
    {
        Citation {
            id: self.id,
            index: self.index,
            statement: self.statement.clone(),
            noul: self.noul,
            origin: self.origin.clone(),
            grantor_name: self.grantor_name.clone(),
            source: self.source.clone(),
            occurred_at: self.occurred_at,
            route: self.route,
            text: self.text.clone(),
        }
    }
}

/// What verification says of one claim of a draft.
#[derive(Debug)]
pub struct ClaimVerdict {
    pub claim: String,
    pub verdict: String,
    pub memory_index: Option<usize>,
}

impl ClaimVerdict {
    /// Whether the claim may be published.
    pub open spec fn supported(self) -> bool {
        self.verdict@ == "supports"@
    }
}

impl Clone for ClaimVerdict {
    fn clone(&self) -> (r: Self)
        ensures
            r == *self,
    {
        ClaimVerdict {
            claim: self.claim.clone(),
            verdict: self.verdict.clone(),
            memory_index: self.memory_index,
        }
    }
}

/// The citations a draft may be generated from. There is always at least one that the filter
/// let in, so no draft can be asked for without admitted evidence.
#[derive(Debug)]
pub struct AdmittedCitations {
    includes: Vec<Citation>,
    conflicts: Vec<Citation>,
}

impl AdmittedCitations {
    #[verifier::type_invariant]
    spec fn grounded(self) -> bool {
        self.includes@.len() > 0
    }

    /// The memories the filter let in.
    pub closed spec fn included(self) -> Seq<Citation> {
        self.includes@
    }

    /// The memories that contradict a premise of the question.
    pub closed spec fn conflicting(self) -> Seq<Citation> {
        self.conflicts@
    }

    /// Every citation: what was let in, then what conflicts.
    pub open spec fn every(self) -> Seq<Citation> {
        self.included() + self.conflicting()
    }

    /// The first citation under `index`.
    pub open spec fn under(self, index: usize) -> Option<Citation> {
        first_under(self.every(), index)
    }

    /// Nothing where nothing was let in, whatever conflicts.
    pub fn new(includes: Vec<Citation>, conflicts: Vec<Citation>) -> (r: Option<AdmittedCitations>)
        ensures
            r is Some <==> includes@.len() > 0,
            r matches Some(c) ==> c.included() == includes@ && c.conflicting() == conflicts@,
    {
        if includes.len() == 0 {
            None
        } else {
            Some(AdmittedCitations { includes, conflicts })
        }
    }

    pub fn includes(&self) -> (r: &Vec<Citation>)
        ensures
            r@ == self.included(),
            r@.len() > 0,
    {
        proof {
            use_type_invariant(self);
        }
        &self.includes
    }

    pub fn conflicts(&self) -> (r: &Vec<Citation>)
        ensures
            r@ == self.conflicting(),
    {
        &self.conflicts
    }

    /// The number of citations, unless there are more than can be counted.
    pub fn len(&self) -> (r: usize)
        ensures
            r == if self.every().len() <= usize::MAX {
                self.every().len() as usize
            } else {
                usize::MAX
            },
    {
        match self.includes.len().checked_add(self.conflicts.len()) {
            Some(n) => n,
            None => usize::MAX,
        }
    }

    /// The first citation under `index`.
    pub fn by_index(&self, index: usize) -> (r: Option<&Citation>)
        ensures
            match r {
                Some(c) => self.under(index) == Some(*c),
                None => self.under(index) is None,
            },
    {
        let ghost all = self.every();
        let mut i: usize = 0;
        assert(all.skip(0) =~= all);
        while i < self.includes.len()
            invariant
                i <= self.includes@.len(),
                all == self.includes@ + self.conflicts@,
                first_under(all, index) == first_under(all.skip(i as int), index),
            decreases self.includes@.len() - i,
        {
            assert(all.skip(i as int).first() == self.includes@[i as int]);
            if self.includes[i].index == index {
                return Some(&self.includes[i]);
            }
            assert(all.skip(i as int).drop_first() =~= all.skip(i + 1));
            i = i + 1;
        }
        let mut j: usize = 0;
        let ghost n = self.includes@.len();
        while j < self.conflicts.len()
            invariant
                j <= self.conflicts@.len(),
                n == self.includes@.len(),
                all == self.includes@ + self.conflicts@,
                first_under(all, index) == first_under(all.skip(n + j), index),
            decreases self.conflicts@.len() - j,
        {
            assert(all.skip(n + j).first() == self.conflicts@[j as int]);
            if self.conflicts[j].index == index {
                return Some(&self.conflicts[j]);
            }
            assert(all.skip(n + j).drop_first() =~= all.skip(n + j + 1));
            j = j + 1;
        }
        assert(all.skip(n + j).len() == 0);
        None
    }
}

/// A question, as it comes in.
#[derive(Debug)]
pub struct AskRequest {
    pub brain_id: u128,
    pub question: String,
    pub as_of: Option<Timestamp>,
    pub trace_id: Option<u128>,
}

/// Why a question without words is refused.
pub const EMPTY_QUESTION: &'static str = "question must not be empty";

impl AskRequest {
    /// A question must have words.
    pub fn validate(&self) -> (r: Result<(), &'static str>)
        ensures
            r is Ok <==> trimmed(self.question@).len() > 0,
            r matches Err(why) ==> why@ == EMPTY_QUESTION@,
    {
        if is_blank(self.question.as_str()) {
            Err(EMPTY_QUESTION)
        } else {
            Ok(())
        }
    }
}

/// A question on its way to an answer.
#[derive(Debug)]
pub struct Ask {
    pub ask_id: u128,
    pub brain_id: u128,
    pub trace_id: Option<u128>,
    pub question: String,
    pub as_of: Option<Timestamp>,
    pub kind: Option<String>,
    pub kind_confidence: Option<Score>,
    pub chitchat: bool,
    pub candidates: Vec<Candidate>,
    pub admitted: Vec<Citation>,
    pub conflicts: Vec<Citation>,
    pub stages: Vec<StageRecord>,
    pub verdicts: Vec<ClaimVerdict>,
    pub answer: Option<String>,
    pub empty: bool,
}

impl Ask {
    pub fn new(ask_id: u128, req: AskRequest) -> (r: Ask)
        ensures
            r.ask_id == ask_id,
            r.brain_id == req.brain_id,
            r.trace_id == req.trace_id,
            r.question == req.question,
            r.as_of == req.as_of,
            r.kind is None && r.kind_confidence is None && r.answer is None,
            !r.chitchat && !r.empty,
            r.candidates@.len() == 0 && r.admitted@.len() == 0 && r.conflicts@.len() == 0,
            r.stages@.len() == 0 && r.verdicts@.len() == 0,
    {
        Ask {
            ask_id,
            brain_id: req.brain_id,
            trace_id: req.trace_id,
            question: req.question,
            as_of: req.as_of,
            kind: None,
            kind_confidence: None,
            chitchat: false,
            candidates: Vec::new(),
            admitted: Vec::new(),
            conflicts: Vec::new(),
            stages: Vec::new(),
            verdicts: Vec::new(),
            answer: None,
            empty: false,
        }
    }

    /// The moment the question is about, `now` where it names none.
    pub fn as_of_or(&self, now: Timestamp) -> (r: Timestamp)
        ensures
            r == match self.as_of {
                Some(t) => t,
                None => now,
            },
    {
        match self.as_of {
            Some(t) => t,
            None => now,
        }
    }

    /// The citations a draft may be generated from; none where nothing was let in.
    pub fn citations_for_generate(&self) -> (r: Option<AdmittedCitations>)
        ensures
            r is Some <==> self.admitted@.len() > 0,
            r matches Some(c) ==> c.included() == self.admitted@ && c.conflicting()
                == self.conflicts@,
    {
        AdmittedCitations::new(self.admitted.clone(), self.conflicts.clone())
    }

    /// Answers that nothing was admitted, without citations.
    pub fn into_empty_admit(self) -> (r: Ask)
        ensures
            r.answer matches Some(a) && a@ == EMPTY_ADMIT_TEXT@,
            r.empty,
            r.admitted@.len() == 0,
            r.conflicts@.len() == 0,
            r == (Ask {
                answer: r.answer,
                empty: true,
                admitted: r.admitted,
                conflicts: r.conflicts,
                ..self
            }),
    {
        let mut ask = self;
        ask.answer = Some(EMPTY_ADMIT_TEXT.to_owned());
        ask.empty = true;
        ask.admitted = Vec::new();
        ask.conflicts = Vec::new();
        ask
    }
}

/// The first of `cites` under `index`.
pub open spec fn first_under(cites: Seq<Citation>, index: usize) -> Option<Citation>
    decreases cites.len(),
{
    if cites.len() == 0 {
        None
    } else if cites.first().index == index {
        Some(cites.first())
    } else {
        first_under(cites.drop_first(), index)
    }
}

} // verus!
