//! The course of an ask: which stage comes next, and what its outcome does to the ask.

use crate::clients::systemone::{FilterScores, KindResult};
use crate::config::Config;
#[allow(unused_imports)]
use crate::pipeline::admission::{admits, routed, score_of};
use crate::pipeline::admission::{decide, route};
use crate::pipeline::kind::{is_chitchat, settle_kind};
#[allow(unused_imports)]
use crate::pipeline::kind::{small_talk, FALLBACK_KIND};
#[allow(unused_imports)]
use crate::pipeline::verify::{relied_on, stripped};
use crate::pipeline::verify::apply_publish;
use crate::text::same;
#[allow(unused_imports)]
use crate::text::trimmed;
#[allow(unused_imports)]
use crate::types::EMPTY_ADMIT_TEXT;
use crate::types::{
    AdmittedCitations, Ask, AskRequest, Candidate, Citation, ClaimVerdict, Stage, StageRecord,
};
use vstd::prelude::*;

verus! {

/// What an ask is waiting for.
#[derive(Debug, Clone, Copy, PartialEq, Eq, Structural)]
pub enum Phase {
    Kind,
    Embed,
    Retrieve,
    Admit,
    /// Everything before the answer is done.
    Admitted,
    Chitchat,
    /// A draft, after `attempt` that were turned down.
    Generate { attempt: u32 },
    /// The verdicts on that draft.
    Verify { attempt: u32 },
    Done,
    Failed,
}

impl Phase {
    /// The stage that is run in this phase.
    pub open spec fn stage(self) -> Option<Stage> {
        match self {
            Phase::Kind => Some(Stage::Kind),
            Phase::Embed => Some(Stage::Embed),
            Phase::Retrieve => Some(Stage::Retrieve),
            Phase::Admit => Some(Stage::Admit),
            Phase::Chitchat | Phase::Generate { .. } => Some(Stage::Generate),
            Phase::Verify { .. } => Some(Stage::Verify),
            Phase::Admitted | Phase::Done | Phase::Failed => None,
        }
    }

    /// How many steps an ask can still take, where up to `max` drafts may be replaced.
    pub open spec fn steps_left(self, max: u32) -> int {
        let drafts = 2 * max + 3;
        match self {
            Phase::Kind => drafts + 5,
            Phase::Embed => drafts + 4,
            Phase::Retrieve => drafts + 3,
            Phase::Admit => drafts + 2,
            Phase::Admitted => drafts + 1,
            Phase::Chitchat => 1,
            Phase::Generate { attempt } => 2 * (max - attempt) + 2,
            Phase::Verify { attempt } => 2 * (max - attempt) + 1,
            Phase::Done | Phase::Failed => 0,
        }
    }
}

/// A candidate with what the filter made of it.
pub open spec fn scored(c: Candidate, s: FilterScores, cfg: Config) -> Candidate {
    Candidate {
        injection: Some(s.injection),
        contradicts: Some(s.contradicts),
        relevant: Some(s.relevant),
        evidence: Some(s.evidence),
        noul: Some(s.evidence),
        route: Some(routed(s, cfg)),
        ..c
    }
}

/// Whether every verdict supports its claim.
pub open spec fn all_supported(verdicts: Seq<ClaimVerdict>) -> bool {
    forall|k: int| 0 <= k < verdicts.len() ==> (#[trigger] verdicts[k]).supported()
}

/// Whether every verdict supports its claim.
pub fn all_ok(verdicts: &Vec<ClaimVerdict>) -> (r: bool)
    ensures
        r == all_supported(verdicts@),
{
    let mut i: usize = 0;
    while i < verdicts.len()
        invariant
            i <= verdicts@.len(),
            forall|k: int| 0 <= k < i ==> (#[trigger] verdicts@[k]).supported(),
        decreases verdicts@.len() - i,
    {
        if !same(verdicts[i].verdict.as_str(), "supports") {
            assert(!verdicts@[i as int].supported());
            return false;
        }
        i = i + 1;
    }
    true
}

/// How many verdicts support their claim.
pub open spec fn supported_in(verdicts: Seq<ClaimVerdict>) -> nat
    decreases verdicts.len(),
{
    if verdicts.len() == 0 {
        0
    } else {
        supported_in(verdicts.drop_last()) + if verdicts.last().supported() {
            1nat
        } else {
            0
        }
    }
}

/// How many verdicts support their claim.
pub fn count_supported(verdicts: &Vec<ClaimVerdict>) -> (r: usize)
    ensures
        r == supported_in(verdicts@),
{
    let mut n: usize = 0;
    let mut i: usize = 0;
    while i < verdicts.len()
        invariant
            n <= i <= verdicts@.len(),
            n == supported_in(verdicts@.take(i as int)),
        decreases verdicts@.len() - i,
    {
        assert(verdicts@.take(i + 1).drop_last() =~= verdicts@.take(i as int));
        if same(verdicts[i].verdict.as_str(), "supports") {
            n = n + 1;
        }
        i = i + 1;
    }
    assert(verdicts@.take(i as int) =~= verdicts@);
    n
}

/// An ask under way.
#[derive(Debug)]
pub struct AskRun {
    pub ask: Ask,
    pub phase: Phase,
    /// The citations the drafts are made from, once there are any.
    pub cites: Option<AdmittedCitations>,
    /// The draft that is being verified.
    pub draft: String,
}

impl AskRun {
    /// A draft is asked for only with admitted evidence, and no more drafts were turned down than
    /// may be replaced.
    pub open spec fn wf(self, max: u32) -> bool {
        match self.phase {
            Phase::Generate { attempt } | Phase::Verify { attempt } => attempt <= max && (
            self.cites matches Some(c) && c.included() == self.ask.admitted@ && c.conflicting()
                == self.ask.conflicts@ && self.ask.admitted@.len() > 0),
            _ => true,
        }
    }

    pub fn start(ask_id: u128, req: AskRequest) -> (r: Result<AskRun, &'static str>)
        ensures
            r is Ok <==> trimmed(req.question@).len() > 0,
            r matches Ok(run) ==> run.phase == Phase::Kind && run.ask.question == req.question
                && run.ask.ask_id == ask_id && run.ask.brain_id == req.brain_id && run.ask.as_of
                == req.as_of && run.ask.trace_id == req.trace_id && run.ask.stages@.len() == 0
                && run.ask.admitted@.len() == 0 && run.ask.conflicts@.len() == 0
                && run.ask.candidates@.len() == 0 && run.ask.verdicts@.len() == 0 && run.ask.kind
                is None && run.ask.kind_confidence is None && !run.ask.chitchat && !run.ask.empty
                && run.ask.answer is None && run.cites is None && run.draft@.len() == 0,
            r matches Err(why) ==> why@ == crate::types::EMPTY_QUESTION@,
    {
        match req.validate() {
            Ok(_) => Ok(
                AskRun {
                    ask: Ask::new(ask_id, req),
                    phase: Phase::Kind,
                    cites: None,
                    draft: String::new(),
                },
            ),
            Err(why) => Err(why),
        }
    }

    /// Records how a stage went.
    fn record(&mut self, stage: Stage, ms: u64, ok: bool)
        ensures
            *final(self) == (AskRun {
                ask: Ask { stages: final(self).ask.stages, ..old(self).ask },
                ..*old(self)
            }),
            final(self).ask.stages@ == old(self).ask.stages@.push(StageRecord { stage, ms, ok }),
    {
        self.ask.stages.push(StageRecord { stage, ms, ok });
    }

    /// A stage failed: the ask ends there.
    pub fn on_failure(&mut self, ms: u64)
        requires
            old(self).phase.stage() is Some,
        ensures
            *final(self) == (AskRun {
                ask: final(self).ask,
                phase: final(self).phase,
                ..*old(self)
            }),
            final(self).phase == Phase::Failed,
            final(self).ask == (Ask { stages: final(self).ask.stages, ..old(self).ask }),
            final(self).ask.stages@ == old(self).ask.stages@.push(
                StageRecord { stage: old(self).phase.stage()->0, ms, ok: false },
            ),
    {
        let stage: Stage = match self.phase {
            Phase::Kind => Stage::Kind,
            Phase::Embed => Stage::Embed,
            Phase::Retrieve => Stage::Retrieve,
            Phase::Admit => Stage::Admit,
            Phase::Verify { .. } => Stage::Verify,
            _ => Stage::Generate,
        };
        self.record(stage, ms, false);
        self.phase = Phase::Failed;
    }

    /// The scorer said what kind of question it is. Small talk needs no memory.
    pub fn on_kind(&mut self, k: &KindResult, ms: u64, cfg: &Config) -> (fell_back: bool)
        requires
            old(self).phase == Phase::Kind,
        ensures
            *final(self) == (AskRun {
                ask: final(self).ask,
                phase: final(self).phase,
                ..*old(self)
            }),
            fell_back == k.confidence.below(cfg.kind_confidence_min),
            ({
                let kind = if fell_back {
                    FALLBACK_KIND@
                } else {
                    k.choice@
                };
                let talk = small_talk(kind, k.confidence, cfg.kind_confidence_min);
                &&& final(self).ask.kind matches Some(x) && x@ == kind
                &&& final(self).ask.chitchat == (old(self).ask.chitchat || talk)
                &&& final(self).phase == if talk {
                    Phase::Admitted
                } else {
                    Phase::Embed
                }
            }),
            final(self).ask == (Ask {
                kind: final(self).ask.kind,
                kind_confidence: Some(k.confidence),
                chitchat: final(self).ask.chitchat,
                stages: final(self).ask.stages,
                ..old(self).ask
            }),
            final(self).ask.stages@ == old(self).ask.stages@.push(
                StageRecord { stage: Stage::Kind, ms, ok: true },
            ),
            final(self).phase.steps_left(cfg.verify_regen_max) < old(self).phase.steps_left(
                cfg.verify_regen_max,
            ),
    {
        self.record(Stage::Kind, ms, true);
        let choice = settle_kind(k, cfg.kind_confidence_min);
        let talk = is_chitchat(choice.kind.as_str(), choice.confidence, cfg.kind_confidence_min);
        self.ask.kind = Some(choice.kind);
        self.ask.kind_confidence = Some(choice.confidence);
        if talk {
            self.ask.chitchat = true;
            self.phase = Phase::Admitted;
        } else {
            self.phase = Phase::Embed;
        }
        choice.fell_back
    }

    /// The question was embedded.
    pub fn on_embedded(&mut self, ms: u64)
        requires
            old(self).phase == Phase::Embed,
        ensures
            *final(self) == (AskRun {
                ask: final(self).ask,
                phase: final(self).phase,
                ..*old(self)
            }),
            final(self).phase == Phase::Retrieve,
            final(self).ask == (Ask { stages: final(self).ask.stages, ..old(self).ask }),
            final(self).ask.stages@ == old(self).ask.stages@.push(
                StageRecord { stage: Stage::Embed, ms, ok: true },
            ),
    {
        self.record(Stage::Embed, ms, true);
        self.phase = Phase::Retrieve;
    }

    /// The searches came back.
    pub fn on_retrieved(&mut self, candidates: Vec<Candidate>, ms: u64)
        requires
            old(self).phase == Phase::Retrieve,
        ensures
            *final(self) == (AskRun {
                ask: final(self).ask,
                phase: final(self).phase,
                ..*old(self)
            }),
            final(self).phase == Phase::Admit,
            final(self).ask == (Ask {
                candidates,
                stages: final(self).ask.stages,
                ..old(self).ask
            }),
            final(self).ask.stages@ == old(self).ask.stages@.push(
                StageRecord { stage: Stage::Retrieve, ms, ok: true },
            ),
    {
        self.record(Stage::Retrieve, ms, true);
        self.ask.candidates = candidates;
        self.phase = Phase::Admit;
    }

    /// The candidates were scored: each keeps its scores and where it went, and what the filter
    /// let through is cited.
    pub fn on_scored(&mut self, scores: &Vec<(u128, FilterScores)>, ms: u64, cfg: &Config)
        requires
            old(self).phase == Phase::Admit,
        ensures
            *final(self) == (AskRun {
                ask: final(self).ask,
                phase: final(self).phase,
                ..*old(self)
            }),
            final(self).phase == Phase::Admitted,
            admits(
                old(self).ask.candidates@,
                scores@,
                *cfg,
                final(self).ask.admitted@,
                final(self).ask.conflicts@,
            ),
            final(self).ask.candidates@ == old(self).ask.candidates@.map_values(
                |c: Candidate| scored(c, score_of(scores@, c.id), *cfg),
            ),
            final(self).ask == (Ask {
                candidates: final(self).ask.candidates,
                admitted: final(self).ask.admitted,
                conflicts: final(self).ask.conflicts,
                stages: final(self).ask.stages,
                ..old(self).ask
            }),
            final(self).ask.stages@ == old(self).ask.stages@.push(
                StageRecord { stage: Stage::Admit, ms, ok: true },
            ),
    {
        self.record(Stage::Admit, ms, true);
        let admission = decide(self.ask.candidates.as_slice(), scores, cfg);
        let ghost want = self.ask.candidates@.map_values(
            |c: Candidate| scored(c, score_of(scores@, c.id), *cfg),
        );
        let mut out: Vec<Candidate> = Vec::new();
        let mut i: usize = 0;
        while i < self.ask.candidates.len()
            invariant
                i <= self.ask.candidates@.len(),
                want == self.ask.candidates@.map_values(
                    |c: Candidate| scored(c, score_of(scores@, c.id), *cfg),
                ),
                admission.scores@ == self.ask.candidates@.map_values(
                    |c: Candidate| (c.id, score_of(scores@, c.id)),
                ),
                out@ == want.take(i as int),
            decreases self.ask.candidates@.len() - i,
        {
            let s: FilterScores = admission.scores[i].1;
            assert(admission.scores@[i as int] == (
                self.ask.candidates@[i as int].id,
                score_of(scores@, self.ask.candidates@[i as int].id),
            ));
            let mut c = self.ask.candidates[i].clone();
            c.injection = Some(s.injection);
            c.contradicts = Some(s.contradicts);
            c.relevant = Some(s.relevant);
            c.evidence = Some(s.evidence);
            c.noul = Some(s.evidence);
            c.route = Some(route(s, cfg));
            out.push(c);
            assert(out@ =~= want.take(i + 1));
            i = i + 1;
        }
        assert(out@ =~= want);
        self.ask.candidates = out;
        self.ask.admitted = admission.admitted;
        self.ask.conflicts = admission.conflicts;
        self.phase = Phase::Admitted;
    }

    /// Turns to the answer. Small talk is answered without memories; where nothing was let in, the
    /// answer says so and the generator is not reached; else a draft is asked for.
    pub fn begin_answer(&mut self, cfg: &Config)
        requires
            old(self).phase == Phase::Admitted,
        ensures
            final(self).draft == old(self).draft,
            !(final(self).phase is Generate) ==> final(self).cites == old(self).cites,
            final(self).wf(cfg.verify_regen_max),
            final(self).phase == if old(self).ask.chitchat {
                Phase::Chitchat
            } else if old(self).ask.admitted@.len() == 0 {
                Phase::Done
            } else {
                Phase::Generate { attempt: 0 }
            },
            final(self).phase == Phase::Done ==> {
                &&& final(self).ask.answer matches Some(a) && a@ == EMPTY_ADMIT_TEXT@
                &&& final(self).ask.empty
                &&& final(self).ask.admitted@.len() == 0 && final(self).ask.conflicts@.len() == 0
                &&& final(self).ask == (Ask {
                    answer: final(self).ask.answer,
                    empty: true,
                    admitted: final(self).ask.admitted,
                    conflicts: final(self).ask.conflicts,
                    ..old(self).ask
                })
            },
            final(self).phase != Phase::Done ==> final(self).ask == old(self).ask,
            final(self).phase.steps_left(cfg.verify_regen_max) < old(self).phase.steps_left(
                cfg.verify_regen_max,
            ),
    {
        if self.ask.chitchat {
            self.phase = Phase::Chitchat;
            return;
        }
        match self.ask.citations_for_generate() {
            Some(c) => {
                self.cites = Some(c);
                self.phase = Phase::Generate { attempt: 0 };
            },
            None => {
                self.ask.answer = Some(EMPTY_ADMIT_TEXT.to_owned());
                self.ask.empty = true;
                self.ask.admitted = Vec::new();
                self.ask.conflicts = Vec::new();
                self.phase = Phase::Done;
            },
        }
    }

    /// Small talk was answered.
    pub fn on_chitchat(&mut self, text: String, ms: u64)
        requires
            old(self).phase == Phase::Chitchat,
        ensures
            *final(self) == (AskRun {
                ask: final(self).ask,
                phase: final(self).phase,
                ..*old(self)
            }),
            final(self).phase == Phase::Done,
            final(self).ask == (Ask {
                answer: Some(text),
                stages: final(self).ask.stages,
                ..old(self).ask
            }),
            final(self).ask.stages@ == old(self).ask.stages@.push(
                StageRecord { stage: Stage::Generate, ms, ok: true },
            ),
    {
        self.record(Stage::Generate, ms, true);
        self.ask.answer = Some(text);
        self.phase = Phase::Done;
    }

    /// A draft came back. It is verified before anything of it is published.
    pub fn on_draft(&mut self, text: String, ms: u64, cfg: &Config)
        requires
            old(self).wf(cfg.verify_regen_max),
            old(self).phase is Generate,
        ensures
            final(self).wf(cfg.verify_regen_max),
            final(self).phase == (Phase::Verify { attempt: old(self).phase->Generate_attempt }),
            final(self).draft == text,
            final(self).cites == old(self).cites,
            final(self).ask == (Ask { stages: final(self).ask.stages, ..old(self).ask }),
            final(self).ask.stages@ == old(self).ask.stages@.push(
                StageRecord { stage: Stage::Generate, ms, ok: true },
            ),
            final(self).phase.steps_left(cfg.verify_regen_max) < old(self).phase.steps_left(
                cfg.verify_regen_max,
            ),
    {
        self.record(Stage::Generate, ms, true);
        self.draft = text;
        match self.phase {
            Phase::Generate { attempt } => {
                self.phase = Phase::Verify { attempt };
            },
            _ => {},
        }
    }

    /// The verdicts on the draft came back. A draft that is supported throughout is published;
    /// another is asked for while there may be one; after that what is supported is published.
    pub fn on_verdicts(&mut self, verdicts: Vec<ClaimVerdict>, ms: u64, cfg: &Config)
        requires
            old(self).wf(cfg.verify_regen_max),
            old(self).phase is Verify,
        ensures
            final(self).draft == old(self).draft,
            final(self).wf(cfg.verify_regen_max),
            ({
                let attempt = old(self).phase->Verify_attempt;
                let text = stripped(old(self).draft@, verdicts@);
                let ask = final(self).ask;
                if !all_supported(verdicts@) && attempt < cfg.verify_regen_max {
                    &&& final(self).phase == (Phase::Generate { attempt: (attempt + 1) as u32 })
                    &&& ask == (Ask {
                        verdicts: ask.verdicts,
                        stages: ask.stages,
                        ..old(self).ask
                    })
                } else {
                    &&& final(self).phase == Phase::Done
                    &&& ask == (Ask {
                        verdicts: ask.verdicts,
                        stages: ask.stages,
                        answer: ask.answer,
                        empty: ask.empty,
                        admitted: ask.admitted,
                        conflicts: ask.conflicts,
                        ..old(self).ask
                    })
                    &&& ask.empty == (trimmed(text).len() == 0)
                    &&& ask.answer matches Some(a) && a@ == if ask.empty {
                        EMPTY_ADMIT_TEXT@
                    } else {
                        text
                    }
                    &&& ask.admitted@ == if ask.empty {
                        Seq::<Citation>::empty()
                    } else {
                        relied_on(old(self).ask.admitted@, text, verdicts@)
                    }
                    &&& ask.conflicts@ == if ask.empty {
                        Seq::<Citation>::empty()
                    } else {
                        relied_on(old(self).ask.conflicts@, text, verdicts@)
                    }
                }
            }),
            final(self).ask.verdicts == verdicts,
            final(self).cites == old(self).cites,
            final(self).ask.stages@ == old(self).ask.stages@.push(
                StageRecord { stage: Stage::Verify, ms, ok: true },
            ),
            final(self).phase.steps_left(cfg.verify_regen_max) < old(self).phase.steps_left(
                cfg.verify_regen_max,
            ),
    {
        self.record(Stage::Verify, ms, true);
        let ok = all_ok(&verdicts);
        self.ask.verdicts = verdicts;
        if let Phase::Verify { attempt } = self.phase {
            if !ok && attempt < cfg.verify_regen_max {
                self.phase = Phase::Generate { attempt: attempt + 1 };
                return;
            }
        }
        let outcome = apply_publish(
            self.draft.as_str(),
            self.ask.verdicts.as_slice(),
            &mut self.ask.admitted,
            &mut self.ask.conflicts,
        );
        self.ask.answer = Some(outcome.text);
        self.ask.empty = outcome.empty;
        self.phase = Phase::Done;
    }
}

/// No draft is asked for without admitted evidence: the generator is reached either for small
/// talk or with citations of which at least one was let in.
pub proof fn law_no_draft_without_evidence(run: AskRun, max: u32)
    requires
        run.wf(max),
        run.phase is Generate || run.phase is Verify,
    ensures
        run.cites matches Some(c) && c.included().len() > 0,
{
}

/// At most one draft more is made than may be replaced.
pub proof fn law_drafts_are_bounded(run: AskRun, max: u32)
    requires
        run.wf(max),
    ensures
        run.phase matches Phase::Generate { attempt } ==> attempt <= max,
        run.phase matches Phase::Verify { attempt } ==> attempt <= max,
        run.phase.steps_left(max) >= 0,
{
}

} // verus!
