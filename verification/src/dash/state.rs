//! What the dashboard knows: the stages, the recent asks and the recent events.

use crate::dash::window::Stage;
#[allow(unused_imports)]
use crate::dash::window::{tail, StageV};
use crate::score::Score;
#[allow(unused_imports)]
use crate::text::{begins, opt_view, views};
use crate::text::{same, starts_with};
use std::collections::VecDeque;
use vstd::prelude::*;

verus! {

/// How many asks are kept.
pub const ASKS_KEPT: usize = 200;

/// How many events are kept.
pub const EVENTS_KEPT: usize = 100;

/// A piece of what is shown: text, or a number yet to be written.
#[derive(Debug)]
pub enum Piece {
    Text(String),
    /// A number in its shortest form.
    Plain(Score),
    /// A number with so many digits after the point.
    Fixed(Score, u8),
}

/// What a piece stands for.
pub enum PieceV {
    Text(Seq<char>),
    Plain(Score),
    Fixed(Score, u8),
}

impl Piece {
    pub open spec fn view(&self) -> PieceV {
        match self {
            Piece::Text(s) => PieceV::Text(s@),
            Piece::Plain(s) => PieceV::Plain(*s),
            Piece::Fixed(s, n) => PieceV::Fixed(*s, *n),
        }
    }
}

pub open spec fn pieces_view(s: Seq<Piece>) -> Seq<PieceV> {
    s.map_values(|p: Piece| p@)
}

/// One run of a stage.
#[derive(Debug)]
pub struct StageHit {
    pub name: String,
    pub ms: u64,
    pub ok: bool,
    pub error: String,
}

pub struct StageHitV {
    pub name: Seq<char>,
    pub ms: u64,
    pub ok: bool,
    pub error: Seq<char>,
}

impl StageHit {
    pub open spec fn view(&self) -> StageHitV {
        StageHitV { name: self.name@, ms: self.ms, ok: self.ok, error: self.error@ }
    }
}

pub open spec fn hits_view(s: Seq<StageHit>) -> Seq<StageHitV> {
    s.map_values(|h: StageHit| h@)
}

/// A verdict on a claim.
#[derive(Debug)]
pub struct VerdictRow {
    pub claim: String,
    pub verdict: String,
    pub memory_index: Option<u64>,
}

pub struct VerdictRowV {
    pub claim: Seq<char>,
    pub verdict: Seq<char>,
    pub memory_index: Option<u64>,
}

impl VerdictRow {
    pub open spec fn view(&self) -> VerdictRowV {
        VerdictRowV {
            claim: self.claim@,
            verdict: self.verdict@,
            memory_index: self.memory_index,
        }
    }
}

pub open spec fn verdicts_view(s: Seq<VerdictRow>) -> Seq<VerdictRowV> {
    s.map_values(|v: VerdictRow| v@)
}

/// The verification of one draft.
#[derive(Debug)]
pub struct VerifyRound {
    pub attempt: u64,
    pub all_ok: bool,
    pub claims: u64,
    pub supported: u64,
    pub verdicts: Vec<VerdictRow>,
}

pub struct VerifyRoundV {
    pub attempt: u64,
    pub all_ok: bool,
    pub claims: u64,
    pub supported: u64,
    pub verdicts: Seq<VerdictRowV>,
}

impl VerifyRound {
    pub open spec fn view(&self) -> VerifyRoundV {
        VerifyRoundV {
            attempt: self.attempt,
            all_ok: self.all_ok,
            claims: self.claims,
            supported: self.supported,
            verdicts: verdicts_view(self.verdicts@),
        }
    }
}

pub open spec fn rounds_view(s: Seq<VerifyRound>) -> Seq<VerifyRoundV> {
    s.map_values(|r: VerifyRound| r@)
}

/// A candidate, as the record of an admission has it.
#[derive(Debug)]
pub struct CandidateRow {
    pub id: String,
    pub statement: String,
    pub text: String,
    pub noul: Score,
    pub origin: String,
    pub admitted: bool,
    pub injection: Option<Score>,
    pub contradicts: Option<Score>,
    pub relevant: Option<Score>,
    pub evidence: Option<Score>,
    pub route: String,
    pub rrf: Option<Score>,
    pub source: String,
    pub grantor: String,
}

pub struct CandidateRowV {
    pub id: Seq<char>,
    pub statement: Seq<char>,
    pub text: Seq<char>,
    pub noul: Score,
    pub origin: Seq<char>,
    pub admitted: bool,
    pub injection: Option<Score>,
    pub contradicts: Option<Score>,
    pub relevant: Option<Score>,
    pub evidence: Option<Score>,
    pub route: Seq<char>,
    pub rrf: Option<Score>,
    pub source: Seq<char>,
    pub grantor: Seq<char>,
}

impl CandidateRow {
    pub open spec fn view(&self) -> CandidateRowV {
        CandidateRowV {
            id: self.id@,
            statement: self.statement@,
            text: self.text@,
            noul: self.noul,
            origin: self.origin@,
            admitted: self.admitted,
            injection: self.injection,
            contradicts: self.contradicts,
            relevant: self.relevant,
            evidence: self.evidence,
            route: self.route@,
            rrf: self.rrf,
            source: self.source@,
            grantor: self.grantor@,
        }
    }
}

pub open spec fn rows_view(s: Seq<CandidateRow>) -> Seq<CandidateRowV> {
    s.map_values(|r: CandidateRow| r@)
}

/// What the log told of one ask.
#[derive(Debug)]
pub struct Ask {
    pub id: String,
    pub question: String,
    pub brain_id: String,
    pub as_of: String,
    pub personal: u64,
    pub granted: u64,
    pub retrieve_k: u64,
    pub merged: u64,
    pub top_rrf: Score,
    pub admitted: u64,
    pub candidates: u64,
    pub conflicts: u64,
    pub top_noul: Score,
    pub threshold: Score,
    pub calibrated: bool,
    pub empty: bool,
    pub total_ms: u64,
    pub ranked: Vec<CandidateRow>,
    pub complete: bool,
    pub failed: bool,
    pub kind: String,
    pub kind_confidence: Option<Score>,
    pub model_choice: String,
    pub fell_back: Option<bool>,
    pub chitchat: bool,
    pub embed_dims: Option<u64>,
    pub stages: Vec<StageHit>,
    pub drafts: Vec<String>,
    pub generate_citations: Option<u64>,
    pub verify_rounds: Vec<VerifyRound>,
    pub regens: u64,
    pub published: Option<String>,
    pub skip_generate: bool,
}

pub struct AskV {
    pub id: Seq<char>,
    pub question: Seq<char>,
    pub brain_id: Seq<char>,
    pub as_of: Seq<char>,
    pub personal: u64,
    pub granted: u64,
    pub retrieve_k: u64,
    pub merged: u64,
    pub top_rrf: Score,
    pub admitted: u64,
    pub candidates: u64,
    pub conflicts: u64,
    pub top_noul: Score,
    pub threshold: Score,
    pub calibrated: bool,
    pub empty: bool,
    pub total_ms: u64,
    pub ranked: Seq<CandidateRowV>,
    pub complete: bool,
    pub failed: bool,
    pub kind: Seq<char>,
    pub kind_confidence: Option<Score>,
    pub model_choice: Seq<char>,
    pub fell_back: Option<bool>,
    pub chitchat: bool,
    pub embed_dims: Option<u64>,
    pub stages: Seq<StageHitV>,
    pub drafts: Seq<Seq<char>>,
    pub generate_citations: Option<u64>,
    pub verify_rounds: Seq<VerifyRoundV>,
    pub regens: u64,
    pub published: Option<Seq<char>>,
    pub skip_generate: bool,
}

impl AskV {
    /// An ask of which only the id is known.
    pub open spec fn fresh(id: Seq<char>) -> AskV {
        AskV {
            id,
            question: Seq::empty(),
            brain_id: Seq::empty(),
            as_of: Seq::empty(),
            personal: 0,
            granted: 0,
            retrieve_k: 0,
            merged: 0,
            top_rrf: Score { bits: 0 },
            admitted: 0,
            candidates: 0,
            conflicts: 0,
            top_noul: Score { bits: 0 },
            threshold: Score { bits: 0 },
            calibrated: false,
            empty: false,
            total_ms: 0,
            ranked: Seq::empty(),
            complete: false,
            failed: false,
            kind: Seq::empty(),
            kind_confidence: None,
            model_choice: Seq::empty(),
            fell_back: None,
            chitchat: false,
            embed_dims: None,
            stages: Seq::empty(),
            drafts: Seq::empty(),
            generate_citations: None,
            verify_rounds: Seq::empty(),
            regens: 0,
            published: None,
            skip_generate: false,
        }
    }
}

impl Ask {
    pub open spec fn view(&self) -> AskV {
        AskV {
            id: self.id@,
            question: self.question@,
            brain_id: self.brain_id@,
            as_of: self.as_of@,
            personal: self.personal,
            granted: self.granted,
            retrieve_k: self.retrieve_k,
            merged: self.merged,
            top_rrf: self.top_rrf,
            admitted: self.admitted,
            candidates: self.candidates,
            conflicts: self.conflicts,
            top_noul: self.top_noul,
            threshold: self.threshold,
            calibrated: self.calibrated,
            empty: self.empty,
            total_ms: self.total_ms,
            ranked: rows_view(self.ranked@),
            complete: self.complete,
            failed: self.failed,
            kind: self.kind@,
            kind_confidence: self.kind_confidence,
            model_choice: self.model_choice@,
            fell_back: self.fell_back,
            chitchat: self.chitchat,
            embed_dims: self.embed_dims,
            stages: hits_view(self.stages@),
            drafts: views(self.drafts@),
            generate_citations: self.generate_citations,
            verify_rounds: rounds_view(self.verify_rounds@),
            regens: self.regens,
            published: opt_view(self.published),
            skip_generate: self.skip_generate,
        }
    }

    /// An ask of which only the id is known.
    pub fn new(id: &str) -> (r: Ask)
        ensures
            r@ == AskV::fresh(id@),
    {
        let zero = Score { bits: 0 };
        let r = Ask {
            id: id.to_owned(),
            question: String::new(),
            brain_id: String::new(),
            as_of: String::new(),
            personal: 0,
            granted: 0,
            retrieve_k: 0,
            merged: 0,
            top_rrf: zero,
            admitted: 0,
            candidates: 0,
            conflicts: 0,
            top_noul: zero,
            threshold: zero,
            calibrated: false,
            empty: false,
            total_ms: 0,
            ranked: Vec::new(),
            complete: false,
            failed: false,
            kind: String::new(),
            kind_confidence: None,
            model_choice: String::new(),
            fell_back: None,
            chitchat: false,
            embed_dims: None,
            stages: Vec::new(),
            drafts: Vec::new(),
            generate_citations: None,
            verify_rounds: Vec::new(),
            regens: 0,
            published: None,
            skip_generate: false,
        };
        proof {
            assert(r@.question =~= Seq::<char>::empty());
            assert(r@.brain_id =~= Seq::<char>::empty());
            assert(r@.as_of =~= Seq::<char>::empty());
            assert(r@.kind =~= Seq::<char>::empty());
            assert(r@.model_choice =~= Seq::<char>::empty());
            assert(r@.ranked =~= Seq::<CandidateRowV>::empty());
            assert(r@.stages =~= Seq::<StageHitV>::empty());
            assert(r@.drafts =~= Seq::<Seq<char>>::empty());
            assert(r@.verify_rounds =~= Seq::<VerifyRoundV>::empty());
        }
        r
    }
}

/// Something that happened beside the asks.
#[derive(Debug)]
pub struct Note {
    pub kind: String,
    pub detail: Vec<Piece>,
}

pub struct NoteV {
    pub kind: Seq<char>,
    pub detail: Seq<PieceV>,
}

impl Note {
    pub open spec fn view(&self) -> NoteV {
        NoteV { kind: self.kind@, detail: pieces_view(self.detail@) }
    }
}

/// What the dashboard knows, and what it shows of it.
#[derive(Debug)]
pub struct App {
    pub stages: Vec<(String, Stage)>,
    pub asks: Vec<Ask>,
    pub events: VecDeque<Note>,
    pub total_asks: u64,
    pub empty_admits: u64,
    pub errors: u64,
    pub threshold: Score,
    pub calibrated: bool,
    /// The position of the selected ask, the oldest being first.
    pub selected: Option<usize>,
    /// Whether the selected ask is shown in full.
    pub inspect: bool,
    pub scroll: u16,
    pub view_rows: u16,
}

pub struct AppV {
    pub stages: Seq<(Seq<char>, StageV)>,
    pub asks: Seq<AskV>,
    pub events: Seq<NoteV>,
    pub total_asks: u64,
    pub empty_admits: u64,
    pub errors: u64,
    pub threshold: Score,
    pub calibrated: bool,
    pub selected: Option<usize>,
    pub inspect: bool,
    pub scroll: u16,
    pub view_rows: u16,
}

pub open spec fn stages_view(s: Seq<(String, Stage)>) -> Seq<(Seq<char>, StageV)> {
    s.map_values(|x: (String, Stage)| (x.0@, x.1@))
}

pub open spec fn asks_view(s: Seq<Ask>) -> Seq<AskV> {
    s.map_values(|a: Ask| a@)
}

pub open spec fn notes_view(s: Seq<Note>) -> Seq<NoteV> {
    s.map_values(|n: Note| n@)
}

/// Whether a log line with the id `id` is about the ask with the id `own`: either may be a prefix
/// of the other.
pub open spec fn about(own: Seq<char>, id: Seq<char>) -> bool {
    begins(own, id) || begins(id, own)
}

/// The first ask that `id` is about.
pub open spec fn find_ask(asks: Seq<AskV>, id: Seq<char>) -> Option<int>
    decreases asks.len(),
{
    if asks.len() == 0 {
        None
    } else {
        match find_ask(asks.drop_last(), id) {
            Some(k) => Some(k),
            None => if about(asks.last().id, id) {
                Some(asks.len() - 1)
            } else {
                None
            },
        }
    }
}

/// The position of a stage.
pub open spec fn find_stage(stages: Seq<(Seq<char>, StageV)>, name: Seq<char>) -> Option<int>
    decreases stages.len(),
{
    if stages.len() == 0 {
        None
    } else {
        match find_stage(stages.drop_last(), name) {
            Some(k) => Some(k),
            None => if stages.last().0 == name {
                Some(stages.len() - 1)
            } else {
                None
            },
        }
    }
}

/// What is found is a position, and what it is about.
pub proof fn lemma_find_ask(asks: Seq<AskV>, id: Seq<char>)
    ensures
        find_ask(asks, id) matches Some(k) ==> 0 <= k < asks.len() && about(asks[k].id, id),
        find_ask(asks, id) is None ==> forall|k: int|
            0 <= k < asks.len() ==> !about((#[trigger] asks[k]).id, id),
    decreases asks.len(),
{
    if asks.len() > 0 {
        lemma_find_ask(asks.drop_last(), id);
        if find_ask(asks, id) is None {
            assert forall|k: int| 0 <= k < asks.len() implies !about((#[trigger] asks[k]).id, id) by {
                if k < asks.len() - 1 {
                    assert(asks.drop_last()[k] == asks[k]);
                }
            }
        }
    }
}

/// What is found is a position, and the stage of that name.
pub proof fn lemma_find_stage(stages: Seq<(Seq<char>, StageV)>, name: Seq<char>)
    ensures
        find_stage(stages, name) matches Some(k) ==> 0 <= k < stages.len() && stages[k].0 == name,
        find_stage(stages, name) is None ==> forall|k: int|
            0 <= k < stages.len() ==> (#[trigger] stages[k]).0 != name,
    decreases stages.len(),
{
    if stages.len() > 0 {
        lemma_find_stage(stages.drop_last(), name);
        if find_stage(stages, name) is None {
            assert forall|k: int| 0 <= k < stages.len() implies (#[trigger] stages[k]).0 != name by {
                if k < stages.len() - 1 {
                    assert(stages.drop_last()[k] == stages[k]);
                }
            }
        }
    }
}

impl AppV {
    /// What is known before the first line of the log.
    pub open spec fn fresh() -> AppV {
        AppV {
            stages: Seq::empty(),
            asks: Seq::empty(),
            events: Seq::empty(),
            total_asks: 0,
            empty_admits: 0,
            errors: 0,
            threshold: Score { bits: 0 },
            calibrated: false,
            selected: None,
            inspect: false,
            scroll: 0,
            view_rows: 0,
        }
    }

    /// Selects the ask at `idx`, unless one is shown in full.
    pub open spec fn follow(self, idx: int) -> AppV {
        if self.inspect {
            self
        } else {
            AppV { selected: Some(idx as usize), ..self }
        }
    }

    /// Drops the oldest ask where there are too many. The selection moves with the asks.
    pub open spec fn capped(self) -> AppV {
        if self.asks.len() > ASKS_KEPT {
            AppV {
                asks: self.asks.drop_first(),
                selected: match self.selected {
                    Some(s) => Some(
                        if s == 0 {
                            0
                        } else {
                            (s - 1) as usize
                        },
                    ),
                    None => None,
                },
                ..self
            }
        } else {
            self
        }
    }

    /// Makes sure there is an ask for `id`: the first that it is about, or a new one, which is
    /// followed.
    pub open spec fn ensured(self, id: Seq<char>) -> AppV {
        match find_ask(self.asks, id) {
            Some(_) => self,
            None => {
                let more = AppV { asks: self.asks.push(AskV::fresh(id)), ..self }.capped();
                more.follow(more.asks.len() - 1)
            },
        }
    }

    /// Where the ask for `id` then stands.
    pub open spec fn place(self, id: Seq<char>) -> int {
        match find_ask(self.asks, id) {
            Some(k) => k,
            None => self.ensured(id).asks.len() - 1,
        }
    }

    /// The ask for `id`.
    pub open spec fn ask_for(self, id: Seq<char>) -> AskV {
        self.ensured(id).asks[self.place(id)]
    }

    /// Changes the ask for `id`.
    pub open spec fn with_ask(self, id: Seq<char>, ask: AskV) -> AppV {
        let app = self.ensured(id);
        AppV { asks: app.asks.update(self.place(id), ask), ..app }
    }

    /// Takes an event in. Only the latest are kept.
    pub open spec fn noted(self, kind: Seq<char>, detail: Seq<PieceV>) -> AppV {
        AppV { events: tail(self.events.push(NoteV { kind, detail }), EVENTS_KEPT as int), ..self }
    }

    /// Takes one more run of a stage in.
    pub open spec fn stage_run(self, name: Seq<char>, ms: u64, ok: bool) -> AppV {
        match find_stage(self.stages, name) {
            Some(k) => AppV {
                stages: self.stages.update(k, (name, self.stages[k].1.pushed(ms, ok))),
                ..self
            },
            None => AppV {
                stages: self.stages.push((name, StageV::fresh().pushed(ms, ok))),
                ..self
            },
        }
    }

    /// No more is kept than may be, and what is selected is there.
    pub open spec fn wf(self) -> bool {
        &&& self.asks.len() <= ASKS_KEPT
        &&& self.events.len() <= EVENTS_KEPT
        &&& self.selected matches Some(s) ==> s < self.asks.len()
        &&& forall|k: int|
            0 <= k < self.stages.len() ==> (#[trigger] self.stages[k]).1.samples.len()
                <= crate::dash::window::SPARK_WIDTH
        &&& forall|j: int, k: int|
            0 <= j < k < self.stages.len() ==> (#[trigger] self.stages[j]).0 != (
            #[trigger] self.stages[k]).0
    }
}

impl App {
    pub open spec fn view(&self) -> AppV {
        AppV {
            stages: stages_view(self.stages@),
            asks: asks_view(self.asks@),
            events: notes_view(self.events@),
            total_asks: self.total_asks,
            empty_admits: self.empty_admits,
            errors: self.errors,
            threshold: self.threshold,
            calibrated: self.calibrated,
            selected: self.selected,
            inspect: self.inspect,
            scroll: self.scroll,
            view_rows: self.view_rows,
        }
    }
}

impl App {
    /// The first ask that `id` is about.
    pub fn position(&self, id: &str) -> (r: Option<usize>)
        ensures
            match r {
                Some(k) => find_ask(self@.asks, id@) == Some(k as int) && k < self.asks@.len(),
                None => find_ask(self@.asks, id@) is None,
            },
    {
        let mut i: usize = 0;
        while i < self.asks.len()
            invariant
                i <= self.asks@.len(),
                find_ask(self@.asks.take(i as int), id@) is None,
            decreases self.asks@.len() - i,
        {
            let own = self.asks[i].id.as_str();
            assert(self@.asks.take(i + 1).drop_last() =~= self@.asks.take(i as int));
            assert(self@.asks[i as int].id == own@);
            if starts_with(own, id) || starts_with(id, own) {
                proof {
                    lemma_found_stays(self@.asks, i + 1, id@);
                }
                return Some(i);
            }
            i = i + 1;
        }
        assert(self@.asks.take(i as int) =~= self@.asks);
        None
    }

    /// Selects the ask at `idx`, unless one is shown in full: the list follows the newest ask, an
    /// open ask stays put.
    pub fn follow(&mut self, idx: usize)
        ensures
            final(self)@ == old(self)@.follow(idx as int),
            final(self).asks == old(self).asks,
            final(self).stages == old(self).stages,
            final(self).events == old(self).events,
    {
        if !self.inspect {
            self.selected = Some(idx);
        }
    }

    /// Drops the oldest ask where there are too many.
    pub(crate) fn cap(&mut self)
        requires
            old(self).asks@.len() <= ASKS_KEPT + 1,
        ensures
            final(self)@ == old(self)@.capped(),
            final(self).asks@.len() <= ASKS_KEPT,
            final(self).stages == old(self).stages,
            final(self).events == old(self).events,
    {
        if self.asks.len() > ASKS_KEPT {
            let ghost before = self.asks@;
            let _ = self.asks.remove(0);
            assert(asks_view(self.asks@) =~= asks_view(before).drop_first());
            self.selected = match self.selected {
                Some(s) => Some(
                    if s == 0 {
                        0
                    } else {
                        s - 1
                    },
                ),
                None => None,
            };
        }
    }

    /// Makes sure there is an ask for `id`, and says where it stands.
    pub fn ensure_ask(&mut self, id: &str) -> (r: usize)
        requires
            old(self)@.wf(),
        ensures
            final(self)@ == old(self)@.ensured(id@),
            r == old(self)@.place(id@),
            r < final(self).asks@.len(),
            final(self)@.wf(),
    {
        if let Some(k) = self.position(id) {
            return k;
        }
        let ghost before = self.asks@;
        self.asks.push(Ask::new(id));
        assert(asks_view(self.asks@) =~= asks_view(before).push(AskV::fresh(id@)));
        self.cap();
        let idx: usize = self.asks.len() - 1;
        self.follow(idx);
        idx
    }

    /// Takes an event in.
    pub fn note(&mut self, kind: String, detail: Vec<Piece>)
        requires
            old(self)@.wf(),
        ensures
            final(self)@ == old(self)@.noted(kind@, pieces_view(detail@)),
            final(self)@.wf(),
    {
        let ghost before = self.events@;
        self.events.push_back(Note { kind, detail });
        assert(notes_view(self.events@) =~= notes_view(before).push(
            NoteV { kind: kind@, detail: pieces_view(detail@) },
        ));
        if self.events.len() > EVENTS_KEPT {
            let ghost all = self.events@;
            let _ = self.events.pop_front();
            assert(notes_view(self.events@) =~= notes_view(all).skip(1));
        }
    }

    /// The stage of that name.
    pub fn stage(&self, name: &str) -> (r: Option<&Stage>)
        ensures
            match r {
                Some(s) => find_stage(self@.stages, name@) matches Some(k) && s@
                    == self@.stages[k].1,
                None => find_stage(self@.stages, name@) is None,
            },
    {
        match self.stage_position(name) {
            Some(k) => Some(&self.stages[k].1),
            None => None,
        }
    }

    fn stage_position(&self, name: &str) -> (r: Option<usize>)
        ensures
            match r {
                Some(k) => find_stage(self@.stages, name@) == Some(k as int) && k
                    < self.stages@.len(),
                None => find_stage(self@.stages, name@) is None,
            },
    {
        let mut i: usize = 0;
        while i < self.stages.len()
            invariant
                i <= self.stages@.len(),
                find_stage(self@.stages.take(i as int), name@) is None,
            decreases self.stages@.len() - i,
        {
            assert(self@.stages.take(i + 1).drop_last() =~= self@.stages.take(i as int));
            assert(self@.stages[i as int].0 == self.stages@[i as int].0@);
            if same(self.stages[i].0.as_str(), name) {
                proof {
                    lemma_stage_stays(self@.stages, i + 1, name@);
                }
                return Some(i);
            }
            i = i + 1;
        }
        assert(self@.stages.take(i as int) =~= self@.stages);
        None
    }

    /// Takes one more run of a stage in.
    pub fn push_stage(&mut self, name: &str, ms: u64, ok: bool)
        requires
            old(self)@.wf(),
            !ok ==> (find_stage(old(self)@.stages, name@) matches Some(k)
                ==> old(self)@.stages[k].1.fails < u64::MAX),
        ensures
            final(self)@ == old(self)@.stage_run(name@, ms, ok),
            final(self)@.wf(),
            final(self).asks == old(self).asks,
            final(self).events == old(self).events,
    {
        let ghost before = self.stages@;
        proof {
            lemma_find_stage(self@.stages, name@);
        }
        match self.stage_position(name) {
            Some(k) => {
                assert(self@.stages[k as int] == (self.stages@[k as int].0@, self.stages@[k as int].1@));
                let stage = &mut self.stages[k].1;
                stage.push(ms, ok);
                assert(stages_view(self.stages@) =~= stages_view(before).update(
                    k as int,
                    (name@, before[k as int].1@.pushed(ms, ok)),
                ));
            },
            None => {
                let mut stage = Stage::new();
                stage.push(ms, ok);
                self.stages.push((name.to_owned(), stage));
                assert(stages_view(self.stages@) =~= stages_view(before).push(
                    (name@, StageV::fresh().pushed(ms, ok)),
                ));
            },
        }
    }
}

/// What is found in the first asks is found in all.
proof fn lemma_found_stays(asks: Seq<AskV>, n: int, id: Seq<char>)
    requires
        0 <= n <= asks.len(),
        find_ask(asks.take(n), id) is Some,
    ensures
        find_ask(asks, id) == find_ask(asks.take(n), id),
    decreases asks.len(),
{
    if n == asks.len() {
        assert(asks.take(n) =~= asks);
    } else {
        assert(asks.drop_last().take(n) =~= asks.take(n));
        lemma_found_stays(asks.drop_last(), n, id);
    }
}

/// What is found in the first stages is found in all.
proof fn lemma_stage_stays(stages: Seq<(Seq<char>, StageV)>, n: int, name: Seq<char>)
    requires
        0 <= n <= stages.len(),
        find_stage(stages.take(n), name) is Some,
    ensures
        find_stage(stages, name) == find_stage(stages.take(n), name),
    decreases stages.len(),
{
    if n == stages.len() {
        assert(stages.take(n) =~= stages);
    } else {
        assert(stages.drop_last().take(n) =~= stages.take(n));
        lemma_stage_stays(stages.drop_last(), n, name);
    }
}

impl Default for App {
    fn default() -> (r: Self)
        ensures
            r@ == AppV::fresh(),
            r@.wf(),
    {
        let r = App {
            stages: Vec::new(),
            asks: Vec::new(),
            events: VecDeque::new(),
            total_asks: 0,
            empty_admits: 0,
            errors: 0,
            threshold: Score { bits: 0 },
            calibrated: false,
            selected: None,
            inspect: false,
            scroll: 0,
            view_rows: 0,
        };
        assert(r@.stages =~= Seq::<(Seq<char>, StageV)>::empty());
        assert(r@.asks =~= Seq::<AskV>::empty());
        assert(r@.events =~= Seq::<NoteV>::empty());
        r
    }
}

} // verus!
