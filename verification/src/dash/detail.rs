//! An ask in full: its stages, what each chose, and the text that was published.

#[allow(unused_imports)]
use crate::dash::lines::{
    kv_line, kv_text, lines_view, no_pieces, no_spans, with_wrapped, words, LineV, SpanV,
};
use crate::dash::lines::{
    concat, kv, kv_count, kv_pieces, push_line, push_wrapped, Line, Pieces, Spans, Tone,
};
use crate::dash::state::{Ask, CandidateRow, StageHit, VerdictRow, VerifyRound};
#[allow(unused_imports)]
use crate::dash::state::{AskV, CandidateRowV, PieceV, StageHitV, VerdictRowV, VerifyRoundV};
use crate::score::Score;
#[allow(unused_imports)]
use crate::text::{decimal, padded_left, padded_right};
use crate::text::{decimal_text, head, pad_left, pad_right, same};
use vstd::prelude::*;
use vstd::string::*;

verus! {

// ---------------------------------------------------------------------------------------------
// The stages
// ---------------------------------------------------------------------------------------------

/// Whether a stage is one that small talk does without.
pub open spec fn needs_memory(name: Seq<char>) -> bool {
    name == "embed"@ || name == "retrieve"@ || name == "admit"@ || name == "verify"@
}

/// Why a stage was not run; nothing where it may still be.
pub open spec fn skip_view(ask: AskV, name: Seq<char>) -> Option<Seq<char>> {
    if ask.chitchat && needs_memory(name) {
        Some("skipped   chitchat"@)
    } else if ask.skip_generate && (name == "generate"@ || name == "verify"@) {
        Some("skipped   nothing admitted"@)
    } else if ask.complete {
        Some("not run"@)
    } else {
        None
    }
}

/// Why a stage was not run.
pub fn skip_reason(ask: &Ask, name: &str) -> (r: Option<&'static str>)
    ensures
        match r {
            Some(s) => skip_view(ask@, name@) == Some(s@),
            None => skip_view(ask@, name@) is None,
        },
{
    if ask.chitchat && (same(name, "embed") || same(name, "retrieve") || same(name, "admit") || same(
        name,
        "verify",
    )) {
        return Some("skipped   chitchat");
    }
    if ask.skip_generate && (same(name, "generate") || same(name, "verify")) {
        return Some("skipped   nothing admitted");
    }
    if ask.complete {
        return Some("not run");
    }
    None
}

/// The runs of a stage.
pub open spec fn hits_of(hits: Seq<StageHitV>, name: Seq<char>) -> Seq<StageHitV>
    decreases hits.len(),
{
    if hits.len() == 0 {
        Seq::empty()
    } else if hits.last().name == name {
        hits_of(hits.drop_last(), name).push(hits.last())
    } else {
        hits_of(hits.drop_last(), name)
    }
}

/// The line of a run: how long it took and how it went. It is numbered where there are several.
pub open spec fn hit_line(name: Seq<char>, hit: StageHitV, run: int, several: bool) -> LineV {
    let timed = padded_left(decimal(hit.ms as nat), 6) + if hit.ok {
        "ms  ok"@
    } else {
        "ms  FAILED"@
    };
    let line = no_spans().push(words("  "@ + padded_right(name, 10), Tone::Fg, true)).push(
        words(
            timed,
            if hit.ok {
                Tone::Good
            } else {
                Tone::Bad
            },
            true,
        ),
    );
    if several {
        line.push(words("   run "@ + decimal(run as nat), Tone::Dim, false))
    } else {
        line
    }
}

/// The lines with a run added, and its error where it has one.
pub open spec fn with_hit(
    lines: Seq<LineV>,
    name: Seq<char>,
    hit: StageHitV,
    run: int,
    several: bool,
) -> Seq<LineV> {
    let told = lines.push(hit_line(name, hit, run, several));
    if !hit.ok && hit.error.len() > 0 {
        told.push(no_spans().push(words("     "@ + hit.error, Tone::Bad, false)))
    } else {
        told
    }
}

/// The lines with the first `n` of the runs added.
pub open spec fn with_hits(
    lines: Seq<LineV>,
    name: Seq<char>,
    hits: Seq<StageHitV>,
    n: nat,
) -> Seq<LineV>
    decreases n,
{
    if n == 0 {
        lines
    } else {
        with_hit(
            with_hits(lines, name, hits, (n - 1) as nat),
            name,
            hits[n - 1],
            n as int,
            hits.len() > 1,
        )
    }
}

/// The lines with a stage added: its runs, or why there are none.
pub open spec fn with_stage(
    lines: Seq<LineV>,
    ask: AskV,
    name: Seq<char>,
    skipped: Option<Seq<char>>,
) -> Seq<LineV> {
    let hits = hits_of(ask.stages, name);
    if hits.len() == 0 {
        lines.push(
            no_spans().push(words("  "@ + padded_right(name, 10), Tone::Fg, true)).push(
                words(
                    match skipped {
                        Some(s) => s,
                        None => "waiting"@,
                    },
                    Tone::Dim,
                    false,
                ),
            ),
        )
    } else {
        with_hits(lines, name, hits, hits.len())
    }
}

/// The positions of the runs of a stage.
fn stage_hits(ask: &Ask, name: &str) -> (r: Vec<usize>)
    ensures
        forall|k: int| 0 <= k < r@.len() ==> #[trigger] r@[k] < ask.stages@.len(),
        r@.map_values(|i: usize| ask.stages@[i as int]@) == hits_of(ask@.stages, name@),
{
    let ghost all = ask@.stages;
    let mut out: Vec<usize> = Vec::new();
    let mut i: usize = 0;
    assert(out@.map_values(|i: usize| ask.stages@[i as int]@) =~= hits_of(all.take(0), name@));
    while i < ask.stages.len()
        invariant
            i <= ask.stages@.len(),
            all == ask@.stages,
            forall|k: int| 0 <= k < out@.len() ==> #[trigger] out@[k] < ask.stages@.len(),
            out@.map_values(|i: usize| ask.stages@[i as int]@) == hits_of(
                all.take(i as int),
                name@,
            ),
        decreases ask.stages@.len() - i,
    {
        assert(all.take(i + 1).drop_last() =~= all.take(i as int));
        assert(all.take(i + 1).last() == ask.stages@[i as int]@);
        if same(ask.stages[i].name.as_str(), name) {
            let ghost before = out@;
            out.push(i);
            assert(out@.map_values(|i: usize| ask.stages@[i as int]@) =~= before.map_values(
                |i: usize| ask.stages@[i as int]@,
            ).push(ask.stages@[i as int]@));
        }
        i = i + 1;
    }
    assert(all.take(i as int) =~= all);
    out
}

fn push_hit(out: &mut Vec<Line>, name: &str, hit: &StageHit, run: usize, several: bool)
    ensures
        lines_view(final(out)@) == with_hit(
            lines_view(old(out)@),
            name@,
            hit@,
            run as int,
            several,
        ),
{
    let label = concat("  ", pad_right(name, 10).as_str());
    let ms = pad_left(decimal_text(hit.ms).as_str(), 6);
    let timed: String = if hit.ok {
        concat(ms.as_str(), "ms  ok")
    } else {
        concat(ms.as_str(), "ms  FAILED")
    };
    let tone: Tone = if hit.ok {
        Tone::Good
    } else {
        Tone::Bad
    };
    let mut line = Spans::new().text(label.as_str(), Tone::Fg, true).text(
        timed.as_str(),
        tone,
        true,
    );
    if several {
        let n = concat("   run ", decimal_text(run as u64).as_str());
        line = line.text(n.as_str(), Tone::Dim, false);
    }
    push_line(out, line.line());
    if !hit.ok && !hit.error.as_str().is_empty() {
        let why = concat("     ", hit.error.as_str());
        push_line(out, Spans::new().text(why.as_str(), Tone::Bad, false).line());
    }
}

/// Adds a stage: its runs, or why there are none.
pub fn push_stage(out: &mut Vec<Line>, ask: &Ask, name: &str, skipped: Option<&str>)
    ensures
        lines_view(final(out)@) == with_stage(
            lines_view(old(out)@),
            ask@,
            name@,
            match skipped {
                Some(s) => Some(s@),
                None => None,
            },
        ),
{
    let at = stage_hits(ask, name);
    let ghost hits = hits_of(ask@.stages, name@);
    if at.len() == 0 {
        assert(hits.len() == 0);
        let label = concat("  ", pad_right(name, 10).as_str());
        let status: &str = match skipped {
            Some(s) => s,
            None => "waiting",
        };
        let line = Spans::new().text(label.as_str(), Tone::Fg, true).text(status, Tone::Dim, false);
        push_line(out, line.line());
        return;
    }
    let ghost start = lines_view(out@);
    let mut i: usize = 0;
    while i < at.len()
        invariant
            i <= at@.len(),
            forall|k: int| 0 <= k < at@.len() ==> #[trigger] at@[k] < ask.stages@.len(),
            hits == at@.map_values(|i: usize| ask.stages@[i as int]@),
            lines_view(out@) == with_hits(start, name@, hits, i as nat),
        decreases at@.len() - i,
    {
        assert(hits[i as int] == ask.stages@[at@[i as int] as int]@);
        push_hit(out, name, &ask.stages[at[i]], i + 1, at.len() > 1);
        i = i + 1;
    }
}

// ---------------------------------------------------------------------------------------------
// Kind, embed, retrieve
// ---------------------------------------------------------------------------------------------

/// A text, or a dash.
pub open spec fn dashed(s: Seq<char>) -> Seq<char> {
    if s.len() == 0 {
        "—"@
    } else {
        s
    }
}

/// A text, or a dash.
pub fn or_dash<'a>(s: &'a str) -> (r: &'a str)
    ensures
        r@ == dashed(s@),
{
    if s.is_empty() {
        "—"
    } else {
        s
    }
}

/// A score with three digits after the point, or a dash.
pub open spec fn score_piece(s: Option<Score>) -> PieceV {
    match s {
        Some(x) => PieceV::Fixed(x, 3),
        None => PieceV::Text("—"@),
    }
}

fn add_score(p: Pieces, s: Option<Score>) -> (r: Pieces)
    ensures
        r@ == p@.push(score_piece(s)),
{
    match s {
        Some(x) => p.fixed(x, 3),
        None => p.text("—"),
    }
}

/// The lines with the kind of the question added.
pub open spec fn with_kind(lines: Seq<LineV>, ask: AskV) -> Seq<LineV> {
    let a = with_stage(lines, ask, "kind"@, None);
    if ask.kind.len() == 0 && ask.kind_confidence is None {
        a
    } else {
        let fell = match ask.fell_back {
            Some(true) => "yes — confidence below minimum, used atomic_lookup"@,
            Some(false) => "no"@,
            None => "—"@,
        };
        let b = a.push(kv_text("chosen"@, dashed(ask.kind), Tone::Accent)).push(
            kv_line("confidence"@, no_pieces().push(score_piece(ask.kind_confidence)), Tone::Fg),
        ).push(kv_text("model choice"@, dashed(ask.model_choice), Tone::Fg)).push(
            kv_text(
                "fell back"@,
                fell,
                if ask.fell_back == Some(true) {
                    Tone::Warn
                } else {
                    Tone::Fg
                },
            ),
        );
        if ask.chitchat {
            b.push(
                kv_text(
                    "branch"@,
                    "chitchat — later memory stages do not run"@,
                    Tone::Mauve,
                ),
            )
        } else {
            b
        }
    }
}

pub fn push_kind(out: &mut Vec<Line>, ask: &Ask)
    ensures
        lines_view(final(out)@) == with_kind(lines_view(old(out)@), ask@),
{
    push_stage(out, ask, "kind", None);
    if ask.kind.as_str().is_empty() && ask.kind_confidence.is_none() {
        return;
    }
    kv(out, "chosen", or_dash(ask.kind.as_str()), Tone::Accent);
    kv_pieces(out, "confidence", add_score(Pieces::new(), ask.kind_confidence), Tone::Fg);
    kv(out, "model choice", or_dash(ask.model_choice.as_str()), Tone::Fg);
    match ask.fell_back {
        Some(true) => kv(
            out,
            "fell back",
            "yes — confidence below minimum, used atomic_lookup",
            Tone::Warn,
        ),
        Some(false) => kv(out, "fell back", "no", Tone::Fg),
        None => kv(out, "fell back", "—", Tone::Fg),
    }
    if ask.chitchat {
        kv(out, "branch", "chitchat — later memory stages do not run", Tone::Mauve);
    }
}

/// The lines with the embedding added.
pub open spec fn with_embed(lines: Seq<LineV>, ask: AskV) -> Seq<LineV> {
    let a = with_stage(lines, ask, "embed"@, skip_view(ask, "embed"@));
    match ask.embed_dims {
        Some(n) => a.push(kv_text("dimensions"@, decimal(n as nat), Tone::Fg)),
        None => a,
    }
}

pub fn push_embed(out: &mut Vec<Line>, ask: &Ask)
    ensures
        lines_view(final(out)@) == with_embed(lines_view(old(out)@), ask@),
{
    push_stage(out, ask, "embed", skip_reason(ask, "embed"));
    if let Some(n) = ask.embed_dims {
        kv_count(out, "dimensions", n, Tone::Fg);
    }
}

/// The lines with the retrieval added.
pub open spec fn with_retrieve(lines: Seq<LineV>, ask: AskV) -> Seq<LineV> {
    let a = with_stage(lines, ask, "retrieve"@, skip_view(ask, "retrieve"@));
    if ask.personal == 0 && ask.granted == 0 && ask.merged == 0 && ask.retrieve_k == 0 {
        a
    } else {
        a.push(kv_text("personal"@, decimal(ask.personal as nat), Tone::Fg)).push(
            kv_text("granted"@, decimal(ask.granted as nat), Tone::Fg),
        ).push(kv_text("k"@, decimal(ask.retrieve_k as nat), Tone::Fg)).push(
            kv_text("merged"@, decimal(ask.merged as nat), Tone::Accent),
        ).push(
            kv_line("top rrf"@, no_pieces().push(PieceV::Fixed(ask.top_rrf, 4)), Tone::Fg),
        )
    }
}

pub fn push_retrieve(out: &mut Vec<Line>, ask: &Ask)
    ensures
        lines_view(final(out)@) == with_retrieve(lines_view(old(out)@), ask@),
{
    push_stage(out, ask, "retrieve", skip_reason(ask, "retrieve"));
    if ask.personal == 0 && ask.granted == 0 && ask.merged == 0 && ask.retrieve_k == 0 {
        return;
    }
    kv_count(out, "personal", ask.personal, Tone::Fg);
    kv_count(out, "granted", ask.granted, Tone::Fg);
    kv_count(out, "k", ask.retrieve_k, Tone::Fg);
    kv_count(out, "merged", ask.merged, Tone::Accent);
    kv_pieces(out, "top rrf", Pieces::new().fixed(ask.top_rrf, 4), Tone::Fg);
}

// ---------------------------------------------------------------------------------------------
// Admission
// ---------------------------------------------------------------------------------------------

/// Where a candidate comes from, in words; empty where nothing is known.
pub open spec fn candidate_meta(c: CandidateRowV) -> Seq<char> {
    let a = if c.id.len() <= 8 {
        c.id
    } else {
        c.id.take(8)
    };
    let b = if c.grantor.len() == 0 {
        a
    } else {
        spaced(a) + "grantor "@ + c.grantor
    };
    if c.source.len() == 0 {
        b
    } else {
        spaced(b) + "source "@ + c.source
    }
}

/// A text with room after it, unless it is empty.
pub open spec fn spaced(s: Seq<char>) -> Seq<char> {
    if s.len() == 0 {
        s
    } else {
        s + "  "@
    }
}

/// The scores of a candidate and where it went.
pub open spec fn candidate_line(c: CandidateRowV) -> LineV {
    let evidence = match c.evidence {
        Some(e) => e,
        None => c.noul,
    };
    let tone = if c.route == "include"@ {
        Tone::Good
    } else if c.route == "conflict"@ {
        Tone::Warn
    } else {
        Tone::Dim
    };
    no_spans().push(
        SpanV {
            pieces: no_pieces().push(PieceV::Text("     "@)).push(
                PieceV::Text(padded_right(c.route, 9)),
            ).push(PieceV::Text(" ev "@)).push(PieceV::Fixed(evidence, 3)).push(
                PieceV::Text("  rel "@),
            ).push(score_piece(c.relevant)).push(PieceV::Text("  inj "@)).push(
                score_piece(c.injection),
            ).push(PieceV::Text("  con "@)).push(score_piece(c.contradicts)).push(
                PieceV::Text("  rrf "@),
            ).push(score_piece(c.rrf)).push(PieceV::Text("  "@)).push(PieceV::Text(c.origin)),
            tone,
            bold: false,
        },
    )
}

/// The lines with a candidate added: its scores, what it says, and where it comes from.
pub open spec fn with_candidate(lines: Seq<LineV>, c: CandidateRowV, width: int) -> Seq<LineV> {
    let a = with_wrapped(
        lines.push(candidate_line(c)),
        "       "@,
        "       "@,
        c.statement,
        width,
        Tone::Fg,
    );
    let b = if c.text.len() == 0 {
        a
    } else {
        with_wrapped(a, "       text "@, "            "@, c.text, width, Tone::Dim)
    };
    if candidate_meta(c).len() == 0 {
        b
    } else {
        b.push(no_spans().push(words("       "@ + candidate_meta(c), Tone::Dim, false)))
    }
}

/// The lines with the first `n` candidates added.
pub open spec fn with_candidates(
    lines: Seq<LineV>,
    rows: Seq<CandidateRowV>,
    n: nat,
    width: int,
) -> Seq<LineV>
    decreases n,
{
    if n == 0 {
        lines
    } else {
        with_candidate(with_candidates(lines, rows, (n - 1) as nat, width), rows[n - 1], width)
    }
}

/// How the policy decides, in words.
pub const POLICY: &'static str = "injection high, relevant low, or evidence under the threshold excludes; a contradiction is a conflict";

/// The lines with the admission added.
pub open spec fn with_admission(lines: Seq<LineV>, ask: AskV, width: int) -> Seq<LineV> {
    let a = with_stage(lines, ask, "admit"@, skip_view(ask, "admit"@));
    if !ask.complete && ask.ranked.len() == 0 && ask.candidates == 0 {
        a
    } else {
        let cal = if ask.calibrated {
            "  calibrated"@
        } else {
            "  provisional"@
        };
        let b = a.push(kv_text("candidates"@, decimal(ask.candidates as nat), Tone::Fg)).push(
            kv_text("included"@, decimal(ask.admitted as nat), Tone::Good),
        ).push(kv_text("conflicts"@, decimal(ask.conflicts as nat), Tone::Warn)).push(
            kv_line(
                "threshold"@,
                no_pieces().push(PieceV::Fixed(ask.threshold, 3)).push(PieceV::Text(cal)),
                Tone::Accent,
            ),
        ).push(no_spans().push(words("     route"@, Tone::Dim, false)));
        let c = with_wrapped(b, "       "@, "       "@, POLICY@, width, Tone::Dim);
        if ask.ranked.len() == 0 {
            c.push(kv_text("scores"@, "not in the log yet"@, Tone::Dim))
        } else {
            with_candidates(c, ask.ranked, ask.ranked.len(), width)
        }
    }
}

/// Adds room after a text, unless it is empty.
fn add_room(s: &mut String)
    ensures
        final(s)@ == spaced(old(s)@),
{
    if !s.as_str().is_empty() {
        s.append("  ");
    }
}

/// Where a candidate comes from, in words.
fn meta_text(c: &CandidateRow) -> (r: String)
    ensures
        r@ == candidate_meta(c@),
{
    let mut meta = head(c.id.as_str(), 8);
    if !c.grantor.as_str().is_empty() {
        add_room(&mut meta);
        meta.append("grantor ");
        meta.append(c.grantor.as_str());
    }
    if !c.source.as_str().is_empty() {
        add_room(&mut meta);
        meta.append("source ");
        meta.append(c.source.as_str());
    }
    meta
}

pub fn push_candidate(out: &mut Vec<Line>, c: &CandidateRow, width: usize)
    ensures
        lines_view(final(out)@) == with_candidate(lines_view(old(out)@), c@, width as int),
{
    let evidence: Score = match c.evidence {
        Some(e) => e,
        None => c.noul,
    };
    let tone: Tone = if same(c.route.as_str(), "include") {
        Tone::Good
    } else if same(c.route.as_str(), "conflict") {
        Tone::Warn
    } else {
        Tone::Dim
    };
    let mut p = Pieces::new().text("     ").text(pad_right(c.route.as_str(), 9).as_str()).text(
        " ev ",
    ).fixed(evidence, 3).text("  rel ");
    p = add_score(p, c.relevant).text("  inj ");
    p = add_score(p, c.injection).text("  con ");
    p = add_score(p, c.contradicts).text("  rrf ");
    p = add_score(p, c.rrf).text("  ").text(c.origin.as_str());
    push_line(out, Spans::new().with(p.span(tone, false)).line());
    push_wrapped(out, "       ", "       ", c.statement.as_str(), width, Tone::Fg);
    if !c.text.as_str().is_empty() {
        push_wrapped(out, "       text ", "            ", c.text.as_str(), width, Tone::Dim);
    }
    let meta = meta_text(c);
    if !meta.as_str().is_empty() {
        let line = concat("       ", meta.as_str());
        push_line(out, Spans::new().text(line.as_str(), Tone::Dim, false).line());
    }
}

pub fn push_admission(out: &mut Vec<Line>, ask: &Ask, width: usize)
    ensures
        lines_view(final(out)@) == with_admission(lines_view(old(out)@), ask@, width as int),
{
    push_stage(out, ask, "admit", skip_reason(ask, "admit"));
    if !ask.complete && ask.ranked.len() == 0 && ask.candidates == 0 {
        return;
    }
    kv_count(out, "candidates", ask.candidates, Tone::Fg);
    kv_count(out, "included", ask.admitted, Tone::Good);
    kv_count(out, "conflicts", ask.conflicts, Tone::Warn);
    let cal: &str = if ask.calibrated {
        "  calibrated"
    } else {
        "  provisional"
    };
    let threshold = Pieces::new().fixed(ask.threshold, 3).text(cal);
    kv_pieces(out, "threshold", threshold, Tone::Accent);
    push_line(out, Spans::new().text("     route", Tone::Dim, false).line());
    push_wrapped(out, "       ", "       ", POLICY, width, Tone::Dim);
    if ask.ranked.len() == 0 {
        kv(out, "scores", "not in the log yet", Tone::Dim);
        return;
    }
    let ghost start = lines_view(out@);
    let mut i: usize = 0;
    while i < ask.ranked.len()
        invariant
            i <= ask.ranked@.len(),
            lines_view(out@) == with_candidates(start, ask@.ranked, i as nat, width as int),
        decreases ask.ranked@.len() - i,
    {
        assert(ask@.ranked[i as int] == ask.ranked@[i as int]@);
        push_candidate(out, &ask.ranked[i], width);
        i = i + 1;
    }
}

// ---------------------------------------------------------------------------------------------
// Generation
// ---------------------------------------------------------------------------------------------

/// The lines with the first `n` drafts added. They are numbered where there are several.
pub open spec fn with_drafts(
    lines: Seq<LineV>,
    drafts: Seq<Seq<char>>,
    n: nat,
    width: int,
) -> Seq<LineV>
    decreases n,
{
    if n == 0 {
        lines
    } else {
        let before = with_drafts(lines, drafts, (n - 1) as nat, width);
        let label = if drafts.len() > 1 {
            "     draft "@ + decimal(n)
        } else {
            "     draft"@
        };
        with_wrapped(
            before.push(no_spans().push(words(label, Tone::Dim, false))),
            "       "@,
            "       "@,
            drafts[n - 1],
            width,
            Tone::Fg,
        )
    }
}

/// The lines with the drafts added.
pub open spec fn with_generate(lines: Seq<LineV>, ask: AskV, width: int) -> Seq<LineV> {
    let a = with_stage(lines, ask, "generate"@, skip_view(ask, "generate"@));
    let b = match ask.generate_citations {
        Some(n) => a.push(kv_text("citations"@, decimal(n as nat), Tone::Fg)),
        None => a,
    };
    let c = if ask.chitchat {
        b.push(kv_text("mode"@, "chitchat, no citations"@, Tone::Mauve))
    } else {
        b
    };
    with_drafts(c, ask.drafts, ask.drafts.len(), width)
}

pub fn push_generate(out: &mut Vec<Line>, ask: &Ask, width: usize)
    ensures
        lines_view(final(out)@) == with_generate(lines_view(old(out)@), ask@, width as int),
{
    push_stage(out, ask, "generate", skip_reason(ask, "generate"));
    if let Some(n) = ask.generate_citations {
        kv_count(out, "citations", n, Tone::Fg);
    }
    if ask.chitchat {
        kv(out, "mode", "chitchat, no citations", Tone::Mauve);
    }
    let ghost start = lines_view(out@);
    let mut i: usize = 0;
    while i < ask.drafts.len()
        invariant
            i <= ask.drafts@.len(),
            lines_view(out@) == with_drafts(start, ask@.drafts, i as nat, width as int),
        decreases ask.drafts@.len() - i,
    {
        let label: String = if ask.drafts.len() > 1 {
            concat("     draft ", decimal_text((i + 1) as u64).as_str())
        } else {
            "     draft".to_owned()
        };
        assert(ask@.drafts[i as int] == ask.drafts@[i as int]@);
        push_line(out, Spans::new().text(label.as_str(), Tone::Dim, false).line());
        push_wrapped(out, "       ", "       ", ask.drafts[i].as_str(), width, Tone::Fg);
        i = i + 1;
    }
}

// ---------------------------------------------------------------------------------------------
// Verification
// ---------------------------------------------------------------------------------------------

/// The verdict on a claim and the memory it goes back to.
pub open spec fn verdict_line(v: VerdictRowV) -> LineV {
    let tone = if v.verdict == "supports"@ {
        Tone::Good
    } else if v.verdict == "fabricated"@ {
        Tone::Bad
    } else {
        Tone::Warn
    };
    let memory = match v.memory_index {
        Some(n) => "[memory_"@ + decimal(n as nat) + "] "@,
        None => Seq::empty(),
    };
    no_spans().push(words("     "@ + padded_right(v.verdict, 12), tone, true)).push(
        words(memory, Tone::Dim, false),
    )
}

/// The lines with the first `n` verdicts added.
pub open spec fn with_verdicts(
    lines: Seq<LineV>,
    verdicts: Seq<VerdictRowV>,
    n: nat,
    width: int,
) -> Seq<LineV>
    decreases n,
{
    if n == 0 {
        lines
    } else {
        with_wrapped(
            with_verdicts(lines, verdicts, (n - 1) as nat, width).push(
                verdict_line(verdicts[n - 1]),
            ),
            "       "@,
            "       "@,
            verdicts[n - 1].claim,
            width,
            Tone::Fg,
        )
    }
}

/// The lines with a verification added.
pub open spec fn with_round(lines: Seq<LineV>, round: VerifyRoundV, width: int) -> Seq<LineV> {
    let tone = if round.all_ok {
        Tone::Good
    } else {
        Tone::Warn
    };
    let a = lines.push(kv_text("attempt"@, decimal(round.attempt as nat), Tone::Fg)).push(
        kv_text(
            "claims"@,
            decimal(round.supported as nat) + "/"@ + decimal(round.claims as nat) + " support"@,
            tone,
        ),
    ).push(
        kv_text(
            "all support"@,
            if round.all_ok {
                "yes"@
            } else {
                "no"@
            },
            tone,
        ),
    );
    with_verdicts(a, round.verdicts, round.verdicts.len(), width)
}

/// The lines with the first `n` verifications added.
pub open spec fn with_rounds(
    lines: Seq<LineV>,
    rounds: Seq<VerifyRoundV>,
    n: nat,
    width: int,
) -> Seq<LineV>
    decreases n,
{
    if n == 0 {
        lines
    } else {
        with_round(with_rounds(lines, rounds, (n - 1) as nat, width), rounds[n - 1], width)
    }
}

/// The lines with the verifications added.
pub open spec fn with_verify(lines: Seq<LineV>, ask: AskV, width: int) -> Seq<LineV> {
    let a = with_stage(lines, ask, "verify"@, skip_view(ask, "verify"@));
    let b = if ask.regens > 0 {
        a.push(
            kv_text(
                "regenerated"@,
                decimal(ask.regens as nat) + " time(s) after a failed verify"@,
                Tone::Warn,
            ),
        )
    } else {
        a
    };
    with_rounds(b, ask.verify_rounds, ask.verify_rounds.len(), width)
}

fn push_verdict(out: &mut Vec<Line>, v: &VerdictRow, width: usize)
    ensures
        lines_view(final(out)@) == with_wrapped(
            lines_view(old(out)@).push(verdict_line(v@)),
            "       "@,
            "       "@,
            v@.claim,
            width as int,
            Tone::Fg,
        ),
{
    let tone: Tone = if same(v.verdict.as_str(), "supports") {
        Tone::Good
    } else if same(v.verdict.as_str(), "fabricated") {
        Tone::Bad
    } else {
        Tone::Warn
    };
    let memory: String = match v.memory_index {
        Some(n) => concat(concat("[memory_", decimal_text(n).as_str()).as_str(), "] "),
        None => String::new(),
    };
    assert(v.memory_index is None ==> memory@ =~= Seq::<char>::empty());
    let label = concat("     ", pad_right(v.verdict.as_str(), 12).as_str());
    let line = Spans::new().text(label.as_str(), tone, true).text(
        memory.as_str(),
        Tone::Dim,
        false,
    );
    push_line(out, line.line());
    push_wrapped(out, "       ", "       ", v.claim.as_str(), width, Tone::Fg);
}

fn push_round(out: &mut Vec<Line>, round: &VerifyRound, width: usize)
    ensures
        lines_view(final(out)@) == with_round(lines_view(old(out)@), round@, width as int),
{
    let tone: Tone = if round.all_ok {
        Tone::Good
    } else {
        Tone::Warn
    };
    kv_count(out, "attempt", round.attempt, Tone::Fg);
    let mut claims = decimal_text(round.supported);
    claims.append("/");
    claims.append(decimal_text(round.claims).as_str());
    claims.append(" support");
    kv(out, "claims", claims.as_str(), tone);
    let all: &str = if round.all_ok {
        "yes"
    } else {
        "no"
    };
    kv(out, "all support", all, tone);
    let ghost start = lines_view(out@);
    let mut i: usize = 0;
    while i < round.verdicts.len()
        invariant
            i <= round.verdicts@.len(),
            lines_view(out@) == with_verdicts(start, round@.verdicts, i as nat, width as int),
        decreases round.verdicts@.len() - i,
    {
        assert(round@.verdicts[i as int] == round.verdicts@[i as int]@);
        push_verdict(out, &round.verdicts[i], width);
        i = i + 1;
    }
}

pub fn push_verify(out: &mut Vec<Line>, ask: &Ask, width: usize)
    ensures
        lines_view(final(out)@) == with_verify(lines_view(old(out)@), ask@, width as int),
{
    push_stage(out, ask, "verify", skip_reason(ask, "verify"));
    if ask.regens > 0 {
        let times = concat(decimal_text(ask.regens).as_str(), " time(s) after a failed verify");
        kv(out, "regenerated", times.as_str(), Tone::Warn);
    }
    let ghost start = lines_view(out@);
    let mut i: usize = 0;
    while i < ask.verify_rounds.len()
        invariant
            i <= ask.verify_rounds@.len(),
            lines_view(out@) == with_rounds(start, ask@.verify_rounds, i as nat, width as int),
        decreases ask.verify_rounds@.len() - i,
    {
        assert(ask@.verify_rounds[i as int] == ask.verify_rounds@[i as int]@);
        push_round(out, &ask.verify_rounds[i], width);
        i = i + 1;
    }
}

// ---------------------------------------------------------------------------------------------
// Publication
// ---------------------------------------------------------------------------------------------

/// The lines with the published text added.
pub open spec fn with_published(lines: Seq<LineV>, ask: AskV, width: int) -> Seq<LineV> {
    let a = lines.push(no_spans().push(words("  published"@, Tone::Mauve, true)));
    match ask.published {
        Some(text) => with_wrapped(
            a.push(
                kv_text(
                    "empty"@,
                    if ask.empty {
                        "yes"@
                    } else {
                        "no"@
                    },
                    if ask.empty {
                        Tone::Warn
                    } else {
                        Tone::Good
                    },
                ),
            ),
            "     "@,
            "     "@,
            text,
            width,
            Tone::Fg,
        ),
        None => a.push(kv_text("text"@, "not published yet"@, Tone::Dim)),
    }
}

pub fn push_published(out: &mut Vec<Line>, ask: &Ask, width: usize)
    ensures
        lines_view(final(out)@) == with_published(lines_view(old(out)@), ask@, width as int),
{
    push_line(out, Spans::new().text("  published", Tone::Mauve, true).line());
    match &ask.published {
        Some(text) => {
            if ask.empty {
                kv(out, "empty", "yes", Tone::Warn);
            } else {
                kv(out, "empty", "no", Tone::Good);
            }
            push_wrapped(out, "     ", "     ", text.as_str(), width, Tone::Fg);
        },
        None => kv(out, "text", "not published yet", Tone::Dim),
    }
}

// ---------------------------------------------------------------------------------------------
// The whole
// ---------------------------------------------------------------------------------------------

/// An ask in full: the question, each stage in its order, and the published text, with an empty
/// line between them.
pub open spec fn detail_view(ask: AskV, width: int) -> Seq<LineV> {
    let a = with_wrapped(Seq::empty(), "  Q "@, "    "@, ask.question, width, Tone::Fg);
    let b = with_kind(a.push(no_spans()), ask);
    let c = with_embed(b.push(no_spans()), ask);
    let d = with_retrieve(c.push(no_spans()), ask);
    let e = with_admission(d.push(no_spans()), ask, width);
    let f = with_generate(e.push(no_spans()), ask, width);
    let g = with_verify(f.push(no_spans()), ask, width);
    with_published(g.push(no_spans()), ask, width)
}

fn push_blank(out: &mut Vec<Line>)
    ensures
        lines_view(final(out)@) == lines_view(old(out)@).push(no_spans()),
{
    push_line(out, Spans::new().line());
}

/// An ask in full.
pub fn detail_lines(ask: &Ask, width: usize) -> (r: Vec<Line>)
    ensures
        lines_view(r@) == detail_view(ask@, width as int),
{
    let mut out: Vec<Line> = Vec::new();
    assert(lines_view(out@) =~= Seq::<LineV>::empty());
    push_wrapped(&mut out, "  Q ", "    ", ask.question.as_str(), width, Tone::Fg);
    push_blank(&mut out);
    push_kind(&mut out, ask);
    push_blank(&mut out);
    push_embed(&mut out, ask);
    push_blank(&mut out);
    push_retrieve(&mut out, ask);
    push_blank(&mut out);
    push_admission(&mut out, ask, width);
    push_blank(&mut out);
    push_generate(&mut out, ask, width);
    push_blank(&mut out);
    push_verify(&mut out, ask, width);
    push_blank(&mut out);
    push_published(&mut out, ask, width);
    out
}

/// Whether some run of a stage failed.
pub open spec fn some_failed(hits: Seq<StageHitV>) -> bool {
    exists|k: int| 0 <= k < hits.len() && !(#[trigger] hits[k]).ok
}

/// How an ask ended, or that it is under way. One that broke off after its admission, with
/// citations but without an answer, has failed too.
pub open spec fn verdict_on(ask: AskV) -> (Seq<char>, Tone) {
    let late = ask.complete && ask.published is None && !ask.skip_generate && ask.admitted > 0
        && some_failed(ask.stages);
    if (!ask.complete && ask.failed) || late {
        ("failed"@, Tone::Bad)
    } else if !ask.complete {
        ("running"@, Tone::Dim)
    } else if ask.empty {
        ("empty"@, Tone::Warn)
    } else {
        ("answered"@, Tone::Good)
    }
}

/// How an ask ended, or that it is under way.
pub fn row_verdict(ask: &Ask) -> (r: (&'static str, Tone))
    ensures
        (r.0@, r.1) == verdict_on(ask@),
{
    let mut broken_off = false;
    let mut i: usize = 0;
    while i < ask.stages.len()
        invariant
            i <= ask.stages@.len(),
            broken_off <==> exists|k: int| 0 <= k < i && !(#[trigger] ask@.stages[k]).ok,
        decreases ask.stages@.len() - i,
    {
        assert(ask@.stages[i as int] == ask.stages@[i as int]@);
        if !ask.stages[i].ok {
            broken_off = true;
        }
        i = i + 1;
    }
    let late = ask.complete && ask.published.is_none() && !ask.skip_generate && ask.admitted > 0
        && broken_off;
    if (!ask.complete && ask.failed) || late {
        ("failed", Tone::Bad)
    } else if !ask.complete {
        ("running", Tone::Dim)
    } else if ask.empty {
        ("empty", Tone::Warn)
    } else {
        ("answered", Tone::Good)
    }
}

/// The head of an ask in full: how it ended, what it was about, and the question.
pub open spec fn head_view(ask: AskV) -> Seq<LineV> {
    let (verdict, tone) = verdict_on(ask);
    let when = if ask.as_of.len() == 0 || ask.as_of == "None"@ {
        "now"@
    } else {
        ask.as_of
    };
    Seq::empty().push(
        no_spans().push(words("  "@ + ask.id, Tone::Fg, true)).push(
            words("   "@ + verdict, tone, true),
        ).push(words("   "@ + decimal(ask.total_ms as nat) + "ms"@, Tone::Dim, false)),
    ).push(
        no_spans().push(words("  brain "@, Tone::Dim, false)).push(
            words(ask.brain_id, Tone::Fg, false),
        ).push(words("   as of "@, Tone::Dim, false)).push(words(when, Tone::Fg, false)),
    ).push(
        no_spans().push(words("  Q "@, Tone::Mauve, true)).push(
            words(ask.question, Tone::Fg, false),
        ),
    )
}

/// The head of an ask in full.
pub fn inspect_head(ask: &Ask) -> (r: Vec<Line>)
    ensures
        lines_view(r@) == head_view(ask@),
{
    let (verdict, tone) = row_verdict(ask);
    let mut out: Vec<Line> = Vec::new();
    assert(lines_view(out@) =~= Seq::<LineV>::empty());
    let mut ms = concat("   ", decimal_text(ask.total_ms).as_str());
    ms.append("ms");
    let first = Spans::new().text(concat("  ", ask.id.as_str()).as_str(), Tone::Fg, true).text(
        concat("   ", verdict).as_str(),
        tone,
        true,
    ).text(ms.as_str(), Tone::Dim, false);
    push_line(&mut out, first.line());
    let when: &str = if ask.as_of.as_str().is_empty() || same(ask.as_of.as_str(), "None") {
        "now"
    } else {
        ask.as_of.as_str()
    };
    let second = Spans::new().text("  brain ", Tone::Dim, false).text(
        ask.brain_id.as_str(),
        Tone::Fg,
        false,
    ).text("   as of ", Tone::Dim, false).text(when, Tone::Fg, false);
    push_line(&mut out, second.line());
    let third = Spans::new().text("  Q ", Tone::Mauve, true).text(
        ask.question.as_str(),
        Tone::Fg,
        false,
    );
    push_line(&mut out, third.line());
    out
}

} // verus!
