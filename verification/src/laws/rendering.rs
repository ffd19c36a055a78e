//! What the dashboard shows.

#[allow(unused_imports)]
use crate::dash::detail::{
    candidate_line, detail_lines, detail_view, hit_line, hits_of, verdict_line, verdict_on,
    with_admission, with_candidate, with_candidates, with_drafts, with_embed, with_generate,
    with_hit, with_hits, with_kind, with_published, with_retrieve, with_round, with_rounds,
    with_stage, with_verdicts, with_verify,
};
#[allow(unused_imports)]
use crate::dash::ingest::{row_of, rows_of, verdict_of, verdicts_of};
#[allow(unused_imports)]
use crate::dash::lines::{lines_view, no_spans, with_wrapped, words, wrap_width, Line, LineV, Tone};
#[allow(unused_imports)]
use crate::dash::panels::{
    ask_row_view, ask_rows, count_empties, empties, header_line, recent, shown_ask, two_digits,
    uptime,
};
#[allow(unused_imports)]
use crate::dash::state::{
    App, Ask, AskV, CandidateRowV, PieceV, StageHitV, VerdictRowV, VerifyRoundV,
};
#[allow(unused_imports)]
use crate::dash::wrap::{broken, budget_of, last_break, line_len};
#[allow(unused_imports)]
use crate::json::{json_of, list_of, JsonV};
#[allow(unused_imports)]
use crate::laws::publishing::lemma_filter_last;
#[allow(unused_imports)]
use crate::score::Score;
#[allow(unused_imports)]
use crate::text::{
    decimal, lemma_trim_start, padded_right, trim_end, trim_start, white_space,
};
use vstd::prelude::*;

verus! {

// ---------------------------------------------------------------------------------------------
// Broken text
// ---------------------------------------------------------------------------------------------

/// How much of a text goes into a line: all of it where it fits; else up to the last white space
/// that fits, where that leaves no more than half of the line empty; else as much as fits.
pub proof fn law_line_break(s: Seq<char>, budget: int)
    requires
        budget >= 1,
    ensures
        s.len() <= budget ==> line_len(s, budget) == s.len(),
        s.len() > budget ==> {
            let n = line_len(s, budget);
            &&& 1 <= n <= budget
            &&& n < budget ==> n >= budget / 2 && white_space(s[n - 1]) && forall|k: int|
                n <= k < budget ==> !white_space(#[trigger] s[k])
            &&& (exists|k: int| 0 <= k < budget && k + 1 >= budget / 2 && white_space(#[trigger] s[k]))
                ==> white_space(s[n - 1])
        },
{
    if s.len() > budget {
        lemma_last(s, budget);
        let b = last_break(s, budget);
        if exists|k: int| 0 <= k < budget && k + 1 >= budget / 2 && white_space(#[trigger] s[k]) {
            let k = choose|k: int|
                0 <= k < budget && k + 1 >= budget / 2 && white_space(#[trigger] s[k]);
            if b < k + 1 {
                assert(!white_space(s[k]));
            }
        }
    }
}

proof fn lemma_last(s: Seq<char>, n: int)
    requires
        0 <= n <= s.len(),
    ensures
        0 <= last_break(s, n) <= n,
        last_break(s, n) > 0 ==> white_space(s[last_break(s, n) - 1]),
        forall|k: int| last_break(s, n) <= k < n ==> !white_space(#[trigger] s[k]),
    decreases n,
{
    if n > 0 && !white_space(s[n - 1]) {
        lemma_last(s, n - 1);
    }
}

/// A text that fits is one line, and nothing is none.
pub proof fn law_short_text_is_one_line(s: Seq<char>, first: int, other: int)
    requires
        1 <= first,
        1 <= other,
        s.len() <= first,
    ensures
        s.len() > 0 ==> broken(s, first, other) == seq![trim_end(s)],
        s.len() == 0 ==> broken(s, first, other).len() == 0,
{
    if s.len() > 0 {
        let n = line_len(s, first);
        assert(s.take(n) =~= s);
        assert(s.skip(n) =~= Seq::<char>::empty());
        lemma_trim_start(s.skip(n));
        assert(broken(trim_start(s.skip(n)), other, other) =~= Seq::<Seq<char>>::empty());
        assert(broken(s, first, other) =~= seq![trim_end(s)]);
    }
}

/// The room for text behind a prefix is what the width leaves, and never less than eight.
pub proof fn law_budget(width: int, prefix: int)
    ensures
        budget_of(width, prefix) >= 8,
        width - prefix >= 8 ==> budget_of(width, prefix) == width - prefix,
        width - prefix < 8 ==> budget_of(width, prefix) == 8,
        wrap_width(width) >= 24,
        width >= 24 ==> wrap_width(width) == width,
{
}

// ---------------------------------------------------------------------------------------------
// An ask in full
// ---------------------------------------------------------------------------------------------

/// Whether `more` begins with `lines`.
pub open spec fn goes_on(lines: Seq<LineV>, more: Seq<LineV>) -> bool {
    &&& lines.len() <= more.len()
    &&& forall|k: int| 0 <= k < lines.len() ==> more[k] == #[trigger] lines[k]
}

proof fn lemma_keeps(lines: Seq<LineV>, more: Seq<LineV>, x: LineV)
    requires
        goes_on(lines, more),
        lines.contains(x),
    ensures
        more.contains(x),
{
    let k = choose|k: int| 0 <= k < lines.len() && lines[k] == x;
    assert(more[k] == lines[k]);
}

proof fn lemma_pushed(lines: Seq<LineV>, x: LineV)
    ensures
        goes_on(lines, lines.push(x)),
        lines.push(x).contains(x),
{
    assert(lines.push(x)[lines.len() as int] == x);
}

/// The runs of a stage are those that go by its name, in order.
pub proof fn law_runs_of_a_stage(hits: Seq<StageHitV>, name: Seq<char>)
    ensures
        hits_of(hits, name) == hits.filter(|h: StageHitV| h.name == name),
    decreases hits.len(),
{
    let own = |h: StageHitV| h.name == name;
    if hits.len() > 0 {
        law_runs_of_a_stage(hits.drop_last(), name);
        lemma_filter_last(hits, own);
    } else {
        reveal(Seq::filter);
        assert(hits_of(hits, name) =~= hits.filter(own));
    }
}

proof fn lemma_hits(
    lines: Seq<LineV>,
    name: Seq<char>,
    hits: Seq<StageHitV>,
    n: nat,
    k: int,
)
    requires
        n <= hits.len(),
    ensures
        goes_on(lines, with_hits(lines, name, hits, n)),
        0 <= k < n ==> with_hits(lines, name, hits, n).contains(
            hit_line(name, hits[k], k + 1, hits.len() > 1),
        ),
    decreases n,
{
    if n > 0 {
        let m = (n - 1) as nat;
        lemma_hits(lines, name, hits, m, k);
        let before = with_hits(lines, name, hits, m);
        let line = hit_line(name, hits[n - 1], n as int, hits.len() > 1);
        lemma_pushed(before, line);
        let after = with_hits(lines, name, hits, n);
        assert(goes_on(before.push(line), after));
        if k == n - 1 {
            lemma_keeps(before.push(line), after, line);
        } else if 0 <= k < m {
            lemma_keeps(before, after, hit_line(name, hits[k], k + 1, hits.len() > 1));
        }
    }
}

/// A stage is shown with every one of its runs, in order; one that has none with why, or that it
/// is waited for.
pub proof fn law_stage_is_shown(
    lines: Seq<LineV>,
    ask: AskV,
    name: Seq<char>,
    skipped: Option<Seq<char>>,
    k: int,
)
    ensures
        goes_on(lines, with_stage(lines, ask, name, skipped)),
        ({
            let own = ask.stages.filter(|h: StageHitV| h.name == name);
            &&& 0 <= k < own.len() ==> with_stage(lines, ask, name, skipped).contains(
                hit_line(name, own[k], k + 1, own.len() > 1),
            )
            &&& own.len() == 0 ==> with_stage(lines, ask, name, skipped).len() == lines.len() + 1
                && with_stage(lines, ask, name, skipped).last().last() == words(
                match skipped {
                    Some(s) => s,
                    None => "waiting"@,
                },
                Tone::Dim,
                false,
            )
        }),
{
    law_runs_of_a_stage(ask.stages, name);
    let hits = hits_of(ask.stages, name);
    lemma_hits(lines, name, hits, hits.len(), k);
}

/// A run that failed is shown as failed, with its error below it.
pub proof fn law_failed_run_is_shown(
    lines: Seq<LineV>,
    name: Seq<char>,
    hit: StageHitV,
    run: int,
    several: bool,
)
    ensures
        hit.ok ==> hit_line(name, hit, run, several)[1].tone == Tone::Good && with_hit(
            lines,
            name,
            hit,
            run,
            several,
        ).len() == lines.len() + 1,
        !hit.ok ==> hit_line(name, hit, run, several)[1].tone == Tone::Bad,
        !hit.ok && hit.error.len() > 0 ==> with_hit(lines, name, hit, run, several).len()
            == lines.len() + 2 && with_hit(lines, name, hit, run, several).last() == seq![
            words("     "@ + hit.error, Tone::Bad, false),
        ],
{
    assert(no_spans().push(words("     "@ + hit.error, Tone::Bad, false)) =~= seq![
        words("     "@ + hit.error, Tone::Bad, false),
    ]);
}

proof fn lemma_wrapped(
    lines: Seq<LineV>,
    prefix: Seq<char>,
    cont: Seq<char>,
    text: Seq<char>,
    width: int,
    tone: Tone,
)
    ensures
        goes_on(lines, with_wrapped(lines, prefix, cont, text, width, tone)),
{
}

proof fn lemma_candidates(
    lines: Seq<LineV>,
    rows: Seq<CandidateRowV>,
    n: nat,
    width: int,
    k: int,
)
    requires
        n <= rows.len(),
    ensures
        goes_on(lines, with_candidates(lines, rows, n, width)),
        0 <= k < n ==> with_candidates(lines, rows, n, width).contains(candidate_line(rows[k])),
    decreases n,
{
    if n > 0 {
        let m = (n - 1) as nat;
        lemma_candidates(lines, rows, m, width, k);
        let before = with_candidates(lines, rows, m, width);
        let c = rows[n - 1];
        let line = candidate_line(c);
        lemma_pushed(before, line);
        let a = with_wrapped(
            before.push(line),
            "       "@,
            "       "@,
            c.statement,
            width,
            Tone::Fg,
        );
        lemma_wrapped(before.push(line), "       "@, "       "@, c.statement, width, Tone::Fg);
        lemma_wrapped(a, "       text "@, "            "@, c.text, width, Tone::Dim);
        let after = with_candidate(before, c, width);
        assert(goes_on(a, after));
        assert(goes_on(before.push(line), after));
        if k == n - 1 {
            lemma_keeps(before.push(line), after, line);
        } else if 0 <= k < m {
            lemma_keeps(before, after, candidate_line(rows[k]));
        }
    }
}

proof fn lemma_drafts(
    lines: Seq<LineV>,
    drafts: Seq<Seq<char>>,
    n: nat,
    width: int,
)
    requires
        n <= drafts.len(),
    ensures
        goes_on(lines, with_drafts(lines, drafts, n, width)),
    decreases n,
{
    if n > 0 {
        let m = (n - 1) as nat;
        lemma_drafts(lines, drafts, m, width);
    }
}

proof fn lemma_verdicts(
    lines: Seq<LineV>,
    verdicts: Seq<VerdictRowV>,
    n: nat,
    width: int,
    k: int,
)
    requires
        n <= verdicts.len(),
    ensures
        goes_on(lines, with_verdicts(lines, verdicts, n, width)),
        0 <= k < n ==> with_verdicts(lines, verdicts, n, width).contains(
            verdict_line(verdicts[k]),
        ),
    decreases n,
{
    if n > 0 {
        let m = (n - 1) as nat;
        lemma_verdicts(lines, verdicts, m, width, k);
        let before = with_verdicts(lines, verdicts, m, width);
        let line = verdict_line(verdicts[n - 1]);
        lemma_pushed(before, line);
        let after = with_verdicts(lines, verdicts, n, width);
        assert(goes_on(before.push(line), after));
        if k == n - 1 {
            lemma_keeps(before.push(line), after, line);
        } else if 0 <= k < m {
            lemma_keeps(before, after, verdict_line(verdicts[k]));
        }
    }
}

#[verifier::rlimit(40)]
proof fn lemma_rounds(
    lines: Seq<LineV>,
    rounds: Seq<VerifyRoundV>,
    n: nat,
    width: int,
    j: int,
    k: int,
)
    requires
        n <= rounds.len(),
    ensures
        goes_on(lines, with_rounds(lines, rounds, n, width)),
        0 <= j < n && 0 <= k < rounds[j].verdicts.len() ==> with_rounds(
            lines,
            rounds,
            n,
            width,
        ).contains(verdict_line(rounds[j].verdicts[k])),
    decreases n,
{
    if n > 0 {
        let m = (n - 1) as nat;
        lemma_rounds(lines, rounds, m, width, j, k);
        let before = with_rounds(lines, rounds, m, width);
        let round = rounds[n - 1];
        let after = with_round(before, round, width);
        let tone = if round.all_ok {
            Tone::Good
        } else {
            Tone::Warn
        };
        let a = before.push(
            crate::dash::lines::kv_text("attempt"@, decimal(round.attempt as nat), Tone::Fg),
        ).push(
            crate::dash::lines::kv_text(
                "claims"@,
                decimal(round.supported as nat) + "/"@ + decimal(round.claims as nat)
                    + " support"@,
                tone,
            ),
        ).push(
            crate::dash::lines::kv_text(
                "all support"@,
                if round.all_ok {
                    "yes"@
                } else {
                    "no"@
                },
                tone,
            ),
        );
        lemma_verdicts(a, round.verdicts, round.verdicts.len(), width, k);
        assert(after == with_verdicts(a, round.verdicts, round.verdicts.len(), width));
        assert(goes_on(before, a));
        assert(goes_on(before, after));
        if 0 <= j < m && 0 <= k < rounds[j].verdicts.len() {
            lemma_keeps(before, after, verdict_line(rounds[j].verdicts[k]));
        }
    }
}

/// The parts of an ask in full, each going on from the one before: up to the kind, the embedding,
/// the searches, the admission, the drafts, the verification, and the whole.
spec fn upto(ask: AskV, width: int, n: int) -> Seq<LineV>
    decreases n,
{
    if n <= 0 {
        with_wrapped(Seq::empty(), "  Q "@, "    "@, ask.question, width, Tone::Fg)
    } else {
        let before = upto(ask, width, n - 1).push(no_spans());
        if n == 1 {
            with_kind(before, ask)
        } else if n == 2 {
            with_embed(before, ask)
        } else if n == 3 {
            with_retrieve(before, ask)
        } else if n == 4 {
            with_admission(before, ask, width)
        } else if n == 5 {
            with_generate(before, ask, width)
        } else if n == 6 {
            with_verify(before, ask, width)
        } else {
            with_published(before, ask, width)
        }
    }
}

proof fn lemma_whole(ask: AskV, width: int)
    ensures
        detail_view(ask, width) == upto(ask, width, 7),
{
    reveal_with_fuel(upto, 8);
}

/// A part of an ask in full goes on from what is before it.
proof fn lemma_part(ask: AskV, width: int, n: int)
    requires
        1 <= n <= 7,
    ensures
        goes_on(upto(ask, width, n - 1), upto(ask, width, n)),
        goes_on(upto(ask, width, n - 1).push(no_spans()), upto(ask, width, n)),
{
    let before = upto(ask, width, n - 1).push(no_spans());
    lemma_pushed(upto(ask, width, n - 1), no_spans());
    if n == 1 {
        law_stage_is_shown(before, ask, "kind"@, None, 0);
    } else if n == 2 {
        law_stage_is_shown(
            before,
            ask,
            "embed"@,
            crate::dash::detail::skip_view(ask, "embed"@),
            0,
        );
    } else if n == 3 {
        law_stage_is_shown(
            before,
            ask,
            "retrieve"@,
            crate::dash::detail::skip_view(ask, "retrieve"@),
            0,
        );
    } else if n == 4 {
        lemma_admission(before, ask, width, 0);
    } else if n == 5 {
        lemma_generate(before, ask, width);
    } else if n == 6 {
        lemma_verify(before, ask, width, 0, 0);
    }
}

#[verifier::rlimit(40)]
proof fn lemma_admission(lines: Seq<LineV>, ask: AskV, width: int, k: int)
    ensures
        goes_on(lines, with_admission(lines, ask, width)),
        0 <= k < ask.ranked.len() ==> with_admission(lines, ask, width).contains(
            candidate_line(ask.ranked[k]),
        ),
{
    let skipped = crate::dash::detail::skip_view(ask, "admit"@);
    law_stage_is_shown(lines, ask, "admit"@, skipped, 0);
    let a = with_stage(lines, ask, "admit"@, skipped);
    if !(!ask.complete && ask.ranked.len() == 0 && ask.candidates == 0) {
        let cal = if ask.calibrated {
            "  calibrated"@
        } else {
            "  provisional"@
        };
        let b = a.push(
            crate::dash::lines::kv_text("candidates"@, decimal(ask.candidates as nat), Tone::Fg),
        ).push(
            crate::dash::lines::kv_text("included"@, decimal(ask.admitted as nat), Tone::Good),
        ).push(
            crate::dash::lines::kv_text("conflicts"@, decimal(ask.conflicts as nat), Tone::Warn),
        ).push(
            crate::dash::lines::kv_line(
                "threshold"@,
                crate::dash::lines::no_pieces().push(
                    crate::dash::state::PieceV::Fixed(ask.threshold, 3),
                ).push(crate::dash::state::PieceV::Text(cal)),
                Tone::Accent,
            ),
        ).push(no_spans().push(words("     route"@, Tone::Dim, false)));
        let c = with_wrapped(
            b,
            "       "@,
            "       "@,
            crate::dash::detail::POLICY@,
            width,
            Tone::Dim,
        );
        lemma_wrapped(b, "       "@, "       "@, crate::dash::detail::POLICY@, width, Tone::Dim);
        lemma_candidates(c, ask.ranked, ask.ranked.len(), width, k);
        assert(goes_on(a, b));
        assert(goes_on(a, c));
        assert(goes_on(lines, c));
        assert(with_admission(lines, ask, width) == if ask.ranked.len() == 0 {
            c.push(crate::dash::lines::kv_text("scores"@, "not in the log yet"@, Tone::Dim))
        } else {
            with_candidates(c, ask.ranked, ask.ranked.len(), width)
        });
    }
}

proof fn lemma_generate(lines: Seq<LineV>, ask: AskV, width: int)
    ensures
        goes_on(lines, with_generate(lines, ask, width)),
{
    let skipped = crate::dash::detail::skip_view(ask, "generate"@);
    law_stage_is_shown(lines, ask, "generate"@, skipped, 0);
    let a = with_stage(lines, ask, "generate"@, skipped);
    let b = match ask.generate_citations {
        Some(n) => a.push(
            crate::dash::lines::kv_text("citations"@, decimal(n as nat), Tone::Fg),
        ),
        None => a,
    };
    let c = if ask.chitchat {
        b.push(crate::dash::lines::kv_text("mode"@, "chitchat, no citations"@, Tone::Mauve))
    } else {
        b
    };
    lemma_drafts(c, ask.drafts, ask.drafts.len(), width);
    assert(goes_on(a, c));
}

proof fn lemma_verify(lines: Seq<LineV>, ask: AskV, width: int, j: int, k: int)
    ensures
        goes_on(lines, with_verify(lines, ask, width)),
        0 <= j < ask.verify_rounds.len() && 0 <= k < ask.verify_rounds[j].verdicts.len()
            ==> with_verify(lines, ask, width).contains(
            verdict_line(ask.verify_rounds[j].verdicts[k]),
        ),
{
    let skipped = crate::dash::detail::skip_view(ask, "verify"@);
    law_stage_is_shown(lines, ask, "verify"@, skipped, 0);
    let a = with_stage(lines, ask, "verify"@, skipped);
    let b = if ask.regens > 0 {
        a.push(
            crate::dash::lines::kv_text(
                "regenerated"@,
                decimal(ask.regens as nat) + " time(s) after a failed verify"@,
                Tone::Warn,
            ),
        )
    } else {
        a
    };
    lemma_rounds(b, ask.verify_rounds, ask.verify_rounds.len(), width, j, k);
    assert(goes_on(a, b));
}

/// What a part of an ask in full shows, the whole shows.
proof fn lemma_part_in_whole(ask: AskV, width: int, n: int, x: LineV)
    requires
        0 <= n <= 7,
        upto(ask, width, n).contains(x),
    ensures
        detail_view(ask, width).contains(x),
    decreases 7 - n,
{
    if n < 7 {
        lemma_part(ask, width, n + 1);
        lemma_keeps(upto(ask, width, n), upto(ask, width, n + 1), x);
        lemma_part_in_whole(ask, width, n + 1, x);
    } else {
        lemma_whole(ask, width);
    }
}

/// An ask in full shows every candidate of its admission and every verdict of every verification.
pub proof fn law_ask_in_full(ask: &Ask, width: usize, r: Vec<Line>, j: int, k: int)
    requires
        call_ensures(detail_lines, (ask, width), r),
    ensures
        0 <= k < ask@.ranked.len() ==> lines_view(r@).contains(candidate_line(ask@.ranked[k])),
        0 <= j < ask@.verify_rounds.len() && 0 <= k < ask@.verify_rounds[j].verdicts.len()
            ==> lines_view(r@).contains(verdict_line(ask@.verify_rounds[j].verdicts[k])),
{
    let a = ask@;
    let w = width as int;
    if 0 <= k < a.ranked.len() {
        lemma_admission(upto(a, w, 3).push(no_spans()), a, w, k);
        lemma_part_in_whole(a, w, 4, candidate_line(a.ranked[k]));
    }
    if 0 <= j < a.verify_rounds.len() && 0 <= k < a.verify_rounds[j].verdicts.len() {
        lemma_verify(upto(a, w, 5).push(no_spans()), a, w, j, k);
        lemma_part_in_whole(a, w, 6, verdict_line(a.verify_rounds[j].verdicts[k]));
    }
}

/// How a verdict is coloured: support is good, an invented claim bad, and the rest a warning.
pub proof fn law_verdict_line(v: VerdictRowV)
    ensures
        v.verdict == "supports"@ <==> verdict_line(v)[0].tone == Tone::Good,
        v.verdict == "fabricated"@ <==> verdict_line(v)[0].tone == Tone::Bad,
        v.memory_index matches Some(n) ==> verdict_line(v)[1] == words(
            "[memory_"@ + decimal(n as nat) + "] "@,
            Tone::Dim,
            false,
        ),
        v.memory_index is None ==> verdict_line(v)[1] == words(Seq::empty(), Tone::Dim, false),
{
    reveal_strlit("supports");
    reveal_strlit("fabricated");
    assert("supports"@.len() == 8);
    assert("fabricated"@.len() == 10);
}

// ---------------------------------------------------------------------------------------------
// What a line brings
// ---------------------------------------------------------------------------------------------

/// Rows are read in order, and those that lack a part are left out: the rows of two lists are those
/// of the one and then those of the other, and a row that is whole is read.
pub proof fn law_rows_of_a_cut_list(a: Seq<JsonV>, b: Seq<JsonV>)
    ensures
        rows_of(a + b) == rows_of(a) + rows_of(b),
    decreases b.len(),
{
    if b.len() == 0 {
        assert(a + b =~= a);
        assert(rows_of(a) + rows_of(b) =~= rows_of(a));
    } else {
        assert((a + b).drop_last() =~= a + b.drop_last());
        law_rows_of_a_cut_list(a, b.drop_last());
        assert(rows_of(a + b) =~= rows_of(a) + rows_of(b));
    }
}

/// A row is read exactly where it says whether it was let in, what it states, how it scored and
/// where it comes from.
pub proof fn law_one_row(v: JsonV)
    ensures
        row_of(v) is Some <==> v.flag_at("admitted"@) is Some && v.text_at("statement"@) is Some
            && v.number_at("noul"@) is Some && v.field("origin"@) is Some,
        rows_of(seq![v]) == match row_of(v) {
            Some(r) => seq![r],
            None => Seq::<CandidateRowV>::empty(),
        },
        row_of(v) matches Some(r) ==> v.flag_at("admitted"@) == Some(r.admitted) && v.text_at(
            "statement"@,
        ) == Some(r.statement) && v.number_at("noul"@) == Some(r.noul) && r.evidence
            == v.number_at("evidence"@) && r.injection == v.number_at("injection"@)
            && r.contradicts == v.number_at("contradicts"@) && r.relevant == v.number_at(
            "relevant"@,
        ) && (v.text_at("origin"@) matches Some(o) ==> r.origin == o) && (v.text_at(
            "origin"@,
        ) is None ==> r.origin == "?"@) && (v.text_at("route"@) matches Some(x) ==> r.route == x)
            && (v.text_at("route"@) is None && r.admitted ==> r.route == "include"@) && (v.text_at(
            "route"@,
        ) is None && !r.admitted ==> r.route == "exclude"@),
{
    assert(seq![v].drop_last() =~= Seq::<JsonV>::empty());
    assert(rows_of(seq![v].drop_last()) =~= Seq::<CandidateRowV>::empty());
    assert(seq![v].last() == v);
    assert(rows_of(seq![v]) =~= match row_of(v) {
        Some(r) => seq![r],
        None => Seq::<CandidateRowV>::empty(),
    });
}

/// Verdicts are read in order, and those without a claim or a verdict are left out.
pub proof fn law_verdicts_of_a_cut_list(a: Seq<JsonV>, b: Seq<JsonV>)
    ensures
        verdicts_of(a + b) == verdicts_of(a) + verdicts_of(b),
    decreases b.len(),
{
    if b.len() == 0 {
        assert(a + b =~= a);
        assert(verdicts_of(a) + verdicts_of(b) =~= verdicts_of(a));
    } else {
        assert((a + b).drop_last() =~= a + b.drop_last());
        law_verdicts_of_a_cut_list(a, b.drop_last());
        assert(verdicts_of(a + b) =~= verdicts_of(a) + verdicts_of(b));
    }
}

/// A verdict is read exactly where it has its claim and its verdict.
pub proof fn law_one_verdict(v: JsonV)
    ensures
        verdict_of(v) is Some <==> v.text_at("claim"@) is Some && v.text_at("verdict"@) is Some,
        verdict_of(v) matches Some(r) ==> v.text_at("claim"@) == Some(r.claim) && v.text_at(
            "verdict"@,
        ) == Some(r.verdict) && r.memory_index == v.count_at("memory_index"@),
        verdicts_of(seq![v]) == match verdict_of(v) {
            Some(r) => seq![r],
            None => Seq::<VerdictRowV>::empty(),
        },
{
    assert(seq![v].drop_last() =~= Seq::<JsonV>::empty());
    assert(verdicts_of(seq![v].drop_last()) =~= Seq::<VerdictRowV>::empty());
    assert(seq![v].last() == v);
    assert(verdicts_of(seq![v]) =~= match verdict_of(v) {
        Some(r) => seq![r],
        None => Seq::<VerdictRowV>::empty(),
    });
}

/// A list may stand in a field as itself or as its text.
pub proof fn law_lists(items: Seq<JsonV>, text: Seq<char>)
    ensures
        list_of(Some(JsonV::Arr(items))) == items,
        json_of(text) == Some(JsonV::Arr(items)) ==> list_of(Some(JsonV::Str(text))) == items,
        json_of(text) is None ==> list_of(Some(JsonV::Str(text))).len() == 0,
        list_of(None).len() == 0,
        list_of(Some(JsonV::Null)).len() == 0,
{
}

// ---------------------------------------------------------------------------------------------
// Panels
// ---------------------------------------------------------------------------------------------

/// The empty ones are counted among the forty newest asks.
pub proof fn law_empties(app: &App, r: usize)
    requires
        call_ensures(count_empties, (app,), r),
    ensures
        ({
            let all = app@.asks;
            let newest = if all.len() <= 40 {
                all
            } else {
                all.skip(all.len() - 40)
            };
            r == newest.filter(|a: AskV| a.empty).len()
        }),
{
    lemma_empties(recent(app@.asks));
}

proof fn lemma_empties(asks: Seq<AskV>)
    ensures
        empties(asks) == asks.filter(|a: AskV| a.empty).len(),
    decreases asks.len(),
{
    let hollow = |a: AskV| a.empty;
    if asks.len() > 0 {
        lemma_empties(asks.drop_last());
        lemma_filter_last(asks, hollow);
    } else {
        reveal(Seq::filter);
    }
}

/// The newest asks are listed, the newest first, as many as there is room for.
pub proof fn law_rows_of_asks(app: &App, room: usize, r: Vec<Line>)
    requires
        call_ensures(ask_rows, (app, room), r),
    ensures
        r@.len() <= room && r@.len() <= app.asks@.len(),
        r@.len() == room || r@.len() == app.asks@.len(),
        forall|k: int|
            0 <= k < r@.len() ==> (#[trigger] r@[k])@ == ask_row_view(
                app@.asks[app@.asks.len() - 1 - k],
            ),
{
}

/// The ask that is shown is the selected one, or the newest where none is.
pub proof fn law_shown_ask(app: &App, r: Option<usize>)
    requires
        call_ensures(shown_ask, (app,), r),
        app@.wf(),
    ensures
        app.selected is Some ==> r == app.selected,
        app.selected is None && app.asks@.len() == 0 ==> r is None,
        app.selected is None && app.asks@.len() > 0 ==> (r matches Some(k) && k + 1
            == app.asks@.len()),
{
}

/// A time is shown in hours, minutes and seconds, each of two digits at least.
pub proof fn law_uptime(hours: nat, minutes: nat, seconds: nat)
    requires
        minutes < 60,
        seconds < 60,
    ensures
        uptime(hours * 3600 + minutes * 60 + seconds) == "up "@ + two_digits(hours) + ":"@
            + two_digits(minutes) + ":"@ + two_digits(seconds),
        hours < 10 ==> two_digits(hours) == "0"@ + decimal(hours),
        hours >= 10 ==> two_digits(hours) == decimal(hours),
{
    let n = hours * 3600 + minutes * 60 + seconds;
    assert(n / 3600 == hours && n % 3600 == minutes * 60 + seconds) by (nonlinear_arith)
        requires
            n == hours * 3600 + minutes * 60 + seconds,
            minutes < 60,
            seconds < 60,
    ;
    assert((n % 3600) / 60 == minutes);
    assert(n % 60 == seconds) by (nonlinear_arith)
        requires
            n == hours * 3600 + minutes * 60 + seconds,
            seconds < 60,
    ;
}

/// A candidate is shown with where it went, its evidence, and its other scores where they are
/// known, and is coloured by where it went.
pub proof fn law_candidate_is_shown(c: CandidateRowV)
    ensures
        ({
            let p = candidate_line(c)[0].pieces;
            &&& candidate_line(c).len() == 1 && p.len() == 14
            &&& p[1] == PieceV::Text(padded_right(c.route, 9))
            &&& c.evidence matches Some(e) ==> p[3] == PieceV::Fixed(e, 3)
            &&& c.evidence is None ==> p[3] == PieceV::Fixed(c.noul, 3)
            &&& c.relevant matches Some(x) ==> p[5] == PieceV::Fixed(x, 3)
            &&& c.injection matches Some(x) ==> p[7] == PieceV::Fixed(x, 3)
            &&& c.contradicts matches Some(x) ==> p[9] == PieceV::Fixed(x, 3)
            &&& c.rrf matches Some(x) ==> p[11] == PieceV::Fixed(x, 3)
            &&& p[13] == PieceV::Text(c.origin)
        }),
        c.route == "include"@ <==> candidate_line(c)[0].tone == Tone::Good,
        c.route == "conflict"@ <==> candidate_line(c)[0].tone == Tone::Warn,
{
    reveal_strlit("include");
    reveal_strlit("conflict");
    assert("include"@.len() == 7);
    assert("conflict"@.len() == 8);
}

/// The line on the service shows how many asks there were, how many were empty and how many
/// errors, the latter as bad unless there are none.
pub proof fn law_header(app: &App, secs: u64, rate: Score, share: Score, r: Line)
    requires
        call_ensures(header_line, (app, secs, rate, share), r),
    ensures
        r@.contains(words(decimal(app.total_asks as nat), Tone::Fg, true)),
        r@.contains(words(decimal(app.empty_admits as nat), Tone::Warn, false)),
        r@.len() == 16,
        app.errors == 0 ==> r@.last() == words(decimal(0), Tone::Good, false),
        app.errors > 0 ==> r@.last() == words(decimal(app.errors as nat), Tone::Bad, false),
        r@[1] == words(uptime(secs as nat), Tone::Dim, false),
{
    assert(r@[4] == words(decimal(app.total_asks as nat), Tone::Fg, true));
    assert(r@[12] == words(decimal(app.empty_admits as nat), Tone::Warn, false));
}

/// A row of the list of asks begins with the first eight characters of the id, and says how many
/// of the candidates were let in and how the ask ended.
pub proof fn law_row_of_an_ask(ask: AskV)
    ensures
        ask_row_view(ask).len() == 5,
        ask.id.len() > 8 ==> ask_row_view(ask)[0] == words(ask.id.take(8), Tone::Fg, false),
        ask.id.len() <= 8 ==> ask_row_view(ask)[0] == words(ask.id, Tone::Fg, false),
        ask.question.len() <= 48 ==> ask_row_view(ask)[1] == words(ask.question, Tone::Fg, false),
        ask_row_view(ask)[2] == words(
            decimal(ask.admitted as nat) + "/"@ + decimal(ask.candidates as nat),
            Tone::Fg,
            false,
        ),
        ask_row_view(ask)[4] == words(verdict_on(ask).0, verdict_on(ask).1, true),
{
}

} // verus!
