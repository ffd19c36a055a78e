//! The panels of the overview: the service, its stages, the recent asks and events.

use crate::dash::detail::row_verdict;
#[allow(unused_imports)]
use crate::dash::detail::verdict_on;
#[allow(unused_imports)]
use crate::dash::lines::{lines_view, no_pieces, no_spans, words, LineV, SpanV};
use crate::dash::lines::{concat, push_line, Line, Pieces, Spans, Tone};
use crate::dash::state::{App, Ask, CandidateRow, Note};
#[allow(unused_imports)]
use crate::dash::state::{AppV, AskV, CandidateRowV, PieceV};
use crate::dash::window::Stage;
#[allow(unused_imports)]
use crate::dash::window::{longest, tail, StageV};
use crate::score::Score;
#[allow(unused_imports)]
use crate::text::{clipped, decimal, has, padded_left, padded_right};
use crate::text::{clip, contains, decimal_text, head, pad_left, pad_right, same};
use vstd::prelude::*;
use vstd::string::*;

verus! {

// ---------------------------------------------------------------------------------------------
// The service
// ---------------------------------------------------------------------------------------------

/// 50 as a double.
pub const FIFTY: u64 = 0x4049_0000_0000_0000;

/// A number of at least two digits.
pub open spec fn two_digits(n: nat) -> Seq<char> {
    if n < 10 {
        "0"@ + decimal(n)
    } else {
        decimal(n)
    }
}

fn two_digits_text(n: u64) -> (r: String)
    ensures
        r@ == two_digits(n as nat),
{
    if n < 10 {
        concat("0", decimal_text(n).as_str())
    } else {
        decimal_text(n)
    }
}

/// How long the service was watched, in hours, minutes and seconds.
pub open spec fn uptime(secs: nat) -> Seq<char> {
    "up "@ + two_digits(secs / 3600) + ":"@ + two_digits((secs % 3600) / 60) + ":"@ + two_digits(
        secs % 60,
    )
}

pub const SEPARATOR: &'static str = "  │  ";

pub open spec fn separator() -> SpanV {
    words(SEPARATOR@, Tone::Dim, false)
}

/// The line on the service. `rate` is the number of asks in a minute, `share` the percentage of
/// asks that were answered.
pub open spec fn header_view(app: AppV, secs: u64, rate: Score, share: Score) -> LineV {
    no_spans().push(words("  recall "@, Tone::Mauve, true)).push(
        words(uptime(secs as nat), Tone::Dim, false),
    ).push(separator()).push(words("asks "@, Tone::Dim, false)).push(
        words(decimal(app.total_asks as nat), Tone::Fg, true),
    ).push(separator()).push(
        SpanV {
            pieces: no_pieces().push(PieceV::Fixed(rate, 1)).push(PieceV::Text("/min"@)),
            tone: Tone::Accent,
            bold: false,
        },
    ).push(separator()).push(words("admitted "@, Tone::Dim, false)).push(
        SpanV {
            pieces: no_pieces().push(PieceV::Fixed(share, 0)).push(PieceV::Text("%"@)),
            tone: if (Score { bits: FIFTY }).below(share) {
                Tone::Good
            } else {
                Tone::Warn
            },
            bold: false,
        },
    ).push(separator()).push(words("empty "@, Tone::Dim, false)).push(
        words(decimal(app.empty_admits as nat), Tone::Warn, false),
    ).push(separator()).push(words("errors "@, Tone::Dim, false)).push(
        words(
            decimal(app.errors as nat),
            if app.errors == 0 {
                Tone::Good
            } else {
                Tone::Bad
            },
            false,
        ),
    )
}

/// The line on the service.
pub fn header_line(app: &App, secs: u64, rate: Score, share: Score) -> (r: Line)
    ensures
        r@ == header_view(app@, secs, rate, share),
{
    let mut up = concat("up ", two_digits_text(secs / 3600).as_str());
    up.append(":");
    up.append(two_digits_text((secs % 3600) / 60).as_str());
    up.append(":");
    up.append(two_digits_text(secs % 60).as_str());
    let good: Tone = if share.gt(Score { bits: FIFTY }) {
        Tone::Good
    } else {
        Tone::Warn
    };
    let faults: Tone = if app.errors == 0 {
        Tone::Good
    } else {
        Tone::Bad
    };
    let line = Spans::new().text("  recall ", Tone::Mauve, true).text(
        up.as_str(),
        Tone::Dim,
        false,
    ).text(SEPARATOR, Tone::Dim, false).text("asks ", Tone::Dim, false).text(
        decimal_text(app.total_asks).as_str(),
        Tone::Fg,
        true,
    ).text(SEPARATOR, Tone::Dim, false).with(
        Pieces::new().fixed(rate, 1).text("/min").span(Tone::Accent, false),
    ).text(SEPARATOR, Tone::Dim, false).text("admitted ", Tone::Dim, false).with(
        Pieces::new().fixed(share, 0).text("%").span(good, false),
    ).text(SEPARATOR, Tone::Dim, false).text("empty ", Tone::Dim, false).text(
        decimal_text(app.empty_admits).as_str(),
        Tone::Warn,
        false,
    ).text(SEPARATOR, Tone::Dim, false).text("errors ", Tone::Dim, false).text(
        decimal_text(app.errors).as_str(),
        faults,
        false,
    );
    line.line()
}

// ---------------------------------------------------------------------------------------------
// The stages
// ---------------------------------------------------------------------------------------------

/// How a latency is coloured.
pub open spec fn latency_tone(ms: u64) -> Tone {
    if ms <= 200 {
        Tone::Good
    } else if ms <= 2000 {
        Tone::Warn
    } else {
        Tone::Bad
    }
}

/// The colour of a stage, by the latency in its middle.
pub fn stage_tone(stage: &Stage) -> (r: Tone)
    ensures
        r == latency_tone(stage@.middle()),
{
    let ms: u64 = stage.p50();
    if ms <= 200 {
        Tone::Good
    } else if ms <= 2000 {
        Tone::Warn
    } else {
        Tone::Bad
    }
}

/// The line on a stage: its latest, middle and longest latency.
pub open spec fn stage_view(name: Seq<char>, stage: StageV) -> LineV {
    no_spans().push(words(" "@ + padded_right(name, 9), Tone::Fg, false)).push(
        words(
            padded_left(decimal(stage.latest() as nat), 6) + "ms"@,
            latency_tone(stage.middle()),
            true,
        ),
    ).push(
        words(" p50 "@ + padded_left(decimal(stage.middle() as nat), 5), Tone::Dim, false),
    ).push(
        words(
            " max "@ + padded_left(decimal(longest(stage.samples) as nat), 5),
            Tone::Dim,
            false,
        ),
    )
}

/// The line on a stage.
pub fn stage_line(name: &str, stage: &Stage) -> (r: Line)
    ensures
        r@ == stage_view(name@, stage@),
{
    let last: u64 = stage.last();
    let p50: u64 = stage.p50();
    let max: u64 = stage.max();
    let tone: Tone = stage_tone(stage);
    let label = concat(" ", pad_right(name, 9).as_str());
    let latest = concat(pad_left(decimal_text(last).as_str(), 6).as_str(), "ms");
    let middle = concat(" p50 ", pad_left(decimal_text(p50).as_str(), 5).as_str());
    let longest = concat(" max ", pad_left(decimal_text(max).as_str(), 5).as_str());
    let line = Spans::new().text(label.as_str(), Tone::Fg, false).text(
        latest.as_str(),
        tone,
        true,
    ).text(middle.as_str(), Tone::Dim, false).text(longest.as_str(), Tone::Dim, false);
    line.line()
}

// ---------------------------------------------------------------------------------------------
// Admission
// ---------------------------------------------------------------------------------------------

/// How many asks the averages are taken over.
pub const RECENT: usize = 40;

/// The recent asks.
pub open spec fn recent(asks: Seq<AskV>) -> Seq<AskV> {
    tail(asks, RECENT as int)
}

/// How many of the asks were not answered.
pub open spec fn empties(asks: Seq<AskV>) -> nat
    decreases asks.len(),
{
    if asks.len() == 0 {
        0
    } else {
        empties(asks.drop_last()) + if asks.last().empty {
            1nat
        } else {
            0
        }
    }
}

/// Where the recent asks begin.
pub fn recent_start(app: &App) -> (r: usize)
    ensures
        r <= app.asks@.len(),
        app@.asks.skip(r as int) == recent(app@.asks),
{
    let n: usize = app.asks.len();
    assert(app@.asks.skip(0) =~= app@.asks);
    if n <= RECENT {
        0
    } else {
        n - RECENT
    }
}

/// How many of the recent asks were not answered.
pub fn count_empties(app: &App) -> (r: usize)
    ensures
        r == empties(recent(app@.asks)),
{
    let start: usize = recent_start(app);
    let ghost all = recent(app@.asks);
    let mut n: usize = 0;
    let mut i: usize = start;
    assert(all.take(0) =~= Seq::<AskV>::empty());
    while i < app.asks.len()
        invariant
            start <= i <= app.asks@.len(),
            all == app@.asks.skip(start as int),
            n <= i - start,
            n == empties(all.take(i - start)),
        decreases app.asks@.len() - i,
    {
        assert(all.take(i - start + 1).drop_last() =~= all.take(i - start));
        assert(all.take(i - start + 1).last() == app.asks@[i as int]@);
        if app.asks[i].empty {
            n = n + 1;
        }
        i = i + 1;
    }
    assert(all.take(i - start) =~= all);
    n
}

/// A value of the admission panel with a name before it.
pub open spec fn fact_view(key: Seq<char>, value: Seq<PieceV>, tone: Tone) -> LineV {
    no_spans().push(words(" "@ + padded_right(key, 14), Tone::Dim, false)).push(
        SpanV { pieces: value, tone, bold: true },
    )
}

fn fact(key: &str, value: Pieces, tone: Tone) -> (r: Line)
    ensures
        r@ == fact_view(key@, value@, tone),
{
    let name = concat(" ", pad_right(key, 14).as_str());
    Spans::new().text(name.as_str(), Tone::Dim, false).with(value.span(tone, true)).line()
}

/// The lines on admission. `noul` is the average best score of the recent asks, `candidates` the
/// average number of their candidates.
pub fn admission_lines(app: &App, noul: Score, candidates: Score) -> (r: Vec<Line>)
    ensures
        lines_view(r@) == Seq::<LineV>::empty().push(
            fact_view(
                "threshold"@,
                no_pieces().push(PieceV::Fixed(app.threshold, 3)),
                Tone::Accent,
            ),
        ).push(
            if app.calibrated {
                fact_view("calibrated"@, no_pieces().push(PieceV::Text("yes"@)), Tone::Good)
            } else {
                fact_view(
                    "calibrated"@,
                    no_pieces().push(PieceV::Text("NO (provisional)"@)),
                    Tone::Warn,
                )
            },
        ).push(
            fact_view("avg top noul"@, no_pieces().push(PieceV::Fixed(noul, 3)), Tone::Fg),
        ).push(
            fact_view(
                "avg candidates"@,
                no_pieces().push(PieceV::Fixed(candidates, 1)),
                Tone::Fg,
            ),
        ),
{
    let mut out: Vec<Line> = Vec::new();
    assert(lines_view(out@) =~= Seq::<LineV>::empty());
    push_line(&mut out, fact("threshold", Pieces::new().fixed(app.threshold, 3), Tone::Accent));
    if app.calibrated {
        push_line(&mut out, fact("calibrated", Pieces::new().text("yes"), Tone::Good));
    } else {
        push_line(&mut out, fact("calibrated", Pieces::new().text("NO (provisional)"), Tone::Warn));
    }
    push_line(&mut out, fact("avg top noul", Pieces::new().fixed(noul, 3), Tone::Fg));
    push_line(&mut out, fact("avg candidates", Pieces::new().fixed(candidates, 1), Tone::Fg));
    out
}

// ---------------------------------------------------------------------------------------------
// The recent asks
// ---------------------------------------------------------------------------------------------

/// An ask as a row: the beginning of its id, its question, how many of its candidates were let
/// in, its best score, and how it ended.
pub open spec fn ask_row_view(ask: AskV) -> LineV {
    let (verdict, tone) = verdict_on(ask);
    no_spans().push(
        words(
            if ask.id.len() <= 8 {
                ask.id
            } else {
                ask.id.take(8)
            },
            Tone::Fg,
            false,
        ),
    ).push(words(clipped(ask.question, 48), Tone::Fg, false)).push(
        words(
            decimal(ask.admitted as nat) + "/"@ + decimal(ask.candidates as nat),
            Tone::Fg,
            false,
        ),
    ).push(
        SpanV {
            pieces: no_pieces().push(PieceV::Fixed(ask.top_noul, 3)),
            tone: Tone::Fg,
            bold: false,
        },
    ).push(words(verdict, tone, true))
}

/// An ask as a row.
pub fn ask_row(ask: &Ask) -> (r: Line)
    ensures
        r@ == ask_row_view(ask@),
{
    let (verdict, tone) = row_verdict(ask);
    let mut share = decimal_text(ask.admitted);
    share.append("/");
    share.append(decimal_text(ask.candidates).as_str());
    let line = Spans::new().text(head(ask.id.as_str(), 8).as_str(), Tone::Fg, false).text(
        clip(ask.question.as_str(), 48).as_str(),
        Tone::Fg,
        false,
    ).text(share.as_str(), Tone::Fg, false).with(
        Pieces::new().fixed(ask.top_noul, 3).span(Tone::Fg, false),
    ).text(verdict, tone, true);
    line.line()
}

/// The rows of the newest asks, the newest first, no more than `room`.
pub fn ask_rows(app: &App, room: usize) -> (r: Vec<Line>)
    ensures
        r@.len() == if app.asks@.len() <= room {
            app.asks@.len() as int
        } else {
            room as int
        },
        forall|k: int|
            0 <= k < r@.len() ==> (#[trigger] r@[k])@ == ask_row_view(
                app@.asks[app.asks@.len() - 1 - k],
            ),
{
    let mut out: Vec<Line> = Vec::new();
    let n: usize = app.asks.len();
    while out.len() < n && out.len() < room
        invariant
            n == app.asks@.len(),
            out@.len() <= n,
            out@.len() <= room,
            forall|k: int|
                0 <= k < out@.len() ==> (#[trigger] out@[k])@ == ask_row_view(
                    app@.asks[n - 1 - k],
                ),
        decreases n - out@.len(),
    {
        let i: usize = n - 1 - out.len();
        assert(app@.asks[i as int] == app.asks@[i as int]@);
        out.push(ask_row(&app.asks[i]));
    }
    out
}

/// The ask that is shown: the selected one, or the newest.
pub fn shown_ask(app: &App) -> (r: Option<usize>)
    ensures
        r == match app.selected {
            Some(s) => Some(s),
            None => if app.asks@.len() == 0 {
                None
            } else {
                Some((app.asks@.len() - 1) as usize)
            },
        },
{
    match app.selected {
        Some(s) => Some(s),
        None => if app.asks.len() == 0 {
            None
        } else {
            Some(app.asks.len() - 1)
        },
    }
}

/// The line on where an ask was answered from, and how long it took.
pub open spec fn meta_view(ask: AskV) -> LineV {
    no_spans().push(words(" brain "@, Tone::Dim, false)).push(
        words(clipped(ask.brain_id, 36), Tone::Fg, false),
    ).push(words("  │  retrieve "@, Tone::Dim, false)).push(
        words(
            decimal(ask.personal as nat) + " personal + "@ + decimal(ask.granted as nat)
                + " granted"@,
            Tone::Accent,
            false,
        ),
    ).push(separator()).push(words(decimal(ask.total_ms as nat) + "ms"@, Tone::Dim, false))
}

pub fn meta_line(ask: &Ask) -> (r: Line)
    ensures
        r@ == meta_view(ask@),
{
    let mut found = decimal_text(ask.personal);
    found.append(" personal + ");
    found.append(decimal_text(ask.granted).as_str());
    found.append(" granted");
    let ms = concat(decimal_text(ask.total_ms).as_str(), "ms");
    let line = Spans::new().text(" brain ", Tone::Dim, false).text(
        clip(ask.brain_id.as_str(), 36).as_str(),
        Tone::Fg,
        false,
    ).text("  │  retrieve ", Tone::Dim, false).text(found.as_str(), Tone::Accent, false).text(
        SEPARATOR,
        Tone::Dim,
        false,
    ).text(ms.as_str(), Tone::Dim, false);
    line.line()
}

/// A candidate as a row. One that was not let in stands out where its score is at least `near`.
pub open spec fn candidate_row_view(c: CandidateRowV, near: Score) -> LineV {
    let tone = if c.admitted {
        Tone::Good
    } else if near.at_most(c.noul) {
        Tone::Warn
    } else {
        Tone::Dim
    };
    no_spans().push(
        words(
            if c.admitted {
                "✓"@
            } else {
                "·"@
            },
            tone,
            true,
        ),
    ).push(SpanV { pieces: no_pieces().push(PieceV::Fixed(c.noul, 3)), tone, bold: false }).push(
        words(c.origin, Tone::Dim, false),
    ).push(words(clipped(c.statement, 72), Tone::Fg, false))
}

pub fn candidate_line(c: &CandidateRow, near: Score) -> (r: Line)
    ensures
        r@ == candidate_row_view(c@, near),
{
    let tone: Tone = if c.admitted {
        Tone::Good
    } else if c.noul.ge(near) {
        Tone::Warn
    } else {
        Tone::Dim
    };
    let mark: &str = if c.admitted {
        "✓"
    } else {
        "·"
    };
    let line = Spans::new().text(mark, tone, true).with(
        Pieces::new().fixed(c.noul, 3).span(tone, false),
    ).text(c.origin.as_str(), Tone::Dim, false).text(
        clip(c.statement.as_str(), 72).as_str(),
        Tone::Fg,
        false,
    );
    line.line()
}

// ---------------------------------------------------------------------------------------------
// Events
// ---------------------------------------------------------------------------------------------

/// How an event is coloured.
pub open spec fn note_tone(kind: Seq<char>) -> Tone {
    if has(kind, "FAILED"@) {
        Tone::Bad
    } else if kind == "REGEN"@ || kind == "RETRY"@ {
        Tone::Warn
    } else if kind == "WITHHELD"@ {
        Tone::Mauve
    } else {
        Tone::Dim
    }
}

/// How an event is coloured.
pub fn event_tone(kind: &str) -> (r: Tone)
    ensures
        r == note_tone(kind@),
{
    if contains(kind, "FAILED") {
        Tone::Bad
    } else if same(kind, "REGEN") || same(kind, "RETRY") {
        Tone::Warn
    } else if same(kind, "WITHHELD") {
        Tone::Mauve
    } else {
        Tone::Dim
    }
}

/// The name of an event, as its line begins.
pub fn event_label(note: &Note) -> (r: String)
    ensures
        r@ == " "@ + padded_right(note.kind@, 16),
{
    concat(" ", pad_right(note.kind.as_str(), 16).as_str())
}

} // verus!
