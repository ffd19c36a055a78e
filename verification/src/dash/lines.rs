//! Lines of coloured text, and how they are put together.

use crate::dash::state::Piece;
#[allow(unused_imports)]
use crate::dash::state::{pieces_view, PieceV};
use crate::dash::wrap::break_lines;
#[allow(unused_imports)]
use crate::dash::wrap::{broken, budget_of};
use crate::score::Score;
#[allow(unused_imports)]
use crate::text::{decimal, padded_right, views};
use crate::text::{decimal_text, pad_right};
use vstd::prelude::*;
use vstd::string::*;

verus! {

/// How something is coloured.
#[derive(Debug, Clone, Copy, PartialEq, Eq, Structural)]
pub enum Tone {
    Fg,
    Dim,
    Good,
    Warn,
    Bad,
    Accent,
    Mauve,
}

/// A run of one colour.
#[derive(Debug)]
pub struct Span {
    pub pieces: Vec<Piece>,
    pub tone: Tone,
    pub bold: bool,
}

/// A line of what is shown.
#[derive(Debug)]
pub struct Line {
    pub spans: Vec<Span>,
}

pub struct SpanV {
    pub pieces: Seq<PieceV>,
    pub tone: Tone,
    pub bold: bool,
}

pub type LineV = Seq<SpanV>;

impl Span {
    pub open spec fn view(&self) -> SpanV {
        SpanV { pieces: pieces_view(self.pieces@), tone: self.tone, bold: self.bold }
    }
}

impl Line {
    pub open spec fn view(&self) -> LineV {
        self.spans@.map_values(|s: Span| s@)
    }
}

pub open spec fn lines_view(s: Seq<Line>) -> Seq<LineV> {
    s.map_values(|l: Line| l@)
}

// ---------------------------------------------------------------------------------------------
// Building lines
// ---------------------------------------------------------------------------------------------

pub open spec fn no_pieces() -> Seq<PieceV> {
    Seq::empty()
}

pub open spec fn no_spans() -> LineV {
    Seq::empty()
}

/// A run of text.
pub open spec fn words(s: Seq<char>, tone: Tone, bold: bool) -> SpanV {
    SpanV { pieces: no_pieces().push(PieceV::Text(s)), tone, bold }
}

/// A text with a name before it.
pub open spec fn kv_line(key: Seq<char>, value: Seq<PieceV>, tone: Tone) -> LineV {
    no_spans().push(words("     "@ + padded_right(key, 14), Tone::Dim, false)).push(
        SpanV { pieces: value, tone, bold: false },
    )
}

pub open spec fn kv_text(key: Seq<char>, value: Seq<char>, tone: Tone) -> LineV {
    kv_line(key, no_pieces().push(PieceV::Text(value)), tone)
}

/// The pieces of a run under construction.
#[derive(Debug)]
pub struct Pieces {
    list: Vec<Piece>,
}

impl Pieces {
    pub closed spec fn view(&self) -> Seq<PieceV> {
        pieces_view(self.list@)
    }

    pub fn new() -> (r: Pieces)
        ensures
            r@ == no_pieces(),
    {
        let r = Pieces { list: Vec::new() };
        assert(r@ =~= no_pieces());
        r
    }

    pub fn text(self, s: &str) -> (r: Pieces)
        ensures
            r@ == self@.push(PieceV::Text(s@)),
    {
        self.with(Piece::Text(s.to_owned()))
    }

    pub fn fixed(self, s: Score, places: u8) -> (r: Pieces)
        ensures
            r@ == self@.push(PieceV::Fixed(s, places)),
    {
        self.with(Piece::Fixed(s, places))
    }

    fn with(self, p: Piece) -> (r: Pieces)
        ensures
            r@ == self@.push(p@),
    {
        let ghost before = self@;
        let ghost one = p@;
        let mut list = self.list;
        list.push(p);
        let r = Pieces { list };
        assert(r@ =~= before.push(one));
        r
    }

    pub fn span(self, tone: Tone, bold: bool) -> (r: Span)
        ensures
            r@ == (SpanV { pieces: self@, tone, bold }),
    {
        Span { pieces: self.list, tone, bold }
    }
}

pub(crate) fn text_span(s: &str, tone: Tone, bold: bool) -> (r: Span)
    ensures
        r@ == words(s@, tone, bold),
{
    Pieces::new().text(s).span(tone, bold)
}

/// A line under construction.
#[derive(Debug)]
pub struct Spans {
    list: Vec<Span>,
}

impl Spans {
    pub closed spec fn view(&self) -> LineV {
        self.list@.map_values(|s: Span| s@)
    }

    pub fn new() -> (r: Spans)
        ensures
            r@ == no_spans(),
    {
        let r = Spans { list: Vec::new() };
        assert(r@ =~= no_spans());
        r
    }

    pub fn with(self, s: Span) -> (r: Spans)
        ensures
            r@ == self@.push(s@),
    {
        let ghost before = self@;
        let ghost one = s@;
        let mut list = self.list;
        list.push(s);
        let r = Spans { list };
        assert(r@ =~= before.push(one));
        r
    }

    pub fn text(self, s: &str, tone: Tone, bold: bool) -> (r: Spans)
        ensures
            r@ == self@.push(words(s@, tone, bold)),
    {
        self.with(text_span(s, tone, bold))
    }

    pub fn line(self) -> (r: Line)
        ensures
            r@ == self@,
    {
        Line { spans: self.list }
    }
}

/// Adds a line.
pub fn push_line(out: &mut Vec<Line>, line: Line)
    ensures
        lines_view(final(out)@) == lines_view(old(out)@).push(line@),
{
    let ghost one = line@;
    out.push(line);
    assert(lines_view(out@) =~= lines_view(old(out)@).push(one));
}

/// Two texts, one after the other.
pub fn concat(a: &str, b: &str) -> (r: String)
    ensures
        r@ == a@ + b@,
{
    let mut out = a.to_owned();
    out.append(b);
    out
}

/// Adds a text with a name before it.
pub(crate) fn kv(out: &mut Vec<Line>, key: &str, value: &str, tone: Tone)
    ensures
        lines_view(final(out)@) == lines_view(old(out)@).push(kv_text(key@, value@, tone)),
{
    kv_pieces(out, key, Pieces::new().text(value), tone)
}

pub(crate) fn kv_pieces(out: &mut Vec<Line>, key: &str, value: Pieces, tone: Tone)
    ensures
        lines_view(final(out)@) == lines_view(old(out)@).push(kv_line(key@, value@, tone)),
{
    let name = concat("     ", pad_right(key, 14).as_str());
    let line = Spans::new().text(name.as_str(), Tone::Dim, false).with(value.span(tone, false));
    push_line(out, line.line());
}

pub(crate) fn kv_count(out: &mut Vec<Line>, key: &str, n: u64, tone: Tone)
    ensures
        lines_view(final(out)@) == lines_view(old(out)@).push(
            kv_text(key@, decimal(n as nat), tone),
        ),
{
    kv(out, key, decimal_text(n).as_str(), tone)
}

// ---------------------------------------------------------------------------------------------
// Wrapped text
// ---------------------------------------------------------------------------------------------

/// The least width that text is wrapped to.
pub const MIN_WIDTH: usize = 24;

pub open spec fn wrap_width(width: int) -> int {
    if width >= MIN_WIDTH {
        width
    } else {
        MIN_WIDTH as int
    }
}

/// The lines with a text added that is broken to fit: `prefix` stands before the first line,
/// `cont` before the others. A text of nothing is shown as its prefix.
pub open spec fn with_wrapped(
    lines: Seq<LineV>,
    prefix: Seq<char>,
    cont: Seq<char>,
    text: Seq<char>,
    width: int,
    tone: Tone,
) -> Seq<LineV> {
    if text.len() == 0 {
        lines.push(no_spans().push(words(prefix, Tone::Dim, false)))
    } else {
        let parts = broken(
            text,
            budget_of(wrap_width(width), prefix.len() as int),
            budget_of(wrap_width(width), cont.len() as int),
        );
        lines + Seq::new(
            parts.len(),
            |k: int|
                no_spans().push(
                    words(
                        if k == 0 {
                            prefix
                        } else {
                            cont
                        },
                        Tone::Dim,
                        false,
                    ),
                ).push(words(parts[k], tone, false)),
        )
    }
}

fn budget(width: usize, prefix: &str) -> (r: usize)
    ensures
        r == budget_of(width as int, prefix@.len() as int),
        r >= 8,
{
    let n: usize = prefix.unicode_len();
    if width >= n && width - n >= 8 {
        width - n
    } else {
        8
    }
}

/// Adds a text that is broken to fit.
pub fn push_wrapped(
    out: &mut Vec<Line>,
    prefix: &str,
    cont: &str,
    text: &str,
    width: usize,
    tone: Tone,
)
    ensures
        lines_view(final(out)@) == with_wrapped(
            lines_view(old(out)@),
            prefix@,
            cont@,
            text@,
            width as int,
            tone,
        ),
{
    if text.is_empty() {
        push_line(out, Spans::new().text(prefix, Tone::Dim, false).line());
        return;
    }
    let wide: usize = if width >= MIN_WIDTH {
        width
    } else {
        MIN_WIDTH
    };
    let first: usize = budget(wide, prefix);
    let other: usize = budget(wide, cont);
    let parts = break_lines(text, first, other);
    let ghost start = lines_view(out@);
    let ghost all = with_wrapped(start, prefix@, cont@, text@, width as int, tone);
    let mut i: usize = 0;
    assert(all.take(start.len() as int) =~= start);
    while i < parts.len()
        invariant
            i <= parts@.len(),
            views(parts@) == broken(text@, first as int, other as int),
            first == budget_of(wrap_width(width as int), prefix@.len() as int),
            other == budget_of(wrap_width(width as int), cont@.len() as int),
            text@.len() > 0,
            all == with_wrapped(start, prefix@, cont@, text@, width as int, tone),
            all.len() == start.len() + parts@.len(),
            lines_view(out@) == all.take(start.len() + i),
        decreases parts@.len() - i,
    {
        let before: &str = if i == 0 {
            prefix
        } else {
            cont
        };
        let line = Spans::new().text(before, Tone::Dim, false).text(parts[i].as_str(), tone, false);
        assert(views(parts@)[i as int] == parts@[i as int]@);
        push_line(out, line.line());
        assert(lines_view(out@) =~= all.take(start.len() + i + 1));
        i = i + 1;
    }
    assert(all.take(start.len() + i) =~= all);
}

} // verus!
