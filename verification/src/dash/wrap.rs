//! Text broken into lines of limited width.

#[allow(unused_imports)]
use crate::text::{lemma_trim_end, lemma_trim_start, trim_end, trim_start, views, white_space};
use crate::text::{chars_of, drop_white, is_white, skip_white, string_of};
use vstd::prelude::*;

verus! {

/// Where the last run of words that fits into `n` characters ends: after the last white space
/// among them, zero where there is none.
pub open spec fn last_break(s: Seq<char>, n: int) -> int
    decreases n,
{
    if n <= 0 {
        0
    } else if white_space(s[n - 1]) {
        n
    } else {
        last_break(s, n - 1)
    }
}

/// How much of `s` goes into a line of `budget` characters: all of it where it fits, else up to
/// the last white space, unless that would leave more than half of the line empty.
pub open spec fn line_len(s: Seq<char>, budget: int) -> int {
    if s.len() <= budget {
        s.len() as int
    } else {
        let b = last_break(s, budget);
        if b > 0 && b >= budget / 2 {
            b
        } else {
            budget
        }
    }
}

/// The room for text behind a prefix.
pub open spec fn budget_of(width: int, prefix: int) -> int {
    if width - prefix >= 8 {
        width - prefix
    } else {
        8
    }
}

/// The lines that a text is broken into, with the room of the first and of each other line.
pub open spec fn broken(s: Seq<char>, first: int, other: int) -> Seq<Seq<char>>
    decreases s.len(),
{
    if s.len() == 0 || first < 1 || other < 1 {
        Seq::empty()
    } else {
        proof {
            lemma_line_len(s, first);
            lemma_trim_start(s.skip(line_len(s, first)));
        }
        let n = line_len(s, first);
        seq![trim_end(s.take(n))] + broken(trim_start(s.skip(n)), other, other)
    }
}

/// The last break lies within the characters that are looked at.
pub proof fn lemma_last_break(s: Seq<char>, n: int)
    requires
        0 <= n,
    ensures
        0 <= last_break(s, n) <= n,
    decreases n,
{
    if n > 0 {
        lemma_last_break(s, n - 1);
    }
}

/// A line takes something of a text, and no more than it has room for.
pub proof fn lemma_line_len(s: Seq<char>, budget: int)
    requires
        s.len() > 0,
        budget >= 1,
    ensures
        1 <= line_len(s, budget) <= s.len(),
        line_len(s, budget) <= budget,
{
    lemma_last_break(s, budget);
}

/// How much of `v` from `from` on goes into a line.
pub fn wrap_end(v: &Vec<char>, from: usize, budget: usize) -> (r: usize)
    requires
        from < v@.len(),
        budget >= 1,
    ensures
        r == line_len(v@.skip(from as int), budget as int),
        1 <= r <= v@.len() - from,
{
    let ghost s = v@.skip(from as int);
    proof {
        lemma_line_len(s, budget as int);
    }
    if v.len() - from <= budget {
        return v.len() - from;
    }
    let mut n: usize = budget;
    while n > 0 && !is_white(v[from + n - 1])
        invariant
            n <= budget < v@.len() - from,
            v@.len() <= usize::MAX,
            s == v@.skip(from as int),
            last_break(s, budget as int) == last_break(s, n as int),
        decreases n,
    {
        assert(s[n - 1] == v@[from + n - 1]);
        n = n - 1;
    }
    proof {
        if n > 0 {
            assert(s[n - 1] == v@[from + n - 1]);
        }
    }
    if n > 0 && n >= budget / 2 {
        n
    } else {
        budget
    }
}

/// The lines that a text is broken into.
pub fn break_lines(text: &str, first: usize, other: usize) -> (r: Vec<String>)
    requires
        first >= 1,
        other >= 1,
    ensures
        views(r@) == broken(text@, first as int, other as int),
{
    let v = chars_of(text);
    let mut out: Vec<String> = Vec::new();
    let mut from: usize = 0;
    let mut room: usize = first;
    assert(v@.skip(0) =~= v@);
    assert(views(out@) + broken(v@, first as int, other as int) =~= broken(
        v@,
        first as int,
        other as int,
    ));
    while from < v.len()
        invariant
            from <= v@.len(),
            room >= 1,
            other >= 1,
            views(out@) + broken(v@.skip(from as int), room as int, other as int)
                == broken(text@, first as int, other as int),
        decreases v@.len() - from,
    {
        let ghost s = v@.skip(from as int);
        let n: usize = wrap_end(&v, from, room);
        let end: usize = drop_white(&v, from, from + n);
        let next: usize = skip_white(&v, from + n, v.len());
        let ghost before = out@;
        out.push(string_of(&v, from, end));
        proof {
            assert(v@.subrange(from as int, from + n) =~= s.take(n as int));
            assert(v@.subrange(from + n, v@.len() as int) =~= s.skip(n as int));
            assert(v@.subrange(next as int, v@.len() as int) =~= v@.skip(next as int));
            let line = trim_end(s.take(n as int));
            assert(views(out@) =~= views(before).push(line));
            assert(views(before) + broken(s, room as int, other as int)
                =~= views(out@) + broken(
                v@.skip(next as int),
                other as int,
                other as int,
            ));
        }
        from = next;
        room = other;
    }
    assert(broken(v@.skip(from as int), room as int, other as int) =~= Seq::<Seq<char>>::empty());
    out
}

// ---------------------------------------------------------------------------------------------
// Laws
// ---------------------------------------------------------------------------------------------

/// `s` without its white space.
pub open spec fn solid(s: Seq<char>) -> Seq<char>
    decreases s.len(),
{
    if s.len() == 0 {
        Seq::empty()
    } else if white_space(s.last()) {
        solid(s.drop_last())
    } else {
        solid(s.drop_last()).push(s.last())
    }
}

/// Lines without their white space, one after the other.
pub open spec fn solid_lines(lines: Seq<Seq<char>>) -> Seq<char>
    decreases lines.len(),
{
    if lines.len() == 0 {
        Seq::empty()
    } else {
        solid(lines.first()) + solid_lines(lines.drop_first())
    }
}

proof fn lemma_solid_concat(a: Seq<char>, b: Seq<char>)
    ensures
        solid(a + b) == solid(a) + solid(b),
    decreases b.len(),
{
    if b.len() == 0 {
        assert(a + b =~= a);
        assert(solid(a) + solid(b) =~= solid(a));
    } else {
        assert((a + b).drop_last() =~= a + b.drop_last());
        assert((a + b).last() == b.last());
        lemma_solid_concat(a, b.drop_last());
        assert(solid(a + b) =~= solid(a) + solid(b));
    }
}

proof fn lemma_solid_trim_end(s: Seq<char>)
    ensures
        solid(trim_end(s)) == solid(s),
    decreases s.len(),
{
    if s.len() > 0 && white_space(s.last()) {
        lemma_solid_trim_end(s.drop_last());
    }
}

proof fn lemma_solid_trim_start(s: Seq<char>)
    ensures
        solid(trim_start(s)) == solid(s),
    decreases s.len(),
{
    if s.len() > 0 && white_space(s.first()) {
        let one = seq![s.first()];
        lemma_solid_trim_start(s.drop_first());
        lemma_solid_concat(one, s.drop_first());
        assert(one + s.drop_first() =~= s);
        assert(one.last() == s.first());
        assert(one.drop_last() =~= Seq::<char>::empty());
        assert(solid(one.drop_last()) =~= Seq::<char>::empty());
        assert(solid(one) =~= Seq::<char>::empty());
        assert(Seq::<char>::empty() + solid(s.drop_first()) =~= solid(s.drop_first()));
    }
}

/// Breaking a text into lines loses nothing but white space.
pub proof fn law_breaking_keeps_the_words(s: Seq<char>, first: int, other: int)
    requires
        first >= 1,
        other >= 1,
    ensures
        solid_lines(broken(s, first, other)) == solid(s),
    decreases s.len(),
{
    if s.len() > 0 {
        lemma_line_len(s, first);
        let n = line_len(s, first);
        let head = trim_end(s.take(n));
        let rest = trim_start(s.skip(n));
        lemma_trim_start(s.skip(n));
        law_breaking_keeps_the_words(rest, other, other);
        lemma_solid_trim_end(s.take(n));
        lemma_solid_trim_start(s.skip(n));
        lemma_solid_concat(s.take(n), s.skip(n));
        assert(s.take(n) + s.skip(n) =~= s);
        let lines = broken(s, first, other);
        assert(lines.first() == head);
        assert(lines.drop_first() =~= broken(rest, other, other));
    }
}

/// No line is longer than it has room for.
pub proof fn law_lines_fit(s: Seq<char>, first: int, other: int, k: int)
    requires
        first >= 1,
        other >= 1,
        0 <= k < broken(s, first, other).len(),
    ensures
        broken(s, first, other)[k].len() <= if k == 0 {
            first
        } else {
            other
        },
    decreases s.len(),
{
    lemma_line_len(s, first);
    let n = line_len(s, first);
    let rest = trim_start(s.skip(n));
    lemma_trim_start(s.skip(n));
    lemma_trim_end(s.take(n));
    if k > 0 {
        law_lines_fit(rest, other, other, k - 1);
        assert(broken(s, first, other)[k] == broken(rest, other, other)[k - 1]);
    }
}

} // verus!
