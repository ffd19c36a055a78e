//! What holds of texts.

#[allow(unused_imports)]
use crate::text::{
    clip, decimal, digit, digits_value, has, is_blank, is_white, lower_char, lower_text, occurs_at,
    pad_left, pad_right, parse_number, parse_signed, replaced, trim_end, trim_start, trimmed,
    unsigned_value, white_space,
};
use vstd::prelude::*;

verus! {

/// White space is the tab, the newline and what is like them, the space, and the other spaces and
/// separators of Unicode.
pub proof fn law_white(c: char, r: bool)
    requires
        call_ensures(is_white, (c,), r),
    ensures
        r <==> c == '\t' || c == '\n' || c == '\u{b}' || c == '\u{c}' || c == '\r' || c == ' ' || c
            == '\u{85}' || c == '\u{a0}' || c == '\u{1680}' || c == '\u{2000}' || c == '\u{2001}'
            || c == '\u{2002}' || c == '\u{2003}' || c == '\u{2004}' || c == '\u{2005}' || c
            == '\u{2006}' || c == '\u{2007}' || c == '\u{2008}' || c == '\u{2009}' || c
            == '\u{200a}' || c == '\u{2028}' || c == '\u{2029}' || c == '\u{202f}' || c
            == '\u{205f}' || c == '\u{3000}',
{
}

/// Whether a text is nothing but white space.
pub open spec fn all_white(s: Seq<char>) -> bool {
    forall|k: int| 0 <= k < s.len() ==> white_space(#[trigger] s[k])
}

proof fn lemma_trim_start_of(a: Seq<char>, m: Seq<char>)
    requires
        all_white(a),
        m.len() == 0 || !white_space(m.first()),
    ensures
        trim_start(a + m) == m,
    decreases a.len(),
{
    if a.len() == 0 {
        assert(a + m =~= m);
    } else {
        assert(white_space(a[0]));
        assert((a + m).drop_first() =~= a.drop_first() + m);
        lemma_trim_start_of(a.drop_first(), m);
    }
}

proof fn lemma_trim_end_of(m: Seq<char>, b: Seq<char>)
    requires
        all_white(b),
        m.len() == 0 || !white_space(m.last()),
    ensures
        trim_end(m + b) == m,
    decreases b.len(),
{
    if b.len() == 0 {
        assert(m + b =~= m);
    } else {
        assert(white_space(b[b.len() - 1]));
        assert((m + b).last() == b.last());
        assert((m + b).drop_last() =~= m + b.drop_last());
        lemma_trim_end_of(m, b.drop_last());
    }
}

/// Trimming takes the white space off both ends, all of it and nothing else.
pub proof fn law_trim(a: Seq<char>, m: Seq<char>, b: Seq<char>)
    requires
        all_white(a),
        all_white(b),
        m.len() > 0 ==> !white_space(m.first()) && !white_space(m.last()),
    ensures
        trimmed(a + m + b) == m,
{
    if m.len() > 0 {
        assert(a + m + b =~= a + (m + b));
        assert((m + b).first() == m.first());
        lemma_trim_start_of(a, m + b);
        lemma_trim_end_of(m, b);
    } else {
        let w = a + m + b;
        assert(all_white(w)) by {
            assert forall|k: int| 0 <= k < w.len() implies white_space(#[trigger] w[k]) by {
                if k < a.len() {
                    assert(w[k] == a[k]);
                } else {
                    assert(w[k] == b[k - a.len()]);
                }
            }
        }
        assert(w + m =~= w);
        lemma_trim_start_of(w, m);
        assert(trim_end(m) =~= m);
    }
}

/// A text is blank exactly where it is nothing but white space.
pub proof fn law_blank(s: &str, r: bool)
    requires
        call_ensures(is_blank, (s,), r),
    ensures
        r <==> all_white(s@),
{
    let none = Seq::<char>::empty();
    if all_white(s@) {
        law_trim(s@, none, none);
        assert(s@ + none + none =~= s@);
    }
    if trimmed(s@).len() == 0 {
        lemma_blank(s@);
    }
}

proof fn lemma_blank(s: Seq<char>)
    requires
        trimmed(s).len() == 0,
    ensures
        all_white(s),
    decreases s.len(),
{
    if s.len() > 0 {
        if white_space(s.first()) {
            lemma_blank(s.drop_first());
            assert forall|k: int| 0 <= k < s.len() implies white_space(#[trigger] s[k]) by {
                if k > 0 {
                    assert(s.drop_first()[k - 1] == s[k]);
                }
            }
        } else {
            lemma_end_keeps(s);
        }
    }
}

proof fn lemma_end_keeps(s: Seq<char>)
    requires
        s.len() > 0,
        !white_space(s.first()),
    ensures
        trim_end(s).len() > 0,
    decreases s.len(),
{
    if white_space(s.last()) {
        assert(s.drop_last().first() == s.first());
        lemma_end_keeps(s.drop_last());
    }
}

/// Where a text does not hold what is to be replaced, nothing is; else what stands before its
/// first occurrence stays, it is replaced, and so on with what follows.
pub proof fn law_replace(a: Seq<char>, from: Seq<char>, to: Seq<char>, b: Seq<char>)
    requires
        from.len() > 0,
        forall|i: int| 0 <= i < a.len() ==> !occurs_at(a + from + b, from, i),
    ensures
        replaced(a + from + b, from, to) == a + to + replaced(b, from, to),
    decreases a.len(),
{
    let s = a + from + b;
    if a.len() == 0 {
        assert(s.subrange(0, from.len() as int) =~= from);
        assert(s.skip(from.len() as int) =~= b);
        assert(a + to + replaced(b, from, to) =~= to + replaced(b, from, to));
    } else {
        let c = a.drop_first();
        let t = s.drop_first();
        assert(t =~= c + from + b);
        assert(!occurs_at(s, from, 0));
        assert forall|i: int| 0 <= i < c.len() implies !occurs_at(c + from + b, from, i) by {
            assert(!occurs_at(s, from, i + 1));
            if i + from.len() <= t.len() {
                assert(t.subrange(i, i + from.len()) =~= s.subrange(i + 1, i + 1 + from.len()));
            }
        }
        law_replace(c, from, to, b);
        assert(a + to + replaced(b, from, to) =~= seq![s.first()] + (c + to + replaced(
            b,
            from,
            to,
        )));
    }
}

/// Where a text does not hold what is to be replaced, nothing is.
pub proof fn law_nothing_to_replace(s: Seq<char>, from: Seq<char>, to: Seq<char>)
    requires
        !(has(s, from)),
    ensures
        replaced(s, from, to) == s,
    decreases s.len(),
{
    if s.len() > 0 && from.len() > 0 {
        let t = s.drop_first();
        assert(!occurs_at(s, from, 0));
        if has(t, from) {
            let at = choose|at: int| #[trigger] occurs_at(t, from, at);
            assert(s.subrange(at + 1, at + 1 + from.len()) =~= t.subrange(at, at + from.len()));
            assert(occurs_at(s, from, at + 1));
        }
        law_nothing_to_replace(t, from, to);
        assert(seq![s.first()] + t =~= s);
    }
}

/// A text that fits is kept as it is; of a longer one the first characters are kept and an
/// ellipsis follows.
pub proof fn law_clip(s: &str, max: usize, r: String)
    requires
        call_ensures(clip, (s, max), r),
    ensures
        s@.len() <= max ==> r@ == s@,
        s@.len() > max ==> r@.len() == max + 1 && r@.last() == '…' && r@.drop_last() == s@.take(
            max as int,
        ),
{
    if s@.len() > max {
        assert(r@.drop_last() =~= s@.take(max as int));
    }
}

/// A number in decimal is made of digits, does not begin with a zero unless it is one, and reads
/// back as the number.
pub proof fn law_decimal(n: nat)
    ensures
        decimal(n).len() > 0,
        forall|k: int| 0 <= k < decimal(n).len() ==> '0' <= #[trigger] decimal(n)[k] <= '9',
        n > 0 ==> decimal(n)[0] != '0',
        n == 0 ==> decimal(n) == seq!['0'],
        digits_value(decimal(n)) == Some(n),
    decreases n,
{
    if n >= 10 {
        law_decimal(n / 10);
        let hi = decimal(n / 10);
        let s = decimal(n);
        assert(s.drop_last() =~= hi);
        assert(s.last() == digit((n % 10) as int));
        assert forall|k: int| 0 <= k < s.len() implies '0' <= #[trigger] s[k] <= '9' by {
            if k < hi.len() {
                assert(s[k] == hi[k]);
            }
        }
        assert(s[0] == hi[0]);
    }
}

/// A text stands for a number exactly where it is digits and nothing else, and one more digit
/// makes ten times the number and the digit.
pub proof fn law_digits(s: Seq<char>, c: char)
    ensures
        digits_value(s) is Some <==> s.len() > 0 && forall|k: int|
            0 <= k < s.len() ==> '0' <= #[trigger] s[k] <= '9',
        digits_value(s) is Some && '0' <= c <= '9' ==> digits_value(s.push(c)) == Some(
            (10 * digits_value(s)->0 + (c as int - '0' as int)) as nat,
        ),
        '0' <= c <= '9' ==> digits_value(seq![c]) == Some((c as int - '0' as int) as nat),
    decreases s.len(),
{
    if s.len() > 1 {
        let t = s.drop_last();
        law_digits(t, c);
        if digits_value(s) is Some {
            assert forall|k: int| 0 <= k < s.len() implies '0' <= #[trigger] s[k] <= '9' by {
                if k < t.len() {
                    assert(t[k] == s[k]);
                }
            }
        }
        if forall|k: int| 0 <= k < s.len() ==> '0' <= #[trigger] s[k] <= '9' {
            assert forall|k: int| 0 <= k < t.len() implies '0' <= #[trigger] t[k] <= '9' by {
                assert(t[k] == s[k]);
            }
            assert('0' <= s[s.len() - 1] <= '9');
        }
    }
    if s.len() == 1 {
        assert(s[0] == s.last());
    }
    if s.len() > 0 {
        assert(s.push(c).drop_last() =~= s);
    }
    assert(seq![c][0] == c);
}

/// A number is read from digits, with a plus sign before them or none, where it is not too large.
pub proof fn law_parse_number(s: &str, max: u64, r: Option<u64>)
    requires
        call_ensures(parse_number, (s, max), r),
    ensures
        s@.len() > 0 && s@[0] == '+' ==> (r is Some <==> (digits_value(s@.drop_first()) matches
            Some(m) && m <= max)),
        !(s@.len() > 0 && s@[0] == '+') ==> (r is Some <==> (digits_value(s@) matches Some(m) && m
            <= max)),
        r matches Some(n) ==> digits_value(
            if s@.len() > 0 && s@[0] == '+' {
                s@.drop_first()
            } else {
                s@
            },
        ) == Some(n as nat),
{
}

/// A number with a sign is read from digits, with a sign before them or none, where it fits 32
/// bits.
pub proof fn law_parse_signed(s: &str, r: Option<i32>)
    requires
        call_ensures(parse_signed, (s,), r),
    ensures
        s@.len() > 0 && s@[0] == '-' ==> (r is Some <==> (digits_value(s@.drop_first()) matches
            Some(m) && m <= 2147483648)) && (r matches Some(n) ==> digits_value(s@.drop_first())
            == Some((-n) as nat)),
        !(s@.len() > 0 && s@[0] == '-') ==> (r matches Some(n) ==> n >= 0 && unsigned_value(s@)
            == Some(n as nat)) && (r is None ==> (unsigned_value(s@) matches Some(m) ==> m
            > 2147483647)),
{
}

/// In ASCII, the capital letters have their small ones as lower case and everything else itself.
pub proof fn law_lower(c: char)
    requires
        (c as u32) < 128,
    ensures
        'A' <= c <= 'Z' ==> lower_char(c) == seq![(c as u32 + 32) as char],
        !('A' <= c <= 'Z') ==> lower_char(c) == seq![c],
        lower_char('A') == seq!['a'],
        lower_char('Z') == seq!['z'],
{
}

/// A text of ASCII is in lower case character by character.
pub proof fn law_lower_text(s: Seq<char>, k: int)
    requires
        forall|i: int| 0 <= i < s.len() ==> (#[trigger] s[i] as u32) < 128,
        0 <= k < s.len(),
    ensures
        lower_text(s).len() == s.len(),
        seq![lower_text(s)[k]] == lower_char(s[k]),
{
    assert(forall|i: int| 0 <= i < s.len() ==> crate::text::ascii(#[trigger] s[i]));
    assert(seq![lower_text(s)[k]] =~= lower_char(s[k]));
}

/// Padding adds spaces on one side up to the width, and nothing to what is as wide.
pub proof fn law_pad(s: &str, width: usize, left: String, right: String)
    requires
        call_ensures(pad_left, (s, width), left),
        call_ensures(pad_right, (s, width), right),
    ensures
        s@.len() >= width ==> left@ == s@ && right@ == s@,
        s@.len() < width ==> left@.len() == width && right@.len() == width && left@.skip(
            width - s@.len(),
        ) == s@ && right@.take(s@.len() as int) == s@,
        forall|k: int| 0 <= k < width - s@.len() ==> left@[k] == ' ',
        forall|k: int| s@.len() <= k < width ==> right@[k] == ' ',
{
    if s@.len() >= width {
        assert(left@ =~= s@);
        assert(right@ =~= s@);
    } else {
        assert(left@.skip(width - s@.len()) =~= s@);
        assert(right@.take(s@.len() as int) =~= s@);
    }
}

} // verus!
