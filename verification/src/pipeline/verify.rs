//! Verification of a draft: every claim must cite an admitted memory and quote it.

use crate::text::{
    chars_of, contains, find, holds, is_alnum, is_blank, is_white, join, lowercase, lowercase_char,
    parse_unsigned, same, stands_at, string_of, trim_bounds,
};
#[allow(unused_imports)]
use crate::text::{
    alphanumeric, begins, has, joined, lemma_span_to, lemma_trimmed, lower_char, lower_text, span_to,
    trim_end, trimmed, unsigned_within, views, white_space,
};
use crate::types::{AdmittedCitations, Citation, ClaimVerdict, EMPTY_ADMIT_TEXT};
use std::collections::HashSet;
use vstd::prelude::*;

verus! {

// ---------------------------------------------------------------------------------------------
// Claims
// ---------------------------------------------------------------------------------------------

/// Whether `c` ends a claim.
pub open spec fn ends_claim(c: char) -> bool {
    c == '.' || c == '?' || c == '\n'
}

/// The length of the first sentence of `s`, its terminator included.
pub open spec fn sentence_len(s: Seq<char>) -> nat
    decreases s.len(),
{
    if s.len() == 0 {
        0
    } else if ends_claim(s.first()) {
        1
    } else {
        1 + sentence_len(s.drop_first())
    }
}

/// A sentence as a claim: trimmed, and dropped where nothing is left.
pub open spec fn claim_of(sentence: Seq<char>) -> Seq<Seq<char>> {
    if trimmed(sentence).len() == 0 {
        Seq::empty()
    } else {
        seq![trimmed(sentence)]
    }
}

/// A sentence ends at its first terminator, or with the text.
pub proof fn lemma_sentence_len(s: Seq<char>)
    ensures
        sentence_len(s) <= s.len(),
        s.len() > 0 ==> sentence_len(s) > 0,
        forall|k: int| 0 <= k < sentence_len(s) - 1 ==> !ends_claim(s[k]),
        sentence_len(s) < s.len() ==> ends_claim(s[sentence_len(s) - 1]),
    decreases s.len(),
{
    if s.len() > 0 && !ends_claim(s.first()) {
        let t = s.drop_first();
        lemma_sentence_len(t);
        assert forall|k: int| 0 <= k < sentence_len(s) - 1 implies !ends_claim(s[k]) by {
            if k > 0 {
                assert(s[k] == t[k - 1]);
            }
        }
        if sentence_len(s) < s.len() {
            assert(s[sentence_len(s) - 1] == t[sentence_len(t) - 1]);
        }
    }
}

/// `n` is the length of the first sentence of `s`.
proof fn lemma_sentence_is(s: Seq<char>, n: int)
    requires
        0 <= n <= s.len(),
        forall|k: int| 0 <= k < n - 1 ==> !ends_claim(s[k]),
        n > 0 && n < s.len() ==> ends_claim(s[n - 1]),
        n == 0 ==> s.len() == 0,
    ensures
        sentence_len(s) == n || n == s.len(),
        n == s.len() ==> sentence_len(s) == n,
{
    lemma_sentence_len(s);
    let m = sentence_len(s) as int;
    if m < n {
        assert(ends_claim(s[m - 1]));
    }
    if n < m {
        assert(ends_claim(s[n - 1]));
    }
}

/// The claims of a text: its sentences, split after each period, question mark and newline.
pub open spec fn claims(s: Seq<char>) -> Seq<Seq<char>>
    decreases s.len(),
{
    if s.len() == 0 {
        Seq::empty()
    } else {
        proof {
            lemma_sentence_len(s);
        }
        claim_of(s.take(sentence_len(s) as int)) + claims(s.skip(sentence_len(s) as int))
    }
}

/// Splits after every period, question mark and newline.
pub fn split_claims(text: &str) -> (r: Vec<String>)
    ensures
        views(r@) == claims(text@),
{
    let v = chars_of(text);
    let mut out: Vec<String> = Vec::new();
    let mut start: usize = 0;
    let mut i: usize = 0;
    assert(v@.skip(0) =~= v@);
    assert(views(out@) + claims(v@.skip(0)) =~= claims(v@));
    while i < v.len()
        invariant
            start <= i <= v@.len(),
            views(out@) + claims(v@.skip(start as int)) == claims(v@),
            forall|k: int| start <= k < i ==> !ends_claim(v@[k]),
        decreases v@.len() - i,
    {
        let c: char = v[i];
        i = i + 1;
        if c == '.' || c == '?' || c == '\n' {
            let ghost before = out@;
            let ghost rest = v@.skip(start as int);
            push_claim(&v, start, i, &mut out);
            proof {
                lemma_sentence_len(rest);
                lemma_sentence_is(rest, i - start);
                assert(rest.take(i - start) =~= v@.subrange(start as int, i as int));
                assert(rest.skip(i - start) =~= v@.skip(i as int));
                assert(views(before) + claims(rest) =~= views(out@) + claims(v@.skip(i as int)));
            }
            start = i;
        }
    }
    let ghost before = out@;
    let ghost rest = v@.skip(start as int);
    push_claim(&v, start, v.len(), &mut out);
    proof {
        lemma_sentence_len(rest);
        if rest.len() > 0 {
            lemma_sentence_is(rest, rest.len() as int);
        }
        assert(rest.take(rest.len() as int) =~= v@.subrange(start as int, v@.len() as int));
        assert(claims(rest.skip(rest.len() as int)) =~= Seq::<Seq<char>>::empty());
        assert(rest.take(rest.len() as int) =~= rest);
        assert(trimmed(Seq::<char>::empty()) =~= Seq::<char>::empty());
        assert(rest.len() == 0 ==> rest =~= Seq::<char>::empty());
        assert(views(before) + claims(rest) =~= views(out@));
    }
    out
}

/// Appends `v[from..to]` as a claim.
fn push_claim(v: &Vec<char>, from: usize, to: usize, out: &mut Vec<String>)
    requires
        from <= to <= v@.len(),
    ensures
        views(final(out)@) == views(old(out)@) + claim_of(v@.subrange(from as int, to as int)),
{
    let (a, b) = trim_bounds(v, from, to);
    if a < b {
        out.push(string_of(v, a, b));
    }
    assert(views(out@) =~= views(old(out)@) + claim_of(v@.subrange(from as int, to as int)));
}

// ---------------------------------------------------------------------------------------------
// Citations and quotations in a claim
// ---------------------------------------------------------------------------------------------

/// How a citation of a memory begins; its index and a closing bracket follow.
pub const CITE_MARK: &'static str = "[memory_";

/// The index between the brackets of a citation, if it is one.
pub open spec fn cite_index(s: Seq<char>) -> Seq<usize> {
    match unsigned_within(s, usize::MAX as nat) {
        Some(n) => seq![n as usize],
        None => Seq::empty(),
    }
}

/// Whether a closed citation mark stands at the start of `s`.
pub open spec fn cite_closed(s: Seq<char>) -> bool {
    let body = s.skip(CITE_MARK@.len() as int);
    begins(s, CITE_MARK@) && span_to(body, ']') < body.len()
}

/// The indices that `s` cites, in the order of their marks.
pub open spec fn cites_of(s: Seq<char>) -> Seq<usize>
    decreases s.len(),
{
    if s.len() == 0 {
        Seq::empty()
    } else if cite_closed(s) {
        let body = s.skip(CITE_MARK@.len() as int);
        let end = span_to(body, ']') as int;
        cite_index(body.take(end)) + cites_of(body.skip(end + 1))
    } else {
        cites_of(s.drop_first())
    }
}

/// The memory indices that a claim cites, in order.
pub fn memory_cites(claim: &str) -> (r: Vec<usize>)
    ensures
        r@ == cites_of(claim@),
{
    let v = chars_of(claim);
    let mark = chars_of(CITE_MARK);
    let mut out: Vec<usize> = Vec::new();
    let mut i: usize = 0;
    assert(v@.skip(0) =~= v@);
    assert(out@ + cites_of(v@) =~= cites_of(v@));
    while i < v.len()
        invariant
            i <= v@.len(),
            mark@ == CITE_MARK@,
            out@ + cites_of(v@.skip(i as int)) == cites_of(v@),
        decreases v@.len() - i,
    {
        let ghost rest = v@.skip(i as int);
        let ghost body = rest.skip(mark@.len() as int);
        assert(rest.drop_first() =~= v@.skip(i + 1));
        let mut next: usize = i + 1;
        if stands_at(&v, &mark, i) {
            assert(rest.subrange(0, mark@.len() as int) =~= v@.subrange(
                i as int,
                i + mark@.len(),
            ));
            assert(begins(rest, mark@));
            let from: usize = i + mark.len();
            proof {
                assert(body =~= v@.skip(from as int));
                lemma_span_to(body, ']');
            }
            if let Some(at) = find(&v, ']', from) {
                let ghost end = at - from;
                proof {
                    let n = span_to(body, ']') as int;
                    assert(body[end] == v@[at as int]);
                    if n < end {
                        assert(body[n] == v@[from + n]);
                    }
                    assert(n == end);
                    assert(body.take(end) =~= v@.subrange(from as int, at as int));
                    assert(body.skip(end + 1) =~= v@.skip(at + 1));
                }
                let ghost before = out@;
                if let Some(n) = parse_unsigned(&v, from, at, usize::MAX as u64) {
                    out.push(n as usize);
                }
                assert(out@ =~= before + cite_index(body.take(end)));
                next = at + 1;
            } else {
                proof {
                    let n = span_to(body, ']') as int;
                    if n < body.len() {
                        assert(body[n] == v@[from + n]);
                    }
                }
            }
        } else {
            assert(begins(rest, mark@) ==> v@.subrange(i as int, i + mark@.len()) =~= rest.subrange(
                0,
                mark@.len() as int,
            ));
        }
        i = next;
        assert(out@ + cites_of(v@.skip(i as int)) =~= cites_of(v@));
    }
    assert(cites_of(v@.skip(i as int)) =~= Seq::<usize>::empty());
    out
}

/// Whether `c` opens a quotation.
pub open spec fn opens_quote(c: char) -> bool {
    c == '"' || c == '“' || c == '\''
}

/// The character that closes a quotation opened by `c`.
pub open spec fn closing_quote(c: char) -> char {
    if c == '“' {
        '”'
    } else {
        c
    }
}

/// A quotation, unless it is blank.
pub open spec fn quote_of(s: Seq<char>) -> Seq<Seq<char>> {
    if trimmed(s).len() == 0 {
        Seq::empty()
    } else {
        seq![s]
    }
}

/// Whether a closed quotation stands at the start of `s`.
pub open spec fn quote_closed(s: Seq<char>) -> bool {
    let body = s.drop_first();
    opens_quote(s.first()) && span_to(body, closing_quote(s.first())) < body.len()
}

/// The quotations in `s`, in order, without their quote marks.
pub open spec fn quotes_of(s: Seq<char>) -> Seq<Seq<char>>
    decreases s.len(),
{
    if s.len() == 0 {
        Seq::empty()
    } else if quote_closed(s) {
        let body = s.drop_first();
        let end = span_to(body, closing_quote(s.first())) as int;
        quote_of(body.take(end)) + quotes_of(body.skip(end + 1))
    } else {
        quotes_of(s.drop_first())
    }
}

/// The quotations in a claim, in order. Blank ones are left out.
pub fn quotes(claim: &str) -> (r: Vec<String>)
    ensures
        views(r@) == quotes_of(claim@),
{
    let v = chars_of(claim);
    let mut out: Vec<String> = Vec::new();
    let mut i: usize = 0;
    assert(v@.skip(0) =~= v@);
    assert(views(out@) + quotes_of(v@) =~= quotes_of(v@));
    while i < v.len()
        invariant
            i <= v@.len(),
            views(out@) + quotes_of(v@.skip(i as int)) == quotes_of(v@),
        decreases v@.len() - i,
    {
        let ghost rest = v@.skip(i as int);
        let ghost body = rest.drop_first();
        let open: char = v[i];
        assert(rest.first() == open);
        assert(body =~= v@.skip(i + 1));
        let mut next: usize = i + 1;
        if open == '"' || open == '“' || open == '\'' {
            let close: char = if open == '“' { '”' } else { open };
            proof {
                lemma_span_to(body, close);
            }
            if let Some(at) = find(&v, close, i + 1) {
                let ghost end = at - (i + 1);
                proof {
                    let n = span_to(body, close) as int;
                    assert(body[end] == v@[at as int]);
                    if n < end {
                        assert(body[n] == v@[i + 1 + n]);
                    }
                    assert(n == end);
                    assert(body.take(end) =~= v@.subrange(i + 1, at as int));
                    assert(body.skip(end + 1) =~= v@.skip(at + 1));
                }
                let ghost before = out@;
                let (a, b) = trim_bounds(&v, i + 1, at);
                if a < b {
                    out.push(string_of(&v, i + 1, at));
                }
                assert(views(out@) =~= views(before) + quote_of(body.take(end)));
                next = at + 1;
            } else {
                proof {
                    let n = span_to(body, close) as int;
                    if n < body.len() {
                        assert(body[n] == v@[i + 1 + n]);
                    }
                }
            }
        }
        i = next;
        assert(views(out@) + quotes_of(v@.skip(i as int)) =~= quotes_of(v@));
    }
    assert(quotes_of(v@.skip(i as int)) =~= Seq::<Seq<char>>::empty());
    out
}

// ---------------------------------------------------------------------------------------------
// Attributing a claim that cites nothing
// ---------------------------------------------------------------------------------------------

/// The length of the run of letters and digits at the start of `s`.
pub open spec fn word_len(s: Seq<char>) -> nat
    decreases s.len(),
{
    if s.len() == 0 || !alphanumeric(s.first()) {
        0
    } else {
        1 + word_len(s.drop_first())
    }
}

/// A word of one or two characters carries no content; a longer one counts in lower case.
pub open spec fn content_of(word: Seq<char>) -> Set<Seq<char>> {
    if word.len() > 2 {
        Set::empty().insert(lower_text(word))
    } else {
        Set::empty()
    }
}

/// The content words of `s`.
pub open spec fn tokens(s: Seq<char>) -> Set<Seq<char>>
    decreases s.len(),
{
    if s.len() == 0 {
        Set::empty()
    } else {
        proof {
            lemma_word_len(s);
        }
        let n = word_len(s) as int;
        if n == s.len() {
            content_of(s)
        } else {
            content_of(s.take(n)).union(tokens(s.skip(n + 1)))
        }
    }
}

/// A word ends at the first character that is no letter or digit, or with the text.
pub proof fn lemma_word_len(s: Seq<char>)
    ensures
        word_len(s) <= s.len(),
        forall|k: int| 0 <= k < word_len(s) ==> alphanumeric(s[k]),
        word_len(s) < s.len() ==> !alphanumeric(s[word_len(s) as int]),
    decreases s.len(),
{
    if s.len() > 0 && alphanumeric(s.first()) {
        let t = s.drop_first();
        lemma_word_len(t);
        assert forall|k: int| 0 <= k < word_len(s) implies alphanumeric(s[k]) by {
            if k > 0 {
                assert(s[k] == t[k - 1]);
            }
        }
        if word_len(s) < s.len() {
            assert(s[word_len(s) as int] == t[word_len(t) as int]);
        }
    }
}

/// The content words that two texts share.
pub open spec fn shared(a: Seq<char>, b: Seq<char>) -> nat {
    tokens(b).intersect(tokens(a)).len()
}

/// Whether a list of strings holds `word`.
fn holds_word(list: &Vec<String>, word: &str) -> (r: bool)
    ensures
        r == views(list@).contains(word@),
{
    let mut i: usize = 0;
    while i < list.len()
        invariant
            i <= list@.len(),
            forall|k: int| 0 <= k < i ==> views(list@)[k] != word@,
        decreases list@.len() - i,
    {
        assert(views(list@)[i as int] == list@[i as int]@);
        if same(&list[i], word) {
            return true;
        }
        i = i + 1;
    }
    false
}

/// Adds the word `v[from..to]` to a list of content words, where it is one and is not there yet.
fn add_word(v: &Vec<char>, from: usize, to: usize, out: &mut Vec<String>)
    requires
        from <= to <= v@.len(),
        views(old(out)@).no_duplicates(),
    ensures
        views(final(out)@).no_duplicates(),
        views(final(out)@).to_set() == views(old(out)@).to_set().union(
            content_of(v@.subrange(from as int, to as int)),
        ),
{
    let ghost before = views(out@);
    let ghost word = v@.subrange(from as int, to as int);
    if to - from > 2 {
        let w = lowercase(&string_of(v, from, to));
        if !holds_word(out, &w) {
            let ghost low = w@;
            out.push(w);
            assert(views(out@) =~= before.push(low));
            proof {
                lemma_to_set_push(before, low);
            }
            assert(views(out@).to_set() =~= before.to_set().union(content_of(word)));
        } else {
            assert(before.to_set().contains(lower_text(word)));
            assert(views(out@).to_set() =~= before.to_set().union(content_of(word)));
        }
    } else {
        assert(views(out@).to_set() =~= before.to_set().union(content_of(word)));
    }
}

/// The content words of a text: its words of three characters and more, in lower case, each once.
pub fn content_tokens(s: &str) -> (r: Vec<String>)
    ensures
        views(r@).no_duplicates(),
        views(r@).to_set() == tokens(s@),
{
    let v = chars_of(s);
    let mut out: Vec<String> = Vec::new();
    let mut start: usize = 0;
    let mut i: usize = 0;
    assert(v@.skip(0) =~= v@);
    assert(views(out@).to_set().union(tokens(v@)) =~= tokens(v@));
    while i < v.len()
        invariant
            start <= i <= v@.len(),
            views(out@).no_duplicates(),
            views(out@).to_set().union(tokens(v@.skip(start as int))) == tokens(v@),
            forall|k: int| start <= k < i ==> alphanumeric(v@[k]),
        decreases v@.len() - i,
    {
        if !is_alnum(v[i]) {
            let ghost before = views(out@).to_set();
            let ghost rest = v@.skip(start as int);
            add_word(&v, start, i, &mut out);
            proof {
                lemma_word_is(rest, i - start);
                assert(rest.take(i - start) =~= v@.subrange(start as int, i as int));
                assert(rest.skip(i - start + 1) =~= v@.skip(i + 1));
                assert(views(out@).to_set().union(tokens(v@.skip(i + 1))) =~= before.union(
                    tokens(rest),
                ));
            }
            start = i + 1;
        }
        i = i + 1;
    }
    let ghost before = views(out@).to_set();
    let ghost rest = v@.skip(start as int);
    add_word(&v, start, v.len(), &mut out);
    proof {
        lemma_word_is(rest, rest.len() as int);
        assert(rest =~= v@.subrange(start as int, v@.len() as int));
        assert(views(out@).to_set() =~= before.union(tokens(rest)));
    }
    out
}

/// `n` is the length of the word at the start of `s`.
proof fn lemma_word_is(s: Seq<char>, n: int)
    requires
        0 <= n <= s.len(),
        forall|k: int| 0 <= k < n ==> alphanumeric(s[k]),
        n < s.len() ==> !alphanumeric(s[n]),
    ensures
        word_len(s) == n,
{
    lemma_word_len(s);
    let m = word_len(s) as int;
    if m < n {
        assert(alphanumeric(s[m]));
    }
    if n < m {
        assert(alphanumeric(s[n]));
    }
}

/// How many content words `section` shares with `claim`, whose content words are given.
pub fn shared_tokens(claim: &Vec<String>, section: &str) -> (r: usize)
    ensures
        r == tokens(section@).intersect(views(claim@).to_set()).len(),
{
    let words = content_tokens(section);
    let ghost ws = views(words@);
    let ghost wanted = views(claim@).to_set();
    let mut n: usize = 0;
    let mut i: usize = 0;
    assert(ws.take(0).to_set().intersect(wanted) =~= Set::<Seq<char>>::empty());
    while i < words.len()
        invariant
            n <= i <= words@.len(),
            ws == views(words@),
            ws.no_duplicates(),
            wanted == views(claim@).to_set(),
            n == ws.take(i as int).to_set().intersect(wanted).len(),
        decreases words@.len() - i,
    {
        let ghost word = ws[i as int];
        let ghost seen = ws.take(i as int);
        assert(word == words@[i as int]@);
        proof {
            vstd::seq_lib::seq_to_set_is_finite(seen);
            lemma_to_set_push(seen, word);
            assert(ws.take(i + 1) =~= seen.push(word));
            assert(!seen.contains(word));
        }
        if holds_word(claim, &words[i]) {
            assert(seen.push(word).to_set().intersect(wanted) =~= seen.to_set().intersect(
                wanted,
            ).insert(word));
            n = n + 1;
        } else {
            assert(seen.push(word).to_set().intersect(wanted) =~= seen.to_set().intersect(wanted));
        }
        i = i + 1;
    }
    assert(ws.take(i as int) =~= ws);
    n
}

/// The elements of a list grow by the one that is appended.
proof fn lemma_to_set_push<A>(s: Seq<A>, x: A)
    ensures
        s.push(x).to_set() == s.to_set().insert(x),
{
    assert forall|y: A| s.to_set().insert(x).contains(y) implies s.push(x).to_set().contains(
        y,
    ) by {
        if y == x {
            assert(s.push(x)[s.len() as int] == y);
        } else {
            let k = choose|k: int| 0 <= k < s.len() && s[k] == y;
            assert(s.push(x)[k] == y);
        }
    }
    assert forall|y: A| s.push(x).to_set().contains(y) implies s.to_set().insert(x).contains(
        y,
    ) by {
        let k = choose|k: int| 0 <= k < s.push(x).len() && s.push(x)[k] == y;
        if k < s.len() {
            assert(s[k] == y);
        }
    }
    assert(s.push(x).to_set() =~= s.to_set().insert(x));
}

/// What the citations say, in order: of each its text, then its statement, both trimmed.
pub open spec fn sections(cites: Seq<Citation>) -> Seq<(usize, Seq<char>)> {
    Seq::new(
        2 * cites.len(),
        |k: int|
            if k % 2 == 0 {
                (cites[k / 2].index, trimmed(cites[k / 2].text@))
            } else {
                (cites[k / 2].index, trimmed(cites[k / 2].statement@))
            },
    )
}

/// How many of the content words `words` stand in the section.
pub open spec fn weight(words: Set<Seq<char>>, section: (usize, Seq<char>)) -> nat {
    tokens(section.1).intersect(words).len()
}

/// Whether `secs[k]` is the first of the sections that share the most of `words`, and shares two
/// or more.
pub open spec fn best_section(
    words: Set<Seq<char>>,
    secs: Seq<(usize, Seq<char>)>,
    k: int,
) -> bool {
    &&& 0 <= k < secs.len()
    &&& weight(words, secs[k]) >= 2
    &&& forall|j: int|
        0 <= j < secs.len() ==> #[trigger] weight(words, secs[j]) <= weight(words, secs[k])
    &&& forall|j: int| 0 <= j < k ==> #[trigger] weight(words, secs[j]) < weight(words, secs[k])
}

/// Whether no section shares two of `words`.
pub open spec fn no_section(words: Set<Seq<char>>, secs: Seq<(usize, Seq<char>)>) -> bool {
    forall|j: int| 0 <= j < secs.len() ==> #[trigger] weight(words, secs[j]) < 2
}

/// `best` is the outcome of a search through `secs`.
spec fn leads(
    words: Set<Seq<char>>,
    secs: Seq<(usize, Seq<char>)>,
    best: Option<(usize, &str, usize)>,
) -> bool {
    match best {
        Some((index, section, n)) => exists|k: int| #[trigger]
            best_section(words, secs, k) && secs[k] == (index, section@) && weight(words, secs[k])
                == n,
        None => no_section(words, secs),
    }
}

/// What the search holds once it has seen a section that shares `n` words.
spec fn advance<'a>(
    best: Option<(usize, &'a str, usize)>,
    index: usize,
    section: &'a str,
    n: usize,
) -> Option<(usize, &'a str, usize)> {
    if n >= 2 && (best matches Some(b) ==> n > b.2) {
        Some((index, section, n))
    } else {
        best
    }
}

proof fn lemma_advance(
    words: Set<Seq<char>>,
    secs: Seq<(usize, Seq<char>)>,
    best: Option<(usize, &str, usize)>,
    index: usize,
    section: &str,
    n: usize,
)
    requires
        leads(words, secs, best),
        n == weight(words, (index, section@)),
    ensures
        leads(words, secs.push((index, section@)), advance(best, index, section, n)),
{
    let next = secs.push((index, section@));
    let m = secs.len() as int;
    assert forall|j: int| 0 <= j < m implies next[j] == secs[j] by {}
    match best {
        Some((i, s, w)) => {
            let k = choose|k: int| #[trigger]
                best_section(words, secs, k) && secs[k] == (i, s@) && weight(words, secs[k]) == w;
            if n > w {
                assert forall|j: int| 0 <= j < m implies #[trigger] weight(words, next[j]) < n by {
                    assert(weight(words, secs[j]) <= w);
                }
                assert(best_section(words, next, m));
            } else {
                assert forall|j: int| 0 <= j < next.len() implies #[trigger] weight(words, next[j])
                    <= w by {
                    if j < m {
                        assert(weight(words, secs[j]) <= w);
                    }
                }
                assert forall|j: int| 0 <= j < k implies #[trigger] weight(words, next[j]) < w by {
                    assert(weight(words, secs[j]) < w);
                }
                assert(best_section(words, next, k));
            }
        },
        None => {
            assert forall|j: int| 0 <= j < m implies #[trigger] weight(words, next[j]) < 2 by {
                assert(weight(words, secs[j]) < 2);
            }
            if n >= 2 {
                assert(best_section(words, next, m));
            }
        },
    }
}

/// `s` without the white space around it.
fn trim_of<'a>(s: &'a str) -> (r: &'a str)
    ensures
        r@ == trimmed(s@),
{
    let v = chars_of(s);
    let (a, b) = trim_bounds(&v, 0, v.len());
    assert(v@.subrange(0, v@.len() as int) =~= s@);
    s.substring_char(a, b)
}

/// Compares one more section with the best so far.
fn weigh<'a>(
    words: &Vec<String>,
    index: usize,
    text: &'a str,
    best: Option<(usize, &'a str, usize)>,
    Ghost(secs): Ghost<Seq<(usize, Seq<char>)>>,
) -> (r: Option<(usize, &'a str, usize)>)
    requires
        views(words@).no_duplicates(),
        leads(views(words@).to_set(), secs, best),
    ensures
        leads(views(words@).to_set(), secs.push((index, trimmed(text@))), r),
{
    let section = trim_of(text);
    let n: usize = shared_tokens(words, section);
    proof {
        lemma_advance(views(words@).to_set(), secs, best, index, section, n);
    }
    match best {
        Some((_, _, most)) => {
            if n >= 2 && n > most {
                return Some((index, section, n));
            }
        },
        None => {
            if n >= 2 {
                return Some((index, section, n));
            }
        },
    }
    best
}

/// Searches the sections of `cites`, after those that led to `best`.
fn weigh_all<'a>(
    words: &Vec<String>,
    cites: &'a Vec<Citation>,
    best: Option<(usize, &'a str, usize)>,
    Ghost(seen): Ghost<Seq<Citation>>,
) -> (r: Option<(usize, &'a str, usize)>)
    requires
        views(words@).no_duplicates(),
        leads(views(words@).to_set(), sections(seen), best),
    ensures
        leads(views(words@).to_set(), sections(seen + cites@), r),
{
    let mut best = best;
    let mut i: usize = 0;
    assert(seen + cites@.take(0) =~= seen);
    while i < cites.len()
        invariant
            i <= cites@.len(),
            views(words@).no_duplicates(),
            leads(views(words@).to_set(), sections(seen + cites@.take(i as int)), best),
        decreases cites@.len() - i,
    {
        let c = &cites[i];
        let ghost had = sections(seen + cites@.take(i as int));
        let ghost one = had.push((c.index, trimmed(c.text@)));
        best = weigh(words, c.index, &c.text, best, Ghost(had));
        best = weigh(words, c.index, &c.statement, best, Ghost(one));
        assert(one.push((c.index, trimmed(c.statement@))) =~= sections(
            seen + cites@.take(i + 1),
        )) by {
            let m = (seen.len() + i) as int;
            let next = sections(seen + cites@.take(i + 1));
            assert(next[2 * m] == (c.index, trimmed(c.text@)));
            assert(next[2 * m + 1] == (c.index, trimmed(c.statement@)));
            assert forall|k: int| 0 <= k < had.len() implies had[k] == next[k] by {
                assert((seen + cites@.take(i + 1))[k / 2] == (seen + cites@.take(i as int))[k / 2]);
            }
        }
        i = i + 1;
    }
    assert(cites@.take(i as int) =~= cites@);
    best
}

/// The admitted section a claim without a citation is talking about, with the index to cite it by:
/// the one that shares the most content words with it, the earlier where two share as many. A
/// claim of fewer than two content words, or one that shares fewer than two with every section,
/// is about none of them.
pub fn attribute_uncited<'a>(claim: &str, cites: &'a AdmittedCitations) -> (r: Option<
    (usize, &'a str),
>)
    ensures
        r is Some <==> tokens(claim@).len() >= 2 && !no_section(
            tokens(claim@),
            sections(cites.every()),
        ),
        r matches Some((index, section)) ==> exists|k: int| #[trigger]
            best_section(tokens(claim@), sections(cites.every()), k) && sections(cites.every())[k]
                == (index, section@),
{
    let words = content_tokens(claim);
    proof {
        views(words@).unique_seq_to_set();
    }
    if words.len() < 2 {
        return None;
    }
    let ghost none: Seq<Citation> = Seq::empty();
    let best = weigh_all(&words, cites.includes(), None, Ghost(none));
    assert(none + cites.included() =~= cites.included());
    let best = weigh_all(&words, cites.conflicts(), best, Ghost(cites.included()));
    match best {
        Some((index, section, _)) => Some((index, section)),
        None => None,
    }
}

// ---------------------------------------------------------------------------------------------
// Local checks
// ---------------------------------------------------------------------------------------------

/// Whether `c` is a quote mark of any kind.
pub open spec fn quote_mark(c: char) -> bool {
    c == '"' || c == '\'' || c == '“' || c == '”'
}

/// `s` in lower case, without white space and quote marks.
pub open spec fn normal(s: Seq<char>) -> Seq<char>
    decreases s.len(),
{
    if s.len() == 0 {
        Seq::empty()
    } else if white_space(s.last()) || quote_mark(s.last()) {
        normal(s.drop_last())
    } else {
        normal(s.drop_last()) + lower_char(s.last())
    }
}

/// A text in lower case, without white space and quote marks.
pub fn normalize(s: &str) -> (r: Vec<char>)
    ensures
        r@ == normal(s@),
{
    let v = chars_of(s);
    let mut out: Vec<char> = Vec::new();
    let mut i: usize = 0;
    while i < v.len()
        invariant
            i <= v@.len(),
            out@ == normal(v@.take(i as int)),
        decreases v@.len() - i,
    {
        let c: char = v[i];
        assert(v@.take(i + 1).drop_last() =~= v@.take(i as int));
        assert(v@.take(i + 1).last() == c);
        if !is_white(c) && !(c == '"' || c == '\'' || c == '“' || c == '”') {
            let mut low = lowercase_char(c);
            out.append(&mut low);
        }
        i = i + 1;
    }
    assert(v@.take(i as int) =~= s@);
    out
}

/// Whether `span` stands in `text`, white space, quote marks and case aside. A span of nothing
/// else stands nowhere.
pub open spec fn quoted_from(span: Seq<char>, text: Seq<char>) -> bool {
    normal(span).len() > 0 && has(normal(text), normal(span))
}

/// Whether `span` stands in `text`, white space, quote marks and case aside.
pub fn in_text(span: &str, text: &str) -> (r: bool)
    ensures
        r == quoted_from(span@, text@),
{
    let n = normalize(span);
    n.len() > 0 && holds(&normalize(text), &n)
}

/// Whether `quote` stands in one of the memories that are cited.
pub open spec fn quote_backed(
    quote: Seq<char>,
    cited: Seq<usize>,
    admitted: AdmittedCitations,
) -> bool {
    exists|k: int|
        0 <= k < cited.len() && (#[trigger] admitted.under(cited[k]) matches Some(c) && quoted_from(
            quote,
            c.text@,
        ))
}

/// Whether every quotation of the claim stands in one of the memories that it cites.
pub open spec fn quotes_backed(claim: Seq<char>, admitted: AdmittedCitations) -> bool {
    forall|k: int|
        0 <= k < quotes_of(claim).len() ==> quote_backed(
            #[trigger] quotes_of(claim)[k],
            cites_of(claim),
            admitted,
        )
}

/// What can be said of a claim without asking anyone: a verdict, and the index that goes with it.
pub open spec fn local(claim: Seq<char>, admitted: AdmittedCitations) -> Option<
    (Seq<char>, Option<usize>),
> {
    if cites_of(claim).len() == 0 {
        Some(("unsupported"@, None))
    } else if quotes_of(claim).len() == 0 || !quotes_backed(claim, admitted) {
        Some(("fabricated"@, Some(cites_of(claim)[0])))
    } else {
        None
    }
}

/// Whether `quote` stands in one of the memories that are cited.
fn backed(quote: &str, cited: &Vec<usize>, admitted: &AdmittedCitations) -> (r: bool)
    ensures
        r == quote_backed(quote@, cited@, *admitted),
{
    let mut i: usize = 0;
    while i < cited.len()
        invariant
            i <= cited@.len(),
            forall|k: int|
                0 <= k < i ==> !(#[trigger] admitted.under(cited@[k]) matches Some(c)
                    && quoted_from(quote@, c.text@)),
        decreases cited@.len() - i,
    {
        if let Some(c) = admitted.by_index(cited[i]) {
            if in_text(quote, &c.text) {
                return true;
            }
        }
        i = i + 1;
    }
    false
}

/// Checks a claim against the memories it cites. A claim that cites none is unsupported; one that
/// quotes nothing, or quotes what no cited memory holds, is fabricated. Nothing is said of the
/// rest.
pub fn local_verdict(claim: &str, cites_set: &AdmittedCitations) -> (r: Option<ClaimVerdict>)
    ensures
        r is Some <==> local(claim@, *cites_set) is Some,
        r matches Some(v) ==> v.claim@ == claim@ && local(claim@, *cites_set) == Some(
            (v.verdict@, v.memory_index),
        ),
{
    let ms = memory_cites(claim);
    if ms.len() == 0 {
        return Some(
            ClaimVerdict {
                claim: claim.to_owned(),
                verdict: "unsupported".to_owned(),
                memory_index: None,
            },
        );
    }
    let qs = quotes(claim);
    let mut ok = qs.len() > 0;
    let mut i: usize = 0;
    while i < qs.len() && ok
        invariant
            i <= qs@.len(),
            views(qs@) == quotes_of(claim@),
            ms@ == cites_of(claim@),
            ok ==> qs@.len() > 0,
            ok ==> forall|k: int|
                0 <= k < i ==> quote_backed(
                    #[trigger] quotes_of(claim@)[k],
                    cites_of(claim@),
                    *cites_set,
                ),
            !ok ==> quotes_of(claim@).len() == 0 || !quotes_backed(claim@, *cites_set),
        decreases qs@.len() - i,
    {
        assert(quotes_of(claim@)[i as int] == qs@[i as int]@);
        ok = backed(&qs[i], &ms, cites_set);
        i = i + 1;
    }
    if ok {
        None
    } else {
        Some(
            ClaimVerdict {
                claim: claim.to_owned(),
                verdict: "fabricated".to_owned(),
                memory_index: Some(ms[0]),
            },
        )
    }
}

// ---------------------------------------------------------------------------------------------
// Publishing
// ---------------------------------------------------------------------------------------------

/// Whether some verdict turns the claim down.
pub open spec fn failed(verdicts: Seq<ClaimVerdict>, claim: Seq<char>) -> bool {
    exists|k: int|
        0 <= k < verdicts.len() && !(#[trigger] verdicts[k]).supported() && verdicts[k].claim@
            == claim
}

/// Those of `parts` that no verdict turns down, in order.
pub open spec fn unfailed(parts: Seq<Seq<char>>, verdicts: Seq<ClaimVerdict>) -> Seq<Seq<char>>
    decreases parts.len(),
{
    if parts.len() == 0 {
        Seq::empty()
    } else if failed(verdicts, parts.last()) {
        unfailed(parts.drop_last(), verdicts)
    } else {
        unfailed(parts.drop_last(), verdicts).push(parts.last())
    }
}

/// The text without the claims that were turned down.
pub open spec fn stripped(text: Seq<char>, verdicts: Seq<ClaimVerdict>) -> Seq<char> {
    joined(unfailed(claims(text), verdicts), " "@)
}

/// Whether some verdict turns the claim down.
fn is_failed(verdicts: &[ClaimVerdict], claim: &str) -> (r: bool)
    ensures
        r == failed(verdicts@, claim@),
{
    let mut i: usize = 0;
    while i < verdicts.len()
        invariant
            i <= verdicts@.len(),
            forall|k: int|
                0 <= k < i ==> (#[trigger] verdicts@[k]).supported() || verdicts@[k].claim@
                    != claim@,
        decreases verdicts@.len() - i,
    {
        let v = &verdicts[i];
        if !same(&v.verdict, "supports") && same(&v.claim, claim) {
            assert(!verdicts@[i as int].supported());
            return true;
        }
        i = i + 1;
    }
    false
}

/// The claims of a text that no verdict turns down, with a space between them.
pub fn strip_failed(text: &str, verdicts: &[ClaimVerdict]) -> (r: String)
    ensures
        r@ == stripped(text@, verdicts@),
{
    let parts = split_claims(text);
    let ghost cs = claims(text@);
    let mut kept: Vec<String> = Vec::new();
    let mut i: usize = 0;
    assert(views(kept@) =~= unfailed(cs.take(0), verdicts@));
    while i < parts.len()
        invariant
            i <= parts@.len(),
            cs == views(parts@),
            views(kept@) == unfailed(cs.take(i as int), verdicts@),
        decreases parts@.len() - i,
    {
        let ghost before = kept@;
        assert(cs.take(i + 1).drop_last() =~= cs.take(i as int));
        assert(cs.take(i + 1).last() == parts@[i as int]@);
        if !is_failed(verdicts, &parts[i]) {
            kept.push(parts[i].clone());
            assert(views(kept@) =~= views(before).push(parts@[i as int]@));
        }
        i = i + 1;
    }
    assert(cs.take(i as int) =~= cs);
    join(&kept, " ")
}

/// Whether one of the first `n` claims cites `index`.
pub open spec fn cited_by(parts: Seq<Seq<char>>, n: int, index: usize) -> bool {
    exists|k: int| 0 <= k < n && #[trigger] cites_of(parts[k]).contains(index)
}

/// The memory indices that the claims of a text cite.
pub open spec fn cited(text: Seq<char>) -> Set<usize> {
    Set::new(|i: usize| cited_by(claims(text), claims(text).len() as int, i))
}

/// The memory indices referenced by `[memory_N]` marks in published text.
pub fn cited_indices(text: &str) -> (r: HashSet<usize>)
    ensures
        r@ == cited(text@),
{
    broadcast use vstd::std_specs::hash::group_hash_axioms;

    let parts = split_claims(text);
    let ghost cs = claims(text@);
    let mut out: HashSet<usize> = HashSet::new();
    let mut i: usize = 0;
    while i < parts.len()
        invariant
            i <= parts@.len(),
            cs == views(parts@),
            forall|x: usize| #[trigger] out@.contains(x) <==> cited_by(cs, i as int, x),
        decreases parts@.len() - i,
    {
        let ms = memory_cites(&parts[i]);
        assert(cs[i as int] == parts@[i as int]@);
        let ghost before = out@;
        let mut j: usize = 0;
        while j < ms.len()
            invariant
                j <= ms@.len(),
                forall|x: usize| #[trigger]
                    out@.contains(x) <==> before.contains(x) || ms@.take(j as int).contains(x),
            decreases ms@.len() - j,
        {
            let ghost had = out@;
            out.insert(ms[j]);
            assert forall|x: usize| #[trigger]
                out@.contains(x) <==> before.contains(x) || ms@.take(j + 1).contains(x) by {
                lemma_take_contains(ms@, j as int, x);
            }
            j = j + 1;
        }
        assert(ms@.take(j as int) =~= ms@);
        assert forall|x: usize| #[trigger] out@.contains(x) <==> cited_by(cs, i + 1, x) by {
            assert(out@.contains(x) <==> cited_by(cs, i as int, x) || ms@.contains(x));
            if cited_by(cs, i + 1, x) {
                let k = choose|k: int| 0 <= k < i + 1 && #[trigger] cites_of(cs[k]).contains(x);
                assert(k < i ==> cited_by(cs, i as int, x));
            }
            if ms@.contains(x) {
                assert(cites_of(cs[i as int]).contains(x));
            }
        }
        i = i + 1;
    }
    assert(out@ =~= cited(text@));
    out
}

/// One more element of `s` may be `x`.
proof fn lemma_take_contains(s: Seq<usize>, j: int, x: usize)
    requires
        0 <= j < s.len(),
    ensures
        s.take(j + 1).contains(x) <==> s.take(j).contains(x) || s[j] == x,
{
    if s.take(j).contains(x) {
        let k = choose|k: int| 0 <= k < j && s.take(j)[k] == x;
        assert(s.take(j + 1)[k] == x);
    }
    if s[j] == x {
        assert(s.take(j + 1)[j] == x);
    }
    let t = s.take(j + 1);
    if t.contains(x) && s[j] != x {
        let k = choose|k: int| 0 <= k < t.len() && t[k] == x;
        assert(s.take(j)[k] == x);
    }
}

/// Whether a supported claim that stands in the text goes back to the memory at `index`.
pub open spec fn supports_index(
    verdicts: Seq<ClaimVerdict>,
    text: Seq<char>,
    index: usize,
) -> bool {
    exists|k: int|
        0 <= k < verdicts.len() && (#[trigger] verdicts[k]).supported() && verdicts[k].memory_index
            == Some(index) && has(text, verdicts[k].claim@)
}

/// Whether published text rests on the memory at `index`: a claim cites it, or a supported claim
/// was attributed to it.
pub open spec fn rests_on(text: Seq<char>, verdicts: Seq<ClaimVerdict>, index: usize) -> bool {
    cited(text).contains(index) || supports_index(verdicts, text, index)
}

/// Those of `cites` that published text rests on, in order.
pub open spec fn relied_on(
    cites: Seq<Citation>,
    text: Seq<char>,
    verdicts: Seq<ClaimVerdict>,
) -> Seq<Citation>
    decreases cites.len(),
{
    if cites.len() == 0 {
        Seq::empty()
    } else if rests_on(text, verdicts, cites.last().index) {
        relied_on(cites.drop_last(), text, verdicts).push(cites.last())
    } else {
        relied_on(cites.drop_last(), text, verdicts)
    }
}

/// What is published of a draft.
#[derive(Debug, PartialEq, Eq)]
pub struct PublishOutcome {
    pub text: String,
    pub empty: bool,
}

impl Clone for PublishOutcome {
    fn clone(&self) -> (r: Self)
        ensures
            r == *self,
    {
        PublishOutcome { text: self.text.clone(), empty: self.empty }
    }
}

/// Keeps of `cites` those whose index is in `used`.
fn retain_cited(
    cites: &mut Vec<Citation>,
    used: &HashSet<usize>,
    Ghost(text): Ghost<Seq<char>>,
    Ghost(verdicts): Ghost<Seq<ClaimVerdict>>,
)
    requires
        forall|i: usize| used@.contains(i) <==> rests_on(text, verdicts, i),
    ensures
        final(cites)@ == relied_on(old(cites)@, text, verdicts),
{
    broadcast use vstd::std_specs::hash::group_hash_axioms;

    let mut kept: Vec<Citation> = Vec::new();
    let mut i: usize = 0;
    while i < cites.len()
        invariant
            i <= cites@.len(),
            cites@ == old(cites)@,
            forall|i: usize| used@.contains(i) <==> rests_on(text, verdicts, i),
            kept@ == relied_on(cites@.take(i as int), text, verdicts),
        decreases cites@.len() - i,
    {
        assert(cites@.take(i + 1).drop_last() =~= cites@.take(i as int));
        if used.contains(&cites[i].index) {
            kept.push(cites[i].clone());
        }
        i = i + 1;
    }
    assert(cites@.take(i as int) =~= cites@);
    *cites = kept;
}

/// Strips the claims that were turned down, and drops the citations that the surviving text does
/// not rest on. Where nothing survives, the answer for an empty admission is published, without
/// citations.
pub fn apply_publish(
    raw_text: &str,
    verdicts: &[ClaimVerdict],
    admitted: &mut Vec<Citation>,
    conflicts: &mut Vec<Citation>,
) -> (r: PublishOutcome)
    ensures
        r.empty == (trimmed(stripped(raw_text@, verdicts@)).len() == 0),
        r.text@ == if r.empty {
            EMPTY_ADMIT_TEXT@
        } else {
            stripped(raw_text@, verdicts@)
        },
        final(admitted)@ == if r.empty {
            Seq::empty()
        } else {
            relied_on(old(admitted)@, r.text@, verdicts@)
        },
        final(conflicts)@ == if r.empty {
            Seq::empty()
        } else {
            relied_on(old(conflicts)@, r.text@, verdicts@)
        },
{
    broadcast use vstd::std_specs::hash::group_hash_axioms;

    let text = strip_failed(raw_text, verdicts);
    if is_blank(&text) {
        admitted.clear();
        conflicts.clear();
        return PublishOutcome { text: EMPTY_ADMIT_TEXT.to_owned(), empty: true };
    }
    let mut used = cited_indices(&text);
    let mut i: usize = 0;
    while i < verdicts.len()
        invariant
            i <= verdicts@.len(),
            forall|x: usize|
                used@.contains(x) <==> cited(text@).contains(x) || supports_index(
                    verdicts@.take(i as int),
                    text@,
                    x,
                ),
        decreases verdicts@.len() - i,
    {
        let v = &verdicts[i];
        let ghost had = used@;
        if same(&v.verdict, "supports") {
            if let Some(index) = v.memory_index {
                if contains(&text, &v.claim) {
                    used.insert(index);
                }
            }
        }
        proof {
            let now = verdicts@.take(i + 1);
            let was = verdicts@.take(i as int);
            assert forall|x: usize|
                used@.contains(x) <==> cited(text@).contains(x) || supports_index(
                    now,
                    text@,
                    x,
                ) by {
                if supports_index(was, text@, x) {
                    let k = choose|k: int|
                        0 <= k < was.len() && (#[trigger] was[k]).supported() && was[k].memory_index
                            == Some(x) && has(text@, was[k].claim@);
                    assert(now[k] == was[k]);
                }
                if supports_index(now, text@, x) {
                    let k = choose|k: int|
                        0 <= k < now.len() && (#[trigger] now[k]).supported() && now[k].memory_index
                            == Some(x) && has(text@, now[k].claim@);
                    if k < i {
                        assert(was[k] == now[k]);
                    }
                }
                assert(now[i as int] == *v);
            }
        }
        i = i + 1;
    }
    assert(verdicts@.take(i as int) =~= verdicts@);
    retain_cited(admitted, &used, Ghost(text@), Ghost(verdicts@));
    retain_cited(conflicts, &used, Ghost(text@), Ghost(verdicts@));
    PublishOutcome { text, empty: false }
}

// ---------------------------------------------------------------------------------------------
// Laws
// ---------------------------------------------------------------------------------------------

/// A claim is never empty, has no white space around it, and no character but its last ends a
/// claim.
pub proof fn law_claims_are_sentences(s: Seq<char>, k: int)
    requires
        0 <= k < claims(s).len(),
    ensures
        claims(s)[k].len() > 0,
        trimmed(claims(s)[k]) == claims(s)[k],
        forall|j: int| 0 <= j < claims(s)[k].len() - 1 ==> !ends_claim(claims(s)[k][j]),
    decreases s.len(),
{
    lemma_sentence_len(s);
    let n = sentence_len(s) as int;
    let first = claim_of(s.take(n));
    let rest = s.skip(n);
    lemma_trimmed(s.take(n));
    if k < first.len() {
        let t = trimmed(s.take(n));
        assert(claims(s)[k] == t);
        let at = n - crate::text::trim_start(s.take(n)).len();
        assert forall|j: int| 0 <= j < t.len() - 1 implies !ends_claim(t[j]) by {
            assert(t[j] == s[at + j]);
        }
    } else {
        law_claims_are_sentences(rest, k - first.len());
        assert(claims(s)[k] == claims(rest)[k - first.len()]);
    }
}

/// A claim is a text of one claim: splitting it again gives it back.
pub proof fn law_claim_splits_to_itself(s: Seq<char>, k: int)
    requires
        0 <= k < claims(s).len(),
    ensures
        claims(claims(s)[k]) == seq![claims(s)[k]],
{
    law_claims_are_sentences(s, k);
    let c = claims(s)[k];
    lemma_sentence_len(c);
    lemma_sentence_is(c, c.len() as int);
    assert(c.take(c.len() as int) =~= c);
    assert(claims(c.skip(c.len() as int)) =~= Seq::<Seq<char>>::empty());
    assert(claims(c) =~= seq![c]);
}

/// Stripping keeps exactly the claims that no verdict turns down.
pub proof fn law_strip_keeps_the_rest(
    parts: Seq<Seq<char>>,
    verdicts: Seq<ClaimVerdict>,
    claim: Seq<char>,
)
    ensures
        unfailed(parts, verdicts).contains(claim) <==> parts.contains(claim) && !failed(
            verdicts,
            claim,
        ),
    decreases parts.len(),
{
    if parts.len() > 0 {
        let front = parts.drop_last();
        law_strip_keeps_the_rest(front, verdicts, claim);
        let kept = unfailed(front, verdicts);
        if parts.contains(claim) && parts.last() != claim {
            let k = choose|k: int| 0 <= k < parts.len() && parts[k] == claim;
            assert(front[k] == claim);
        }
        if front.contains(claim) {
            let k = choose|k: int| 0 <= k < front.len() && front[k] == claim;
            assert(parts[k] == claim);
        }
        if !failed(verdicts, parts.last()) {
            let all = kept.push(parts.last());
            if kept.contains(claim) {
                let k = choose|k: int| 0 <= k < kept.len() && kept[k] == claim;
                assert(all[k] == claim);
            }
            if all.contains(claim) && claim != parts.last() {
                let k = choose|k: int| 0 <= k < all.len() && all[k] == claim;
                assert(kept[k] == claim);
            }
            assert(all[kept.len() as int] == parts.last());
            assert(parts[parts.len() - 1] == parts.last());
        }
    }
}

/// Where no verdict turns a claim down, every claim is published.
pub proof fn law_nothing_failed_nothing_stripped(
    parts: Seq<Seq<char>>,
    verdicts: Seq<ClaimVerdict>,
)
    requires
        forall|k: int| 0 <= k < verdicts.len() ==> (#[trigger] verdicts[k]).supported(),
    ensures
        unfailed(parts, verdicts) == parts,
    decreases parts.len(),
{
    if parts.len() > 0 {
        law_nothing_failed_nothing_stripped(parts.drop_last(), verdicts);
        assert(parts.drop_last().push(parts.last()) =~= parts);
    }
}

/// A citation is published exactly where it was admitted and the text rests on it.
pub proof fn law_published_citations_are_relied_on(
    cites: Seq<Citation>,
    text: Seq<char>,
    verdicts: Seq<ClaimVerdict>,
    c: Citation,
)
    ensures
        relied_on(cites, text, verdicts).contains(c) <==> cites.contains(c) && rests_on(
            text,
            verdicts,
            c.index,
        ),
    decreases cites.len(),
{
    if cites.len() > 0 {
        let front = cites.drop_last();
        law_published_citations_are_relied_on(front, text, verdicts, c);
        let kept = relied_on(front, text, verdicts);
        if cites.contains(c) && cites.last() != c {
            let k = choose|k: int| 0 <= k < cites.len() && cites[k] == c;
            assert(front[k] == c);
        }
        if front.contains(c) {
            let k = choose|k: int| 0 <= k < front.len() && front[k] == c;
            assert(cites[k] == c);
        }
        if rests_on(text, verdicts, cites.last().index) {
            let all = kept.push(cites.last());
            if kept.contains(c) {
                let k = choose|k: int| 0 <= k < kept.len() && kept[k] == c;
                assert(all[k] == c);
            }
            if all.contains(c) && c != cites.last() {
                let k = choose|k: int| 0 <= k < all.len() && all[k] == c;
                assert(kept[k] == c);
            }
            assert(all[kept.len() as int] == cites.last());
            assert(cites[cites.len() - 1] == cites.last());
        }
    }
}

/// Whether `s[from..to]` is a whole word: a run of letters and digits that is part of no longer one.
pub open spec fn whole_word(s: Seq<char>, from: int, to: int) -> bool {
    &&& 0 <= from < to <= s.len()
    &&& forall|k: int| from <= k < to ==> alphanumeric(#[trigger] s[k])
    &&& from > 0 ==> !alphanumeric(s[from - 1])
    &&& to < s.len() ==> !alphanumeric(s[to])
}

/// Whether a word of more than two characters is `w` in lower case.
pub open spec fn long_word(s: Seq<char>, from: int, to: int, w: Seq<char>) -> bool {
    whole_word(s, from, to) && to - from > 2 && lower_text(s.subrange(from, to)) == w
}

/// The content words of a text are its words of more than two characters, in lower case.
pub proof fn law_content_words_are_long_words(s: Seq<char>, w: Seq<char>)
    ensures
        tokens(s).contains(w) <==> exists|from: int, to: int| long_word(s, from, to, w),
    decreases s.len(),
{
    lemma_word_len(s);
    let n = word_len(s) as int;
    if s.len() > 0 {
        let rest = if n == s.len() {
            Seq::empty()
        } else {
            s.skip(n + 1)
        };
        assert(s.take(n) =~= s.subrange(0, n));
        if n < s.len() {
            law_content_words_are_long_words(rest, w);
        } else {
            assert(s.subrange(0, n) =~= s);
        }
        if tokens(s).contains(w) {
            if content_of(s.take(n)).contains(w) {
                assert(long_word(s, 0, n, w));
            } else {
                let (a, b) = choose|a: int, b: int| long_word(rest, a, b, w);
                assert(rest.subrange(a, b) =~= s.subrange(n + 1 + a, n + 1 + b));
                assert forall|k: int| n + 1 + a <= k < n + 1 + b implies alphanumeric(
                    #[trigger] s[k],
                ) by {
                    assert(s[k] == rest[k - n - 1]);
                }
                assert(a > 0 ==> s[n + a] == rest[a - 1]);
                assert(b < rest.len() ==> s[n + 1 + b] == rest[b]);
                assert(long_word(s, n + 1 + a, n + 1 + b, w));
            }
        }
        if exists|from: int, to: int| long_word(s, from, to, w) {
            let (from, to) = choose|from: int, to: int| long_word(s, from, to, w);
            if from <= n {
                if from == n {
                    assert(alphanumeric(s[from]));
                }
                if from > 0 {
                    assert(alphanumeric(s[from - 1]));
                }
                if to < n {
                    assert(alphanumeric(s[to]));
                }
                if to > n {
                    assert(alphanumeric(s[n]));
                }
            } else {
                let (a, b) = (from - n - 1, to - n - 1);
                assert(rest.subrange(a, b) =~= s.subrange(from, to));
                assert forall|k: int| a <= k < b implies alphanumeric(#[trigger] rest[k]) by {
                    assert(s[k + n + 1] == rest[k]);
                }
                assert(a > 0 ==> s[from - 1] == rest[a - 1]);
                assert(to < s.len() ==> s[to] == rest[b]);
                assert(long_word(rest, a, b, w));
            }
        }
    }
}

/// Two texts share as many content words whichever of them is counted through.
pub proof fn law_shared_words_are_mutual(a: Seq<char>, b: Seq<char>)
    ensures
        shared(a, b) == shared(b, a),
{
    assert(tokens(b).intersect(tokens(a)) =~= tokens(a).intersect(tokens(b)));
}

/// The count of shared words is the same from either side, and is that of the words that occur in
/// both texts.
pub proof fn law_shared_tokens_are_mutual(
    a: &str,
    b: &str,
    words_a: Vec<String>,
    words_b: Vec<String>,
    m: usize,
    n: usize,
)
    requires
        call_ensures(content_tokens, (a,), words_a),
        call_ensures(content_tokens, (b,), words_b),
        call_ensures(shared_tokens, (&words_a, b), m),
        call_ensures(shared_tokens, (&words_b, a), n),
    ensures
        m == n,
        m == shared(a@, b@),
{
    law_shared_words_are_mutual(a@, b@);
}

/// White space after a text is trimmed away.
proof fn lemma_trimmed_before_white(s: Seq<char>, c: char)
    requires
        white_space(c),
    ensures
        trimmed(s.push(c)) == trimmed(s),
    decreases s.len(),
{
    let t = s.push(c);
    if s.len() > 0 && white_space(s.first()) {
        assert(t.drop_first() =~= s.drop_first().push(c));
        lemma_trimmed_before_white(s.drop_first(), c);
    } else if s.len() > 0 {
        assert(t.first() == s.first());
        assert(t.drop_last() =~= s);
    } else {
        assert(t.first() == c);
        assert(t.drop_first() =~= s);
    }
}

/// A text that does not begin with white space is not trimmed to nothing.
proof fn lemma_trim_end_keeps(s: Seq<char>)
    requires
        s.len() > 0,
        !white_space(s.first()),
    ensures
        trim_end(s).len() > 0,
    decreases s.len(),
{
    if white_space(s.last()) {
        assert(s.drop_last().first() == s.first());
        lemma_trim_end_keeps(s.drop_last());
    }
}

/// The claims of a text that is cut at the end of a sentence are those of the two parts.
pub proof fn law_claims_of_a_cut_text(a: Seq<char>, b: Seq<char>)
    requires
        a.len() > 0,
        ends_claim(a.last()),
    ensures
        claims(a + b) == claims(a) + claims(b),
    decreases a.len(),
{
    let n = sentence_len(a) as int;
    let whole = a + b;
    lemma_sentence_len(a);
    lemma_sentence_len(whole);
    let m = sentence_len(whole) as int;
    if m < n {
        assert(whole[m - 1] == a[m - 1]);
    }
    if n < m {
        assert(whole[n - 1] == a[n - 1]);
    }
    assert(whole.take(n) =~= a.take(n));
    assert(whole.skip(n) =~= a.skip(n) + b);
    if n == a.len() {
        assert(a.skip(n) + b =~= b);
        assert(claims(a.skip(n)) =~= Seq::<Seq<char>>::empty());
        assert(claims(whole) =~= claims(a) + claims(b));
    } else {
        assert(a.skip(n).last() == a.last());
        law_claims_of_a_cut_text(a.skip(n), b);
        assert(claims(whole) =~= claims(a) + claims(b));
    }
}

/// The memories that a text cites, cut at the end of a sentence, are those that either part cites.
pub proof fn law_citations_of_a_cut_text(a: Seq<char>, b: Seq<char>)
    requires
        a.len() > 0,
        ends_claim(a.last()),
    ensures
        cited(a + b) == cited(a).union(cited(b)),
{
    law_claims_of_a_cut_text(a, b);
    let (x, y, z) = (claims(a), claims(b), claims(a + b));
    assert forall|i: usize| cited(a + b).contains(i) <==> cited(a).union(cited(b)).contains(i) by {
        if cited_by(z, z.len() as int, i) {
            let k = choose|k: int| 0 <= k < z.len() && #[trigger] cites_of(z[k]).contains(i);
            if k < x.len() {
                assert(cites_of(x[k]).contains(i));
            } else {
                assert(cites_of(y[k - x.len()]).contains(i));
            }
        }
        if cited_by(x, x.len() as int, i) {
            let k = choose|k: int| 0 <= k < x.len() && #[trigger] cites_of(x[k]).contains(i);
            assert(cites_of(z[k]).contains(i));
        }
        if cited_by(y, y.len() as int, i) {
            let k = choose|k: int| 0 <= k < y.len() && #[trigger] cites_of(y[k]).contains(i);
            assert(cites_of(z[x.len() + k]).contains(i));
        }
    }
    assert(cited(a + b) =~= cited(a).union(cited(b)));
}

/// A newline after a text adds no claim.
proof fn lemma_claims_before_newline(s: Seq<char>)
    ensures
        claims(s.push('\n')) == claims(s),
    decreases s.len(),
{
    let t = s.push('\n');
    lemma_sentence_len(s);
    lemma_sentence_len(t);
    let n = sentence_len(s) as int;
    let m = sentence_len(t) as int;
    let none = Seq::<char>::empty();
    if s.len() == 0 {
        assert(m == 1);
        assert(t.take(1) =~= s.push('\n'));
        assert(s =~= none);
        lemma_trimmed_before_white(s, '\n');
        assert(t.skip(1) =~= none);
        assert(claims(t) =~= claims(s));
    } else if ends_claim(s[n - 1]) {
        if m < n {
            assert(t[m - 1] == s[m - 1]);
        }
        if n < m {
            assert(t[n - 1] == s[n - 1]);
        }
        assert(t.take(n) =~= s.take(n));
        assert(t.skip(n) =~= s.skip(n).push('\n'));
        lemma_claims_before_newline(s.skip(n));
    } else {
        assert(n == s.len());
        if m < t.len() {
            assert(t[m - 1] == s[m - 1]);
        }
        assert(s.take(n) =~= s);
        assert(t.take(m) =~= t);
        assert(s.skip(n) =~= none);
        assert(t.skip(m) =~= none);
        lemma_trimmed_before_white(s, '\n');
    }
}

/// Texts of one claim each, joined by newlines, split back into themselves.
proof fn lemma_claims_rejoin(parts: Seq<Seq<char>>)
    requires
        forall|k: int| 0 <= k < parts.len() ==> claims(#[trigger] parts[k]) == seq![parts[k]],
    ensures
        claims(joined(parts, "\n"@)) == parts,
    decreases parts.len(),
{
    reveal_strlit("\n");
    if parts.len() == 0 {
        assert(claims(joined(parts, "\n"@)) =~= parts);
    } else if parts.len() == 1 {
        assert(parts =~= seq![parts[0]]);
    } else {
        let front = parts.drop_last();
        let last = parts.last();
        assert forall|k: int| 0 <= k < front.len() implies claims(#[trigger] front[k]) == seq![
            front[k],
        ] by {
            assert(front[k] == parts[k]);
        }
        lemma_claims_rejoin(front);
        let head = joined(front, "\n"@);
        assert(head + "\n"@ =~= head.push('\n'));
        lemma_claims_before_newline(head);
        law_claims_of_a_cut_text(head.push('\n'), last);
        assert(parts[parts.len() - 1] == last);
        assert(front + seq![last] =~= parts);
    }
}

/// The claims of a text, joined by newlines, split back into themselves.
pub proof fn law_claims_rejoin(text: Seq<char>)
    ensures
        claims(joined(claims(text), "\n"@)) == claims(text),
{
    assert forall|k: int| 0 <= k < claims(text).len() implies claims(
        #[trigger] claims(text)[k],
    ) == seq![claims(text)[k]] by {
        law_claim_splits_to_itself(text, k);
    }
    lemma_claims_rejoin(claims(text));
}

/// A joined text begins as its first part does.
proof fn lemma_joined_first(parts: Seq<Seq<char>>, sep: Seq<char>)
    requires
        parts.len() > 0,
        parts[0].len() > 0,
    ensures
        joined(parts, sep).len() > 0,
        joined(parts, sep).first() == parts[0].first(),
    decreases parts.len(),
{
    if parts.len() > 1 {
        assert(parts.drop_last()[0] == parts[0]);
        lemma_joined_first(parts.drop_last(), sep);
    }
}

/// A publication is empty exactly where every claim of the draft was turned down.
pub proof fn law_empty_where_every_claim_failed(text: Seq<char>, verdicts: Seq<ClaimVerdict>)
    ensures
        trimmed(stripped(text, verdicts)).len() == 0 <==> forall|k: int|
            0 <= k < claims(text).len() ==> failed(verdicts, #[trigger] claims(text)[k]),
{
    let parts = claims(text);
    let kept = unfailed(parts, verdicts);
    if kept.len() > 0 {
        law_strip_keeps_the_rest(parts, verdicts, kept[0]);
        assert(kept.contains(kept[0]));
        let k = choose|k: int| 0 <= k < parts.len() && parts[k] == kept[0];
        law_claims_are_sentences(text, k);
        lemma_trimmed(parts[k]);
        lemma_joined_first(kept, " "@);
        lemma_trim_end_keeps(stripped(text, verdicts));
        assert(!failed(verdicts, parts[k]));
    } else {
        assert forall|k: int| 0 <= k < parts.len() implies failed(
            verdicts,
            #[trigger] parts[k],
        ) by {
            law_strip_keeps_the_rest(parts, verdicts, parts[k]);
            assert(parts.contains(parts[k]));
        }
    }
}

} // verus!
