//! What the claims of a text are, and what a claim cites and quotes.

#[allow(unused_imports)]
use crate::pipeline::verify::{
    attribute_uncited, best_section, cite_closed, cite_index, cites_of, claims, closing_quote,
    ends_claim, lemma_sentence_len, memory_cites, no_section, quote_closed, quote_of, quotes,
    quotes_of, sections, sentence_len, split_claims, tokens, weight, CITE_MARK,
};
#[allow(unused_imports)]
use crate::text::{begins, lemma_span_to, occurs_at, span_to, trimmed, unsigned_within, views};
#[allow(unused_imports)]
use crate::types::{AdmittedCitations, Citation};
use vstd::prelude::*;

verus! {

// ---------------------------------------------------------------------------------------------
// Claims
// ---------------------------------------------------------------------------------------------

/// Whether no period, question mark or newline stands in `s`.
pub open spec fn unbroken(s: Seq<char>) -> bool {
    forall|k: int|
        0 <= k < s.len() ==> (#[trigger] s[k]) != '.' && s[k] != '?' && s[k] != '\n'
}

/// A sentence, as it stands among the claims: without the white space around it, or not at all
/// where there is nothing else.
pub open spec fn alone(sentence: Seq<char>) -> Seq<Seq<char>> {
    if trimmed(sentence).len() > 0 {
        seq![trimmed(sentence)]
    } else {
        Seq::empty()
    }
}

/// A text is cut after each period, question mark and newline, and nowhere else.
pub proof fn law_claims_of_a_text(first: Seq<char>, end: char, rest: Seq<char>)
    requires
        unbroken(first),
    ensures
        claims(first) == alone(first),
        end == '.' || end == '?' || end == '\n' ==> claims(first.push(end) + rest) == alone(
            first.push(end),
        ) + claims(rest),
{
    lemma_sentence_len(first);
    if first.len() > 0 {
        let n = sentence_len(first) as int;
        if n < first.len() {
            assert(ends_claim(first[n - 1]));
        }
        assert(first.take(n) =~= first);
        assert(claims(first.skip(n)) =~= Seq::<Seq<char>>::empty());
        assert(claims(first) =~= alone(first));
    } else {
        crate::text::lemma_trimmed(first);
        assert(claims(first) =~= alone(first));
    }
    if end == '.' || end == '?' || end == '\n' {
        let whole = first.push(end) + rest;
        let m = first.len() as int;
        lemma_sentence_len(whole);
        let n = sentence_len(whole) as int;
        assert(whole[m] == end);
        if n - 1 < m {
            assert(ends_claim(whole[n - 1]));
            assert(whole[n - 1] == first[n - 1]);
        }
        assert(n == m + 1) by {
            if n > m + 1 {
                assert(!ends_claim(whole[m]));
            }
        }
        assert(whole.take(n) =~= first.push(end));
        assert(whole.skip(n) =~= rest);
    }
}

/// What a text is split into are its claims.
pub proof fn law_split(text: &str, r: Vec<String>)
    requires
        call_ensures(split_claims, (text,), r),
    ensures
        unbroken(text@) ==> views(r@) == alone(text@),
        forall|first: Seq<char>, end: char, rest: Seq<char>|
            unbroken(first) && (end == '.' || end == '?' || end == '\n') && text@ == #[trigger] (
            first.push(end) + rest) ==> views(r@) == alone(first.push(end)) + claims(rest),
{
    if unbroken(text@) {
        law_claims_of_a_text(text@, 'x', text@);
    }
    assert forall|first: Seq<char>, end: char, rest: Seq<char>|
        unbroken(first) && (end == '.' || end == '?' || end == '\n') && text@ == #[trigger] (
        first.push(end) + rest) implies views(r@) == alone(first.push(end)) + claims(rest) by {
        law_claims_of_a_text(first, end, rest);
    }
}

// ---------------------------------------------------------------------------------------------
// Marks
// ---------------------------------------------------------------------------------------------

/// Whether a mark `[memory_` stands at `i`, with a closing bracket somewhere after it.
pub open spec fn marked_at(s: Seq<char>, i: int) -> bool {
    &&& occurs_at(s, "[memory_"@, i)
    &&& exists|j: int| i + 8 <= j < s.len() && #[trigger] s[j] == ']'
}

proof fn lemma_mark_len()
    ensures
        CITE_MARK@ == "[memory_"@,
        CITE_MARK@.len() == 8,
{
    reveal_strlit("[memory_");
}

proof fn lemma_closed(s: Seq<char>)
    requires
        s.len() > 0,
    ensures
        cite_closed(s) <==> marked_at(s, 0),
{
    lemma_mark_len();
    let body = s.skip(8);
    if begins(s, CITE_MARK@) {
        lemma_span_to(body, ']');
        if cite_closed(s) {
            let n = span_to(body, ']') as int;
            assert(s[8 + n] == body[n]);
        }
        if marked_at(s, 0) {
            let j = choose|j: int| 8 <= j < s.len() && #[trigger] s[j] == ']';
            assert(body[j - 8] == s[j]);
        }
    }
}

proof fn lemma_marked_shift(s: Seq<char>, i: int)
    requires
        s.len() > 0,
        i >= 0,
    ensures
        marked_at(s.drop_first(), i) <==> marked_at(s, i + 1),
{
    lemma_mark_len();
    let t = s.drop_first();
    if i + 8 <= t.len() {
        assert(t.subrange(i, i + 8) =~= s.subrange(i + 1, i + 9));
    }
    if marked_at(t, i) {
        let j = choose|j: int| i + 8 <= j < t.len() && #[trigger] t[j] == ']';
        assert(s[j + 1] == ']');
    }
    if marked_at(s, i + 1) {
        let j = choose|j: int| i + 9 <= j < s.len() && #[trigger] s[j] == ']';
        assert(t[j - 1] == ']');
    }
}

/// A text without a closed mark cites nothing.
pub proof fn law_nothing_cited_without_a_mark(s: Seq<char>)
    requires
        forall|i: int| 0 <= i < s.len() ==> !(#[trigger] marked_at(s, i)),
    ensures
        cites_of(s).len() == 0,
    decreases s.len(),
{
    if s.len() > 0 {
        lemma_closed(s);
        assert(!marked_at(s, 0));
        let t = s.drop_first();
        assert forall|i: int| 0 <= i < t.len() implies !(#[trigger] marked_at(t, i)) by {
            lemma_marked_shift(s, i);
            assert(!marked_at(s, i + 1));
        }
        law_nothing_cited_without_a_mark(t);
    }
}

/// The first closed mark of a text cites the number that stands in it, if it is one, and what
/// follows the mark is read on its own.
#[verifier::rlimit(40)]
pub proof fn law_cites_from_the_first_mark(a: Seq<char>, body: Seq<char>, rest: Seq<char>)
    requires
        forall|k: int| 0 <= k < body.len() ==> (#[trigger] body[k]) != ']',
        forall|i: int|
            0 <= i < a.len() ==> !(#[trigger] marked_at(a + "[memory_"@ + body + seq![']'] + rest, i)),
    ensures
        cites_of(a + "[memory_"@ + body + seq![']'] + rest) == (match unsigned_within(
            body,
            usize::MAX as nat,
        ) {
            Some(n) => seq![n as usize] + cites_of(rest),
            None => cites_of(rest),
        }),
    decreases a.len(),
{
    lemma_mark_len();
    let s = a + "[memory_"@ + body + seq![']'] + rest;
    if a.len() > 0 {
        lemma_closed(s);
        assert(!marked_at(s, 0));
        let b = a.drop_first();
        let t = s.drop_first();
        assert(t =~= b + "[memory_"@ + body + seq![']'] + rest);
        assert forall|i: int| 0 <= i < b.len() implies !(#[trigger] marked_at(t, i)) by {
            lemma_marked_shift(s, i);
            assert(!marked_at(s, i + 1));
        }
        law_cites_from_the_first_mark(b, body, rest);
    } else {
        let tail = s.skip(8);
        let n = body.len() as int;
        assert(tail =~= body + seq![']'] + rest);
        assert(s.subrange(0, 8) =~= "[memory_"@);
        assert(begins(s, CITE_MARK@));
        lemma_span_to(tail, ']');
        let e = span_to(tail, ']') as int;
        assert(tail[n] == ']');
        if e < n {
            assert(tail[e] == body[e]);
        }
        assert(e == n);
        assert(tail.take(n) =~= body);
        assert(tail.skip(n + 1) =~= rest);
        assert(cite_closed(s));
        assert(cites_of(s) == cite_index(body) + cites_of(rest));
        assert(Seq::<usize>::empty() + cites_of(rest) =~= cites_of(rest));
    }
}

/// What a claim cites is read from left to right.
pub proof fn law_memory_cites(claim: &str, r: Vec<usize>)
    requires
        call_ensures(memory_cites, (claim,), r),
    ensures
        (forall|i: int| 0 <= i < claim@.len() ==> !(#[trigger] marked_at(claim@, i)))
            ==> r@.len() == 0,
        r@ == cites_of(claim@),
{
    if forall|i: int| 0 <= i < claim@.len() ==> !(#[trigger] marked_at(claim@, i)) {
        law_nothing_cited_without_a_mark(claim@);
    }
}

// ---------------------------------------------------------------------------------------------
// Quotations
// ---------------------------------------------------------------------------------------------

/// Whether `close` closes a quotation that `open` begins.
pub open spec fn pairs(open: char, close: char) -> bool {
    (open == '"' && close == '"') || (open == '\'' && close == '\'') || (open == '“' && close
        == '”')
}

/// Whether a quotation begins at `i` and is closed somewhere after it.
pub open spec fn quoted_at(s: Seq<char>, i: int) -> bool {
    &&& 0 <= i < s.len()
    &&& exists|j: int| i < j < s.len() && pairs(s[i], #[trigger] s[j])
}

proof fn lemma_quote_closed(s: Seq<char>)
    requires
        s.len() > 0,
    ensures
        quote_closed(s) <==> quoted_at(s, 0),
{
    let body = s.drop_first();
    let close = closing_quote(s.first());
    lemma_span_to(body, close);
    if quote_closed(s) {
        let n = span_to(body, close) as int;
        assert(s[n + 1] == body[n]);
        assert(pairs(s[0], s[n + 1]));
    }
    if quoted_at(s, 0) {
        let j = choose|j: int| 0 < j < s.len() && pairs(s[0], #[trigger] s[j]);
        assert(body[j - 1] == s[j]);
    }
}

proof fn lemma_quoted_shift(s: Seq<char>, i: int)
    requires
        s.len() > 0,
        i >= 0,
    ensures
        quoted_at(s.drop_first(), i) <==> quoted_at(s, i + 1),
{
    let t = s.drop_first();
    if quoted_at(t, i) {
        let j = choose|j: int| i < j < t.len() && pairs(t[i], #[trigger] t[j]);
        assert(pairs(s[i + 1], s[j + 1]));
    }
    if quoted_at(s, i + 1) {
        let j = choose|j: int| i + 1 < j < s.len() && pairs(s[i + 1], #[trigger] s[j]);
        assert(pairs(t[i], t[j - 1]));
    }
}

/// A text without a closed quotation quotes nothing.
pub proof fn law_nothing_quoted_without_quote_marks(s: Seq<char>)
    requires
        forall|i: int| 0 <= i < s.len() ==> !(#[trigger] quoted_at(s, i)),
    ensures
        quotes_of(s).len() == 0,
    decreases s.len(),
{
    if s.len() > 0 {
        lemma_quote_closed(s);
        assert(!quoted_at(s, 0));
        let t = s.drop_first();
        assert forall|i: int| 0 <= i < t.len() implies !(#[trigger] quoted_at(t, i)) by {
            lemma_quoted_shift(s, i);
            assert(!quoted_at(s, i + 1));
        }
        law_nothing_quoted_without_quote_marks(t);
    }
}

/// The first closed quotation of a text is what stands between its marks, unless that is blank,
/// and what follows is read on its own.
#[verifier::rlimit(40)]
pub proof fn law_quotes_from_the_first(
    a: Seq<char>,
    open: char,
    body: Seq<char>,
    close: char,
    rest: Seq<char>,
)
    requires
        pairs(open, close),
        forall|k: int| 0 <= k < body.len() ==> (#[trigger] body[k]) != close,
        forall|i: int|
            0 <= i < a.len() ==> !(#[trigger] quoted_at(
                a + seq![open] + body + seq![close] + rest,
                i,
            )),
    ensures
        quotes_of(a + seq![open] + body + seq![close] + rest) == if trimmed(body).len() > 0 {
            seq![body] + quotes_of(rest)
        } else {
            quotes_of(rest)
        },
    decreases a.len(),
{
    let s = a + seq![open] + body + seq![close] + rest;
    if a.len() > 0 {
        lemma_quote_closed(s);
        assert(!quoted_at(s, 0));
        let b = a.drop_first();
        let t = s.drop_first();
        assert(t =~= b + seq![open] + body + seq![close] + rest);
        assert forall|i: int| 0 <= i < b.len() implies !(#[trigger] quoted_at(t, i)) by {
            lemma_quoted_shift(s, i);
            assert(!quoted_at(s, i + 1));
        }
        law_quotes_from_the_first(b, open, body, close, rest);
    } else {
        let tail = s.drop_first();
        let n = body.len() as int;
        assert(s.first() == open);
        assert(tail =~= body + seq![close] + rest);
        lemma_span_to(tail, close);
        let e = span_to(tail, close) as int;
        assert(tail[n] == close);
        if e < n {
            assert(tail[e] == body[e]);
        }
        assert(e == n);
        assert(closing_quote(open) == close);
        assert(tail.take(n) =~= body);
        assert(tail.skip(n + 1) =~= rest);
        assert(quotes_of(s) == quote_of(body) + quotes_of(rest));
        assert(Seq::<Seq<char>>::empty() + quotes_of(rest) =~= quotes_of(rest));
    }
}

/// What a claim quotes is read from left to right.
pub proof fn law_quotes(claim: &str, r: Vec<String>)
    requires
        call_ensures(quotes, (claim,), r),
    ensures
        (forall|i: int| 0 <= i < claim@.len() ==> !(#[trigger] quoted_at(claim@, i)))
            ==> r@.len() == 0,
        views(r@) == quotes_of(claim@),
{
    if forall|i: int| 0 <= i < claim@.len() ==> !(#[trigger] quoted_at(claim@, i)) {
        law_nothing_quoted_without_quote_marks(claim@);
        assert(views(r@).len() == r@.len());
    }
}

// ---------------------------------------------------------------------------------------------
// Attribution
// ---------------------------------------------------------------------------------------------

/// How many content words a claim shares with the text of a citation.
pub open spec fn text_shares(claim: Seq<char>, c: Citation) -> nat {
    tokens(claim).intersect(tokens(trimmed(c.text@))).len()
}

/// How many content words a claim shares with the statement of a citation.
pub open spec fn statement_shares(claim: Seq<char>, c: Citation) -> nat {
    tokens(claim).intersect(tokens(trimmed(c.statement@))).len()
}

proof fn lemma_shares(claim: Seq<char>, cites: Seq<Citation>, i: int)
    requires
        0 <= i < cites.len(),
    ensures
        sections(cites)[2 * i] == (cites[i].index, trimmed(cites[i].text@)),
        sections(cites)[2 * i + 1] == (cites[i].index, trimmed(cites[i].statement@)),
        weight(tokens(claim), sections(cites)[2 * i]) == text_shares(claim, cites[i]),
        weight(tokens(claim), sections(cites)[2 * i + 1]) == statement_shares(claim, cites[i]),
{
    let w = tokens(claim);
    let t = tokens(trimmed(cites[i].text@));
    let s = tokens(trimmed(cites[i].statement@));
    assert(t.intersect(w) =~= w.intersect(t));
    assert(s.intersect(w) =~= w.intersect(s));
}

/// A claim without a citation is attributed to nothing exactly where it has fewer than two content
/// words or shares fewer than two with every text and every statement.
pub proof fn law_attributed_to_none(
    claim: &str,
    cites: &AdmittedCitations,
    r: Option<(usize, &str)>,
)
    requires
        call_ensures(attribute_uncited, (claim, cites), r),
    ensures
        r is None <==> tokens(claim@).len() < 2 || forall|i: int|
            0 <= i < (cites.included() + cites.conflicting()).len() ==> text_shares(
                claim@,
                #[trigger] (cites.included() + cites.conflicting())[i],
            ) < 2 && statement_shares(claim@, (cites.included() + cites.conflicting())[i]) < 2,
{
    let all = cites.included() + cites.conflicting();
    let secs = sections(all);
    let w = tokens(claim@);
    if no_section(w, secs) {
        assert forall|i: int| 0 <= i < all.len() implies text_shares(claim@, #[trigger] all[i]) < 2
            && statement_shares(claim@, all[i]) < 2 by {
            lemma_shares(claim@, all, i);
            assert(weight(w, secs[2 * i]) < 2);
            assert(weight(w, secs[2 * i + 1]) < 2);
        }
    } else {
        let k = choose|k: int| 0 <= k < secs.len() && !(#[trigger] weight(w, secs[k]) < 2);
        lemma_shares(claim@, all, k / 2);
        assert(k == 2 * (k / 2) || k == 2 * (k / 2) + 1);
        assert(text_shares(claim@, all[k / 2]) >= 2 || statement_shares(claim@, all[k / 2]) >= 2);
    }
}

/// A claim without a citation is attributed to the text or the statement that shares the most of
/// its content words, two at least: none shares more, and none before it as many. The index is
/// that of the citation.
pub proof fn law_attributed_to_the_closest(
    claim: &str,
    cites: &AdmittedCitations,
    index: usize,
    section: &str,
) -> (at: (int, bool))
    requires
        call_ensures(attribute_uncited, (claim, cites), Some((index, section))),
    ensures
        ({
            let all = cites.included() + cites.conflicting();
            let (i, by_text) = at;
            let most = if by_text {
                text_shares(claim@, all[i])
            } else {
                statement_shares(claim@, all[i])
            };
            &&& 0 <= i < all.len()
            &&& index == all[i].index
            &&& section@ == if by_text {
                trimmed(all[i].text@)
            } else {
                trimmed(all[i].statement@)
            }
            &&& most >= 2
            &&& forall|j: int|
                0 <= j < all.len() ==> text_shares(claim@, #[trigger] all[j]) <= most
                    && statement_shares(claim@, all[j]) <= most
            &&& forall|j: int|
                0 <= j < i ==> text_shares(claim@, #[trigger] all[j]) < most && statement_shares(
                    claim@,
                    all[j],
                ) < most
            &&& !by_text ==> text_shares(claim@, all[i]) < most
        }),
{
    let all = cites.included() + cites.conflicting();
    let secs = sections(all);
    let w = tokens(claim@);
    let k = choose|k: int| #[trigger] best_section(w, secs, k) && secs[k] == (index, section@);
    let i = k / 2;
    let by_text = k == 2 * i;
    lemma_shares(claim@, all, i);
    assert(k == 2 * i || k == 2 * i + 1);
    assert forall|j: int| 0 <= j < all.len() implies text_shares(claim@, #[trigger] all[j])
        <= weight(w, secs[k]) && statement_shares(claim@, all[j]) <= weight(w, secs[k]) by {
        lemma_shares(claim@, all, j);
        assert(weight(w, secs[2 * j]) <= weight(w, secs[k]));
        assert(weight(w, secs[2 * j + 1]) <= weight(w, secs[k]));
    }
    assert forall|j: int| 0 <= j < i implies text_shares(claim@, #[trigger] all[j]) < weight(
        w,
        secs[k],
    ) && statement_shares(claim@, all[j]) < weight(w, secs[k]) by {
        lemma_shares(claim@, all, j);
        assert(weight(w, secs[2 * j]) < weight(w, secs[k]));
        assert(weight(w, secs[2 * j + 1]) < weight(w, secs[k]));
    }
    if !by_text {
        assert(weight(w, secs[2 * i]) < weight(w, secs[k]));
    }
    (i, by_text)
}

} // verus!
