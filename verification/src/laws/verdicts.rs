//! What the check of a claim promises.

#[allow(unused_imports)]
use crate::pipeline::verify::{
    cites_of, local_verdict, normal, quote_backed, quotes_backed, quotes_of, quoted_from,
};
#[allow(unused_imports)]
use crate::text::{has, lower_char, occurs_at, white_space};
#[allow(unused_imports)]
use crate::types::{first_under, AdmittedCitations, Citation, ClaimVerdict};
use vstd::prelude::*;

verus! {

/// Whether `cites[i]` is the first citation under `index`.
pub open spec fn cited_under(cites: Seq<Citation>, index: usize, i: int) -> bool {
    &&& 0 <= i < cites.len()
    &&& cites[i].index == index
    &&& forall|h: int| 0 <= h < i ==> (#[trigger] cites[h]).index != index
}

/// The citation under an index is the first that has it, and there is none only where no citation
/// has it.
pub proof fn law_first_under(cites: Seq<Citation>, index: usize)
    ensures
        match first_under(cites, index) {
            Some(c) => exists|i: int| #[trigger] cited_under(cites, index, i) && cites[i] == c,
            None => forall|i: int| 0 <= i < cites.len() ==> (#[trigger] cites[i]).index != index,
        },
    decreases cites.len(),
{
    if cites.len() > 0 {
        if cites.first().index == index {
            assert(cited_under(cites, index, 0));
        } else {
            let rest = cites.drop_first();
            law_first_under(rest, index);
            match first_under(rest, index) {
                Some(c) => {
                    let j = choose|j: int| #[trigger] cited_under(rest, index, j) && rest[j] == c;
                    assert forall|h: int| 0 <= h < j + 1 implies (#[trigger] cites[h]).index
                        != index by {
                        if h > 0 {
                            assert(rest[h - 1] == cites[h]);
                        }
                    }
                    assert(cited_under(cites, index, j + 1));
                    assert(cites[j + 1] == c);
                },
                None => {
                    assert forall|i: int| 0 <= i < cites.len() implies (#[trigger] cites[i]).index
                        != index by {
                        if i > 0 {
                            assert(rest[i - 1] == cites[i]);
                        }
                    }
                },
            }
        }
    }
}

/// A citation is found under its index exactly where it is the first that has it.
pub proof fn law_by_index(cites: &AdmittedCitations, index: usize, r: Option<&Citation>)
    requires
        call_ensures(AdmittedCitations::by_index, (cites, index), r),
    ensures
        match r {
            Some(c) => exists|i: int| #[trigger]
                cited_under(cites.included() + cites.conflicting(), index, i) && (cites.included()
                    + cites.conflicting())[i] == *c,
            None => forall|i: int|
                0 <= i < (cites.included() + cites.conflicting()).len() ==> (
                #[trigger] (cites.included() + cites.conflicting())[i]).index != index,
        },
{
    law_first_under(cites.every(), index);
}

/// Whether a quotation stands in the memory that the `j`-th mark of the claim cites, which is the
/// `i`-th of all, white space, quote marks and case aside.
pub open spec fn stands_in(
    quote: Seq<char>,
    claim: Seq<char>,
    j: int,
    cites: AdmittedCitations,
    i: int,
) -> bool {
    &&& 0 <= j < cites_of(claim).len()
    &&& cited_under(cites.included() + cites.conflicting(), cites_of(claim)[j], i)
    &&& normal(quote).len() > 0
    &&& exists|a: Seq<char>, b: Seq<char>|
        normal((cites.included() + cites.conflicting())[i].text@) == #[trigger] (a + normal(quote)
            + b)
}

/// Whether a quotation stands in a memory that the claim cites.
pub open spec fn stands_somewhere(
    quote: Seq<char>,
    claim: Seq<char>,
    cites: AdmittedCitations,
) -> bool {
    exists|j: int, i: int| stands_in(quote, claim, j, cites, i)
}

/// A text stands in another exactly where the other is made of it and what is before and after.
pub proof fn law_has(hay: Seq<char>, needle: Seq<char>)
    ensures
        has(hay, needle) <==> exists|a: Seq<char>, b: Seq<char>| hay == #[trigger] (a + needle + b),
{
    if has(hay, needle) {
        let at = choose|at: int| #[trigger] occurs_at(hay, needle, at);
        let a = hay.take(at);
        let b = hay.skip(at + needle.len());
        assert(hay =~= a + needle + b) by {
            assert forall|k: int| 0 <= k < hay.len() implies hay[k] == (a + needle + b)[k] by {
                if at <= k < at + needle.len() {
                    assert(hay.subrange(at, at + needle.len())[k - at] == needle[k - at]);
                }
            }
        }
    }
    if exists|a: Seq<char>, b: Seq<char>| hay == #[trigger] (a + needle + b) {
        let (a, b) = choose|a: Seq<char>, b: Seq<char>| hay == #[trigger] (a + needle + b);
        assert(hay.subrange(a.len() as int, (a.len() + needle.len()) as int) =~= needle);
        assert(occurs_at(hay, needle, a.len() as int));
    }
}

/// A quotation is backed by the marks of a claim exactly where it stands in a memory that one of
/// them cites.
proof fn lemma_backed(quote: Seq<char>, claim: Seq<char>, cites: AdmittedCitations)
    ensures
        quote_backed(quote, cites_of(claim), cites) <==> stands_somewhere(
            quote,
            claim,
            cites,
        ),
{
    let all = cites.included() + cites.conflicting();
    if quote_backed(quote, cites_of(claim), cites) {
        let j = choose|j: int|
            0 <= j < cites_of(claim).len() && (#[trigger] cites.under(cites_of(claim)[j]) matches
                Some(c) && quoted_from(quote, c.text@));
        law_first_under(all, cites_of(claim)[j]);
        let c = first_under(all, cites_of(claim)[j])->0;
        let i = choose|i: int| #[trigger] cited_under(all, cites_of(claim)[j], i) && all[i] == c;
        law_has(normal(c.text@), normal(quote));
        assert(stands_in(quote, claim, j, cites, i));
    }
    if exists|j: int, i: int| stands_in(quote, claim, j, cites, i) {
        let (j, i) = choose|j: int, i: int| stands_in(quote, claim, j, cites, i);
        let index = cites_of(claim)[j];
        law_first_under(all, index);
        assert(all[i].index == index);
        let c = first_under(all, index)->0;
        let h = choose|h: int| #[trigger] cited_under(all, index, h) && all[h] == c;
        assert(h == i) by {
            if h < i {
                assert(all[h].index != index);
            }
            if i < h {
                assert(all[i].index != index);
            }
        }
        law_has(normal(c.text@), normal(quote));
        assert(cites.under(cites_of(claim)[j]) == Some(c));
    }
}

pub proof fn lemma_all_backed(claim: Seq<char>, cites: AdmittedCitations)
    ensures
        quotes_backed(claim, cites) <==> forall|q: int|
            0 <= q < quotes_of(claim).len() ==> stands_somewhere(#[trigger] quotes_of(claim)[q], claim, cites),
{
    let qs = quotes_of(claim);
    assert forall|q: int| 0 <= q < qs.len() implies (quote_backed(
        #[trigger] qs[q],
        cites_of(claim),
        cites,
    ) <==> stands_somewhere(qs[q], claim, cites)) by {
        lemma_backed(qs[q], claim, cites);
    }
}

/// Nothing is said of a claim exactly where it cites a memory, quotes something, and every
/// one of its quotations stands in a memory that it cites, white space, quote marks and case
/// aside.
pub proof fn law_every_quotation_stands_in_a_cited_memory(
    claim: &str,
    cites: &AdmittedCitations,
    r: Option<ClaimVerdict>,
)
    requires
        call_ensures(local_verdict, (claim, cites), r),
    ensures
        r is None <==> {
            &&& cites_of(claim@).len() > 0
            &&& quotes_of(claim@).len() > 0
            &&& forall|q: int|
                0 <= q < quotes_of(claim@).len() ==> stands_somewhere(#[trigger] quotes_of(claim@)[q], claim@, *cites)
        },
{
    lemma_all_backed(claim@, *cites);
}

/// A claim that cites a memory and has a quotation that stands in no memory it cites is always
/// fabricated, whatever its other quotations are, and is held against the memory it cites first.
pub proof fn law_an_invented_quotation_is_fabricated(
    claim: &str,
    cites: &AdmittedCitations,
    r: Option<ClaimVerdict>,
    q: int,
)
    requires
        call_ensures(local_verdict, (claim, cites), r),
        cites_of(claim@).len() > 0,
        0 <= q < quotes_of(claim@).len(),
        !stands_somewhere(quotes_of(claim@)[q], claim@, *cites),
    ensures
        r matches Some(v) && v.verdict@ == "fabricated"@ && v.memory_index == Some(
            cites_of(claim@)[0],
        ) && v.claim@ == claim@,
{
    let quote = quotes_of(claim@)[q];
    lemma_all_backed(claim@, *cites);
    assert(!stands_somewhere(quote, claim@, *cites));
    assert(!quotes_backed(claim@, *cites));
}

/// A claim is unsupported exactly where it cites nothing, and then goes back to no memory; one
/// that cites a memory and quotes nothing is fabricated; every verdict is on the claim as it
/// stands.
pub proof fn law_verdicts_without_citation_or_quotation(
    claim: &str,
    cites: &AdmittedCitations,
    r: Option<ClaimVerdict>,
)
    requires
        call_ensures(local_verdict, (claim, cites), r),
    ensures
        cites_of(claim@).len() == 0 <==> (r matches Some(v) && v.verdict@ == "unsupported"@),
        cites_of(claim@).len() == 0 <==> (r matches Some(v) && v.memory_index is None),
        cites_of(claim@).len() > 0 && quotes_of(claim@).len() == 0 ==> (r matches Some(v)
            && v.verdict@ == "fabricated"@),
        r matches Some(v) ==> v.claim@ == claim@ && (v.verdict@ == "unsupported"@ || v.verdict@
            == "fabricated"@) && (v.verdict@ == "fabricated"@ ==> v.memory_index == Some(
            cites_of(claim@)[0],
        )),
{
    reveal_strlit("unsupported");
    reveal_strlit("fabricated");
    assert("unsupported"@.len() == 11);
    assert("fabricated"@.len() == 10);
}

/// What counts of a text is what counts of its parts, one after the other.
pub proof fn law_normal_of_a_cut_text(a: Seq<char>, b: Seq<char>)
    ensures
        normal(a + b) == normal(a) + normal(b),
    decreases b.len(),
{
    if b.len() == 0 {
        assert(a + b =~= a);
        assert(normal(a) + normal(b) =~= normal(a));
    } else {
        assert((a + b).drop_last() =~= a + b.drop_last());
        law_normal_of_a_cut_text(a, b.drop_last());
        assert(normal(a + b) =~= normal(a) + normal(b));
    }
}

/// Of a single character nothing counts where it is white space or a quote mark, and else its
/// lower case.
pub proof fn law_normal_of_a_character(c: char)
    ensures
        normal(seq![c]) == if white_space(c) || c == '"' || c == '\'' || c == '“' || c == '”' {
            Seq::empty()
        } else {
            lower_char(c)
        },
{
    assert(seq![c].drop_last() =~= Seq::<char>::empty());
    assert(normal(seq![c].drop_last()) =~= Seq::<char>::empty());
    assert(seq![c].last() == c);
    assert(Seq::<char>::empty() + lower_char(c) =~= lower_char(c));
}

} // verus!
