//! What is published of a draft.

#[allow(unused_imports)]
use crate::laws::verdicts::law_has;
#[allow(unused_imports)]
use crate::pipeline::verify::{
    apply_publish, cited, cited_by, cites_of, claims, failed, law_empty_where_every_claim_failed,
    relied_on, strip_failed, supports_index, unfailed, PublishOutcome,
};
#[allow(unused_imports)]
use crate::text::{has, joined};
#[allow(unused_imports)]
use crate::types::{Citation, ClaimVerdict};
use vstd::prelude::*;

verus! {

/// Whether a claim of the text carries a mark that cites `index`.
pub open spec fn marked(text: Seq<char>, index: usize) -> bool {
    exists|k: int, m: int|
        0 <= k < claims(text).len() && 0 <= m < cites_of(claims(text)[k]).len()
            && #[trigger] cites_of(claims(text)[k])[m] == index
}

/// Whether a verdict supports a claim that stands in the text, and goes back to the memory at
/// `index`.
pub open spec fn attributed(
    text: Seq<char>,
    verdicts: Seq<ClaimVerdict>,
    index: usize,
) -> bool {
    exists|k: int, a: Seq<char>, b: Seq<char>|
        0 <= k < verdicts.len() && verdicts[k].verdict@ == "supports"@ && verdicts[k].memory_index
            == Some(index) && text == #[trigger] (a + verdicts[k].claim@ + b)
}

/// Whether some verdict on the claim does not support it.
pub open spec fn turned_down(verdicts: Seq<ClaimVerdict>, claim: Seq<char>) -> bool {
    exists|k: int|
        0 <= k < verdicts.len() && (#[trigger] verdicts[k]).claim@ == claim && verdicts[k].verdict@
            != "supports"@
}

proof fn lemma_marked(text: Seq<char>, index: usize)
    ensures
        cited(text).contains(index) <==> marked(text, index),
{
    let cs = claims(text);
    if cited(text).contains(index) {
        let k = choose|k: int| 0 <= k < cs.len() && #[trigger] cites_of(cs[k]).contains(index);
        let m = choose|m: int| 0 <= m < cites_of(cs[k]).len() && cites_of(cs[k])[m] == index;
        assert(cites_of(claims(text)[k])[m] == index);
    }
    if marked(text, index) {
        let (k, m) = choose|k: int, m: int|
            0 <= k < claims(text).len() && 0 <= m < cites_of(claims(text)[k]).len()
                && #[trigger] cites_of(claims(text)[k])[m] == index;
        assert(cites_of(cs[k]).contains(index));
        assert(cited_by(cs, cs.len() as int, index));
    }
}

proof fn lemma_attributed(text: Seq<char>, verdicts: Seq<ClaimVerdict>, index: usize)
    ensures
        supports_index(verdicts, text, index) <==> attributed(text, verdicts, index),
{
    if supports_index(verdicts, text, index) {
        let k = choose|k: int|
            0 <= k < verdicts.len() && (#[trigger] verdicts[k]).supported()
                && verdicts[k].memory_index == Some(index) && has(text, verdicts[k].claim@);
        let claim = verdicts[k].claim@;
        law_has(text, claim);
        let (a, b) = choose|a: Seq<char>, b: Seq<char>| text == #[trigger] (a + claim + b);
        assert(text == a + verdicts[k].claim@ + b);
    }
    if attributed(text, verdicts, index) {
        let (k, a, b) = choose|k: int, a: Seq<char>, b: Seq<char>|
            0 <= k < verdicts.len() && verdicts[k].verdict@ == "supports"@
                && verdicts[k].memory_index == Some(index) && text == #[trigger] (a
                + verdicts[k].claim@ + b);
        law_has(text, verdicts[k].claim@);
        assert(verdicts[k].supported());
    }
}

/// Appending to a list appends to what a filter keeps of it, or nothing.
pub proof fn lemma_filter_last<A>(s: Seq<A>, keep: spec_fn(A) -> bool)
    requires
        s.len() > 0,
    ensures
        s.filter(keep) == if keep(s.last()) {
            s.drop_last().filter(keep).push(s.last())
        } else {
            s.drop_last().filter(keep)
        },
{
    reveal(Seq::filter);
}

pub proof fn lemma_relied_on(
    cites: Seq<Citation>,
    text: Seq<char>,
    verdicts: Seq<ClaimVerdict>,
    keep: spec_fn(Citation) -> bool,
)
    requires
        forall|c: Citation| #[trigger]
            keep(c) == (marked(text, c.index) || attributed(text, verdicts, c.index)),
    ensures
        relied_on(cites, text, verdicts) == cites.filter(keep),
    decreases cites.len(),
{
    if cites.len() > 0 {
        lemma_relied_on(cites.drop_last(), text, verdicts, keep);
        lemma_filter_last(cites, keep);
        lemma_marked(text, cites.last().index);
        lemma_attributed(text, verdicts, cites.last().index);
    } else {
        reveal(Seq::filter);
        assert(relied_on(cites, text, verdicts) =~= cites.filter(keep));
    }
}

pub proof fn lemma_unfailed(
    parts: Seq<Seq<char>>,
    verdicts: Seq<ClaimVerdict>,
    keep: spec_fn(Seq<char>) -> bool,
)
    requires
        forall|p: Seq<char>| #[trigger] keep(p) == !turned_down(verdicts, p),
    ensures
        unfailed(parts, verdicts) == parts.filter(keep),
    decreases parts.len(),
{
    if parts.len() > 0 {
        lemma_unfailed(parts.drop_last(), verdicts, keep);
        lemma_filter_last(parts, keep);
        lemma_turned_down(verdicts, parts.last());
    } else {
        reveal(Seq::filter);
        assert(unfailed(parts, verdicts) =~= parts.filter(keep));
    }
}

pub proof fn lemma_turned_down(verdicts: Seq<ClaimVerdict>, claim: Seq<char>)
    ensures
        failed(verdicts, claim) <==> turned_down(verdicts, claim),
{
    if failed(verdicts, claim) {
        let k = choose|k: int|
            0 <= k < verdicts.len() && !(#[trigger] verdicts[k]).supported() && verdicts[k].claim@
                == claim;
        assert(verdicts[k].claim@ == claim && verdicts[k].verdict@ != "supports"@);
    }
    if turned_down(verdicts, claim) {
        let k = choose|k: int|
            0 <= k < verdicts.len() && (#[trigger] verdicts[k]).claim@ == claim
                && verdicts[k].verdict@ != "supports"@;
        assert(!verdicts[k].supported());
    }
}

/// Of a draft those claims are kept, in order and with a space between each two, that no verdict
/// turns down.
pub proof fn law_strip_keeps_what_no_verdict_turns_down(
    text: &str,
    verdicts: &[ClaimVerdict],
    r: String,
)
    requires
        call_ensures(strip_failed, (text, verdicts), r),
    ensures
        r@ == joined(
            claims(text@).filter(|p: Seq<char>| !turned_down(verdicts@, p)),
            " "@,
        ),
{
    lemma_unfailed(claims(text@), verdicts@, |p: Seq<char>| !turned_down(verdicts@, p));
}

/// Joined texts, cut between two parts, are the joined parts before the cut and those after it,
/// with the separator between them.
pub proof fn law_join_of_a_cut_list(a: Seq<Seq<char>>, b: Seq<Seq<char>>, sep: Seq<char>)
    requires
        a.len() > 0,
        b.len() > 0,
    ensures
        joined(a + b, sep) == joined(a, sep) + sep + joined(b, sep),
    decreases b.len(),
{
    let all = a + b;
    assert(all.last() == b.last());
    assert(all.drop_last() =~= a + b.drop_last());
    if b.len() == 1 {
        assert(a + b.drop_last() =~= a);
        assert(b.last() == b[0]);
    } else {
        law_join_of_a_cut_list(a, b.drop_last(), sep);
        assert(joined(all, sep) =~= joined(a, sep) + sep + joined(b, sep));
    }
}

/// One part is joined to itself, and none to nothing.
pub proof fn law_join_of_one_and_none(part: Seq<char>, sep: Seq<char>)
    ensures
        joined(seq![part], sep) == part,
        joined(Seq::<Seq<char>>::empty(), sep) == Seq::<char>::empty(),
{
    assert(seq![part][0] == part);
}

/// A publication is empty exactly where every claim of the draft is turned down. It then says that
/// nothing is remembered, and cites nothing. Else it is what no verdict turns down of the draft.
pub proof fn law_publication(
    raw: &str,
    verdicts: &[ClaimVerdict],
    admitted: &mut Vec<Citation>,
    conflicts: &mut Vec<Citation>,
    r: PublishOutcome,
)
    requires
        call_ensures(apply_publish, (raw, verdicts, admitted, conflicts), r),
    ensures
        r.empty <==> forall|k: int|
            0 <= k < claims(raw@).len() ==> turned_down(verdicts@, #[trigger] claims(raw@)[k]),
        r.empty ==> r.text@ == "I don't have that in my memory."@ && final(admitted)@.len() == 0
            && final(conflicts)@.len() == 0,
        !r.empty ==> r.text@ == joined(
            claims(raw@).filter(|p: Seq<char>| !turned_down(verdicts@, p)),
            " "@,
        ),
{
    law_empty_where_every_claim_failed(raw@, verdicts@);
    lemma_unfailed(claims(raw@), verdicts@, |p: Seq<char>| !turned_down(verdicts@, p));
    assert forall|k: int| 0 <= k < claims(raw@).len() implies (turned_down(
        verdicts@,
        #[trigger] claims(raw@)[k],
    ) <==> failed(verdicts@, claims(raw@)[k])) by {
        lemma_turned_down(verdicts@, claims(raw@)[k]);
    }
}

/// Of the citations exactly those are published, in order, that a mark in a published claim cites
/// or that a supported claim standing in the published text goes back to. Either is enough.
pub proof fn law_published_citations(
    raw: &str,
    verdicts: &[ClaimVerdict],
    admitted: &mut Vec<Citation>,
    conflicts: &mut Vec<Citation>,
    r: PublishOutcome,
)
    requires
        call_ensures(apply_publish, (raw, verdicts, admitted, conflicts), r),
        !r.empty,
    ensures
        final(admitted)@ == old(admitted)@.filter(
            |c: Citation| marked(r.text@, c.index) || attributed(r.text@, verdicts@, c.index),
        ),
        final(conflicts)@ == old(conflicts)@.filter(
            |c: Citation| marked(r.text@, c.index) || attributed(r.text@, verdicts@, c.index),
        ),
{
    let keep = |c: Citation| marked(r.text@, c.index) || attributed(r.text@, verdicts@, c.index);
    lemma_relied_on(old(admitted)@, r.text@, verdicts@, keep);
    lemma_relied_on(old(conflicts)@, r.text@, verdicts@, keep);
}

/// What a filter keeps is what was there and is to be kept.
pub proof fn lemma_filter_contains<A>(s: Seq<A>, keep: spec_fn(A) -> bool, x: A)
    ensures
        s.filter(keep).contains(x) <==> s.contains(x) && keep(x),
    decreases s.len(),
{
    if s.len() > 0 {
        let front = s.drop_last();
        let kept = front.filter(keep);
        lemma_filter_last(s, keep);
        lemma_filter_contains(front, keep, x);
        if s.contains(x) && s.last() != x {
            let k = choose|k: int| 0 <= k < s.len() && s[k] == x;
            assert(front[k] == x);
        }
        if front.contains(x) {
            let k = choose|k: int| 0 <= k < front.len() && front[k] == x;
            assert(s[k] == x);
        }
        assert(s[s.len() - 1] == s.last());
        if keep(s.last()) {
            let all = kept.push(s.last());
            if kept.contains(x) {
                let k = choose|k: int| 0 <= k < kept.len() && kept[k] == x;
                assert(all[k] == x);
            }
            if all.contains(x) && x != s.last() {
                let k = choose|k: int| 0 <= k < all.len() && all[k] == x;
                assert(kept[k] == x);
            }
            assert(all[kept.len() as int] == s.last());
        }
    } else {
        reveal(Seq::filter);
    }
}

/// A citation is kept where a mark in the published text cites it, kept where a supported claim
/// that stands there goes back to it, and dropped where neither holds.
pub proof fn law_a_citation_is_kept_for_either_reason(
    raw: &str,
    verdicts: &[ClaimVerdict],
    admitted: &mut Vec<Citation>,
    conflicts: &mut Vec<Citation>,
    r: PublishOutcome,
    c: Citation,
)
    requires
        call_ensures(apply_publish, (raw, verdicts, admitted, conflicts), r),
        !r.empty,
    ensures
        old(admitted)@.contains(c) && marked(r.text@, c.index) ==> final(admitted)@.contains(c),
        old(admitted)@.contains(c) && attributed(r.text@, verdicts@, c.index) ==> final(admitted)@.contains(c),
        final(admitted)@.contains(c) ==> old(admitted)@.contains(c) && (marked(r.text@, c.index)
            || attributed(r.text@, verdicts@, c.index)),
        old(conflicts)@.contains(c) && marked(r.text@, c.index) ==> final(conflicts)@.contains(c),
        old(conflicts)@.contains(c) && attributed(r.text@, verdicts@, c.index) ==> final(conflicts)@.contains(c),
        final(conflicts)@.contains(c) ==> old(conflicts)@.contains(c) && (marked(r.text@, c.index)
            || attributed(r.text@, verdicts@, c.index)),
{
    let keep = |c: Citation| marked(r.text@, c.index) || attributed(r.text@, verdicts@, c.index);
    lemma_relied_on(old(admitted)@, r.text@, verdicts@, keep);
    lemma_relied_on(old(conflicts)@, r.text@, verdicts@, keep);
    lemma_filter_contains(old(admitted)@, keep, c);
    lemma_filter_contains(old(conflicts)@, keep, c);
}

} // verus!
