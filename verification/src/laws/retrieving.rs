//! What the searches give.

#[allow(unused_imports)]
use crate::laws::publishing::{lemma_filter_contains, lemma_filter_last};
#[allow(unused_imports)]
use crate::order::{ahead, ranking};
#[allow(unused_imports)]
use crate::pipeline::retrieve::{
    becomes, candidates_of, firsts, fused, fusion_keys, open_rows, placed, rrf_merge, Placed,
    SearchRow,
};
#[allow(unused_imports)]
use crate::score::Score;
#[allow(unused_imports)]
use crate::types::Candidate;
use vstd::prelude::*;

verus! {

// ---------------------------------------------------------------------------------------------
// Rows
// ---------------------------------------------------------------------------------------------

/// Whether a row is secret.
pub open spec fn secret(row: SearchRow) -> bool {
    row.sensitivity matches Some(s) && s@ == "secret"@
}

/// Whether a row is still pending.
pub open spec fn pending(row: SearchRow) -> bool {
    row.state matches Some(s) && s@ == "pending"@
}

proof fn lemma_open_rows(rows: Seq<SearchRow>, keep: spec_fn(SearchRow) -> bool)
    requires
        forall|row: SearchRow| #[trigger] keep(row) == (!secret(row) && !pending(row)),
    ensures
        open_rows(rows) == rows.filter(keep),
    decreases rows.len(),
{
    if rows.len() > 0 {
        lemma_open_rows(rows.drop_last(), keep);
        lemma_filter_last(rows, keep);
    } else {
        reveal(Seq::filter);
        assert(open_rows(rows) =~= rows.filter(keep));
    }
}

/// Whether a candidate is what a row of the search for `origin` tells: it goes by the memory's id
/// and statement where the row has them and by its own id and text where not, by the row's origin
/// where it has one and by the search's where not, and by the name of its source before the
/// channel. Nothing has been scored yet.
pub open spec fn told_by(c: Candidate, row: SearchRow, origin: Seq<char>) -> bool {
    &&& row.memory_id is Some ==> c.id == row.memory_id->0
    &&& row.memory_id is None ==> c.id == row.id
    &&& row.memory_statement is Some ==> c.statement@ == (row.memory_statement->0)@
    &&& row.memory_statement is None ==> c.statement@ == row.text@
    &&& c.text@ == row.text@
    &&& row.origin is Some ==> c.origin@ == (row.origin->0)@
    &&& row.origin is None ==> c.origin@ == origin
    &&& c.grantor_name == row.grantor_name
    &&& row.source_name is Some ==> c.source == row.source_name
    &&& row.source_name is None ==> c.source == row.source_channel
    &&& c.occurred_at == row.occurred_at
    &&& row.score is Some ==> c.rrf_score == row.score->0
    &&& row.score is None ==> c.rrf_score == (Score { bits: 0 })
    &&& c.noul is None && c.injection is None && c.contradicts is None && c.relevant is None
    &&& c.evidence is None && c.route is None
}

/// The rows of a search that are neither secret nor pending become its candidates, in order, and
/// the others are counted.
pub proof fn law_candidates_of_a_search(
    rows: &Vec<SearchRow>,
    origin: &str,
    r: (Vec<Candidate>, usize),
)
    requires
        call_ensures(candidates_of, (rows, origin), r),
    ensures
        ({
            let kept = rows@.filter(|row: SearchRow| !secret(row) && !pending(row));
            &&& r.0@.len() == kept.len()
            &&& forall|k: int|
                0 <= k < kept.len() ==> told_by(#[trigger] r.0@[k], kept[k], origin@)
            &&& r.0@.len() + r.1 == rows@.len()
        }),
{
    let keep = |row: SearchRow| !secret(row) && !pending(row);
    lemma_open_rows(rows@, keep);
    assert forall|k: int| 0 <= k < r.0@.len() implies told_by(
        #[trigger] r.0@[k],
        open_rows(rows@)[k],
        origin@,
    ) by {
        assert(becomes(open_rows(rows@)[k], origin@, r.0@[k]));
    }
}

/// No candidate comes from a secret row, whatever its state, or from a pending one, whatever its
/// sensitivity, and every row that is neither becomes a candidate.
pub proof fn law_secret_and_pending_rows_never_pass(
    rows: &Vec<SearchRow>,
    origin: &str,
    r: (Vec<Candidate>, usize),
)
    requires
        call_ensures(candidates_of, (rows, origin), r),
    ensures
        forall|k: int|
            0 <= k < r.0@.len() ==> exists|i: int|
                0 <= i < rows@.len() && told_by(#[trigger] r.0@[k], #[trigger] rows@[i], origin@)
                    && (rows@[i].sensitivity matches Some(s) ==> s@ != "secret"@) && (
                rows@[i].state matches Some(s) ==> s@ != "pending"@),
        forall|i: int|
            0 <= i < rows@.len() && (rows@[i].sensitivity matches Some(s) ==> s@ != "secret"@) && (
            rows@[i].state matches Some(s) ==> s@ != "pending"@) ==> exists|k: int|
                0 <= k < r.0@.len() && told_by(#[trigger] r.0@[k], #[trigger] rows@[i], origin@),
{
    let keep = |row: SearchRow| !secret(row) && !pending(row);
    let kept = rows@.filter(keep);
    law_candidates_of_a_search(rows, origin, r);
    assert forall|k: int| 0 <= k < r.0@.len() implies exists|i: int|
        0 <= i < rows@.len() && told_by(#[trigger] r.0@[k], #[trigger] rows@[i], origin@) && (
        rows@[i].sensitivity matches Some(s) ==> s@ != "secret"@) && (rows@[i].state matches Some(
            s,
        ) ==> s@ != "pending"@) by {
        assert(kept.contains(kept[k]));
        lemma_filter_contains(rows@, keep, kept[k]);
        let i = choose|i: int| 0 <= i < rows@.len() && rows@[i] == kept[k];
        assert(told_by(r.0@[k], rows@[i], origin@));
    }
    assert forall|i: int|
        0 <= i < rows@.len() && (rows@[i].sensitivity matches Some(s) ==> s@ != "secret"@) && (
        rows@[i].state matches Some(s) ==> s@ != "pending"@) implies exists|k: int|
        0 <= k < r.0@.len() && told_by(#[trigger] r.0@[k], #[trigger] rows@[i], origin@) by {
        assert(rows@.contains(rows@[i]));
        lemma_filter_contains(rows@, keep, rows@[i]);
        let k = choose|k: int| 0 <= k < kept.len() && kept[k] == rows@[i];
        assert(told_by(r.0@[k], rows@[i], origin@));
    }
}

// ---------------------------------------------------------------------------------------------
// Fusion
// ---------------------------------------------------------------------------------------------

/// The places that a memory has in the two lists, the best of each being zero.
pub open spec fn places(personal: Seq<Candidate>, granted: Seq<Candidate>, id: u128) -> Seq<nat> {
    places_in(personal, id) + places_in(granted, id)
}

/// The places that a memory has in a list.
pub open spec fn places_in(list: Seq<Candidate>, id: u128) -> Seq<nat> {
    Seq::new(list.len(), |i: int| i as nat).filter(|i: nat| list[i as int].id == id)
}

/// What some places add up to: each adds one part in sixty-one plus the place, from left to right.
pub open spec fn worth(at: Seq<nat>) -> Score
    decreases at.len(),
{
    if at.len() == 0 {
        Score { bits: 0 }
    } else if at.len() == 1 {
        Score { bits: Score::reciprocal_bits(61 + at[0]) as u64 }
    } else {
        Score {
            bits: Score::sum_bits(
                worth(at.drop_last()),
                Score { bits: Score::reciprocal_bits(61 + at.last()) as u64 },
            ) as u64,
        }
    }
}

/// The places of some entries that are those of a memory.
spec fn entry_places(entries: Seq<Placed>, id: u128) -> Seq<nat> {
    entries.filter(|e: Placed| e.candidate.id == id).map_values(|e: Placed| e.place)
}

proof fn lemma_entry_places_last(entries: Seq<Placed>, id: u128)
    requires
        entries.len() > 0,
    ensures
        entry_places(entries, id) == if entries.last().candidate.id == id {
            entry_places(entries.drop_last(), id).push(entries.last().place)
        } else {
            entry_places(entries.drop_last(), id)
        },
{
    let same = |e: Placed| e.candidate.id == id;
    lemma_filter_last(entries, same);
    assert(entry_places(entries, id) =~= if entries.last().candidate.id == id {
        entry_places(entries.drop_last(), id).push(entries.last().place)
    } else {
        entry_places(entries.drop_last(), id)
    });
}

proof fn lemma_fused(entries: Seq<Placed>, id: u128)
    ensures
        fused(entries, id) == if entry_places(entries, id).len() == 0 {
            None
        } else {
            Some(worth(entry_places(entries, id)))
        },
    decreases entries.len(),
{
    if entries.len() > 0 {
        lemma_fused(entries.drop_last(), id);
        lemma_entry_places_last(entries, id);
        let now = entry_places(entries, id);
        let was = entry_places(entries.drop_last(), id);
        if entries.last().candidate.id == id {
            assert(now.drop_last() =~= was);
            assert(now.last() == entries.last().place);
        }
    } else {
        reveal(Seq::filter);
        assert(entry_places(entries, id).len() == 0);
    }
}

proof fn lemma_list_places(list: Seq<Candidate>, before: Seq<Placed>, n: int, id: u128)
    requires
        0 <= n <= list.len(),
    ensures
        entry_places(
            before + list.take(n).map(|i: int, c: Candidate| Placed { candidate: c, place: i as nat }),
            id,
        ) == entry_places(before, id) + Seq::new(n as nat, |i: int| i as nat).filter(
            |i: nat| list[i as int].id == id,
        ),
    decreases n,
{
    let tail = list.take(n).map(|i: int, c: Candidate| Placed { candidate: c, place: i as nat });
    let nums = Seq::new(n as nat, |i: int| i as nat);
    let here = |i: nat| list[i as int].id == id;
    if n == 0 {
        reveal(Seq::filter);
        assert(before + tail =~= before);
        assert(nums.filter(here) =~= Seq::<nat>::empty());
        assert(entry_places(before, id) + nums.filter(here) =~= entry_places(before, id));
    } else {
        let less = list.take(n - 1).map(
            |i: int, c: Candidate| Placed { candidate: c, place: i as nat },
        );
        let fewer = Seq::new((n - 1) as nat, |i: int| i as nat);
        lemma_list_places(list, before, n - 1, id);
        assert((before + tail).drop_last() =~= before + less);
        assert(nums.drop_last() =~= fewer);
        lemma_entry_places_last(before + tail, id);
        lemma_filter_last(nums, here);
        assert((before + tail).last() == (Placed { candidate: list[n - 1], place: (n - 1) as nat }));
        assert(nums.last() == (n - 1) as nat);
        assert(entry_places(before + tail, id) =~= entry_places(before, id) + nums.filter(here));
    }
}

proof fn lemma_places(personal: Seq<Candidate>, granted: Seq<Candidate>, id: u128)
    ensures
        entry_places(placed(personal, granted), id) == places(personal, granted, id),
{
    let none = Seq::<Placed>::empty();
    let half = personal.map(|i: int, c: Candidate| Placed { candidate: c, place: i as nat });
    reveal(Seq::filter);
    assert(entry_places(none, id) =~= Seq::<nat>::empty());
    lemma_list_places(personal, none, personal.len() as int, id);
    assert(personal.take(personal.len() as int) =~= personal);
    assert(none + half =~= half);
    lemma_list_places(granted, half, granted.len() as int, id);
    assert(granted.take(granted.len() as int) =~= granted);
    assert(Seq::<nat>::empty() + places_in(personal, id) =~= places_in(personal, id));
}

/// Whether the memory first stands at `at` in the one list after the other.
pub open spec fn first_occurs(all: Seq<Candidate>, id: u128, at: int) -> bool {
    &&& 0 <= at < all.len()
    &&& all[at].id == id
    &&& forall|h: int| 0 <= h < at ==> (#[trigger] all[h]).id != id
}

/// The first entries of the memories are where they first occur.
#[verifier::rlimit(40)]
proof fn lemma_firsts_occur(entries: Seq<Placed>, all: Seq<Candidate>)
    requires
        all == entries.map_values(|e: Placed| e.candidate),
    ensures
        forall|k: int|
            0 <= k < firsts(entries).len() ==> exists|at: int|
                first_occurs(all, (#[trigger] firsts(entries)[k]).id, at) && all[at]
                    == firsts(entries)[k],
        forall|i: int|
            0 <= i < all.len() ==> exists|k: int|
                0 <= k < firsts(entries).len() && #[trigger] firsts(entries)[k].id == (
                #[trigger] all[i]).id,
        forall|j: int, k: int|
            0 <= j < k < firsts(entries).len() ==> (#[trigger] firsts(entries)[j]).id != (
            #[trigger] firsts(entries)[k]).id,
        forall|id: u128| #[trigger] fused(entries, id) is Some <==> exists|i: int|
            0 <= i < all.len() && (#[trigger] all[i]).id == id,
    decreases entries.len(),
{
    if entries.len() > 0 {
        let front = entries.drop_last();
        let less = front.map_values(|e: Placed| e.candidate);
        let n = less.len() as int;
        lemma_firsts_occur(front, less);
        assert(forall|h: int| 0 <= h < n ==> less[h] == all[h]);
        let new = entries.last().candidate;
        assert(all[n] == new);
        let had = firsts(front);
        let now = firsts(entries);
        assert forall|id: u128| #[trigger] fused(entries, id) is Some <==> exists|i: int|
            0 <= i < all.len() && (#[trigger] all[i]).id == id by {
            if fused(entries, id) is Some && new.id != id {
                assert(fused(front, id) is Some);
                let i = choose|i: int| 0 <= i < less.len() && (#[trigger] less[i]).id == id;
                assert(all[i].id == id);
            }
            if exists|i: int| 0 <= i < all.len() && (#[trigger] all[i]).id == id {
                let i = choose|i: int| 0 <= i < all.len() && (#[trigger] all[i]).id == id;
                if i < n {
                    assert(less[i].id == id);
                    assert(fused(front, id) is Some);
                }
            }
        }
        assert forall|k: int| 0 <= k < now.len() implies exists|at: int|
            first_occurs(all, (#[trigger] now[k]).id, at) && all[at] == now[k] by {
            if k < had.len() {
                assert(now[k] == had[k]);
                let at = choose|at: int| first_occurs(less, had[k].id, at) && less[at] == had[k];
                assert(first_occurs(all, now[k].id, at));
            } else {
                assert(fused(front, new.id) is None);
                assert forall|h: int| 0 <= h < n implies (#[trigger] all[h]).id != new.id by {
                    assert(less[h].id == all[h].id);
                }
                assert(first_occurs(all, now[k].id, n));
            }
        }
        assert forall|i: int| 0 <= i < all.len() implies exists|k: int|
            0 <= k < now.len() && #[trigger] now[k].id == (#[trigger] all[i]).id by {
            if i < n {
                assert(less[i].id == all[i].id);
                let k = choose|k: int| 0 <= k < had.len() && #[trigger] had[k].id == less[i].id;
                assert(now[k].id == all[i].id);
            } else if fused(front, new.id) is Some {
                let h = choose|h: int| 0 <= h < less.len() && (#[trigger] less[h]).id == new.id;
                let k = choose|k: int| 0 <= k < had.len() && #[trigger] had[k].id == less[h].id;
                assert(now[k].id == all[i].id);
            } else {
                assert(now[had.len() as int].id == all[i].id);
            }
        }
        assert forall|j: int, k: int| 0 <= j < k < now.len() implies (#[trigger] now[j]).id != (
        #[trigger] now[k]).id by {
            if k < had.len() {
                assert(had[j].id != had[k].id);
            } else {
                assert(fused(front, new.id) is None);
                let at = choose|at: int| first_occurs(less, had[j].id, at) && less[at] == had[j];
                assert(less[at].id == had[j].id);
            }
        }
    }
}

/// What comes out of the fusion: each memory as it stands where it first occurs, with what its
/// places in both lists are worth together as its score, the best first, the lower id where two
/// are worth as much. `order` is every memory of the two lists once, in that order, of which the
/// `k` first come out, or all where there are no more.
#[verifier::rlimit(60)]
pub proof fn law_fusion(
    personal: Vec<Candidate>,
    granted: Vec<Candidate>,
    k: usize,
    r: Vec<Candidate>,
) -> (order: Seq<Candidate>)
    requires
        call_ensures(rrf_merge, (personal, granted, k), r),
        personal@.len() + granted@.len() <= usize::MAX,
    ensures
        ({
            let all = personal@ + granted@;
            &&& forall|i: int|
                0 <= i < order.len() ==> exists|at: int|
                    first_occurs(all, (#[trigger] order[i]).id, at) && order[i] == (Candidate {
                        rrf_score: worth(places(personal@, granted@, order[i].id)),
                        ..all[at]
                    })
            &&& forall|at: int|
                0 <= at < all.len() ==> exists|i: int|
                    0 <= i < order.len() && (#[trigger] order[i]).id == (#[trigger] all[at]).id
            &&& forall|i: int, j: int|
                0 <= i < j < order.len() ==> {
                    let a = (#[trigger] order[i]).rrf_score.total_key();
                    let b = (#[trigger] order[j]).rrf_score.total_key();
                    a > b || (a == b && order[i].id < order[j].id)
                }
            &&& r@ == if order.len() <= k {
                order
            } else {
                order.take(k as int)
            }
        }),
{
    let entries = placed(personal@, granted@);
    let all = personal@ + granted@;
    let keys = fusion_keys(entries);
    let rank = ranking(keys);
    let f = firsts(entries);
    assert(all =~= entries.map_values(|e: Placed| e.candidate));
    lemma_firsts_occur(entries, all);
    lemma_firsts_short(entries);
    let order = rank.map_values(
        |x: usize| Candidate { rrf_score: fused(entries, f[x as int].id)->0, ..f[x as int] },
    );
    assert forall|i: int| 0 <= i < rank.len() implies #[trigger] rank[i] < f.len() by {
        assert(rank.contains(rank[i]));
    }
    assert forall|i: int| 0 <= i < order.len() implies exists|at: int|
        first_occurs(all, (#[trigger] order[i]).id, at) && order[i] == (Candidate {
            rrf_score: worth(places(personal@, granted@, order[i].id)),
            ..all[at]
        }) by {
        let c = f[rank[i] as int];
        let at = choose|at: int| first_occurs(all, c.id, at) && all[at] == c;
        lemma_fused(entries, c.id);
        lemma_places(personal@, granted@, c.id);
        assert(all[at].id == c.id);
        assert(fused(entries, c.id) is Some);
        assert(first_occurs(all, order[i].id, at));
    }
    assert forall|at: int| 0 <= at < all.len() implies exists|i: int|
        0 <= i < order.len() && (#[trigger] order[i]).id == (#[trigger] all[at]).id by {
        let x = choose|x: int| 0 <= x < f.len() && #[trigger] f[x].id == all[at].id;
        assert(rank.contains(x as usize));
        let i = choose|i: int| 0 <= i < rank.len() && rank[i] == x as usize;
        assert(order[i].id == all[at].id);
    }
    assert forall|i: int, j: int| 0 <= i < j < order.len() implies {
        let a = (#[trigger] order[i]).rrf_score.total_key();
        let b = (#[trigger] order[j]).rrf_score.total_key();
        a > b || (a == b && order[i].id < order[j].id)
    } by {
        assert(ahead(keys, rank[i], rank[j]));
    }
    assert(r@ =~= if order.len() <= k {
        order
    } else {
        order.take(k as int)
    });
    order
}

proof fn lemma_firsts_short(entries: Seq<Placed>)
    ensures
        firsts(entries).len() <= entries.len(),
    decreases entries.len(),
{
    if entries.len() > 0 {
        lemma_firsts_short(entries.drop_last());
    }
}

} // verus!
