//! Retrieval: what the searches found, as candidates, and the fusion of the two lists.

use crate::order::rank;
#[allow(unused_imports)]
use crate::order::{ahead, ranking, ranks};
use crate::score::Score;
#[allow(unused_imports)]
use crate::score::{
    law_reciprocal_decreases, law_reciprocal_strictly_decreases, law_sum_not_below, EXACT_LIMIT,
    TOLD_APART,
};
#[allow(unused_imports)]
use crate::text::opt_view;
use crate::text::same;
use crate::types::{Candidate, Timestamp};
use vstd::prelude::*;
#[allow(unused_imports)]
use vstd::set_lib::*;

verus! {

// ---------------------------------------------------------------------------------------------
// Rows
// ---------------------------------------------------------------------------------------------

/// A row that a search of the corpus returned.
#[derive(Debug)]
pub struct SearchRow {
    pub id: u128,
    pub text: String,
    pub memory_id: Option<u128>,
    pub memory_statement: Option<String>,
    pub score: Option<Score>,
    pub origin: Option<String>,
    pub grantor_name: Option<String>,
    pub source_name: Option<String>,
    pub source_channel: Option<String>,
    pub occurred_at: Option<Timestamp>,
    pub sensitivity: Option<String>,
    pub state: Option<String>,
}

/// Whether a row is kept from the rest of the pipeline: it is secret, or still pending.
pub open spec fn withheld(row: SearchRow) -> bool {
    opt_view(row.sensitivity) == Some("secret"@) || opt_view(row.state) == Some("pending"@)
}

/// The rows that are not withheld, in order.
pub open spec fn open_rows(rows: Seq<SearchRow>) -> Seq<SearchRow>
    decreases rows.len(),
{
    if rows.len() == 0 {
        Seq::empty()
    } else if withheld(rows.last()) {
        open_rows(rows.drop_last())
    } else {
        open_rows(rows.drop_last()).push(rows.last())
    }
}

/// Whether `c` is the candidate that a row of the search for `origin` becomes: it goes by the
/// memory's own id and statement where the row has them, and has not been scored yet.
pub open spec fn becomes(row: SearchRow, origin: Seq<char>, c: Candidate) -> bool {
    &&& c.id == (match row.memory_id {
        Some(id) => id,
        None => row.id,
    })
    &&& c.text@ == row.text@
    &&& c.statement@ == (match row.memory_statement {
        Some(s) => s@,
        None => row.text@,
    })
    &&& c.origin@ == (match row.origin {
        Some(o) => o@,
        None => origin,
    })
    &&& c.grantor_name == row.grantor_name
    &&& c.source == (match row.source_name {
        Some(s) => Some(s),
        None => row.source_channel,
    })
    &&& c.occurred_at == row.occurred_at
    &&& c.rrf_score == (match row.score {
        Some(s) => s,
        None => (Score { bits: 0 }),
    })
    &&& c.noul is None && c.injection is None && c.contradicts is None && c.relevant is None
        && c.evidence is None && c.route is None
}

/// Whether an optional text is `word`.
fn is_word(s: &Option<String>, word: &str) -> (r: bool)
    ensures
        r == (opt_view(*s) == Some(word@)),
{
    match s {
        Some(t) => same(t.as_str(), word),
        None => false,
    }
}

/// The candidate that a row becomes.
fn candidate(row: &SearchRow, origin: &str) -> (r: Candidate)
    ensures
        becomes(*row, origin@, r),
{
    let id: u128 = match row.memory_id {
        Some(id) => id,
        None => row.id,
    };
    let statement: String = match &row.memory_statement {
        Some(s) => s.clone(),
        None => row.text.clone(),
    };
    let from: String = match &row.origin {
        Some(o) => o.clone(),
        None => origin.to_owned(),
    };
    let source: Option<String> = match &row.source_name {
        Some(s) => Some(s.clone()),
        None => row.source_channel.clone(),
    };
    let rrf_score: Score = match row.score {
        Some(s) => s,
        None => Score { bits: 0 },
    };
    Candidate {
        id,
        statement,
        text: row.text.clone(),
        origin: from,
        grantor_name: row.grantor_name.clone(),
        source,
        occurred_at: row.occurred_at,
        rrf_score,
        noul: None,
        injection: None,
        contradicts: None,
        relevant: None,
        evidence: None,
        route: None,
    }
}

/// The candidates of a search, and how many of its rows were withheld.
pub fn candidates_of(rows: &Vec<SearchRow>, origin: &str) -> (r: (Vec<Candidate>, usize))
    ensures
        r.0@.len() == open_rows(rows@).len(),
        forall|k: int|
            0 <= k < r.0@.len() ==> becomes(open_rows(rows@)[k], origin@, #[trigger] r.0@[k]),
        r.1 == rows@.len() - r.0@.len(),
{
    let mut out: Vec<Candidate> = Vec::new();
    let mut kept_back: usize = 0;
    let mut i: usize = 0;
    while i < rows.len()
        invariant
            i <= rows@.len(),
            out@.len() == open_rows(rows@.take(i as int)).len(),
            forall|k: int|
                0 <= k < out@.len() ==> becomes(
                    open_rows(rows@.take(i as int))[k],
                    origin@,
                    #[trigger] out@[k],
                ),
            kept_back + out@.len() == i,
        decreases rows@.len() - i,
    {
        assert(rows@.take(i + 1).drop_last() =~= rows@.take(i as int));
        let row = &rows[i];
        if is_word(&row.sensitivity, "secret") || is_word(&row.state, "pending") {
            kept_back = kept_back + 1;
        } else {
            out.push(candidate(row, origin));
        }
        i = i + 1;
    }
    assert(rows@.take(i as int) =~= rows@);
    (out, kept_back)
}

/// A withheld row never becomes a candidate, and every other row does.
pub proof fn law_withheld_rows_never_pass(rows: Seq<SearchRow>, row: SearchRow)
    ensures
        open_rows(rows).contains(row) <==> rows.contains(row) && !withheld(row),
    decreases rows.len(),
{
    if rows.len() > 0 {
        let front = rows.drop_last();
        law_withheld_rows_never_pass(front, row);
        let kept = open_rows(front);
        if rows.contains(row) && rows.last() != row {
            let k = choose|k: int| 0 <= k < rows.len() && rows[k] == row;
            assert(front[k] == row);
        }
        if front.contains(row) {
            let k = choose|k: int| 0 <= k < front.len() && front[k] == row;
            assert(rows[k] == row);
        }
        if !withheld(rows.last()) {
            let all = kept.push(rows.last());
            if kept.contains(row) {
                let k = choose|k: int| 0 <= k < kept.len() && kept[k] == row;
                assert(all[k] == row);
            }
            if all.contains(row) && row != rows.last() {
                let k = choose|k: int| 0 <= k < all.len() && all[k] == row;
                assert(kept[k] == row);
            }
            assert(all[kept.len() as int] == rows.last());
            assert(rows[rows.len() - 1] == rows.last());
        }
    }
}

// ---------------------------------------------------------------------------------------------
// Fusion
// ---------------------------------------------------------------------------------------------

/// What the best place of a list adds to a score is one part in this many.
pub const BEST_SHARE: u64 = 61;

/// An entry of the two lists, with its place in its own list, the best being zero.
pub struct Placed {
    pub candidate: Candidate,
    pub place: nat,
}

/// The two lists one after the other, each entry with its place in its own.
pub open spec fn placed(personal: Seq<Candidate>, granted: Seq<Candidate>) -> Seq<Placed> {
    personal.map(|i: int, c: Candidate| Placed { candidate: c, place: i as nat }) + granted.map(
        |i: int, c: Candidate| Placed { candidate: c, place: i as nat },
    )
}

/// What a place adds to a score.
pub open spec fn share(place: nat) -> Score {
    Score { bits: Score::reciprocal_bits(BEST_SHARE as nat + place) as u64 }
}

/// The score of a memory: the sum, in order, of what its places add. None for one in no list.
pub open spec fn fused(entries: Seq<Placed>, id: u128) -> Option<Score>
    decreases entries.len(),
{
    if entries.len() == 0 {
        None
    } else {
        let before = fused(entries.drop_last(), id);
        let last = entries.last();
        if last.candidate.id != id {
            before
        } else {
            match before {
                Some(s) => Some(Score { bits: Score::sum_bits(s, share(last.place)) as u64 }),
                None => Some(share(last.place)),
            }
        }
    }
}

/// The first entry of each memory, in order.
pub open spec fn firsts(entries: Seq<Placed>) -> Seq<Candidate>
    decreases entries.len(),
{
    if entries.len() == 0 {
        Seq::empty()
    } else if fused(entries.drop_last(), entries.last().candidate.id) is Some {
        firsts(entries.drop_last())
    } else {
        firsts(entries.drop_last()).push(entries.last().candidate)
    }
}

/// What the memories are ranked by: their scores, and their ids where two have the same.
pub open spec fn fusion_keys(entries: Seq<Placed>) -> Seq<(Score, u128)> {
    firsts(entries).map_values(|c: Candidate| (fused(entries, c.id)->0, c.id))
}

/// A memory has a score exactly where it has a first entry; each has one first entry.
proof fn lemma_firsts(entries: Seq<Placed>)
    ensures
        forall|id: u128| #[trigger]
            fused(entries, id) is Some <==> exists|k: int|
                0 <= k < firsts(entries).len() && (#[trigger] firsts(entries)[k]).id == id,
        forall|i: int, j: int|
            0 <= i < firsts(entries).len() && 0 <= j < firsts(entries).len() && i != j ==> (
            #[trigger] firsts(entries)[i]).id != (#[trigger] firsts(entries)[j]).id,
    decreases entries.len(),
{
    if entries.len() > 0 {
        let front = entries.drop_last();
        lemma_firsts(front);
        let new = entries.last().candidate;
        let had = firsts(front);
        let all = firsts(entries);
        assert forall|id: u128| #[trigger] fused(entries, id) is Some <==> exists|k: int|
            0 <= k < all.len() && (#[trigger] all[k]).id == id by {
            if fused(entries, id) is Some {
                if new.id == id && fused(front, id) is None {
                    assert(all[had.len() as int].id == id);
                } else {
                    assert(fused(front, id) is Some);
                    let k = choose|k: int| 0 <= k < had.len() && (#[trigger] had[k]).id == id;
                    assert(all[k].id == id);
                }
            }
            if exists|k: int| 0 <= k < all.len() && (#[trigger] all[k]).id == id {
                let k = choose|k: int| 0 <= k < all.len() && (#[trigger] all[k]).id == id;
                if k < had.len() {
                    assert(had[k].id == id);
                    assert(fused(front, id) is Some);
                }
            }
        }
        if fused(front, new.id) is None {
            assert forall|k: int| 0 <= k < had.len() implies (#[trigger] had[k]).id != new.id by {
                assert(fused(front, had[k].id) is Some);
            }
        }
    }
}

/// Where the score of `id` stands.
fn position(keys: &Vec<(Score, u128)>, id: u128) -> (r: Option<usize>)
    ensures
        r matches Some(i) ==> i < keys@.len() && keys@[i as int].1 == id,
        r is None ==> forall|k: int| 0 <= k < keys@.len() ==> (#[trigger] keys@[k]).1 != id,
{
    let mut i: usize = 0;
    while i < keys.len()
        invariant
            i <= keys@.len(),
            forall|k: int| 0 <= k < i ==> (#[trigger] keys@[k]).1 != id,
        decreases keys@.len() - i,
    {
        if keys[i].1 == id {
            return Some(i);
        }
        i = i + 1;
    }
    None
}

/// Adds one entry to the scores.
fn fuse_one(
    c: &Candidate,
    place: usize,
    keys: &mut Vec<(Score, u128)>,
    kept: &mut Vec<Candidate>,
    Ghost(entries): Ghost<Seq<Placed>>,
)
    requires
        old(keys)@ == fusion_keys(entries),
        old(kept)@ == firsts(entries),
        forall|k: int| 0 <= k < old(keys)@.len() ==> (#[trigger] old(keys)@[k]).0.positive(),
        place + BEST_SHARE <= EXACT_LIMIT,
    ensures
        final(keys)@ == fusion_keys(
            entries.push(Placed { candidate: *c, place: place as nat }),
        ),
        final(kept)@ == firsts(entries.push(Placed { candidate: *c, place: place as nat })),
        forall|k: int| 0 <= k < final(keys)@.len() ==> (#[trigger] final(keys)@[k]).0.positive(),
{
    let ghost next = entries.push(Placed { candidate: *c, place: place as nat });
    let ghost had = keys@;
    let ghost was = kept@;
    let add: Score = Score::reciprocal(BEST_SHARE + place as u64);
    assert(add == share(place as nat));
    proof {
        assert(next.drop_last() =~= entries);
        lemma_firsts(entries);
    }
    if let Some(i) = position(keys, c.id) {
        assert(was[i as int].id == c.id);
        let now: Score = keys[i].0.plus(add);
        keys.set(i, (now, c.id));
        proof {
            assert(fused(entries, c.id) is Some);
            assert(firsts(next) == was);
            assert forall|k: int| 0 <= k < was.len() implies keys@[k] == fusion_keys(next)[k] by {
                assert(had[k] == fusion_keys(entries)[k]);
                if k != i {
                    assert(was[k].id != was[i as int].id);
                }
            }
            assert(keys@ =~= fusion_keys(next));
        }
        return;
    }
    assert(fused(entries, c.id) is None) by {
        if fused(entries, c.id) is Some {
            let k = choose|k: int| 0 <= k < was.len() && (#[trigger] was[k]).id == c.id;
            assert(had[k].1 == was[k].id);
        }
    }
    keys.push((add, c.id));
    kept.push(c.clone());
    proof {
        assert forall|k: int| 0 <= k < kept@.len() implies keys@[k] == fusion_keys(next)[k] by {
            if k < was.len() {
                assert(had[k] == fusion_keys(entries)[k]);
                assert(had[k].1 != c.id);
            }
        }
        assert(keys@ =~= fusion_keys(next));
    }
}

/// Adds one list to the scores.
fn fuse_list(
    list: &Vec<Candidate>,
    keys: &mut Vec<(Score, u128)>,
    kept: &mut Vec<Candidate>,
    Ghost(before): Ghost<Seq<Placed>>,
)
    requires
        old(keys)@ == fusion_keys(before),
        old(kept)@ == firsts(before),
        forall|k: int| 0 <= k < old(keys)@.len() ==> (#[trigger] old(keys)@[k]).0.positive(),
        list@.len() + BEST_SHARE <= EXACT_LIMIT,
    ensures
        final(keys)@ == fusion_keys(before + placed(list@, Seq::empty())),
        final(kept)@ == firsts(before + placed(list@, Seq::empty())),
        forall|k: int| 0 <= k < final(keys)@.len() ==> (#[trigger] final(keys)@[k]).0.positive(),
{
    let ghost all = placed(list@, Seq::empty());
    let mut i: usize = 0;
    assert(before + all.take(0) =~= before);
    while i < list.len()
        invariant
            i <= list@.len(),
            list@.len() + BEST_SHARE <= EXACT_LIMIT,
            all == placed(list@, Seq::empty()),
            keys@ == fusion_keys(before + all.take(i as int)),
            kept@ == firsts(before + all.take(i as int)),
            forall|k: int| 0 <= k < keys@.len() ==> (#[trigger] keys@[k]).0.positive(),
        decreases list@.len() - i,
    {
        fuse_one(&list[i], i, keys, kept, Ghost(before + all.take(i as int)));
        assert((before + all.take(i as int)).push(
            Placed { candidate: list@[i as int], place: i as nat },
        ) =~= before + all.take(i + 1));
        i = i + 1;
    }
    assert(all.take(i as int) =~= all);
}

/// Whether `r` is the fusion of the two lists: the first entries of the memories, each with its
/// score, the `k` best in the order of their scores.
pub open spec fn merges(
    personal: Seq<Candidate>,
    granted: Seq<Candidate>,
    k: nat,
    r: Seq<Candidate>,
) -> bool {
    let entries = placed(personal, granted);
    let order = ranking(fusion_keys(entries));
    &&& ranks(fusion_keys(entries), firsts(entries).len() as int, order)
    &&& r.len() == if firsts(entries).len() <= k {
        firsts(entries).len()
    } else {
        k
    }
    &&& forall|i: int|
        0 <= i < r.len() ==> #[trigger] r[i] == (Candidate {
            rrf_score: fused(entries, firsts(entries)[order[i] as int].id)->0,
            ..firsts(entries)[order[i] as int]
        })
}

/// Reciprocal rank fusion. A memory scores one part in sixty plus its rank for each place it has
/// in either list, and is taken over as it stands where it first occurs, with that score. The `k`
/// best are returned, the best first, the lower id where two score the same.
pub fn rrf_merge(personal: Vec<Candidate>, granted: Vec<Candidate>, k: usize) -> (r: Vec<Candidate>)
    requires
        personal@.len() + BEST_SHARE <= EXACT_LIMIT,
        granted@.len() + BEST_SHARE <= EXACT_LIMIT,
    ensures
        merges(personal@, granted@, k as nat, r@),
{
    let ghost entries = placed(personal@, granted@);
    let mut keys: Vec<(Score, u128)> = Vec::new();
    let mut kept: Vec<Candidate> = Vec::new();
    let ghost none: Seq<Placed> = Seq::empty();
    assert(keys@ =~= fusion_keys(none));
    fuse_list(&personal, &mut keys, &mut kept, Ghost(none));
    let ghost half = placed(personal@, Seq::empty());
    assert(none + half =~= half);
    fuse_list(&granted, &mut keys, &mut kept, Ghost(half));
    assert(half + placed(granted@, Seq::empty()) =~= entries);
    proof {
        lemma_firsts(entries);
        assert forall|i: int, j: int|
            0 <= i < keys@.len() && 0 <= j < keys@.len() && i != j implies (#[trigger] keys@[i]).1
            != (#[trigger] keys@[j]).1 by {
            assert(kept@[i].id != kept@[j].id);
        }
    }
    let order = rank(&keys);
    let mut out: Vec<Candidate> = Vec::new();
    let mut i: usize = 0;
    while i < order.len() && i < k
        invariant
            i <= order@.len(),
            i <= k,
            out@.len() == i,
            kept@ == firsts(entries),
            keys@ == fusion_keys(entries),
            ranks(keys@, keys@.len() as int, order@),
            forall|j: int|
                0 <= j < i ==> #[trigger] out@[j] == (Candidate {
                    rrf_score: fused(entries, firsts(entries)[order@[j] as int].id)->0,
                    ..firsts(entries)[order@[j] as int]
                }),
        decreases order@.len() - i,
    {
        let at: usize = order[i];
        assert(order@.contains(at));
        let mut c = kept[at].clone();
        c.rrf_score = keys[at].0;
        out.push(c);
        i = i + 1;
    }
    out
}

// ---------------------------------------------------------------------------------------------
// Laws
// ---------------------------------------------------------------------------------------------

/// No memory comes out of the fusion twice, there are at most `k`, and none scores higher than
/// one before it.
pub proof fn law_fusion_is_ranked(
    personal: Seq<Candidate>,
    granted: Seq<Candidate>,
    k: nat,
    r: Seq<Candidate>,
)
    requires
        merges(personal, granted, k, r),
    ensures
        r.len() <= k,
        forall|i: int, j: int|
            0 <= i < j < r.len() ==> (#[trigger] r[i]).id != (#[trigger] r[j]).id
                && r[i].rrf_score.total_key() >= r[j].rrf_score.total_key(),
{
    let entries = placed(personal, granted);
    let keys = fusion_keys(entries);
    let order = ranking(keys);
    lemma_firsts(entries);
    assert forall|i: int, j: int| 0 <= i < j < r.len() implies (#[trigger] r[i]).id
        != (#[trigger] r[j]).id && r[i].rrf_score.total_key() >= r[j].rrf_score.total_key() by {
        assert(ahead(keys, order[i], order[j]));
        assert(order.contains(order[i]));
        assert(order.contains(order[j]));
        let (a, b) = (order[i] as int, order[j] as int);
        assert(keys[a] == (fused(entries, firsts(entries)[a].id)->0, firsts(entries)[a].id));
        assert(keys[b] == (fused(entries, firsts(entries)[b].id)->0, firsts(entries)[b].id));
        if a != b {
            assert(firsts(entries)[a].id != firsts(entries)[b].id);
        }
    }
}

/// Every memory that either list holds comes out of the fusion, where `k` leaves room for all.
pub proof fn law_fusion_loses_nothing(
    personal: Seq<Candidate>,
    granted: Seq<Candidate>,
    k: usize,
    r: Seq<Candidate>,
    at: int,
)
    requires
        merges(personal, granted, k as nat, r),
        personal.len() + granted.len() <= k,
        0 <= at < personal.len() + granted.len(),
    ensures
        exists|i: int|
            0 <= i < r.len() && (#[trigger] r[i]).id == (personal + granted)[at].id,
{
    let entries = placed(personal, granted);
    let order = ranking(fusion_keys(entries));
    let id = (personal + granted)[at].id;
    assert(entries[at].candidate.id == id);
    lemma_firsts(entries);
    lemma_firsts_len(entries);
    lemma_entry_scores(entries, at);
    assert(fused(entries, id) is Some);
    let f = choose|f: int| 0 <= f < firsts(entries).len() && (#[trigger] firsts(entries)[f]).id == id;
    assert(order.contains(f as usize));
    let i = choose|i: int| 0 <= i < order.len() && order[i] == f as usize;
    assert(r[i].id == id);
}

proof fn lemma_firsts_len(entries: Seq<Placed>)
    ensures
        firsts(entries).len() <= entries.len(),
    decreases entries.len(),
{
    if entries.len() > 0 {
        lemma_firsts_len(entries.drop_last());
    }
}

/// The memory at any place has a score.
proof fn lemma_entry_scores(entries: Seq<Placed>, at: int)
    requires
        0 <= at < entries.len(),
    ensures
        fused(entries, entries[at].candidate.id) is Some,
    decreases entries.len(),
{
    if at < entries.len() - 1 {
        lemma_entry_scores(entries.drop_last(), at);
    }
}

/// A better place adds no less to a score.
pub proof fn law_better_place_adds_no_less(better: nat, worse: nat)
    requires
        better <= worse,
        worse + BEST_SHARE <= EXACT_LIMIT,
    ensures
        share(better).bits >= share(worse).bits,
        share(worse).positive(),
        share(better).positive(),
{
    law_reciprocal_decreases((BEST_SHARE + better) as nat, (BEST_SHARE + worse) as nat);
}

/// Where no memory has two places, each is its own first entry and scores what its place adds.
proof fn lemma_apart(entries: Seq<Placed>)
    requires
        forall|i: int, j: int|
            0 <= i < j < entries.len() ==> (#[trigger] entries[i]).candidate.id != (
            #[trigger] entries[j]).candidate.id,
    ensures
        firsts(entries) == entries.map_values(|e: Placed| e.candidate),
        forall|i: int|
            0 <= i < entries.len() ==> fused(entries, (#[trigger] entries[i]).candidate.id) == Some(
                share(entries[i].place),
            ),
    decreases entries.len(),
{
    if entries.len() > 0 {
        let front = entries.drop_last();
        let last = entries.last();
        assert forall|i: int, j: int| 0 <= i < j < front.len() implies (#[trigger] front[i])
            .candidate.id != (#[trigger] front[j]).candidate.id by {
            assert(entries[i].candidate.id != entries[j].candidate.id);
        }
        lemma_apart(front);
        assert(fused(front, last.candidate.id) is None) by {
            if fused(front, last.candidate.id) is Some {
                lemma_some_entry(front, last.candidate.id);
                let k = choose|k: int|
                    0 <= k < front.len() && (#[trigger] front[k]).candidate.id
                        == last.candidate.id;
                assert(entries[k].candidate.id != entries[entries.len() - 1].candidate.id);
            }
        }
        assert forall|i: int| 0 <= i < entries.len() implies fused(
            entries,
            (#[trigger] entries[i]).candidate.id,
        ) == Some(share(entries[i].place)) by {
            if i < front.len() {
                assert(front[i] == entries[i]);
                assert(entries[i].candidate.id != entries[entries.len() - 1].candidate.id);
            }
        }
        assert(firsts(entries) =~= entries.map_values(|e: Placed| e.candidate));
    } else {
        assert(firsts(entries) =~= entries.map_values(|e: Placed| e.candidate));
    }
}

/// A list of different whole numbers that all lie in a finite set is no longer than the set is
/// large.
proof fn lemma_fits(s: Seq<int>, room: Set<int>)
    requires
        s.no_duplicates(),
        room.finite(),
        forall|k: int| 0 <= k < s.len() ==> room.contains(#[trigger] s[k]),
    ensures
        s.len() <= room.len(),
{
    s.unique_seq_to_set();
    assert forall|x: int| #[trigger] s.to_set().contains(x) implies room.contains(x) by {
        let k = choose|k: int| 0 <= k < s.len() && s[k] == x;
        assert(room.contains(s[k]));
    }
    lemma_len_subset(s.to_set(), room);
}

/// Neither list crowds out the other: where no memory has two places, the one at place `p` of
/// either list, the best being zero, comes out among the first `2 p + 2`.
pub proof fn law_neither_list_is_crowded_out(
    personal: Seq<Candidate>,
    granted: Seq<Candidate>,
    k: nat,
    r: Seq<Candidate>,
    at: int,
)
    requires
        merges(personal, granted, k, r),
        forall|i: int, j: int|
            0 <= i < j < personal.len() + granted.len() ==> (#[trigger] (personal + granted)[i]).id
                != (#[trigger] (personal + granted)[j]).id,
        personal.len() + BEST_SHARE <= TOLD_APART,
        granted.len() + BEST_SHARE <= TOLD_APART,
        0 <= at < personal.len() + granted.len(),
        2 * placed(personal, granted)[at].place + 2 <= k,
    ensures
        exists|i: int|
            0 <= i < r.len() && i < 2 * placed(personal, granted)[at].place + 2 && (
            #[trigger] r[i]).id == (personal + granted)[at].id,
{
    let entries = placed(personal, granted);
    let all = personal + granted;
    let keys = fusion_keys(entries);
    let order = ranking(keys);
    let p = entries[at].place as int;
    let n = personal.len() as int;
    assert forall|i: int, j: int| 0 <= i < j < entries.len() implies (#[trigger] entries[i])
        .candidate.id != (#[trigger] entries[j]).candidate.id by {
        assert(all[i].id != all[j].id);
    }
    lemma_apart(entries);
    assert(firsts(entries) =~= all);
    assert(order.contains(at as usize));
    let i = choose|i: int| 0 <= i < order.len() && order[i] == at as usize;
    let before = order.take(i).map_values(|x: usize| x as int);
    let room = set_int_range(0, p + 1).union(set_int_range(n, n + p + 1));
    lemma_int_range(0, p + 1);
    lemma_int_range(n, n + p + 1);
    lemma_len_union(set_int_range(0, p + 1), set_int_range(n, n + p + 1));
    assert(room.contains(at));
    let others = room.remove(at);
    assert forall|j: int| 0 <= j < before.len() implies others.contains(#[trigger] before[j]) by {
        let x = before[j];
        assert(ahead(keys, order[j], order[i]));
        assert(order.contains(order[j]));
        assert(keys[x] == (share(entries[x].place), all[x].id));
        assert(keys[at] == (share(entries[at].place), all[at].id));
        law_better_place_adds_no_less(entries[x].place, entries[x].place);
        law_better_place_adds_no_less(entries[at].place, entries[at].place);
        if entries[x].place > p {
            let fewer = BEST_SHARE as nat + entries[at].place;
            let more = BEST_SHARE as nat + entries[x].place;
            law_reciprocal_strictly_decreases(fewer, more);
            law_reciprocal_decreases(fewer, more);
            assert(share(entries[x].place).bits < share(entries[at].place).bits);
        }
        assert(entries[x].place <= p);
        assert(x != at);
        if x < n {
            assert(entries[x].place == x);
            assert(set_int_range(0, p + 1).contains(x));
        } else {
            assert(entries[x].place == x - n);
            assert(set_int_range(n, n + p + 1).contains(x));
        }
    }
    assert(before.no_duplicates()) by {
        assert forall|a: int, b: int| 0 <= a < b < before.len() implies before[a] != before[b] by {
            assert(ahead(keys, order[a], order[b]));
        }
    }
    lemma_fits(before, others);
    assert(r[i].id == all[at].id);
}

/// The score of a memory is not below what any one of its places adds.
pub proof fn law_score_counts_every_place(entries: Seq<Placed>, at: int)
    requires
        0 <= at < entries.len(),
        forall|k: int| 0 <= k < entries.len() ==> (#[trigger] entries[k]).place + BEST_SHARE
            <= EXACT_LIMIT,
    ensures
        fused(entries, entries[at].candidate.id) matches Some(s) && s.positive() && s.bits >= share(
            entries[at].place,
        ).bits,
    decreases entries.len(),
{
    let front = entries.drop_last();
    let last = entries.last();
    let id = entries[at].candidate.id;
    assert(entries[entries.len() - 1] == last);
    law_better_place_adds_no_less(last.place, last.place);
    if at < front.len() {
        assert(front[at] == entries[at]);
        law_score_counts_every_place(front, at);
    }
    if last.candidate.id == id {
        match fused(front, id) {
            Some(s) => {
                if at == front.len() {
                    lemma_some_entry(front, id);
                    let k = choose|k: int|
                        0 <= k < front.len() && (#[trigger] front[k]).candidate.id == id;
                    law_score_counts_every_place(front, k);
                }
                law_sum_not_below(s, share(last.place));
            },
            None => {},
        }
    }
}

/// What has a score has an entry.
proof fn lemma_some_entry(entries: Seq<Placed>, id: u128)
    requires
        fused(entries, id) is Some,
    ensures
        exists|k: int| 0 <= k < entries.len() && (#[trigger] entries[k]).candidate.id == id,
    decreases entries.len(),
{
    if entries.last().candidate.id == id {
        assert(entries[entries.len() - 1].candidate.id == id);
    } else {
        let front = entries.drop_last();
        lemma_some_entry(front, id);
        let k = choose|k: int| 0 <= k < front.len() && (#[trigger] front[k]).candidate.id == id;
        assert(entries[k].candidate.id == id);
    }
}

} // verus!
