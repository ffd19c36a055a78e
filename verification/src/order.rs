//! Ranking by score: the highest first, ties by a number.

use crate::score::Score;
use vstd::prelude::*;

verus! {

/// Whether entry `a` comes before entry `b`: its score is higher in the total order of doubles,
/// or it is the same and its number is lower.
pub open spec fn ahead(keys: Seq<(Score, u128)>, a: usize, b: usize) -> bool {
    let (x, y) = (keys[a as int], keys[b as int]);
    x.0.total_key() > y.0.total_key() || (x.0.total_key() == y.0.total_key() && x.1 < y.1)
}

/// Whether no two entries have the same number.
pub open spec fn distinct_ties(keys: Seq<(Score, u128)>) -> bool {
    forall|i: int, j: int|
        0 <= i < keys.len() && 0 <= j < keys.len() && i != j ==> (#[trigger] keys[i]).1
            != (#[trigger] keys[j]).1
}

/// Whether `p` holds exactly the first `m` positions, each before those it is ahead of.
pub open spec fn ranks(keys: Seq<(Score, u128)>, m: int, p: Seq<usize>) -> bool {
    &&& p.len() == m
    &&& forall|x: usize| #[trigger] p.contains(x) <==> x < m
    &&& forall|i: int, j: int| 0 <= i < j < p.len() ==> #[trigger] ahead(keys, p[i], p[j])
}

/// The positions of all entries, best first.
pub open spec fn ranking(keys: Seq<(Score, u128)>) -> Seq<usize> {
    choose|p: Seq<usize>| ranks(keys, keys.len() as int, p)
}

/// There is only one order of the entries.
pub proof fn lemma_ranks_unique(
    keys: Seq<(Score, u128)>,
    m: int,
    p: Seq<usize>,
    q: Seq<usize>,
)
    requires
        ranks(keys, m, p),
        ranks(keys, m, q),
    ensures
        p == q,
{
    assert forall|i: int| 0 <= i < m implies p[i] == q[i] by {
        lemma_same_at(keys, m, p, q, i);
    }
    assert(p =~= q);
}

proof fn lemma_same_at(
    keys: Seq<(Score, u128)>,
    m: int,
    p: Seq<usize>,
    q: Seq<usize>,
    i: int,
)
    requires
        ranks(keys, m, p),
        ranks(keys, m, q),
        0 <= i < m,
    ensures
        forall|j: int| 0 <= j <= i ==> p[j] == q[j],
    decreases i,
{
    if i > 0 {
        lemma_same_at(keys, m, p, q, i - 1);
    }
    if p[i] != q[i] {
        assert(p.contains(p[i]));
        assert(q.contains(q[i]));
        assert(q.contains(p[i]));
        assert(p.contains(q[i]));
        let a = choose|a: int| 0 <= a < q.len() && q[a] == p[i];
        let b = choose|b: int| 0 <= b < p.len() && p[b] == q[i];
        if a < i {
            assert(p[a] == q[a]);
            assert(ahead(keys, p[a], p[i]));
        }
        if b < i {
            assert(p[b] == q[b]);
            assert(ahead(keys, q[b], q[i]));
        }
        assert(ahead(keys, q[i], q[a]));
        assert(ahead(keys, p[i], p[b]));
    }
}

/// The positions of all entries, best first.
pub fn rank(keys: &Vec<(Score, u128)>) -> (r: Vec<usize>)
    requires
        distinct_ties(keys@),
    ensures
        ranks(keys@, keys@.len() as int, r@),
        r@ == ranking(keys@),
{
    let mut out: Vec<usize> = Vec::new();
    let mut i: usize = 0;
    while i < keys.len()
        invariant
            i <= keys@.len(),
            distinct_ties(keys@),
            ranks(keys@, i as int, out@),
        decreases keys@.len() - i,
    {
        assert forall|k: int| 0 <= k < out@.len() implies #[trigger] out@[k] < i by {
            assert(out@.contains(out@[k]));
        }
        let mut at: usize = 0;
        while at < out.len() && is_ahead(keys, out[at], i)
            invariant
                at <= out@.len(),
                i < keys@.len(),
                ranks(keys@, i as int, out@),
                forall|k: int| 0 <= k < out@.len() ==> #[trigger] out@[k] < i,
                forall|k: int| 0 <= k < at ==> ahead(keys@, #[trigger] out@[k], i),
            decreases out@.len() - at,
        {
            at = at + 1;
        }
        let ghost before = out@;
        out.insert(at, i);
        proof {
            assert(forall|k: int| 0 <= k < before.len() ==> before.contains(#[trigger] before[k]));
            if at < before.len() {
                assert(before[at as int] < i);
                assert(keys@[before[at as int] as int].1 != keys@[i as int].1);
                assert(ahead(keys@, i, before[at as int]));
                assert forall|k: int| at <= k < before.len() implies ahead(
                    keys@,
                    i,
                    #[trigger] before[k],
                ) by {
                    if k > at {
                        assert(ahead(keys@, before[at as int], before[k]));
                    }
                }
            }
            assert forall|x: usize| #[trigger] out@.contains(x) <==> x < i + 1 by {
                if out@.contains(x) {
                    let k = choose|k: int| 0 <= k < out@.len() && out@[k] == x;
                    if k < at {
                        assert(before[k] == x);
                    } else if k > at {
                        assert(before[k - 1] == x);
                    }
                }
                if x == i {
                    assert(out@[at as int] == x);
                } else if x < i {
                    assert(before.contains(x));
                    let k = choose|k: int| 0 <= k < before.len() && before[k] == x;
                    if k < at {
                        assert(out@[k] == x);
                    } else {
                        assert(out@[k + 1] == x);
                    }
                }
            }
            assert forall|a: int, b: int| 0 <= a < b < out@.len() implies #[trigger] ahead(
                keys@,
                out@[a],
                out@[b],
            ) by {
                let c = if a < at {
                    a
                } else {
                    a - 1
                };
                let d = if b < at {
                    b
                } else {
                    b - 1
                };
                if a == at {
                    assert(out@[b] == before[b - 1]);
                } else if b == at {
                    assert(out@[a] == before[a]);
                } else {
                    assert(out@[a] == before[c]);
                    assert(out@[b] == before[d]);
                    assert(ahead(keys@, before[c], before[d]));
                }
            }
        }
        i = i + 1;
    }
    proof {
        assert(ranks(keys@, keys@.len() as int, out@));
        lemma_ranks_unique(keys@, keys@.len() as int, out@, ranking(keys@));
    }
    out
}

/// Whether entry `a` comes before entry `b`.
fn is_ahead(keys: &Vec<(Score, u128)>, a: usize, b: usize) -> (r: bool)
    requires
        a < keys@.len(),
        b < keys@.len(),
    ensures
        r == ahead(keys@, a, b),
{
    let x = keys[a];
    let y = keys[b];
    x.0.above_in_order(y.0) || (!y.0.above_in_order(x.0) && x.1 < y.1)
}

} // verus!
