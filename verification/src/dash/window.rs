//! The recent latencies of one stage.

use std::collections::VecDeque;
use vstd::prelude::*;
#[allow(unused_imports)]
use vstd::relations::sorted_by;
#[allow(unused_imports)]
use vstd::seq_lib::lemma_sorted_unique;

verus! {

/// How many latencies are kept.
pub const SPARK_WIDTH: usize = 120;

/// The recent latencies of a stage, and how often it failed.
#[derive(Debug)]
pub struct Stage {
    pub samples: VecDeque<u64>,
    pub fails: u64,
}

/// What is known of a stage.
pub struct StageV {
    pub samples: Seq<u64>,
    pub fails: u64,
}

/// The last `max` of `s`.
pub open spec fn tail<A>(s: Seq<A>, max: int) -> Seq<A> {
    if s.len() <= max {
        s
    } else {
        s.skip(s.len() - max)
    }
}

/// Samples are compared by size.
pub open spec fn ms_order() -> spec_fn(u64, u64) -> bool {
    |a: u64, b: u64| a <= b
}

/// The sample in the middle, the upper one of two.
pub open spec fn median(s: Seq<u64>) -> u64 {
    s.sort_by(ms_order())[s.len() as int / 2]
}

/// The longest of the samples.
pub open spec fn longest(s: Seq<u64>) -> u64
    decreases s.len(),
{
    if s.len() == 0 {
        0
    } else if longest(s.drop_last()) >= s.last() {
        longest(s.drop_last())
    } else {
        s.last()
    }
}

impl StageV {
    /// The latest latency.
    pub open spec fn latest(self) -> u64 {
        if self.samples.len() == 0 {
            0
        } else {
            self.samples.last()
        }
    }

    /// The latency in the middle.
    pub open spec fn middle(self) -> u64 {
        if self.samples.len() == 0 {
            0
        } else {
            median(self.samples)
        }
    }

    /// A stage that was not run yet.
    pub open spec fn fresh() -> StageV {
        StageV { samples: Seq::empty(), fails: 0 }
    }

    /// The stage after one more run.
    pub open spec fn pushed(self, ms: u64, ok: bool) -> StageV {
        StageV {
            samples: tail(self.samples.push(ms), SPARK_WIDTH as int),
            fails: if ok {
                self.fails
            } else {
                (self.fails + 1) as u64
            },
        }
    }
}

impl Stage {
    pub open spec fn view(&self) -> StageV {
        StageV { samples: self.samples@, fails: self.fails }
    }

    pub fn new() -> (r: Stage)
        ensures
            r@ == StageV::fresh(),
    {
        Stage { samples: VecDeque::new(), fails: 0 }
    }

    /// Takes one more run in. Only the latest are kept.
    pub fn push(&mut self, ms: u64, ok: bool)
        requires
            old(self).samples@.len() <= SPARK_WIDTH,
            ok || old(self).fails < u64::MAX,
        ensures
            final(self)@ == old(self)@.pushed(ms, ok),
            final(self).samples@.len() <= SPARK_WIDTH,
    {
        self.samples.push_back(ms);
        if self.samples.len() > SPARK_WIDTH {
            let ghost all = self.samples@;
            let _ = self.samples.pop_front();
            assert(self.samples@ =~= all.skip(1));
        }
        if !ok {
            self.fails = self.fails + 1;
        }
    }

    /// The latest latency.
    pub fn last(&self) -> (r: u64)
        ensures
            r == self@.latest(),
    {
        let n: usize = self.samples.len();
        if n == 0 {
            0
        } else {
            self.samples[n - 1]
        }
    }

    /// The longest latency.
    pub fn max(&self) -> (r: u64)
        ensures
            r == longest(self.samples@),
    {
        let mut best: u64 = 0;
        let mut i: usize = 0;
        while i < self.samples.len()
            invariant
                i <= self.samples@.len(),
                best == longest(self.samples@.take(i as int)),
            decreases self.samples@.len() - i,
        {
            assert(self.samples@.take(i + 1).drop_last() =~= self.samples@.take(i as int));
            if self.samples[i] > best {
                best = self.samples[i];
            }
            i = i + 1;
        }
        assert(self.samples@.take(i as int) =~= self.samples@);
        best
    }

    /// The latency in the middle.
    pub fn p50(&self) -> (r: u64)
        ensures
            r == self@.middle(),
    {
        if self.samples.len() == 0 {
            return 0;
        }
        let v = sorted_samples(&self.samples);
        proof {
            let s = self.samples@;
            s.lemma_sort_by_ensures(ms_order());
            lemma_sorted_unique(v@, s.sort_by(ms_order()), ms_order());
            v@.to_multiset_ensures();
            s.to_multiset_ensures();
        }
        v[v.len() / 2]
    }
}

/// The samples by size.
fn sorted_samples(samples: &VecDeque<u64>) -> (r: Vec<u64>)
    ensures
        sorted_by(r@, ms_order()),
        r@.to_multiset() == samples@.to_multiset(),
        r@.len() == samples@.len(),
{
    let mut out: Vec<u64> = Vec::new();
    let mut i: usize = 0;
    assert(samples@.take(0) =~= out@);
    while i < samples.len()
        invariant
            i <= samples@.len(),
            out@.len() == i,
            sorted_by(out@, ms_order()),
            out@.to_multiset() == samples@.take(i as int).to_multiset(),
        decreases samples@.len() - i,
    {
        let x: u64 = samples[i];
        let mut at: usize = 0;
        while at < out.len() && out[at] <= x
            invariant
                at <= out@.len(),
                forall|k: int| 0 <= k < at ==> #[trigger] out@[k] <= x,
            decreases out@.len() - at,
        {
            at = at + 1;
        }
        let ghost before = out@;
        out.insert(at, x);
        proof {
            before.to_multiset_ensures();
            samples@.take(i as int).to_multiset_ensures();
            assert(samples@.take(i + 1) =~= samples@.take(i as int).push(x));
            lemma_insert_multiset(before, at as int, x);
            assert forall|a: int, b: int| 0 <= a < b < out@.len() implies #[trigger] (ms_order())(
                out@[a],
                out@[b],
            ) by {
                let c = if a < at {
                    a
                } else {
                    a - 1
                };
                let d = if b < at {
                    b
                } else {
                    b - 1
                };
                if a == at {
                    if at < before.len() && b - 1 > at {
                        assert((ms_order())(before[at as int], before[b - 1]));
                    }
                } else if b == at {
                    assert(before[a] <= x);
                } else {
                    assert((ms_order())(before[c], before[d]));
                }
            }
        }
        i = i + 1;
    }
    assert(samples@.take(i as int) =~= samples@);
    out
}

/// No sample is longer than the longest, which is one of them.
pub proof fn law_longest_is_longest(s: Seq<u64>, k: int)
    requires
        0 <= k < s.len(),
    ensures
        s[k] <= longest(s),
        s.contains(longest(s)),
    decreases s.len(),
{
    let front = s.drop_last();
    assert(s.contains(s[s.len() - 1]));
    assert(front.len() == 0 ==> longest(front) == 0);
    if front.len() > 0 {
        law_longest_is_longest(front, if k < front.len() {
            k
        } else {
            0
        });
        let j = choose|j: int| 0 <= j < front.len() && front[j] == longest(front);
        assert(s[j] == longest(front));
    }
}

/// Putting an element anywhere adds it to the multiset.
proof fn lemma_insert_multiset(s: Seq<u64>, at: int, x: u64)
    requires
        0 <= at <= s.len(),
    ensures
        s.insert(at, x).to_multiset() == s.to_multiset().insert(x),
{
    s.to_multiset_ensures();
    s.insert(at, x).to_multiset_ensures();
    assert(s.insert(at, x).remove(at) =~= s);
    assert(s.insert(at, x).to_multiset().remove(x) =~= s.to_multiset());
    assert(s.insert(at, x)[at] == x);
    assert(s.insert(at, x).contains(x));
    assert(s.insert(at, x).to_multiset().count(x) > 0);
    assert(s.insert(at, x).to_multiset() =~= s.to_multiset().insert(x));
}

} // verus!
