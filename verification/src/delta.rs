//! First-difference ("inter-event interval") sequences of a timestamp
//! series.  Element 0 is a sentinel 0; element `i > 0` is
//! `series[i] - series[i-1]`.

use vstd::prelude::*;

verus! {

/// Largest timestamp value the engine accepts.  Keeping every raw
/// timestamp at or below this bound guarantees that every difference of
/// two timestamps, and every four-term sum of absolute differences of
/// such differences, fits in an `i64`.
pub const MAX_TICK: u64 = 0x0800_0000_0000_0000;

/// Every timestamp of the series is at most `MAX_TICK`.
pub open spec fn bounded_series(ts: Seq<u64>) -> bool {
    forall|i: int| 0 <= i < ts.len() ==> ts[i] <= MAX_TICK
}

/// Every element of a difference series has magnitude at most `MAX_TICK`.
pub open spec fn bounded_deltas(d: Seq<int>) -> bool {
    forall|i: int| 0 <= i < d.len() ==> -(MAX_TICK as int) <= #[trigger] d[i] <= MAX_TICK as int
}

/// The first-difference sequence of a timestamp series: same length as
/// its source, a sentinel 0 in front, and `ts[i] - ts[i-1]` elsewhere.
pub open spec fn deltas_of(ts: Seq<u64>) -> Seq<int> {
    Seq::new(ts.len(), |i: int| if i == 0 { 0 } else { ts[i] - ts[i - 1] })
}

/// A view of a machine-integer sequence as a mathematical one.
pub open spec fn seq_as_ints(d: Seq<i64>) -> Seq<int> {
    d.map_values(|x: i64| x as int)
}

pub proof fn lemma_deltas_bounded(ts: Seq<u64>)
    requires
        bounded_series(ts),
    ensures
        bounded_deltas(deltas_of(ts)),
{
}

/// Builds the first-difference series of a timestamp series.  An empty
/// input yields an empty output; a single-element input yields `[0]`.
pub fn delta_series(ts: &Vec<u64>) -> (d: Vec<i64>)
    requires
        bounded_series(ts@),
    ensures
        seq_as_ints(d@) == deltas_of(ts@),
        d@.len() == ts@.len(),
{
    let n = ts.len();
    let mut d: Vec<i64> = Vec::new();
    if n == 0 {
        proof {
            assert(seq_as_ints(d@) =~= deltas_of(ts@));
        }
        return d;
    }
    d.push(0);
    let mut i: usize = 1;
    #[verifier::loop_isolation(false)]
    while i < n
        invariant
            1 <= i <= n,
            d@.len() == i,
            forall|j: int| 0 <= j < i ==> d@[j] as int == deltas_of(ts@)[j],
        decreases n - i,
    {
        let diff: i64 = ts[i] as i64 - ts[i - 1] as i64;
        d.push(diff);
        i += 1;
    }
    proof {
        assert(seq_as_ints(d@) =~= deltas_of(ts@));
    }
    d
}

} // verus!
