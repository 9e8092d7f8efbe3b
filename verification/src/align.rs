//! Locating the initial matching index pair of the two channels.
//!
//! If the first real inter-event intervals of the two difference series
//! agree within `START_ALIGN_TOLERANCE` ticks, the channels are taken as
//! aligned at `(0, 0)`.  Otherwise a bounded pattern search runs over
//! candidate pairs `(start, offset)`: for each candidate it sums, over a
//! window of four consecutive deltas, the absolute difference between
//! one channel shifted by `offset` and the other, under both the
//! GET-ahead and the FRIB-ahead hypothesis, and accepts the first
//! candidate whose sum falls below `PATTERN_TOLERANCE`.  An exhausted
//! search is reported as `NotFound`, which callers treat as the
//! `(0, 0)` fallback.

use vstd::math::abs;
use vstd::prelude::*;

use crate::delta::{bounded_deltas, seq_as_ints, MAX_TICK};

verus! {

/// Two first intervals within this many ticks mean the streams start aligned.
pub const START_ALIGN_TOLERANCE: i64 = 100;

/// A window sum of absolute interval differences below this value is a match.
pub const PATTERN_TOLERANCE: i64 = 5;

/// Outcome of the alignment phase.  `NotFound` is deliberately distinct
/// from `AlignedAtStart`: both fall back to the index pair `(0, 0)`, but
/// only the former means the search space was exhausted.
#[derive(Debug, Clone, Copy, PartialEq, Eq, Structural)]
pub enum Alignment {
    /// The first real intervals of the two channels already agree.
    AlignedAtStart,
    /// The pattern search located a starting index for each channel.
    Found { get_first: usize, frib_first: usize },
    /// The pattern search exhausted its space without a match.
    NotFound,
}

/// Absolute distance between two mathematical integers.
pub open spec fn dist(x: int, y: int) -> int {
    abs(x - y) as int
}

/// The first real intervals agree within tolerance (vacuously true when
/// either series is too short to have a real interval).
pub open spec fn start_aligned(g: Seq<int>, f: Seq<int>) -> bool {
    g.len() < 2 || f.len() < 2 || dist(g[1], f[1]) <= START_ALIGN_TOLERANCE as int
}

/// Both `start` and `offset` candidates range below half the shorter
/// difference-series length.
pub open spec fn search_bound(g: Seq<int>, f: Seq<int>) -> int {
    if g.len() <= f.len() {
        g.len() as int / 2
    } else {
        f.len() as int / 2
    }
}

/// The comparison window of candidate `(s, o)` stays inside both series
/// when `a` is the shifted channel and `b` the unshifted one.
pub open spec fn window_in_bounds(a: Seq<int>, b: Seq<int>, s: int, o: int) -> bool {
    s + 4 + o < a.len() && s + 4 < b.len()
}

/// Sum over the window of the absolute difference between channel `a`
/// shifted by `o` and channel `b`.
pub open spec fn window_score(a: Seq<int>, b: Seq<int>, s: int, o: int) -> int {
    dist(a[s + 1 + o], b[s + 1]) + dist(a[s + 2 + o], b[s + 2]) + dist(a[s + 3 + o], b[s + 3])
        + dist(a[s + 4 + o], b[s + 4])
}

/// GET is ahead: GET shifted by `o` matches FRIB at candidate `(s, o)`.
pub open spec fn get_ahead_match(g: Seq<int>, f: Seq<int>, s: int, o: int) -> bool {
    window_in_bounds(g, f, s, o) && window_score(g, f, s, o) < PATTERN_TOLERANCE as int
}

/// FRIB is ahead: FRIB shifted by `o` matches GET at candidate `(s, o)`.
pub open spec fn frib_ahead_match(g: Seq<int>, f: Seq<int>, s: int, o: int) -> bool {
    window_in_bounds(f, g, s, o) && window_score(f, g, s, o) < PATTERN_TOLERANCE as int
}

/// The result of the pattern search from candidate `(s, o)` onwards, in
/// search order: `offset` advances innermost, `start` advances when
/// `offset` is exhausted, and at each candidate the GET-ahead hypothesis
/// is tried before the FRIB-ahead one.  A GET-ahead match at `(s, o)`
/// yields the pair `(s + o, s)`; a FRIB-ahead match yields `(s, s + o)`.
pub open spec fn search_from(g: Seq<int>, f: Seq<int>, s: int, o: int) -> Option<(int, int)>
    decreases search_bound(g, f) - s, search_bound(g, f) - o,
{
    if s < 0 || o < 0 || s >= search_bound(g, f) {
        None
    } else if o >= search_bound(g, f) {
        search_from(g, f, s + 1, 0)
    } else if get_ahead_match(g, f, s, o) {
        Some((s + o, s))
    } else if frib_ahead_match(g, f, s, o) {
        Some((s, s + o))
    } else {
        search_from(g, f, s, o + 1)
    }
}

/// The alignment outcome for a pair of difference series.
pub open spec fn alignment_of(g: Seq<int>, f: Seq<int>) -> Alignment {
    if start_aligned(g, f) {
        Alignment::AlignedAtStart
    } else {
        match search_from(g, f, 0, 0) {
            Some(p) => Alignment::Found { get_first: p.0 as usize, frib_first: p.1 as usize },
            None => Alignment::NotFound,
        }
    }
}

/// The starting index pair the walk uses: what the search found, or the
/// `(0, 0)` fallback.
pub open spec fn align_pair(g: Seq<int>, f: Seq<int>) -> (int, int) {
    if start_aligned(g, f) {
        (0, 0)
    } else {
        match search_from(g, f, 0, 0) {
            Some(p) => p,
            None => (0, 0),
        }
    }
}

/// A located pair points inside both series.
pub proof fn lemma_search_from_in_range(g: Seq<int>, f: Seq<int>, s: int, o: int)
    requires
        0 <= s,
        0 <= o,
        search_from(g, f, s, o) is Some,
    ensures
        0 <= search_from(g, f, s, o).unwrap().0 < g.len(),
        0 <= search_from(g, f, s, o).unwrap().1 < f.len(),
    decreases search_bound(g, f) - s, search_bound(g, f) - o,
{
    if s >= search_bound(g, f) {
    } else if o >= search_bound(g, f) {
        lemma_search_from_in_range(g, f, s + 1, 0);
    } else if get_ahead_match(g, f, s, o) {
    } else if frib_ahead_match(g, f, s, o) {
    } else {
        lemma_search_from_in_range(g, f, s, o + 1);
    }
}

/// The starting pair of the walk points inside both series.
pub proof fn lemma_align_pair_in_range(g: Seq<int>, f: Seq<int>)
    requires
        g.len() >= 1,
        f.len() >= 1,
    ensures
        0 <= align_pair(g, f).0 < g.len(),
        0 <= align_pair(g, f).1 < f.len(),
{
    if !start_aligned(g, f) && search_from(g, f, 0, 0) is Some {
        lemma_search_from_in_range(g, f, 0, 0);
    }
}

/// Absolute difference of two bounded `i64` values.
fn abs_diff(a: i64, b: i64) -> (r: i64)
    requires
        -(MAX_TICK as int) <= a as int <= MAX_TICK as int,
        -(MAX_TICK as int) <= b as int <= MAX_TICK as int,
    ensures
        r as int == dist(a as int, b as int),
{
    if a >= b {
        a - b
    } else {
        b - a
    }
}

/// Decides whether the two difference series start aligned and, if not,
/// runs the bounded pattern search for the first matching candidate.
#[verifier::loop_isolation(false)]
pub fn locate_alignment(tsd_get: &Vec<i64>, tsd_frib: &Vec<i64>) -> (r: Alignment)
    requires
        bounded_deltas(seq_as_ints(tsd_get@)),
        bounded_deltas(seq_as_ints(tsd_frib@)),
    ensures
        r == alignment_of(seq_as_ints(tsd_get@), seq_as_ints(tsd_frib@)),
{
    let ghost g = seq_as_ints(tsd_get@);
    let ghost f = seq_as_ints(tsd_frib@);
    let ng = tsd_get.len();
    let nf = tsd_frib.len();
    if ng < 2 || nf < 2 {
        return Alignment::AlignedAtStart;
    }
    let first_gap = abs_diff(tsd_get[1], tsd_frib[1]);
    if first_gap <= START_ALIGN_TOLERANCE {
        return Alignment::AlignedAtStart;
    }
    assert(!start_aligned(g, f));
    let half = if ng <= nf {
        ng / 2
    } else {
        nf / 2
    };
    assert(half as int == search_bound(g, f));
    let mut start: usize = 0;
    while start < half
        invariant
            start <= half,
            search_from(g, f, start as int, 0) == search_from(g, f, 0, 0),
        decreases half - start,
    {
        let mut offset: usize = 0;
        while offset < half
            invariant
                offset <= half,
                search_from(g, f, start as int, offset as int) == search_from(g, f, 0, 0),
            decreases half - offset,
        {
            if start + 4 < ng && offset < ng - start - 4 && start + 4 < nf {
                let score = abs_diff(tsd_get[start + 1 + offset], tsd_frib[start + 1]) + abs_diff(
                    tsd_get[start + 2 + offset],
                    tsd_frib[start + 2],
                ) + abs_diff(tsd_get[start + 3 + offset], tsd_frib[start + 3]) + abs_diff(
                    tsd_get[start + 4 + offset],
                    tsd_frib[start + 4],
                );
                assert(score as int == window_score(g, f, start as int, offset as int));
                if score < PATTERN_TOLERANCE {
                    assert(get_ahead_match(g, f, start as int, offset as int));
                    return Alignment::Found { get_first: start + offset, frib_first: start };
                }
            }
            assert(!get_ahead_match(g, f, start as int, offset as int));
            if start + 4 < nf && offset < nf - start - 4 && start + 4 < ng {
                let score = abs_diff(tsd_frib[start + 1 + offset], tsd_get[start + 1]) + abs_diff(
                    tsd_frib[start + 2 + offset],
                    tsd_get[start + 2],
                ) + abs_diff(tsd_frib[start + 3 + offset], tsd_get[start + 3]) + abs_diff(
                    tsd_frib[start + 4 + offset],
                    tsd_get[start + 4],
                );
                assert(score as int == window_score(f, g, start as int, offset as int));
                if score < PATTERN_TOLERANCE {
                    assert(frib_ahead_match(g, f, start as int, offset as int));
                    return Alignment::Found { get_first: start, frib_first: start + offset };
                }
            }
            assert(!frib_ahead_match(g, f, start as int, offset as int));
            assert(search_from(g, f, start as int, offset as int) == search_from(
                g,
                f,
                start as int,
                offset as int + 1,
            ));
            offset += 1;
        }
        assert(search_from(g, f, start as int, offset as int) == search_from(
            g,
            f,
            start as int + 1,
            0,
        ));
        start += 1;
    }
    assert(search_from(g, f, start as int, 0) is None);
    Alignment::NotFound
}

} // verus!
