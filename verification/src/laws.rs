//! Laws of the synchronization engine, stated over the spec-level
//! pipeline and proved once and for all.

use vstd::prelude::*;

use crate::align::{
    align_pair, dist, frib_ahead_match, get_ahead_match, lemma_align_pair_in_range, search_bound,
    search_from, start_aligned, window_score, Alignment,
};
use crate::delta::deltas_of;
use crate::engine::{sync_alignment, sync_anomaly_seq, sync_pair_seq, sync_skip_count};
use crate::plan::{
    lemma_walk_anomalies_bounded, lemma_walk_matched, lemma_walk_monotone, matched_len,
    step_jitter, walk_anomalies, walk_pairs, walk_skips, ANOMALY_THRESHOLD, SKIP_THRESHOLD,
};

verus! {

/// Identity: two identical timestamp series of length `n` synchronize to
/// the plan `[(0,0), (1,1), ..., (n-1,n-1)]` with no skip and no anomaly.
pub proof fn lemma_identity(ts: Seq<u64>)
    ensures
        sync_pair_seq(ts, ts) =~= Seq::new(ts.len(), |j: int| (j, j)),
        sync_skip_count(ts, ts) == 0,
        sync_anomaly_seq(ts, ts) =~= Seq::<(int, int)>::empty(),
        sync_alignment(ts, ts) == Alignment::AlignedAtStart,
{
    if ts.len() == 0 {
        assert(sync_pair_seq(ts, ts) =~= Seq::new(ts.len(), |j: int| (j, j)));
    } else {
        let g = deltas_of(ts);
        assert(start_aligned(g, g));
        assert(align_pair(g, g) == (0int, 0int));
        lemma_walk_matched(g, g, 0, 0, 1, 0);
        assert(matched_len(g, g, 0, 0, 1, 0) == g.len() - 1);
        assert(sync_pair_seq(ts, ts) =~= seq![(0int, 0int)] + walk_pairs(g, g, 0, 0, 1, 0));
        assert(sync_pair_seq(ts, ts) =~= Seq::new(ts.len(), |j: int| (j, j)));
    }
}

/// Walks from candidate `(0, o)` to the match at `(0, shift)` when no
/// candidate of the first row before `shift` matches.
proof fn lemma_search_row_zero(g: Seq<int>, f: Seq<int>, shift: int, o: int)
    requires
        0 <= o <= shift,
        shift < search_bound(g, f),
        forall|o2: int|
            #![trigger get_ahead_match(g, f, 0, o2)]
            #![trigger frib_ahead_match(g, f, 0, o2)]
            o <= o2 < shift ==> !get_ahead_match(g, f, 0, o2) && !frib_ahead_match(g, f, 0, o2),
        !get_ahead_match(g, f, 0, shift),
        frib_ahead_match(g, f, 0, shift),
    ensures
        search_from(g, f, 0, o) == Some((0int, shift)),
    decreases shift - o,
{
    if o == shift {
    } else {
        assert(!get_ahead_match(g, f, 0, o) && !frib_ahead_match(g, f, 0, o));
        lemma_search_row_zero(g, f, shift, o + 1);
    }
}

/// Pure offset recovery: when the FRIB difference series equals the GET
/// one delayed by a fixed `shift`, the streams do not start aligned, and
/// no candidate of the first search row before `shift` matches either
/// hypothesis (nor the GET-ahead hypothesis at `shift` itself), the
/// locator recovers exactly `(get_first, frib_first) == (0, shift)`.
pub proof fn lemma_pure_offset_recovery(g: Seq<int>, f: Seq<int>, shift: int)
    requires
        1 <= shift < search_bound(g, f),
        4 < g.len(),
        4 + shift < f.len(),
        !start_aligned(g, f),
        forall|j: int|
            1 <= j && j < g.len() && j + shift < f.len() ==> #[trigger] f[j + shift] == g[j],
        forall|o2: int|
            #![trigger get_ahead_match(g, f, 0, o2)]
            #![trigger frib_ahead_match(g, f, 0, o2)]
            0 <= o2 < shift ==> !get_ahead_match(g, f, 0, o2) && !frib_ahead_match(g, f, 0, o2),
        !get_ahead_match(g, f, 0, shift),
    ensures
        search_from(g, f, 0, 0) == Some((0int, shift)),
        align_pair(g, f) == (0int, shift),
{
    assert(f[1 + shift] == g[1]);
    assert(f[2 + shift] == g[2]);
    assert(f[3 + shift] == g[3]);
    assert(f[4 + shift] == g[4]);
    assert(window_score(f, g, 0, shift) == 0);
    assert(frib_ahead_match(g, f, 0, shift));
    lemma_search_row_zero(g, f, shift, 0);
}

/// The walk over a GET difference series and the same series with one
/// extra element spliced in at position `k` (spiking the jitter there
/// above `SKIP_THRESHOLD`): every step before `k` pairs like with like,
/// the step at `k` skips once, and every later step pairs at shift one.
proof fn lemma_walk_insert(g: Seq<int>, f: Seq<int>, k: int, i: int)
    requires
        f.len() == g.len() + 1,
        1 <= i <= k <= g.len() - 1,
        forall|j: int| i <= j < k ==> #[trigger] f[j] == g[j],
        g[k] - f[k] > SKIP_THRESHOLD as int,
        forall|j: int| k + 2 <= j <= g.len() ==> #[trigger] f[j] == g[j - 1],
    ensures
        walk_pairs(g, f, 0, 0, i, 0) =~= Seq::new(
            (g.len() - i) as nat,
            |m: int| (i + m, if i + m < k { i + m } else { i + m + 1 }),
        ),
        walk_skips(g, f, 0, 0, i, 0) == 1,
        walk_anomalies(g, f, 0, 0, i, 0) =~= Seq::<(int, int)>::empty(),
    decreases k - i,
{
    if i == k {
        assert(step_jitter(g, f, 0, 0, k, 0) == g[k] - f[k]);
        assert forall|j: int| k + 1 <= j && j + 0 < g.len() && j + 0 + 1 < f.len() implies #[trigger] g[j
            + 0] == f[j + 0 + 1] by {
            assert(f[j + 1] == g[j]);
        }
        lemma_walk_matched(g, f, 0, 0, k + 1, 1);
        assert(matched_len(g, f, 0, 0, k + 1, 1) == g.len() - k - 1);
        assert(walk_pairs(g, f, 0, 0, k, 0) =~= seq![(k, k + 1)] + walk_pairs(g, f, 0, 0, k + 1, 1));
        assert(walk_pairs(g, f, 0, 0, i, 0) =~= Seq::new(
            (g.len() - i) as nat,
            |m: int| (i + m, if i + m < k { i + m } else { i + m + 1 }),
        ));
    } else {
        assert(f[i] == g[i]);
        assert(step_jitter(g, f, 0, 0, i, 0) == 0);
        lemma_walk_insert(g, f, k, i + 1);
        assert(walk_pairs(g, f, 0, 0, i, 0) =~= seq![(i, i)] + walk_pairs(g, f, 0, 0, i + 1, 0));
        assert(walk_pairs(g, f, 0, 0, i, 0) =~= Seq::new(
            (g.len() - i) as nat,
            |m: int| (i + m, if i + m < k { i + m } else { i + m + 1 }),
        ));
    }
}

/// Single FRIB miss: splicing into the FRIB series at position `k` one
/// extra event that GET missed (more than `SKIP_THRESHOLD` ticks before
/// the GET event it precedes) makes the engine skip exactly once at step `k`: the GET
/// coordinates stay contiguous from 0, the FRIB coordinate jumps over
/// the spliced event, the skip count is exactly 1, and no anomaly is
/// reported.
pub proof fn lemma_single_frib_miss(gts: Seq<u64>, x: u64, k: int)
    requires
        3 <= gts.len(),
        2 <= k <= gts.len() - 1,
        gts[k] as int - x as int > SKIP_THRESHOLD as int,
    ensures
        ({
            let fts = gts.insert(k, x);
            &&& sync_pair_seq(gts, fts) =~= Seq::new(
                gts.len(),
                |j: int| (j, if j < k { j } else { j + 1 }),
            )
            &&& sync_skip_count(gts, fts) == 1
            &&& sync_anomaly_seq(gts, fts) =~= Seq::<(int, int)>::empty()
            &&& sync_alignment(gts, fts) == Alignment::AlignedAtStart
        }),
{
    let fts = gts.insert(k, x);
    let g = deltas_of(gts);
    let f = deltas_of(fts);
    let n = gts.len() as int;
    assert(f.len() == n + 1);
    assert forall|j: int| 1 <= j < k implies #[trigger] f[j] == g[j] by {
        assert(fts[j] == gts[j]);
        assert(fts[j - 1] == gts[j - 1]);
    }
    assert(fts[k] == x);
    assert(fts[k - 1] == gts[k - 1]);
    assert(f[k] == x - gts[k - 1]);
    assert(g[k] - f[k] == gts[k] - x);
    assert forall|j: int| k + 2 <= j <= n implies #[trigger] f[j] == g[j - 1] by {
        assert(fts[j] == gts[j - 1]);
        assert(fts[j - 1] == gts[j - 2]);
    }
    assert(f[1] == g[1]);
    assert(dist(g[1], f[1]) == 0);
    assert(start_aligned(g, f));
    assert(align_pair(g, f) == (0int, 0int));
    lemma_walk_insert(g, f, k, 1);
    assert(sync_pair_seq(gts, fts) =~= seq![(0int, 0int)] + walk_pairs(g, f, 0, 0, 1, 0));
    assert(sync_pair_seq(gts, fts) =~= Seq::new(
        gts.len(),
        |j: int| (j, if j < k { j } else { j + 1 }),
    ));
}

/// Monotonicity: in every produced plan the GET coordinate starts inside
/// the GET series and increases by exactly one per step, and the FRIB
/// coordinate stays inside the FRIB series and increases by one or (over
/// a skip) two per step; the plan is never longer than either series.
pub proof fn lemma_plan_monotone(gts: Seq<u64>, fts: Seq<u64>)
    ensures
        ({
            let p = sync_pair_seq(gts, fts);
            &&& forall|m: int| 1 <= m < p.len() ==> (#[trigger] p[m]).0 == p[m - 1].0 + 1
            &&& forall|m: int|
                1 <= m < p.len() ==> p[m - 1].1 + 1 <= (#[trigger] p[m]).1 <= p[m - 1].1 + 2
            &&& forall|m: int|
                0 <= m < p.len() ==> 0 <= (#[trigger] p[m]).0 < gts.len() && 0 <= p[m].1
                    < fts.len()
            &&& p.len() <= gts.len()
            &&& p.len() <= fts.len()
        }),
{
    let p = sync_pair_seq(gts, fts);
    if gts.len() == 0 || fts.len() == 0 {
    } else {
        let g = deltas_of(gts);
        let f = deltas_of(fts);
        lemma_align_pair_in_range(g, f);
        let ap = align_pair(g, f);
        lemma_walk_monotone(g, f, ap.0, ap.1, 1, 0);
        let w = walk_pairs(g, f, ap.0, ap.1, 1, 0);
        assert(p =~= seq![ap] + w);
        assert(forall|m: int| 1 <= m < p.len() ==> #[trigger] p[m] == w[m - 1]);
        if w.len() > 0 {
            assert(w[w.len() - 1].0 == 1 + ap.0 + (w.len() - 1));
            assert(w[w.len() - 1].0 < g.len());
            assert(w[w.len() - 1].1 >= 1 + ap.1 + (w.len() - 1));
            assert(w[w.len() - 1].1 < f.len());
        }
    }
}

/// Bounded jitter: every reported anomaly carries a jitter strictly
/// between `ANOMALY_THRESHOLD` (exclusive) and `SKIP_THRESHOLD`
/// (inclusive), and its GET index is the GET coordinate of exactly the
/// plan entry at the matching position: reporting an anomaly never
/// alters the emitted indices.
pub proof fn lemma_anomalies_reported(gts: Seq<u64>, fts: Seq<u64>)
    ensures
        ({
            let a = sync_anomaly_seq(gts, fts);
            let p = sync_pair_seq(gts, fts);
            &&& forall|m: int|
                0 <= m < a.len() ==> (#[trigger] a[m]).1 > ANOMALY_THRESHOLD as int && a[m].1
                    <= SKIP_THRESHOLD as int
            &&& forall|m: int|
                0 <= m < a.len() ==> 1 <= (#[trigger] a[m]).0 - p[0].0 < p.len() && p[a[m].0
                    - p[0].0].0 == a[m].0
        }),
{
    let a = sync_anomaly_seq(gts, fts);
    let p = sync_pair_seq(gts, fts);
    if gts.len() == 0 || fts.len() == 0 {
    } else {
        let g = deltas_of(gts);
        let f = deltas_of(fts);
        lemma_align_pair_in_range(g, f);
        let ap = align_pair(g, f);
        lemma_walk_anomalies_bounded(g, f, ap.0, ap.1, 1, 0);
        let w = walk_pairs(g, f, ap.0, ap.1, 1, 0);
        let wa = walk_anomalies(g, f, ap.0, ap.1, 1, 0);
        assert(p =~= seq![ap] + w);
        assert(a == wa);
        assert forall|m: int| 0 <= m < a.len() implies 1 <= (#[trigger] a[m]).0 - p[0].0 < p.len()
            && p[a[m].0 - p[0].0].0 == a[m].0 by {
            assert(0 <= wa[m].0 - ap.0 - 1 < w.len());
            assert(w[wa[m].0 - ap.0 - 1].0 == wa[m].0);
            assert(p[a[m].0 - p[0].0] == w[a[m].0 - ap.0 - 1]);
        }
    }
}

} // verus!
