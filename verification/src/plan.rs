//! The greedy forward walk that produces the synchronized index plan.
//!
//! Starting from the located index pair, the walk compares the two
//! difference series step by step.  A step whose jitter (GET interval
//! minus FRIB interval) exceeds `SKIP_THRESHOLD` means FRIB produced an
//! event GET never saw: the FRIB index is advanced one extra position,
//! once for every such step, and never the reverse.  A jitter above
//! `ANOMALY_THRESHOLD` but within `SKIP_THRESHOLD` is recorded as a
//! diagnostic anomaly and leaves the indices unchanged.  The walk ends
//! as soon as either series runs out, including when advancing the FRIB
//! index would point past its end.

use vstd::prelude::*;

use crate::delta::{bounded_deltas, seq_as_ints};

verus! {

/// A jitter above this many ticks means FRIB slipped in an extra event.
pub const SKIP_THRESHOLD: i64 = 1000;

/// A jitter above this many ticks (but within `SKIP_THRESHOLD`) is
/// reported as an anomaly.
pub const ANOMALY_THRESHOLD: i64 = 5;

/// The synchronized index plan: matched `(get_index, frib_index)` pairs
/// in walk order, the total number of FRIB-side skips applied, and the
/// anomalies seen, each as `(get_index, jitter)`.
#[derive(Debug, Clone)]
pub struct SyncPlan {
    pub pairs: Vec<(usize, usize)>,
    pub skips: usize,
    pub anomalies: Vec<(usize, i64)>,
}

/// A view of index pairs as mathematical integers.
pub open spec fn pairs_as_ints(v: Seq<(usize, usize)>) -> Seq<(int, int)> {
    v.map_values(|p: (usize, usize)| (p.0 as int, p.1 as int))
}

/// A view of anomaly records as mathematical integers.
pub open spec fn anoms_as_ints(v: Seq<(usize, i64)>) -> Seq<(int, int)> {
    v.map_values(|p: (usize, i64)| (p.0 as int, p.1 as int))
}

/// The jitter the walk sees at step `i` with `off` skips applied so far.
pub open spec fn step_jitter(g: Seq<int>, f: Seq<int>, gf: int, ff: int, i: int, off: int) -> int {
    g[i + gf] - f[i + ff + off]
}

/// The pairs the walk emits from step `i` on, having applied `off`
/// skips so far.  The pair of a skipping step is emitted with the
/// freshly advanced FRIB index.
pub open spec fn walk_pairs(g: Seq<int>, f: Seq<int>, gf: int, ff: int, i: int, off: int) -> Seq<
    (int, int),
>
    decreases g.len() - gf - i,
{
    if i + gf >= g.len() || i + ff + off >= f.len() {
        Seq::empty()
    } else if step_jitter(g, f, gf, ff, i, off) > SKIP_THRESHOLD as int {
        if i + ff + off + 1 >= f.len() {
            Seq::empty()
        } else {
            seq![(i + gf, i + ff + off + 1)] + walk_pairs(g, f, gf, ff, i + 1, off + 1)
        }
    } else {
        seq![(i + gf, i + ff + off)] + walk_pairs(g, f, gf, ff, i + 1, off)
    }
}

/// The total number of skips the walk has applied when it ends, having
/// started at step `i` with `off` skips already applied.
pub open spec fn walk_skips(g: Seq<int>, f: Seq<int>, gf: int, ff: int, i: int, off: int) -> int
    decreases g.len() - gf - i,
{
    if i + gf >= g.len() || i + ff + off >= f.len() {
        off
    } else if step_jitter(g, f, gf, ff, i, off) > SKIP_THRESHOLD as int {
        if i + ff + off + 1 >= f.len() {
            off
        } else {
            walk_skips(g, f, gf, ff, i + 1, off + 1)
        }
    } else {
        walk_skips(g, f, gf, ff, i + 1, off)
    }
}

/// The anomalies the walk reports from step `i` on: one record
/// `(get_index, jitter)` for every step whose jitter lies strictly
/// between `ANOMALY_THRESHOLD` and `SKIP_THRESHOLD`.
pub open spec fn walk_anomalies(g: Seq<int>, f: Seq<int>, gf: int, ff: int, i: int, off: int) -> Seq<
    (int, int),
>
    decreases g.len() - gf - i,
{
    if i + gf >= g.len() || i + ff + off >= f.len() {
        Seq::empty()
    } else if step_jitter(g, f, gf, ff, i, off) > SKIP_THRESHOLD as int {
        if i + ff + off + 1 >= f.len() {
            Seq::empty()
        } else {
            walk_anomalies(g, f, gf, ff, i + 1, off + 1)
        }
    } else if step_jitter(g, f, gf, ff, i, off) > ANOMALY_THRESHOLD as int {
        seq![(i + gf, step_jitter(g, f, gf, ff, i, off))] + walk_anomalies(g, f, gf, ff, i + 1, off)
    } else {
        walk_anomalies(g, f, gf, ff, i + 1, off)
    }
}

/// The number of steps the walk still takes from step `i` when every
/// remaining comparison matches: the shorter side's remaining length.
pub open spec fn matched_len(g: Seq<int>, f: Seq<int>, gf: int, ff: int, i: int, off: int) -> int {
    let a = g.len() - gf - i;
    let b = f.len() - ff - off - i;
    if a <= 0 || b <= 0 {
        0
    } else if a <= b {
        a
    } else {
        b
    }
}

/// A walk over two series that agree pointwise at relative shift `off`
/// from step `i` on emits one plain pair per remaining step, applies no
/// further skip, and reports no anomaly.
pub proof fn lemma_walk_matched(g: Seq<int>, f: Seq<int>, gf: int, ff: int, i: int, off: int)
    requires
        1 <= i,
        0 <= gf,
        0 <= ff,
        0 <= off,
        forall|j: int|
            i <= j && j + gf < g.len() && j + ff + off < f.len() ==> #[trigger] g[j + gf] == f[j
                + ff + off],
    ensures
        walk_pairs(g, f, gf, ff, i, off) =~= Seq::new(
            matched_len(g, f, gf, ff, i, off) as nat,
            |m: int| (i + m + gf, i + m + ff + off),
        ),
        walk_skips(g, f, gf, ff, i, off) == off,
        walk_anomalies(g, f, gf, ff, i, off) =~= Seq::<(int, int)>::empty(),
    decreases g.len() - gf - i,
{
    if i + gf >= g.len() || i + ff + off >= f.len() {
        assert(matched_len(g, f, gf, ff, i, off) == 0);
    } else {
        assert(g[i + gf] == f[i + ff + off]);
        assert(step_jitter(g, f, gf, ff, i, off) == 0);
        lemma_walk_matched(g, f, gf, ff, i + 1, off);
        assert(matched_len(g, f, gf, ff, i + 1, off) == matched_len(g, f, gf, ff, i, off) - 1);
        assert(walk_pairs(g, f, gf, ff, i, off) =~= seq![(i + gf, i + ff + off)] + walk_pairs(
            g,
            f,
            gf,
            ff,
            i + 1,
            off,
        ));
        assert(walk_pairs(g, f, gf, ff, i, off) =~= Seq::new(
            matched_len(g, f, gf, ff, i, off) as nat,
            |m: int| (i + m + gf, i + m + ff + off),
        ));
    }
}

/// Shape of every emitted walk: the GET coordinate advances by exactly
/// one per step and stays inside the GET series; the FRIB coordinate
/// advances by one or (across a skip) two per step and stays inside the
/// FRIB series.
pub proof fn lemma_walk_monotone(g: Seq<int>, f: Seq<int>, gf: int, ff: int, i: int, off: int)
    requires
        1 <= i,
        0 <= gf,
        0 <= ff,
        0 <= off,
    ensures
        ({
            let w = walk_pairs(g, f, gf, ff, i, off);
            &&& forall|m: int| 0 <= m < w.len() ==> (#[trigger] w[m]).0 == i + gf + m
            &&& forall|m: int| 0 <= m < w.len() ==> 0 <= (#[trigger] w[m]).0 < g.len()
            &&& forall|m: int|
                0 <= m < w.len() ==> i + ff + off + m <= (#[trigger] w[m]).1 < f.len()
            &&& forall|m: int|
                1 <= m < w.len() ==> w[m - 1].1 + 1 <= (#[trigger] w[m]).1 <= w[m - 1].1 + 2
            &&& (w.len() > 0 ==> i + ff + off <= w[0].1 <= i + ff + off + 1)
        }),
    decreases g.len() - gf - i,
{
    let w = walk_pairs(g, f, gf, ff, i, off);
    if i + gf >= g.len() || i + ff + off >= f.len() {
    } else if step_jitter(g, f, gf, ff, i, off) > SKIP_THRESHOLD as int {
        if i + ff + off + 1 >= f.len() {
        } else {
            lemma_walk_monotone(g, f, gf, ff, i + 1, off + 1);
            let t = walk_pairs(g, f, gf, ff, i + 1, off + 1);
            assert(w =~= seq![(i + gf, i + ff + off + 1)] + t);
            assert(forall|m: int| 1 <= m < w.len() ==> w[m] == t[m - 1]);
        }
    } else {
        lemma_walk_monotone(g, f, gf, ff, i + 1, off);
        let t = walk_pairs(g, f, gf, ff, i + 1, off);
        assert(w =~= seq![(i + gf, i + ff + off)] + t);
        assert(forall|m: int| 1 <= m < w.len() ==> w[m] == t[m - 1]);
    }
}

/// Every anomaly the walk reports carries a jitter strictly above
/// `ANOMALY_THRESHOLD` and at most `SKIP_THRESHOLD`, and its GET index
/// is the GET coordinate of one of the emitted pairs: reporting an
/// anomaly never changes what is emitted.
pub proof fn lemma_walk_anomalies_bounded(
    g: Seq<int>,
    f: Seq<int>,
    gf: int,
    ff: int,
    i: int,
    off: int,
)
    requires
        1 <= i,
        0 <= gf,
        0 <= ff,
        0 <= off,
    ensures
        ({
            let a = walk_anomalies(g, f, gf, ff, i, off);
            let w = walk_pairs(g, f, gf, ff, i, off);
            &&& forall|m: int|
                0 <= m < a.len() ==> (#[trigger] a[m]).1 > ANOMALY_THRESHOLD as int && a[m].1
                    <= SKIP_THRESHOLD as int
            &&& forall|m: int|
                0 <= m < a.len() ==> 0 <= (#[trigger] a[m]).0 - gf - i < w.len() && w[a[m].0 - gf
                    - i].0 == a[m].0
        }),
    decreases g.len() - gf - i,
{
    let a = walk_anomalies(g, f, gf, ff, i, off);
    let w = walk_pairs(g, f, gf, ff, i, off);
    if i + gf >= g.len() || i + ff + off >= f.len() {
    } else if step_jitter(g, f, gf, ff, i, off) > SKIP_THRESHOLD as int {
        if i + ff + off + 1 >= f.len() {
        } else {
            lemma_walk_anomalies_bounded(g, f, gf, ff, i + 1, off + 1);
            let ta = walk_anomalies(g, f, gf, ff, i + 1, off + 1);
            let tw = walk_pairs(g, f, gf, ff, i + 1, off + 1);
            assert(w =~= seq![(i + gf, i + ff + off + 1)] + tw);
            assert forall|m: int| 0 <= m < a.len() implies 0 <= (#[trigger] a[m]).0 - gf - i
                < w.len() && w[a[m].0 - gf - i].0 == a[m].0 by {
                assert(a[m] == ta[m]);
                assert(0 <= ta[m].0 - gf - (i + 1) < tw.len());
                assert(w[a[m].0 - gf - i] == tw[a[m].0 - gf - i - 1]);
            }
        }
    } else {
        lemma_walk_anomalies_bounded(g, f, gf, ff, i + 1, off);
        let ta = walk_anomalies(g, f, gf, ff, i + 1, off);
        let tw = walk_pairs(g, f, gf, ff, i + 1, off);
        assert(w =~= seq![(i + gf, i + ff + off)] + tw);
        if step_jitter(g, f, gf, ff, i, off) > ANOMALY_THRESHOLD as int {
            assert(a =~= seq![(i + gf, step_jitter(g, f, gf, ff, i, off))] + ta);
            assert forall|m: int| 0 <= m < a.len() implies 0 <= (#[trigger] a[m]).0 - gf - i
                < w.len() && w[a[m].0 - gf - i].0 == a[m].0 by {
                if m == 0 {
                    assert(w[0].0 == a[0].0);
                } else {
                    assert(a[m] == ta[m - 1]);
                    assert(0 <= ta[m - 1].0 - gf - (i + 1) < tw.len());
                    assert(w[a[m].0 - gf - i] == tw[a[m].0 - gf - i - 1]);
                }
            }
        } else {
            assert forall|m: int| 0 <= m < a.len() implies 0 <= (#[trigger] a[m]).0 - gf - i
                < w.len() && w[a[m].0 - gf - i].0 == a[m].0 by {
                assert(a[m] == ta[m]);
                assert(0 <= ta[m].0 - gf - (i + 1) < tw.len());
                assert(w[a[m].0 - gf - i] == tw[a[m].0 - gf - i - 1]);
            }
        }
    }
}

/// Walks the two difference series forward from the located index pair
/// and builds the synchronized plan.  The first pair is emitted
/// unconditionally; the walk then proceeds step by step until either
/// series is exhausted.
pub fn build_sync_plan(
    tsd_get: &Vec<i64>,
    tsd_frib: &Vec<i64>,
    get_first: usize,
    frib_first: usize,
) -> (p: SyncPlan)
    requires
        bounded_deltas(seq_as_ints(tsd_get@)),
        bounded_deltas(seq_as_ints(tsd_frib@)),
        get_first < tsd_get@.len(),
        frib_first < tsd_frib@.len(),
    ensures
        pairs_as_ints(p.pairs@) == seq![(get_first as int, frib_first as int)] + walk_pairs(
            seq_as_ints(tsd_get@),
            seq_as_ints(tsd_frib@),
            get_first as int,
            frib_first as int,
            1,
            0,
        ),
        p.skips as int == walk_skips(
            seq_as_ints(tsd_get@),
            seq_as_ints(tsd_frib@),
            get_first as int,
            frib_first as int,
            1,
            0,
        ),
        anoms_as_ints(p.anomalies@) == walk_anomalies(
            seq_as_ints(tsd_get@),
            seq_as_ints(tsd_frib@),
            get_first as int,
            frib_first as int,
            1,
            0,
        ),
{
    let ghost g = seq_as_ints(tsd_get@);
    let ghost f = seq_as_ints(tsd_frib@);
    let ghost gf = get_first as int;
    let ghost ff = frib_first as int;
    let ng = tsd_get.len();
    let nf = tsd_frib.len();
    let mut pairs: Vec<(usize, usize)> = Vec::new();
    let mut anomalies: Vec<(usize, i64)> = Vec::new();
    let mut offset: usize = 0;
    pairs.push((get_first, frib_first));
    proof {
        assert(pairs_as_ints(pairs@) =~= seq![(gf, ff)]);
    }
    let mut i: usize = 1;
    loop
        invariant
            g == seq_as_ints(tsd_get@),
            f == seq_as_ints(tsd_frib@),
            gf == get_first as int,
            ff == frib_first as int,
            ng == tsd_get@.len(),
            nf == tsd_frib@.len(),
            bounded_deltas(g),
            bounded_deltas(f),
            get_first < ng,
            1 <= i,
            frib_first + offset < nf,
            pairs_as_ints(pairs@) + walk_pairs(g, f, gf, ff, i as int, offset as int) =~= seq![
                (gf, ff),
            ] + walk_pairs(g, f, gf, ff, 1, 0),
            walk_skips(g, f, gf, ff, i as int, offset as int) == walk_skips(g, f, gf, ff, 1, 0),
            anoms_as_ints(anomalies@) + walk_anomalies(g, f, gf, ff, i as int, offset as int)
                =~= walk_anomalies(g, f, gf, ff, 1, 0),
        ensures
            pairs_as_ints(pairs@) =~= seq![(gf, ff)] + walk_pairs(g, f, gf, ff, 1, 0),
            offset as int == walk_skips(g, f, gf, ff, 1, 0),
            anoms_as_ints(anomalies@) =~= walk_anomalies(g, f, gf, ff, 1, 0),
        decreases ng - i,
    {
        let ghost walked_pairs = walk_pairs(g, f, gf, ff, i as int, offset as int);
        let ghost walked_anoms = walk_anomalies(g, f, gf, ff, i as int, offset as int);
        if i >= ng - get_first || nf - frib_first - offset <= i {
            proof {
                assert(walked_pairs =~= Seq::<(int, int)>::empty());
                assert(walked_anoms =~= Seq::<(int, int)>::empty());
                assert(pairs_as_ints(pairs@) =~= pairs_as_ints(pairs@) + walked_pairs);
                assert(anoms_as_ints(anomalies@) =~= anoms_as_ints(anomalies@) + walked_anoms);
            }
            break ;
        }
        let fidx = i + frib_first + offset;
        let jitter: i64 = tsd_get[i + get_first] - tsd_frib[fidx];
        if jitter > SKIP_THRESHOLD {
            if fidx + 1 >= nf {
                proof {
                    assert(walked_pairs =~= Seq::<(int, int)>::empty());
                    assert(walked_anoms =~= Seq::<(int, int)>::empty());
                    assert(pairs_as_ints(pairs@) =~= pairs_as_ints(pairs@) + walked_pairs);
                    assert(anoms_as_ints(anomalies@) =~= anoms_as_ints(anomalies@) + walked_anoms);
                }
                break ;
            }
            offset += 1;
            let ghost prev = pairs@;
            pairs.push((i + get_first, i + frib_first + offset));
            proof {
                assert(pairs_as_ints(pairs@) =~= pairs_as_ints(prev) + seq![
                    (i + gf, i + ff + offset),
                ]);
                assert(walked_pairs =~= seq![(i + gf, i + ff + offset)] + walk_pairs(
                    g,
                    f,
                    gf,
                    ff,
                    i as int + 1,
                    offset as int,
                ));
                assert(pairs_as_ints(pairs@) + walk_pairs(g, f, gf, ff, i as int + 1, offset as int)
                    =~= pairs_as_ints(prev) + walked_pairs);
                assert(anoms_as_ints(anomalies@) + walk_anomalies(
                    g,
                    f,
                    gf,
                    ff,
                    i as int + 1,
                    offset as int,
                ) =~= anoms_as_ints(anomalies@) + walked_anoms);
            }
        } else {
            if jitter > ANOMALY_THRESHOLD {
                let ghost aprev = anomalies@;
                anomalies.push((i + get_first, jitter));
                proof {
                    assert(anoms_as_ints(anomalies@) =~= anoms_as_ints(aprev) + seq![
                        (i + gf, jitter as int),
                    ]);
                    assert(walked_anoms =~= seq![(i + gf, jitter as int)] + walk_anomalies(
                        g,
                        f,
                        gf,
                        ff,
                        i as int + 1,
                        offset as int,
                    ));
                    assert(anoms_as_ints(anomalies@) + walk_anomalies(
                        g,
                        f,
                        gf,
                        ff,
                        i as int + 1,
                        offset as int,
                    ) =~= anoms_as_ints(aprev) + walked_anoms);
                }
            } else {
                proof {
                    assert(walked_anoms =~= walk_anomalies(
                        g,
                        f,
                        gf,
                        ff,
                        i as int + 1,
                        offset as int,
                    ));
                }
            }
            let ghost prev = pairs@;
            pairs.push((i + get_first, fidx));
            proof {
                assert(pairs_as_ints(pairs@) =~= pairs_as_ints(prev) + seq![
                    (i + gf, i + ff + offset),
                ]);
                assert(walked_pairs =~= seq![(i + gf, i + ff + offset)] + walk_pairs(
                    g,
                    f,
                    gf,
                    ff,
                    i as int + 1,
                    offset as int,
                ));
                assert(pairs_as_ints(pairs@) + walk_pairs(g, f, gf, ff, i as int + 1, offset as int)
                    =~= pairs_as_ints(prev) + walked_pairs);
            }
        }
        i += 1;
    }
    SyncPlan { pairs, skips: offset, anomalies }
}

} // verus!
