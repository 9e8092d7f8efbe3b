//! The complete synchronization engine: timestamp series in, plan out.
//!
//! The stages compose as pure values: each channel's timestamp series
//! becomes a first-difference series, the alignment locator picks the
//! starting index pair (falling back to `(0, 0)`), and the walk builds
//! the synchronized index plan.  An empty series on either channel
//! yields an empty plan with no skips and no anomalies.

use vstd::prelude::*;

use crate::align::{
    align_pair, alignment_of, lemma_align_pair_in_range, locate_alignment, Alignment,
};
use crate::delta::{bounded_series, delta_series, deltas_of, lemma_deltas_bounded};
use crate::plan::{
    anoms_as_ints, build_sync_plan, pairs_as_ints, walk_anomalies, walk_pairs, walk_skips, SyncPlan,
};

verus! {

/// The matched index pairs the engine produces for two timestamp series.
pub open spec fn sync_pair_seq(gts: Seq<u64>, fts: Seq<u64>) -> Seq<(int, int)> {
    if gts.len() == 0 || fts.len() == 0 {
        Seq::empty()
    } else {
        let g = deltas_of(gts);
        let f = deltas_of(fts);
        let p = align_pair(g, f);
        seq![p] + walk_pairs(g, f, p.0, p.1, 1, 0)
    }
}

/// The number of FRIB-side skips the engine reports for two timestamp series.
pub open spec fn sync_skip_count(gts: Seq<u64>, fts: Seq<u64>) -> int {
    if gts.len() == 0 || fts.len() == 0 {
        0
    } else {
        let g = deltas_of(gts);
        let f = deltas_of(fts);
        let p = align_pair(g, f);
        walk_skips(g, f, p.0, p.1, 1, 0)
    }
}

/// The anomaly records the engine reports for two timestamp series.
pub open spec fn sync_anomaly_seq(gts: Seq<u64>, fts: Seq<u64>) -> Seq<(int, int)> {
    if gts.len() == 0 || fts.len() == 0 {
        Seq::empty()
    } else {
        let g = deltas_of(gts);
        let f = deltas_of(fts);
        let p = align_pair(g, f);
        walk_anomalies(g, f, p.0, p.1, 1, 0)
    }
}

/// The alignment outcome the engine reports for two timestamp series.
pub open spec fn sync_alignment(gts: Seq<u64>, fts: Seq<u64>) -> Alignment {
    if gts.len() == 0 || fts.len() == 0 {
        Alignment::AlignedAtStart
    } else {
        alignment_of(deltas_of(gts), deltas_of(fts))
    }
}

/// What one run of the engine hands back: how the streams were aligned,
/// and the synchronized index plan.
#[derive(Debug, Clone)]
pub struct SyncOutcome {
    pub alignment: Alignment,
    pub plan: SyncPlan,
}

/// Runs the whole engine on the two channels' timestamp series.
pub fn synchronize_series(ts_get: &Vec<u64>, ts_frib: &Vec<u64>) -> (r: SyncOutcome)
    requires
        bounded_series(ts_get@),
        bounded_series(ts_frib@),
    ensures
        pairs_as_ints(r.plan.pairs@) == sync_pair_seq(ts_get@, ts_frib@),
        r.plan.skips as int == sync_skip_count(ts_get@, ts_frib@),
        anoms_as_ints(r.plan.anomalies@) == sync_anomaly_seq(ts_get@, ts_frib@),
        r.alignment == sync_alignment(ts_get@, ts_frib@),
        ts_get@.len() == 0 || ts_frib@.len() == 0 ==> r.plan.pairs@.len() == 0 && r.plan.skips == 0
            && r.plan.anomalies@.len() == 0,
{
    if ts_get.len() == 0 || ts_frib.len() == 0 {
        let plan = SyncPlan { pairs: Vec::new(), skips: 0, anomalies: Vec::new() };
        let r = SyncOutcome { alignment: Alignment::AlignedAtStart, plan };
        proof {
            assert(pairs_as_ints(r.plan.pairs@) =~= sync_pair_seq(ts_get@, ts_frib@));
            assert(anoms_as_ints(r.plan.anomalies@) =~= sync_anomaly_seq(ts_get@, ts_frib@));
        }
        return r;
    }
    let tsd_get = delta_series(ts_get);
    let tsd_frib = delta_series(ts_frib);
    let ghost g = deltas_of(ts_get@);
    let ghost f = deltas_of(ts_frib@);
    proof {
        lemma_deltas_bounded(ts_get@);
        lemma_deltas_bounded(ts_frib@);
    }
    let alignment = locate_alignment(&tsd_get, &tsd_frib);
    let (get_first, frib_first) = match alignment {
        Alignment::Found { get_first, frib_first } => (get_first, frib_first),
        _ => (0, 0),
    };
    proof {
        lemma_align_pair_in_range(g, f);
        assert((get_first as int, frib_first as int) == align_pair(g, f));
    }
    let plan = build_sync_plan(&tsd_get, &tsd_frib, get_first, frib_first);
    proof {
        assert(seq![(get_first as int, frib_first as int)] + walk_pairs(
            g,
            f,
            get_first as int,
            frib_first as int,
            1,
            0,
        ) =~= sync_pair_seq(ts_get@, ts_frib@));
    }
    SyncOutcome { alignment, plan }
}

} // verus!
