//! The scene description: contiguous frame ranges with the quality
//! statistics gathered per quantizer trial, the solved final quantizer and
//! the override record that carries encoder parameters for the final pass.
//!
//! Scene attribution walks the canonical score mapping of one scoring round
//! and charges each score to the single scene whose frame range holds its
//! index; scores at or below zero are scoring noise and contribute nowhere.

use vstd::prelude::*;
use crate::score_map::SortedMap;
use crate::stats::{QualityStats, compute_stats, stats_match, stats_input_ok, SCORE_LIMIT_MILLI,
    STATS_LEN_LIMIT};
use crate::engine::ScoreAggregator;

verus! {

/// Per-scene parameter overrides for the final encode pass.
#[derive(Debug, Clone)]
pub struct ZoneOverrides {
    pub encoder: String,
    pub passes: u8,
    pub video_params: Vec<String>,
    pub photon_noise: Option<u16>,
    pub extra_split_sec: u8,
    pub min_scene_len: u8,
}

/// One contiguous frame range treated as a quantizer-search unit.
/// `start_frame <= end_frame`, both inclusive.  Quantizer keys and all
/// statistics are in thousandths.
#[derive(Debug)]
pub struct Scene {
    pub quantizer_scores: Option<SortedMap<QualityStats>>,
    pub final_quantizer_milli: Option<i64>,
    pub start_frame: u32,
    pub end_frame: u32,
    pub zone_overrides: Option<ZoneOverrides>,
}

/// The persisted scene description: the ordered scenes and the total frame
/// count of the source.
#[derive(Debug)]
pub struct ScenesInfo {
    pub scenes: Vec<Scene>,
    pub frames: u32,
}

impl Scene {
    /// A scene's trial map, when present, has strictly increasing keys.
    pub open spec fn wf(&self) -> bool {
        match self.quantizer_scores {
            Some(m) => m.wf(),
            None => true,
        }
    }
}

impl ScenesInfo {
    pub open spec fn wf(&self) -> bool {
        forall|i: int| 0 <= i < self.scenes@.len() ==> (#[trigger] self.scenes@[i]).wf()
    }
}

/// Whether one recorded entry belongs to the scene `[start, end]` and is a
/// valid score: canonical index inside the range, score strictly positive.
pub open spec fn in_scene(e: (u64, i64), start: u32, end: u32) -> bool {
    &&& start as u64 <= e.0
    &&& e.0 <= end as u64
    &&& e.1 > 0
}

/// The valid scores of one scene, in canonical frame order.
pub open spec fn scene_values(rs: Seq<(u64, i64)>, start: u32, end: u32) -> Seq<i64> {
    rs.filter(|e: (u64, i64)| in_scene(e, start, end)).map_values(|e: (u64, i64)| e.1)
}

/// How one scene changes when a scoring round at trial key `qkey` is
/// charged to it: boundaries, overrides and the final quantizer never move;
/// with no valid in-range score the trial map is untouched; otherwise the
/// statistics of exactly the valid in-range scores are stored under `qkey`
/// and every other trial entry is kept.
pub open spec fn scene_attributed(
    pre: Scene,
    post: Scene,
    rs: Seq<(u64, i64)>,
    qkey: u64,
) -> bool {
    let vals = scene_values(rs, pre.start_frame, pre.end_frame);
    &&& post.start_frame == pre.start_frame
    &&& post.end_frame == pre.end_frame
    &&& post.final_quantizer_milli == pre.final_quantizer_milli
    &&& post.zone_overrides == pre.zone_overrides
    &&& vals.len() == 0 ==> post.quantizer_scores == pre.quantizer_scores
    &&& vals.len() > 0 ==> {
        &&& post.quantizer_scores is Some
        &&& {
            let m = post.quantizer_scores.unwrap();
            &&& m.spec_get(qkey) is Some
            &&& stats_match(vals, m.spec_get(qkey).unwrap())
            &&& forall|k: u64|
                k != qkey ==> m.spec_get(k) == match pre.quantizer_scores {
                    Some(pm) => pm.spec_get(k),
                    None => None::<QualityStats>,
                }
        }
    }
}

/// Charge one scoring round to one scene.
fn scene_apply(scene: &mut Scene, results: &ScoreAggregator, qkey: u64)
    requires
        old(scene).wf(),
        results.wf(),
        results.spec_results().len() <= STATS_LEN_LIMIT,
    ensures
        final(scene).wf(),
        scene_attributed(*old(scene), *final(scene), results.spec_results(), qkey),
{
    let ghost rs = results.spec_results();
    let start = scene.start_frame;
    let end = scene.end_frame;
    let ghost pred = |e: (u64, i64)| in_scene(e, start, end);
    let mut vals: Vec<i64> = Vec::new();
    let n = results.result_count();
    let mut i: usize = 0;
    proof {
        reveal(Seq::filter);
        assert(rs.subrange(0, 0) =~= Seq::<(u64, i64)>::empty());
    }
    while i < n
        invariant
            n == rs.len(),
            rs == results.spec_results(),
            results.wf(),
            i <= n,
            vals@ == rs.subrange(0, i as int).filter(pred).map_values(|e: (u64, i64)| e.1),
            pred == (|e: (u64, i64)| in_scene(e, start, end)),
        decreases n - i,
    {
        let e = results.entry_at(i);
        proof {
            reveal(Seq::filter);
            assert(rs.subrange(0, i as int + 1).drop_last() =~= rs.subrange(0, i as int));
            let sub = rs.subrange(0, i as int).filter(pred);
            if pred(rs[i as int]) {
                assert(rs.subrange(0, i as int + 1).filter(pred) == sub.push(rs[i as int]));
                assert(sub.push(rs[i as int]).map_values(|e: (u64, i64)| e.1) =~= sub.map_values(
                    |e: (u64, i64)| e.1,
                ).push(rs[i as int].1));
            } else {
                assert(rs.subrange(0, i as int + 1).filter(pred) == sub);
            }
        }
        if start as u64 <= e.0 && e.0 <= end as u64 && e.1 > 0 {
            vals.push(e.1);
        }
        i += 1;
    }
    proof {
        assert(rs.subrange(0, n as int) =~= rs);
    }
    if vals.len() == 0 {
        return ;
    }
    proof {
        // Filtered values are results values, so they carry their bounds.
        assert forall|j: int| 0 <= j < vals@.len() implies -SCORE_LIMIT_MILLI
            <= #[trigger] vals@[j] <= SCORE_LIMIT_MILLI by {
            let f = rs.filter(pred);
            assert(vals@[j] == f[j].1);
            lemma_filter_element_of(rs, pred, j);
            let k = choose|k: int| 0 <= k < rs.len() && rs[k] == f[j];
            assert(results.values_bounded());
        }
        rs.lemma_filter_len(pred);
        assert(stats_input_ok(vals@));
    }
    let st = compute_stats(&vals);
    let mut holder: Option<SortedMap<QualityStats>> = None;
    core::mem::swap(&mut holder, &mut scene.quantizer_scores);
    let mut m: SortedMap<QualityStats> = match holder {
        Some(m0) => m0,
        None => SortedMap::new(),
    };
    m.insert(qkey, st);
    scene.quantizer_scores = Some(m);
}

/// Every element of a filtered sequence occurs in the original.
proof fn lemma_filter_element_of<A>(s: Seq<A>, pred: spec_fn(A) -> bool, j: int)
    requires
        0 <= j < s.filter(pred).len(),
    ensures
        exists|k: int| 0 <= k < s.len() && s[k] == s.filter(pred)[j],
    decreases s.len(),
{
    reveal(Seq::filter);
    if s.len() > 0 {
        let sub = s.drop_last().filter(pred);
        if pred(s.last()) && j == s.filter(pred).len() - 1 {
            assert(s[s.len() - 1] == s.filter(pred)[j]);
        } else {
            lemma_filter_element_of(s.drop_last(), pred, j);
            let k = choose|k: int| 0 <= k < s.drop_last().len() && s.drop_last()[k] == sub[j];
            assert(s[k] == s.filter(pred)[j]);
        }
    }
}

/// Charge one scoring round, at trial key `qkey`, to every scene of the
/// description.  Frame counts and scene order never change.
pub fn attribute_scores(info: &mut ScenesInfo, results: &ScoreAggregator, qkey: u64)
    requires
        old(info).wf(),
        results.wf(),
        results.spec_results().len() <= STATS_LEN_LIMIT,
    ensures
        final(info).wf(),
        final(info).frames == old(info).frames,
        final(info).scenes@.len() == old(info).scenes@.len(),
        forall|i: int|
            0 <= i < old(info).scenes@.len() ==> scene_attributed(
                old(info).scenes@[i],
                #[trigger] final(info).scenes@[i],
                results.spec_results(),
                qkey,
            ),
{
    let n = info.scenes.len();
    let mut i: usize = 0;
    while i < n
        invariant
            n == info.scenes@.len(),
            n == old(info).scenes@.len(),
            info.frames == old(info).frames,
            info.wf(),
            results.wf(),
            results.spec_results().len() <= STATS_LEN_LIMIT,
            i <= n,
            forall|j: int|
                i <= j < n ==> #[trigger] info.scenes@[j] == old(info).scenes@[j],
            forall|j: int|
                0 <= j < i ==> scene_attributed(
                    old(info).scenes@[j],
                    #[trigger] info.scenes@[j],
                    results.spec_results(),
                    qkey,
                ),
        decreases n - i,
    {
        scene_apply(&mut info.scenes[i], results, qkey);
        i += 1;
    }
}

} // verus!
