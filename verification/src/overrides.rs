//! The override emitter: solves each scene's final quantizer from its trial
//! statistics and attaches the per-scene parameter override records to a
//! pristine copy of the scene description, leaving scene boundaries
//! untouched.

use vstd::prelude::*;
use crate::scenes::{Scene, ScenesInfo, ZoneOverrides};
use crate::score_map::SortedMap;
use crate::stats::QualityStats;
use crate::search::{Encoder, QuantizerRange, TrialPoint, spec_comp_offset_milli,
    comp_offset_milli, spec_solve, spec_grid, solve_target_quantizer, trials_input_ok,
    SOLVE_SCORE_CAP_MILLI, QUANT_CAP_MILLI};
use crate::text::{milli_chars, dec_digits, render_milli_into, render_u64_into};

verus! {

/// Fixed settings an override record carries besides the solved quantizer.
pub struct OverrideConfig {
    pub encoder: Encoder,
    pub speed: u8,
    pub tiles: u8,
    pub target_quality_milli: i64,
    pub range: QuantizerRange,
    pub color_range: String,
    pub matrix: String,
    pub transfer: String,
    pub primaries: String,
}

impl OverrideConfig {
    pub open spec fn wf(&self) -> bool {
        &&& self.range.wf()
        &&& 0 <= self.target_quality_milli <= SOLVE_SCORE_CAP_MILLI
    }
}

/// The trial points a scene's statistics map yields: each trial key is a
/// whole quantizer, each score is that trial's compensated mean.
pub open spec fn scene_trials(m: Seq<(u64, QualityStats)>, enc: Encoder) -> Seq<TrialPoint> {
    m.map_values(
        |e: (u64, QualityStats)|
            TrialPoint {
                score_milli: (e.1.mean_milli + spec_comp_offset_milli(enc)) as i64,
                quantizer_milli: (e.0 * 1000) as i64,
            },
    )
}

/// Whether a scene's statistics are usable for the curve solver: one to
/// four trials, every trial key a whole quantizer inside the cap, every
/// compensated mean inside the score cap.
pub open spec fn scores_usable(m: Seq<(u64, QualityStats)>, enc: Encoder) -> bool {
    &&& 1 <= m.len() <= 4
    &&& forall|j: int|
        0 <= j < m.len() ==> (#[trigger] m[j]).0 <= 260 && -spec_comp_offset_milli(enc)
            <= m[j].1.mean_milli && m[j].1.mean_milli <= SOLVE_SCORE_CAP_MILLI
            - spec_comp_offset_milli(enc)
}

/// The quantizer solved for one scene: scenes without usable trial data
/// (no statistics, none or too many trials, or values outside the solver's
/// caps) fall back to the range's upper bound on the encoder's grid.
pub open spec fn spec_scene_quantizer(
    scores: Option<SortedMap<QualityStats>>,
    cfg: OverrideConfig,
) -> int {
    let enc = cfg.encoder;
    let hi = cfg.range.hi_milli as int;
    match scores {
        None => spec_grid(hi, 1, enc),
        Some(m) => if scores_usable(m@, enc) {
            spec_solve(
                scene_trials(m@, enc),
                cfg.target_quality_milli as int,
                cfg.range.lo_milli as int,
                hi,
                enc,
            )
        } else {
            spec_grid(hi, 1, enc)
        },
    }
}

/// Solve one scene's final quantizer.
fn solve_scene(scores: &Option<SortedMap<QualityStats>>, cfg: &OverrideConfig) -> (r: i64)
    requires
        cfg.wf(),
        match *scores {
            Some(m) => m.wf(),
            None => true,
        },
    ensures
        r == spec_scene_quantizer(*scores, *cfg),
{
    let offset = comp_offset_milli(cfg.encoder);
    match scores {
        None => grid_of_hi(cfg),
        Some(m) => {
            let n = m.len();
            let mut trials: Vec<TrialPoint> = Vec::new();
            let mut ok = n >= 1 && n <= 4;
            let mut i: usize = 0;
            while i < n
                invariant
                    n == m@.len(),
                    i <= n,
                    trials@.len() == i,
                    ok ==> (1 <= n <= 4),
                    ok ==> forall|j: int|
                        0 <= j < i ==> (#[trigger] m@[j]).0 <= 260 && -offset
                            <= m@[j].1.mean_milli && m@[j].1.mean_milli <= SOLVE_SCORE_CAP_MILLI
                            - offset,
                    ok ==> forall|j: int|
                        0 <= j < i ==> #[trigger] trials@[j] == scene_trials(m@, cfg.encoder)[j],
                    !ok ==> !scores_usable(m@, cfg.encoder),
                    offset == spec_comp_offset_milli(cfg.encoder),
                decreases n - i,
            {
                let e = m.entry_at(i);
                let key = e.0;
                let mean = e.1.mean_milli;
                // The trial key is a whole quantizer; the score is that
                // trial's compensated mean.  Data outside the solver's caps
                // makes the scene fall back.
                if key > 260 || mean < -offset || mean > SOLVE_SCORE_CAP_MILLI - offset {
                    ok = false;
                }
                let q: i64 = if key <= 260 {
                    (key * 1000) as i64
                } else {
                    0
                };
                let sc: i64 = if mean >= -offset && mean <= SOLVE_SCORE_CAP_MILLI - offset {
                    mean + offset
                } else {
                    0
                };
                let tp = TrialPoint { score_milli: sc, quantizer_milli: q };
                trials.push(tp);
                proof {
                    if ok {
                        assert(tp == scene_trials(m@, cfg.encoder)[i as int]);
                    }
                }
                i += 1;
            }
            if ok {
                proof {
                    assert(trials@ =~= scene_trials(m@, cfg.encoder));
                    assert(scores_usable(m@, cfg.encoder));
                    assert forall|j: int| 0 <= j < trials@.len() implies 0 <= (
                    #[trigger] trials@[j]).score_milli <= SOLVE_SCORE_CAP_MILLI && 0
                        <= trials@[j].quantizer_milli <= QUANT_CAP_MILLI by {
                        assert(trials@[j] == scene_trials(m@, cfg.encoder)[j]);
                    }
                    assert(trials_input_ok(trials@));
                }
                solve_target_quantizer(&trials, cfg.target_quality_milli, &cfg.range, cfg.encoder)
            } else {
                grid_of_hi(cfg)
            }
        },
    }
}

/// The fallback: the range's upper bound on the encoder's grid.
fn grid_of_hi(cfg: &OverrideConfig) -> (r: i64)
    requires
        cfg.wf(),
    ensures
        r == spec_grid(cfg.range.hi_milli as int, 1, cfg.encoder),
{
    let hi = cfg.range.hi_milli;
    match cfg.encoder {
        Encoder::SvtAv1 => {
            let w = crate::num_util::round_div_big(hi as i128, 250);
            proof {
                crate::num_util::lemma_round_div_close(hi as int, 250);
                let ww = crate::num_util::spec_round_div(hi as int, 250);
                assert(0 <= ww <= 1100) by (nonlinear_arith)
                    requires
                        0 <= hi as int <= 260_000,
                        2 * (hi as int - ww * 250) < 250,
                        2 * (hi as int - ww * 250) >= -250,
                ;
            }
            (w as i64) * 250
        },
        Encoder::Rav1e => {
            let w = crate::num_util::floor_div(hi as i128, 1000);
            proof {
                crate::num_util::lemma_floor_div_bounds(hi as int, 1000);
            }
            (w as i64) * 1000
        },
    }
}

/// The ordered parameter list of one override record.
pub open spec fn spec_params(q_milli: int, cfg: OverrideConfig) -> Seq<Seq<char>> {
    match cfg.encoder {
        Encoder::Rav1e => seq![
            "--quantizer"@,
            milli_chars(q_milli),
            "-s"@,
            dec_digits(cfg.speed as int),
            "--tiles"@,
            dec_digits(cfg.tiles as int),
            "--keyint"@,
            "0"@,
            "--no-scene-detection"@,
            "--range"@,
            cfg.color_range@,
            "--matrix"@,
            cfg.matrix@,
            "--transfers"@,
            cfg.transfer@,
            "--primaries"@,
            cfg.primaries@,
        ],
        Encoder::SvtAv1 => seq![
            "--crf"@,
            milli_chars(q_milli),
            "--preset"@,
            dec_digits(cfg.speed as int),
            "--tune"@,
            "3"@,
            "--sharpness"@,
            "2"@,
            "--variance-boost-strength"@,
            "4"@,
            "--variance-octile"@,
            "4"@,
            "--frame-luma-bias"@,
            "100"@,
            "--keyint"@,
            "0"@,
            "--enable-dlf"@,
            "2"@,
            "--enable-cdef"@,
            "0"@,
            "--enable-restoration"@,
            "0"@,
            "--enable-tf"@,
            "0"@,
            "--color-range"@,
            cfg.color_range@,
            "--matrix-coefficients"@,
            cfg.matrix@,
            "--transfer-characteristics"@,
            cfg.transfer@,
            "--color-primaries"@,
            cfg.primaries@,
        ],
    }
}

/// What an attached override record holds.
pub open spec fn record_matches(rec: ZoneOverrides, q_milli: int, cfg: OverrideConfig) -> bool {
    &&& rec.encoder@ == match cfg.encoder {
        Encoder::Rav1e => "rav1e"@,
        Encoder::SvtAv1 => "svt_av1"@,
    }
    &&& rec.passes == 1
    &&& rec.photon_noise is None
    &&& rec.extra_split_sec == 10
    &&& rec.min_scene_len == 24
    &&& rec.video_params@.map_values(|s: String| s@) == spec_params(q_milli, cfg)
}

fn push_str_owned(params: &mut Vec<String>, s: &str)
    ensures
        final(params)@.map_values(|x: String| x@) =~= old(params)@.map_values(|x: String| x@).push(
            s@,
        ),
{
    let owned = s.to_owned();
    params.push(owned);
    proof {
        assert(final(params)@.map_values(|x: String| x@) =~= old(params)@.map_values(
            |x: String| x@,
        ).push(s@));
    }
}

fn push_string(params: &mut Vec<String>, s: String)
    ensures
        final(params)@.map_values(|x: String| x@) =~= old(params)@.map_values(|x: String| x@).push(
            s@,
        ),
{
    params.push(s);
    proof {
        assert(final(params)@.map_values(|x: String| x@) =~= old(params)@.map_values(
            |x: String| x@,
        ).push(s@));
    }
}

/// Build one override record for a solved quantizer.
fn build_record(q_milli: i64, cfg: &OverrideConfig) -> (rec: ZoneOverrides)
    requires
        0 <= q_milli,
    ensures
        record_matches(rec, q_milli as int, *cfg),
{
    let mut params: Vec<String> = Vec::new();
    let mut q_str = String::new();
    render_milli_into(q_milli as u64, &mut q_str);
    let mut speed_str = String::new();
    render_u64_into(cfg.speed as u64, &mut speed_str);
    proof {
        assert(q_str@ =~= milli_chars(q_milli as int));
        assert(speed_str@ =~= dec_digits(cfg.speed as int));
    }
    match cfg.encoder {
        Encoder::Rav1e => {
            let mut tiles_str = String::new();
            render_u64_into(cfg.tiles as u64, &mut tiles_str);
            proof {
                assert(tiles_str@ =~= dec_digits(cfg.tiles as int));
            }
            push_str_owned(&mut params, "--quantizer");
            push_string(&mut params, q_str);
            push_str_owned(&mut params, "-s");
            push_string(&mut params, speed_str);
            push_str_owned(&mut params, "--tiles");
            push_string(&mut params, tiles_str);
            push_str_owned(&mut params, "--keyint");
            push_str_owned(&mut params, "0");
            push_str_owned(&mut params, "--no-scene-detection");
            push_str_owned(&mut params, "--range");
            push_str_owned(&mut params, cfg.color_range.as_str());
            push_str_owned(&mut params, "--matrix");
            push_str_owned(&mut params, cfg.matrix.as_str());
            push_str_owned(&mut params, "--transfers");
            push_str_owned(&mut params, cfg.transfer.as_str());
            push_str_owned(&mut params, "--primaries");
            push_str_owned(&mut params, cfg.primaries.as_str());
            proof {
                assert(params@.map_values(|s: String| s@) =~= spec_params(q_milli as int, *cfg));
            }
            ZoneOverrides {
                encoder: str_owned("rav1e"),
                passes: 1,
                video_params: params,
                photon_noise: None,
                extra_split_sec: 10,
                min_scene_len: 24,
            }
        },
        Encoder::SvtAv1 => {
            push_str_owned(&mut params, "--crf");
            push_string(&mut params, q_str);
            push_str_owned(&mut params, "--preset");
            push_string(&mut params, speed_str);
            push_str_owned(&mut params, "--tune");
            push_str_owned(&mut params, "3");
            push_str_owned(&mut params, "--sharpness");
            push_str_owned(&mut params, "2");
            push_str_owned(&mut params, "--variance-boost-strength");
            push_str_owned(&mut params, "4");
            push_str_owned(&mut params, "--variance-octile");
            push_str_owned(&mut params, "4");
            push_str_owned(&mut params, "--frame-luma-bias");
            push_str_owned(&mut params, "100");
            push_str_owned(&mut params, "--keyint");
            push_str_owned(&mut params, "0");
            push_str_owned(&mut params, "--enable-dlf");
            push_str_owned(&mut params, "2");
            push_str_owned(&mut params, "--enable-cdef");
            push_str_owned(&mut params, "0");
            push_str_owned(&mut params, "--enable-restoration");
            push_str_owned(&mut params, "0");
            push_str_owned(&mut params, "--enable-tf");
            push_str_owned(&mut params, "0");
            push_str_owned(&mut params, "--color-range");
            push_str_owned(&mut params, cfg.color_range.as_str());
            push_str_owned(&mut params, "--matrix-coefficients");
            push_str_owned(&mut params, cfg.matrix.as_str());
            push_str_owned(&mut params, "--transfer-characteristics");
            push_str_owned(&mut params, cfg.transfer.as_str());
            push_str_owned(&mut params, "--color-primaries");
            push_str_owned(&mut params, cfg.primaries.as_str());
            proof {
                assert(params@.map_values(|s: String| s@) =~= spec_params(q_milli as int, *cfg));
            }
            ZoneOverrides {
                encoder: str_owned("svt_av1"),
                passes: 1,
                video_params: params,
                photon_noise: None,
                extra_split_sec: 10,
                min_scene_len: 24,
            }
        },
    }
}

fn str_owned(s: &str) -> (r: String)
    ensures
        r@ == s@,
{
    s.to_owned()
}

/// Two scenes describe the same frame range.
pub open spec fn same_range(a: Scene, b: Scene) -> bool {
    a.start_frame == b.start_frame && a.end_frame == b.end_frame
}

/// No two scenes of the description share a frame range.
pub open spec fn ranges_unique(s: Seq<Scene>) -> bool {
    forall|i: int, j: int|
        0 <= i < j < s.len() ==> !same_range(#[trigger] s[i], #[trigger] s[j])
}

/// Solve every scene's final quantizer and write the override records into
/// the pristine description at the scenes with the same frame range.
/// Boundaries, statistics and frame counts never change; pristine scenes
/// with no counterpart keep their record.
pub fn zone_overrides(info: &mut ScenesInfo, pristine: &mut ScenesInfo, cfg: &OverrideConfig)
    requires
        old(info).wf(),
        cfg.wf(),
        ranges_unique(old(info).scenes@),
        ranges_unique(old(pristine).scenes@),
    ensures
        final(info).wf(),
        final(info).frames == old(info).frames,
        final(info).scenes@.len() == old(info).scenes@.len(),
        forall|i: int|
            0 <= i < old(info).scenes@.len() ==> scene_solved(
                old(info).scenes@[i],
                #[trigger] final(info).scenes@[i],
                *cfg,
            ),
        final(pristine).frames == old(pristine).frames,
        final(pristine).scenes@.len() == old(pristine).scenes@.len(),
        forall|j: int|
            0 <= j < old(pristine).scenes@.len() ==> pristine_kept(
                old(pristine).scenes@[j],
                #[trigger] final(pristine).scenes@[j],
            ),
        forall|j: int|
            0 <= j < old(pristine).scenes@.len() && (forall|i: int|
                0 <= i < old(info).scenes@.len() ==> !same_range(
                    #[trigger] old(info).scenes@[i],
                    old(pristine).scenes@[j],
                )) ==> (#[trigger] final(pristine).scenes@[j]).zone_overrides == old(
                pristine,
            ).scenes@[j].zone_overrides,
        forall|j: int, i: int|
            0 <= j < old(pristine).scenes@.len() && 0 <= i < old(info).scenes@.len() && same_range(
                #[trigger] old(info).scenes@[i],
                #[trigger] old(pristine).scenes@[j],
            ) ==> final(pristine).scenes@[j].zone_overrides is Some && record_matches(
                final(pristine).scenes@[j].zone_overrides.unwrap(),
                spec_scene_quantizer(old(info).scenes@[i].quantizer_scores, *cfg),
                *cfg,
            ),
{
    let n = info.scenes.len();
    let mut i: usize = 0;
    while i < n
        invariant
            n == info.scenes@.len() == old(info).scenes@.len(),
            info.frames == old(info).frames,
            info.wf(),
            cfg.wf(),
            i <= n,
            forall|j: int| i <= j < n ==> #[trigger] info.scenes@[j] == old(info).scenes@[j],
            forall|j: int|
                0 <= j < i ==> scene_solved(old(info).scenes@[j], #[trigger] info.scenes@[j], *cfg),
        decreases n - i,
    {
        let q = solve_scene(&info.scenes[i].quantizer_scores, cfg);
        set_final_quantizer(&mut info.scenes[i], q);
        i += 1;
    }
    let pn = pristine.scenes.len();
    let mut i2: usize = 0;
    while i2 < n
        invariant
            n == info.scenes@.len() == old(info).scenes@.len(),
            pn == pristine.scenes@.len() == old(pristine).scenes@.len(),
            pristine.frames == old(pristine).frames,
            cfg.wf(),
            ranges_unique(old(info).scenes@),
            ranges_unique(old(pristine).scenes@),
            i2 <= n,
            forall|j: int|
                0 <= j < n ==> scene_solved(
                    old(info).scenes@[j],
                    #[trigger] info.scenes@[j],
                    *cfg,
                ),
            forall|j: int|
                0 <= j < pn ==> pristine_kept(
                    old(pristine).scenes@[j],
                    #[trigger] pristine.scenes@[j],
                ),
            forall|j: int|
                0 <= j < pn && (forall|i3: int|
                    0 <= i3 < i2 ==> !same_range(
                        #[trigger] old(info).scenes@[i3],
                        old(pristine).scenes@[j],
                    )) ==> (#[trigger] pristine.scenes@[j]).zone_overrides == old(
                    pristine,
                ).scenes@[j].zone_overrides,
            forall|j: int, i3: int|
                0 <= j < pn && 0 <= i3 < i2 && same_range(
                    #[trigger] old(info).scenes@[i3],
                    #[trigger] old(pristine).scenes@[j],
                ) ==> pristine.scenes@[j].zone_overrides is Some && record_matches(
                    pristine.scenes@[j].zone_overrides.unwrap(),
                    spec_scene_quantizer(old(info).scenes@[i3].quantizer_scores, *cfg),
                    *cfg,
                ),
        decreases n - i2,
    {
        let q = match info.scenes[i2].final_quantizer_milli {
            Some(v) => v,
            None => {
                proof {
                    assert(false);
                }
                0
            },
        };
        proof {
            lemma_scene_quantizer_nonneg(old(info).scenes@[i2 as int].quantizer_scores, *cfg);
        }
        let start = info.scenes[i2].start_frame;
        let end = info.scenes[i2].end_frame;
        let ghost prist0 = pristine.scenes@;
        let mut j: usize = 0;
        while j < pn && !range_matches(&pristine.scenes[j], start, end)
            invariant
                pn == pristine.scenes@.len(),
                j <= pn,
                pristine.scenes@ == prist0,
                forall|k: int|
                    0 <= k < j ==> !((#[trigger] pristine.scenes@[k]).start_frame == start
                        && pristine.scenes@[k].end_frame == end),
            decreases pn - j,
        {
            j += 1;
        }
        if j < pn {
            let rec = build_record(q, cfg);
            set_zone_overrides(&mut pristine.scenes[j], rec);
            proof {
                assert(same_range(old(info).scenes@[i2 as int], old(pristine).scenes@[j as int]));
            }
        }
        proof {
            let sc = old(info).scenes@[i2 as int];
            if j < pn {
                // Range uniqueness: scene i2 matches pristine j and no other,
                // and no other scene matches pristine j.
                assert forall|k: int|
                    0 <= k < pn && (forall|i3: int|
                        0 <= i3 < i2 + 1 ==> !same_range(
                            #[trigger] old(info).scenes@[i3],
                            old(pristine).scenes@[k],
                        )) implies (#[trigger] pristine.scenes@[k]).zone_overrides == old(
                    pristine,
                ).scenes@[k].zone_overrides by {
                    assert(!same_range(old(info).scenes@[i2 as int], old(pristine).scenes@[k]));
                    assert(k != j);
                }
                assert forall|k: int, i3: int|
                    0 <= k < pn && 0 <= i3 < i2 + 1 && same_range(
                        #[trigger] old(info).scenes@[i3],
                        #[trigger] old(pristine).scenes@[k],
                    ) implies pristine.scenes@[k].zone_overrides is Some && record_matches(
                    pristine.scenes@[k].zone_overrides.unwrap(),
                    spec_scene_quantizer(old(info).scenes@[i3].quantizer_scores, *cfg),
                    *cfg,
                ) by {
                    if i3 == i2 {
                        assert(same_range(sc, old(pristine).scenes@[k]));
                        assert(same_range(sc, old(pristine).scenes@[j as int]));
                        if k != j {
                            assert(!same_range(
                                old(pristine).scenes@[k],
                                old(pristine).scenes@[j as int],
                            ));
                            assert(false);
                        }
                    } else {
                        if k == j {
                            assert(same_range(old(info).scenes@[i3], old(pristine).scenes@[j as int]));
                            assert(same_range(sc, old(pristine).scenes@[j as int]));
                            assert(!same_range(old(info).scenes@[i3], sc));
                            assert(false);
                        }
                    }
                }
            } else {
                assert forall|k: int|
                    0 <= k < pn implies !same_range(sc, #[trigger] old(pristine).scenes@[k]) by {
                    assert(pristine.scenes@[k] == prist0[k]);
                }
            }
        }
        i2 += 1;
    }
}

/// One scene after its quantizer was solved: everything kept but the final
/// quantizer, which now holds the solved value.
pub open spec fn scene_solved(pre: Scene, post: Scene, cfg: OverrideConfig) -> bool {
    &&& post.start_frame == pre.start_frame
    &&& post.end_frame == pre.end_frame
    &&& post.quantizer_scores == pre.quantizer_scores
    &&& post.zone_overrides == pre.zone_overrides
    &&& post.final_quantizer_milli is Some
    &&& post.final_quantizer_milli.unwrap() as int == spec_scene_quantizer(
        pre.quantizer_scores,
        cfg,
    )
}

/// A pristine scene keeps everything but possibly its override record.
pub open spec fn pristine_kept(pre: Scene, post: Scene) -> bool {
    &&& post.start_frame == pre.start_frame
    &&& post.end_frame == pre.end_frame
    &&& post.quantizer_scores == pre.quantizer_scores
    &&& post.final_quantizer_milli == pre.final_quantizer_milli
}

/// Whether a scene covers exactly the frame range `[start, end]`.
fn range_matches(s: &Scene, start: u32, end: u32) -> (b: bool)
    ensures
        b == (s.start_frame == start && s.end_frame == end),
{
    s.start_frame == start && s.end_frame == end
}

/// Record the solved quantizer on a scene.
fn set_final_quantizer(scene: &mut Scene, q: i64)
    ensures
        final(scene).start_frame == old(scene).start_frame,
        final(scene).end_frame == old(scene).end_frame,
        final(scene).quantizer_scores == old(scene).quantizer_scores,
        final(scene).zone_overrides == old(scene).zone_overrides,
        final(scene).final_quantizer_milli == Some(q),
{
    scene.final_quantizer_milli = Some(q);
}

/// Attach an override record to a scene.
fn set_zone_overrides(scene: &mut Scene, rec: ZoneOverrides)
    ensures
        final(scene).start_frame == old(scene).start_frame,
        final(scene).end_frame == old(scene).end_frame,
        final(scene).quantizer_scores == old(scene).quantizer_scores,
        final(scene).final_quantizer_milli == old(scene).final_quantizer_milli,
        final(scene).zone_overrides == Some(rec),
{
    scene.zone_overrides = Some(rec);
}

/// A solved quantizer is never negative.
proof fn lemma_scene_quantizer_nonneg(scores: Option<SortedMap<QualityStats>>, cfg: OverrideConfig)
    requires
        cfg.wf(),
    ensures
        0 <= spec_scene_quantizer(scores, cfg),
{
    lemma_grid_nonneg(cfg.range.hi_milli as int, 1, cfg.encoder);
    match scores {
        None => {},
        Some(m) => {
            let tr = scene_trials(m@, cfg.encoder);
            if trials_input_ok(tr) {
                lemma_solve_nonneg(
                    tr,
                    cfg.target_quality_milli as int,
                    cfg.range.lo_milli as int,
                    cfg.range.hi_milli as int,
                    cfg.encoder,
                );
            }
        },
    }
}

/// Grid rounding of a nonnegative rational is nonnegative.
proof fn lemma_grid_nonneg(num: int, den: int, enc: Encoder)
    requires
        0 <= num,
        0 < den,
    ensures
        0 <= spec_grid(num, den, enc),
{
    match enc {
        Encoder::SvtAv1 => {
            crate::num_util::lemma_round_div_close(num, 250 * den);
            let w = crate::num_util::spec_round_div(num, 250 * den);
            assert(0 <= w * 250) by (nonlinear_arith)
                requires
                    0 <= num,
                    0 < den,
                    2 * (num - w * (250 * den)) < 250 * den,
            ;
        },
        Encoder::Rav1e => {
            crate::num_util::lemma_floor_div_bounds(num, 1000 * den);
            let w = num / (1000 * den);
            assert(0 <= w * 1000) by (nonlinear_arith)
                requires
                    0 <= w,
            ;
        },
    }
}

/// The solved quantizer is nonnegative whatever the trial data.
proof fn lemma_solve_nonneg(trials: Seq<TrialPoint>, target: int, lo: int, hi: int, enc: Encoder)
    requires
        0 <= lo <= hi,
    ensures
        0 <= spec_solve(trials, target, lo, hi, enc),
{
    lemma_grid_nonneg(hi, 1, enc);
    lemma_grid_nonneg(lo, 1, enc);
    let dd = crate::search::spec_dedupe(trials);
    if !(dd.len() < 2 || crate::search::all_zero_q(dd)) {
        let (n0, d0) = crate::search::spec_curve(dd, target);
        let (n1, d1) = if d0 < 0 {
            (-n0, -d0)
        } else {
            (n0, d0)
        };
        if n1 <= lo * d1 {
        } else if n1 >= hi * d1 {
        } else {
            // This branch needs a positive denominator; with a zero one
            // either clamp branch above is taken, since `lo * 0 == 0`.
            assert(d1 != 0) by (nonlinear_arith)
                requires
                    n1 > lo * d1,
                    n1 < hi * d1,
                    lo * 0 == 0,
                    hi * 0 == 0,
                    d1 >= 0,
            ;
            assert(0 <= n1) by (nonlinear_arith)
                requires
                    n1 > lo * d1,
                    0 <= lo,
                    0 < d1,
            ;
            lemma_grid_nonneg(n1, d1, enc);
        }
    }
}

} // verus!
