use qtarget::scenes::{Scene, ScenesInfo, attribute_scores};
use qtarget::engine::ScoreAggregator;
use qtarget::overrides::{zone_overrides, OverrideConfig};
use qtarget::search::{Encoder, QuantizerRange};
use qtarget::color::{resolve_color, to_matrices, to_primaries, to_transfers, Matrices,
    Primaries, Transfers};

fn scene(start: u32, end: u32) -> Scene {
    Scene {
        quantizer_scores: None,
        final_quantizer_milli: None,
        start_frame: start,
        end_frame: end,
        zone_overrides: None,
    }
}

fn svt_config() -> OverrideConfig {
    OverrideConfig {
        encoder: Encoder::SvtAv1,
        speed: 4,
        tiles: 8,
        target_quality_milli: 80_000,
        range: QuantizerRange { lo_milli: 25_000, hi_milli: 55_000 },
        color_range: "0".to_string(),
        matrix: "1".to_string(),
        transfer: "1".to_string(),
        primaries: "1".to_string(),
    }
}

fn info_with_trials(means_milli: [i64; 4]) -> ScenesInfo {
    // Four trials at whole quantizers 50, 45, 35 and 30 on one scene
    // covering frames 0..=299; the compensation offset is added by the
    // emitter, so these are raw means.
    let mut info = ScenesInfo { scenes: vec![scene(0, 299)], frames: 300 };
    for (q, mean) in [(50u64, means_milli[0]), (45, means_milli[1]), (35, means_milli[2]),
        (30, means_milli[3])] {
        let mut agg = ScoreAggregator::new(1);
        agg.record(10, mean);
        attribute_scores(&mut info, &agg, q);
    }
    info
}

#[test]
fn emitter_solves_and_attaches_overrides() {
    // Raw means 70, 76, 84, 89 gain the one-point compensation, giving the
    // quality curve 71, 77, 85, 90; the target 80 solves between 35 and 45
    // and lands on the quarter grid at 41.25.
    let mut info = info_with_trials([70_000, 76_000, 84_000, 89_000]);
    let mut pristine = ScenesInfo { scenes: vec![scene(0, 299)], frames: 300 };
    let cfg = svt_config();
    zone_overrides(&mut info, &mut pristine, &cfg);
    assert_eq!(info.scenes[0].final_quantizer_milli, Some(41_250));
    let rec = pristine.scenes[0].zone_overrides.as_ref().unwrap();
    assert_eq!(rec.encoder, "svt_av1");
    assert_eq!(rec.passes, 1);
    assert_eq!(rec.extra_split_sec, 10);
    assert_eq!(rec.min_scene_len, 24);
    assert_eq!(rec.photon_noise, None);
    let p: Vec<&str> = rec.video_params.iter().map(|s| s.as_str()).collect();
    assert_eq!(&p[0..4], &["--crf", "41.25", "--preset", "4"]);
    assert!(p.contains(&"--tune"));
    assert_eq!(p[p.len() - 1], "1");
    // The pristine boundaries are untouched.
    assert_eq!(pristine.scenes[0].start_frame, 0);
    assert_eq!(pristine.scenes[0].end_frame, 299);
    assert!(pristine.scenes[0].final_quantizer_milli.is_none());
}

#[test]
fn identical_means_fall_back_to_upper_bound() {
    let mut info = info_with_trials([80_000, 80_000, 80_000, 80_000]);
    let mut pristine = ScenesInfo { scenes: vec![scene(0, 299)], frames: 300 };
    let cfg = svt_config();
    zone_overrides(&mut info, &mut pristine, &cfg);
    assert_eq!(info.scenes[0].final_quantizer_milli, Some(55_000));
}

#[test]
fn scene_without_trials_falls_back() {
    let mut info = ScenesInfo { scenes: vec![scene(0, 99)], frames: 100 };
    let mut pristine = ScenesInfo { scenes: vec![scene(0, 99)], frames: 100 };
    let cfg = svt_config();
    zone_overrides(&mut info, &mut pristine, &cfg);
    assert_eq!(info.scenes[0].final_quantizer_milli, Some(55_000));
}

#[test]
fn unmatched_pristine_scene_keeps_its_record() {
    let mut info = ScenesInfo { scenes: vec![scene(0, 99)], frames: 100 };
    let mut pristine = ScenesInfo { scenes: vec![scene(100, 199)], frames: 100 };
    let cfg = svt_config();
    zone_overrides(&mut info, &mut pristine, &cfg);
    assert!(pristine.scenes[0].zone_overrides.is_none());
}

#[test]
fn rav1e_records_use_the_quantizer_vocabulary() {
    let mut info = info_with_trials([70_000, 76_000, 84_000, 89_000]);
    let mut pristine = ScenesInfo { scenes: vec![scene(0, 299)], frames: 300 };
    let cfg = OverrideConfig {
        encoder: Encoder::Rav1e,
        speed: 2,
        tiles: 8,
        target_quality_milli: 80_000,
        range: QuantizerRange { lo_milli: 25_000, hi_milli: 55_000 },
        color_range: "limited".to_string(),
        matrix: "bt709".to_string(),
        transfer: "bt709".to_string(),
        primaries: "bt709".to_string(),
    };
    zone_overrides(&mut info, &mut pristine, &cfg);
    // The two-point compensation shifts the curve, and the result truncates
    // to a whole quantizer.
    let q = info.scenes[0].final_quantizer_milli.unwrap();
    assert_eq!(q % 1000, 0);
    assert!(q >= 25_000 && q <= 55_000);
    let rec = pristine.scenes[0].zone_overrides.as_ref().unwrap();
    assert_eq!(rec.encoder, "rav1e");
    let p: Vec<&str> = rec.video_params.iter().map(|s| s.as_str()).collect();
    assert_eq!(p[0], "--quantizer");
    assert!(p.contains(&"--no-scene-detection"));
}

#[test]
fn color_tag_mappings() {
    assert_eq!(to_matrices("bt709".to_string()), Matrices::BT709);
    assert_eq!(to_matrices("bt2020nc".to_string()), Matrices::BT2020NonConstantLuminance);
    assert_eq!(to_matrices("nonsense".to_string()), Matrices::Unspecified);
    assert_eq!(to_primaries("smpte432".to_string()), Primaries::P3Display);
    assert_eq!(to_primaries("jedec-p22".to_string()), Primaries::Unspecified);
    assert_eq!(to_transfers("smpte2084".to_string()), Transfers::PerceptualQuantizer);
    assert_eq!(to_transfers("log".to_string()), Transfers::Logarithmic100);
}

#[test]
fn from_size_heuristics() {
    assert_eq!(Matrices::from_size(1920, 1080, None), Matrices::BT709);
    assert_eq!(Matrices::from_size(720, 576, None), Matrices::BT470BG);
    assert_eq!(Matrices::from_size(640, 480, None), Matrices::ST170M);
    assert_eq!(
        Primaries::from_size(640, 480, Some(Matrices::BT2020ConstantLuminance)),
        Primaries::BT2020,
    );
    assert_eq!(Primaries::from_size(1920, 1080, None), Primaries::BT709);
    assert_eq!(Primaries::from_size(720, 576, None), Primaries::BT470BG);
    assert_eq!(Primaries::from_size(720, 480, None), Primaries::ST170M);
    assert_eq!(Primaries::from_size(700, 500, None), Primaries::BT709);
}

#[test]
fn color_resolution_prefers_tags_over_heuristics() {
    let r = resolve_color(
        &"pc".to_string(),
        &"bt470bg".to_string(),
        &"smpte170m".to_string(),
        &"bt470bg".to_string(),
        720,
        576,
    );
    assert!(r.full_range);
    assert_eq!(r.matrix, Matrices::BT470BG);
    assert_eq!(r.transfer, Transfers::ST170M);
    assert_eq!(r.primaries, Primaries::BT470BG);
    // Unspecified tags fall back to the size heuristics.
    let r = resolve_color(
        &"tv".to_string(),
        &"".to_string(),
        &"bt709".to_string(),
        &"".to_string(),
        1920,
        1080,
    );
    assert!(!r.full_range);
    assert_eq!(r.matrix, Matrices::BT709);
    assert_eq!(r.primaries, Primaries::BT709);
    let r = resolve_color(
        &"tv".to_string(),
        &"".to_string(),
        &"bt709".to_string(),
        &"".to_string(),
        640,
        480,
    );
    assert_eq!(r.matrix, Matrices::ST170M);
    assert_eq!(r.primaries, Primaries::ST170M);
}
