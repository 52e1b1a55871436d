use qtarget::engine::ScoreAggregator;
use qtarget::scenes::{Scene, ScenesInfo, attribute_scores};

fn scene(start: u32, end: u32) -> Scene {
    Scene {
        quantizer_scores: None,
        final_quantizer_milli: None,
        start_frame: start,
        end_frame: end,
        zone_overrides: None,
    }
}

#[test]
fn scores_attach_to_their_scene_only() {
    // Scenes [0,99] and [100,199]; raw scores at canonical frames 5, 15 and
    // 120, where frame 5's score is invalid (at or below zero).  Only frame
    // 15 contributes to the first scene and only frame 120 to the second.
    let mut info = ScenesInfo { scenes: vec![scene(0, 99), scene(100, 199)], frames: 200 };
    let mut agg = ScoreAggregator::new(1);
    agg.record(5, -2_000);
    agg.record(15, 82_300);
    agg.record(120, 90_000);
    attribute_scores(&mut info, &agg, 40);
    let m0 = info.scenes[0].quantizer_scores.as_ref().unwrap();
    assert_eq!(m0.len(), 1);
    let e0 = m0.entry_at(0);
    assert_eq!(e0.0, 40);
    assert_eq!(e0.1.mean_milli, 82_300);
    assert_eq!(e0.1.median_milli, 82_300);
    let m1 = info.scenes[1].quantizer_scores.as_ref().unwrap();
    let e1 = m1.entry_at(0);
    assert_eq!(e1.1.mean_milli, 90_000);
    assert_eq!(info.scenes[0].start_frame, 0);
    assert_eq!(info.scenes[1].end_frame, 199);
}

#[test]
fn zero_score_is_noise() {
    let mut info = ScenesInfo { scenes: vec![scene(0, 99)], frames: 100 };
    let mut agg = ScoreAggregator::new(1);
    agg.record(1, 0);
    agg.record(2, 80_000);
    attribute_scores(&mut info, &agg, 30);
    let m = info.scenes[0].quantizer_scores.as_ref().unwrap();
    assert_eq!(m.entry_at(0).1.mean_milli, 80_000);
}

#[test]
fn scene_without_valid_scores_keeps_no_map() {
    let mut info = ScenesInfo { scenes: vec![scene(0, 99), scene(100, 199)], frames: 200 };
    let mut agg = ScoreAggregator::new(1);
    agg.record(150, 75_000);
    attribute_scores(&mut info, &agg, 35);
    assert!(info.scenes[0].quantizer_scores.is_none());
    assert!(info.scenes[1].quantizer_scores.is_some());
}

#[test]
fn repeated_rounds_accumulate_trials() {
    let mut info = ScenesInfo { scenes: vec![scene(0, 9)], frames: 10 };
    let mut agg1 = ScoreAggregator::new(1);
    agg1.record(3, 70_000);
    attribute_scores(&mut info, &agg1, 50);
    let mut agg2 = ScoreAggregator::new(1);
    agg2.record(3, 85_000);
    attribute_scores(&mut info, &agg2, 35);
    let m = info.scenes[0].quantizer_scores.as_ref().unwrap();
    assert_eq!(m.len(), 2);
    assert_eq!(m.entry_at(0).0, 35);
    assert_eq!(m.entry_at(0).1.mean_milli, 85_000);
    assert_eq!(m.entry_at(1).0, 50);
    assert_eq!(m.entry_at(1).1.mean_milli, 70_000);
}

#[test]
fn strided_scores_map_back_to_canonical_frames() {
    // A stride-10 trial scores decoded frames 0..3, which stand for
    // canonical frames 0, 10, 20, 30; a scene covering [0,15] receives
    // exactly the first two.
    let mut info = ScenesInfo { scenes: vec![scene(0, 15)], frames: 40 };
    let mut agg = ScoreAggregator::new(10);
    agg.record(0, 70_000);
    agg.record(1, 80_000);
    agg.record(2, 90_000);
    agg.record(3, 60_000);
    attribute_scores(&mut info, &agg, 45);
    let m = info.scenes[0].quantizer_scores.as_ref().unwrap();
    assert_eq!(m.entry_at(0).1.mean_milli, 75_000);
}
