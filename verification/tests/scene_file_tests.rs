use qtarget::engine::ScoreAggregator;
use qtarget::overrides::{zone_overrides, OverrideConfig};
use qtarget::scenes::{Scene, ScenesInfo, attribute_scores};
use qtarget::scene_file::{read_scenes_info, read_score_cache, write_scenes_info,
    write_score_cache};
use qtarget::search::{Encoder, QuantizerRange};

fn scene(start: u32, end: u32) -> Scene {
    Scene {
        quantizer_scores: None,
        final_quantizer_milli: None,
        start_frame: start,
        end_frame: end,
        zone_overrides: None,
    }
}

#[test]
fn empty_description_round_trips() {
    let info = ScenesInfo { scenes: vec![], frames: 0 };
    let text = write_scenes_info(&info);
    assert_eq!(text, "{\"scenes\":[],\"frames\":0}");
    let back = read_scenes_info(&text).unwrap();
    assert_eq!(back.scenes.len(), 0);
    assert_eq!(back.frames, 0);
}

#[test]
fn description_with_statistics_round_trips() {
    // Write, then read back: boundaries and statistics come out identical.
    let mut info = ScenesInfo { scenes: vec![scene(0, 99), scene(100, 199)], frames: 200 };
    let mut agg = ScoreAggregator::new(1);
    agg.record(15, 82_300);
    agg.record(120, 90_004);
    agg.record(130, 88_500);
    attribute_scores(&mut info, &agg, 40);
    let mut agg2 = ScoreAggregator::new(1);
    agg2.record(15, 73_100);
    agg2.record(120, 80_250);
    attribute_scores(&mut info, &agg2, 50);
    info.scenes[0].final_quantizer_milli = Some(41_250);
    let text = write_scenes_info(&info);
    let back = read_scenes_info(&text).unwrap();
    assert_eq!(back.scenes.len(), 2);
    assert_eq!(back.frames, 200);
    for (a, b) in info.scenes.iter().zip(back.scenes.iter()) {
        assert_eq!(a.start_frame, b.start_frame);
        assert_eq!(a.end_frame, b.end_frame);
        assert_eq!(a.final_quantizer_milli, b.final_quantizer_milli);
        match (&a.quantizer_scores, &b.quantizer_scores) {
            (None, None) => {},
            (Some(ma), Some(mb)) => {
                assert_eq!(ma.len(), mb.len());
                for i in 0..ma.len() {
                    assert_eq!(ma.entry_at(i), mb.entry_at(i));
                }
            },
            _ => panic!("statistics lost in the round trip"),
        }
    }
    // The text itself is stable under a second round trip.
    let again = write_scenes_info(&back);
    assert_eq!(text, again);
}

#[test]
fn negative_and_null_fields_round_trip() {
    let mut s = scene(5, 10);
    s.final_quantizer_milli = None;
    let info = ScenesInfo { scenes: vec![s], frames: 11 };
    let text = write_scenes_info(&info);
    assert!(text.contains("\"final_quantizer\":null"));
    assert!(text.contains("\"quantizer_scores\":null"));
    let back = read_scenes_info(&text).unwrap();
    assert_eq!(back.scenes[0].final_quantizer_milli, None);
    assert!(back.scenes[0].quantizer_scores.is_none());
}

#[test]
fn corrupt_text_is_rejected() {
    assert!(read_scenes_info("").is_none());
    assert!(read_scenes_info("{\"scenes\":[").is_none());
    assert!(read_scenes_info("{\"scenes\":[],\"frames\":}").is_none());
    assert!(read_scenes_info("{\"scenes\":[],\"frames\":5} ").is_none());
    assert!(read_scenes_info("{\"scenes\":[],\"frames\":4294967296}").is_none());
}

#[test]
fn override_records_round_trip() {
    // Solve a scene, attach its override record to the pristine copy, write
    // the override description, and read it back: the record comes back
    // field for field, parameters included.
    let mut info = ScenesInfo { scenes: vec![scene(0, 299)], frames: 300 };
    for (q, mean) in [(50u64, 70_000i64), (45, 76_000), (35, 84_000), (30, 89_000)] {
        let mut agg = ScoreAggregator::new(1);
        agg.record(10, mean);
        attribute_scores(&mut info, &agg, q);
    }
    let mut pristine = ScenesInfo { scenes: vec![scene(0, 299)], frames: 300 };
    let cfg = OverrideConfig {
        encoder: Encoder::SvtAv1,
        speed: 4,
        tiles: 8,
        target_quality_milli: 80_000,
        range: QuantizerRange { lo_milli: 25_000, hi_milli: 55_000 },
        color_range: "0".to_string(),
        matrix: "1".to_string(),
        transfer: "1".to_string(),
        primaries: "1".to_string(),
    };
    zone_overrides(&mut info, &mut pristine, &cfg);
    let text = write_scenes_info(&pristine);
    let back = read_scenes_info(&text).unwrap();
    assert_eq!(back.scenes.len(), 1);
    assert_eq!(back.scenes[0].start_frame, 0);
    assert_eq!(back.scenes[0].end_frame, 299);
    let orig = pristine.scenes[0].zone_overrides.as_ref().unwrap();
    let rec = back.scenes[0].zone_overrides.as_ref().unwrap();
    assert_eq!(rec.encoder, orig.encoder);
    assert_eq!(rec.passes, orig.passes);
    assert_eq!(rec.video_params, orig.video_params);
    assert_eq!(rec.photon_noise, orig.photon_noise);
    assert_eq!(rec.extra_split_sec, orig.extra_split_sec);
    assert_eq!(rec.min_scene_len, orig.min_scene_len);
    // Stable under a second round trip.
    assert_eq!(write_scenes_info(&back), text);
}

#[test]
fn malformed_override_records_are_rejected() {
    let good = "{\"scenes\":[{\"quantizer_scores\":null,\"final_quantizer\":null,\"start_frame\":0,\"end_frame\":9,\"zone_overrides\":{\"encoder\":\"rav1e\",\"passes\":1,\"video_params\":[\"--quantizer\",\"80\"],\"photon_noise\":null,\"extra_split_sec\":10,\"min_scene_len\":24}}],\"frames\":10}";
    let back = read_scenes_info(good).unwrap();
    let rec = back.scenes[0].zone_overrides.as_ref().unwrap();
    assert_eq!(rec.encoder, "rav1e");
    assert_eq!(rec.video_params, vec!["--quantizer".to_string(), "80".to_string()]);
    let bad = good.replace("\"passes\":1", "\"passes\":900");
    assert!(read_scenes_info(&bad).is_none());
    let bad = good.replace(",\"min_scene_len\":24", "");
    assert!(read_scenes_info(&bad).is_none());
}

#[test]
fn score_cache_round_trips() {
    let mut m = qtarget::score_map::SortedMap::<i64>::new();
    m.push_max(0, 70_123);
    m.push_max(10, -2_000);
    m.push_max(20, 91_500);
    let text = write_score_cache(&m);
    assert_eq!(text, "0 70123\n10 -2000\n20 91500\n");
    let back = read_score_cache(&text).unwrap();
    assert_eq!(back.len(), 3);
    for i in 0..3 {
        assert_eq!(back.entry_at(i), m.entry_at(i));
    }
    // Empty caches round trip too.
    let empty = qtarget::score_map::SortedMap::<i64>::new();
    assert_eq!(write_score_cache(&empty), "");
    assert_eq!(read_score_cache("").unwrap().len(), 0);
}

#[test]
fn corrupt_score_caches_are_rejected() {
    assert!(read_score_cache("0 100").is_none());
    assert!(read_score_cache("0 100\n0 200\n").is_none());
    assert!(read_score_cache("10 1\n5 2\n").is_none());
    assert!(read_score_cache("a 1\n").is_none());
    assert!(read_score_cache("1 b\n").is_none());
}
