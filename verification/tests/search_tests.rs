use qtarget::search::{calculate_quantizer, quantizer_range, range_ok, solve_target_quantizer,
    Encoder, QuantizerRange, TrialPoint};

fn svt_range() -> QuantizerRange {
    QuantizerRange { lo_milli: 25_000, hi_milli: 55_000 }
}

#[test]
fn trial_quantizers_stay_in_range() {
    let range = svt_range();
    for modifier in [-2i8, -1, 1, 2] {
        let q = calculate_quantizer(40_000, 5_000, modifier, &range);
        assert!(q >= range.lo_milli && q <= range.hi_milli);
    }
    // A base far above the range clamps to the upper bound.
    let q = calculate_quantizer(200_000, 5_000, 2, &range);
    assert_eq!(q, 55_000);
    // A base far below clamps to the lower bound.
    let q = calculate_quantizer(0, 5_000, -2, &range);
    assert_eq!(q, 25_000);
}

#[test]
fn trial_quantizer_exact_values() {
    let range = svt_range();
    assert_eq!(calculate_quantizer(40_000, 5_000, 2, &range), 50_000);
    assert_eq!(calculate_quantizer(40_000, 5_000, 1, &range), 45_000);
    assert_eq!(calculate_quantizer(40_000, 5_000, -1, &range), 35_000);
    assert_eq!(calculate_quantizer(40_000, 5_000, -2, &range), 30_000);
}

#[test]
fn default_ranges_per_encoder() {
    let r = quantizer_range(&None, Encoder::SvtAv1);
    assert_eq!((r.lo_milli, r.hi_milli), (25_000, 55_000));
    let r = quantizer_range(&None, Encoder::Rav1e);
    assert_eq!((r.lo_milli, r.hi_milli), (40_000, 160_000));
}

#[test]
fn range_override_parses() {
    let r = quantizer_range(&Some("[30, 50.5]".to_string()), Encoder::SvtAv1);
    assert_eq!((r.lo_milli, r.hi_milli), (30_000, 50_500));
    let r = quantizer_range(&Some("[40.25,160]".to_string()), Encoder::Rav1e);
    assert_eq!((r.lo_milli, r.hi_milli), (40_250, 160_000));
}

#[test]
fn end_to_end_curve_solution() {
    // Scene [0,299]; range [25,55]; base 40; step 5; trials at q=50,45,35,30
    // gave compensated means 71, 77, 85, 90.  Target 80 lies between the
    // 45->77 and 35->85 points, so the fitted curve lands strictly between
    // 35 and 45 and is then put on the quarter grid.
    let trials = vec![
        TrialPoint { score_milli: 71_000, quantizer_milli: 50_000 },
        TrialPoint { score_milli: 77_000, quantizer_milli: 45_000 },
        TrialPoint { score_milli: 85_000, quantizer_milli: 35_000 },
        TrialPoint { score_milli: 90_000, quantizer_milli: 30_000 },
    ];
    let q = solve_target_quantizer(&trials, 80_000, &svt_range(), Encoder::SvtAv1);
    assert!(q > 35_000 && q < 45_000);
    assert_eq!(q % 250, 0);
    assert_eq!(q, 41_250);
}

#[test]
fn curve_solution_matches_float_fit() {
    // The exact rational interpolation agrees with the floating-point
    // least-squares fit of the same four points.
    let scores = [71.0f64, 77.0, 85.0, 90.0];
    let quants = [50.0f64, 45.0, 35.0, 30.0];
    let coeffs = polyfit_rs::polyfit_rs::polyfit(&scores, &quants, 3).unwrap();
    let poly = polynomial::Polynomial::new(coeffs);
    let v = poly.eval(80.0f64).clamp(25.0, 55.0);
    let rounded = (v * 4.0).round() / 4.0;
    let trials = vec![
        TrialPoint { score_milli: 71_000, quantizer_milli: 50_000 },
        TrialPoint { score_milli: 77_000, quantizer_milli: 45_000 },
        TrialPoint { score_milli: 85_000, quantizer_milli: 35_000 },
        TrialPoint { score_milli: 90_000, quantizer_milli: 30_000 },
    ];
    let q = solve_target_quantizer(&trials, 80_000, &svt_range(), Encoder::SvtAv1);
    assert!((q as f64 / 1000.0 - rounded).abs() < 1e-9);
}

#[test]
fn degenerate_fit_falls_back_to_upper_bound() {
    // Four trial points with the same compensated mean collapse to one
    // point, the fit is degenerate, and the range's upper bound is emitted.
    let trials = vec![
        TrialPoint { score_milli: 80_000, quantizer_milli: 50_000 },
        TrialPoint { score_milli: 80_000, quantizer_milli: 45_000 },
        TrialPoint { score_milli: 80_000, quantizer_milli: 35_000 },
        TrialPoint { score_milli: 80_000, quantizer_milli: 30_000 },
    ];
    let q = solve_target_quantizer(&trials, 80_000, &svt_range(), Encoder::SvtAv1);
    assert_eq!(q, 55_000);
    let q = solve_target_quantizer(
        &trials,
        80_000,
        &QuantizerRange { lo_milli: 40_000, hi_milli: 160_000 },
        Encoder::Rav1e,
    );
    assert_eq!(q, 160_000);
}

#[test]
fn rav1e_grid_truncates_whole_quantizers() {
    // Two points describe a line from (70, 100) to (90, 60); the target 80
    // solves to 80 exactly; a target of 81 solves to 78 and truncates.
    let trials = vec![
        TrialPoint { score_milli: 70_000, quantizer_milli: 100_000 },
        TrialPoint { score_milli: 90_000, quantizer_milli: 60_000 },
    ];
    let range = QuantizerRange { lo_milli: 40_000, hi_milli: 160_000 };
    let q = solve_target_quantizer(&trials, 80_000, &range, Encoder::Rav1e);
    assert_eq!(q, 80_000);
    let q = solve_target_quantizer(&trials, 81_000, &range, Encoder::Rav1e);
    assert_eq!(q, 78_000);
}

#[test]
fn solution_clamps_into_range() {
    // A target above every trial score solves past the range and clamps.
    let trials = vec![
        TrialPoint { score_milli: 70_000, quantizer_milli: 50_000 },
        TrialPoint { score_milli: 90_000, quantizer_milli: 30_000 },
    ];
    let q = solve_target_quantizer(&trials, 100_000, &svt_range(), Encoder::SvtAv1);
    assert_eq!(q, 25_000);
    let q = solve_target_quantizer(&trials, 0, &svt_range(), Encoder::SvtAv1);
    assert_eq!(q, 55_000);
}

#[test]
fn range_checker_decides_the_grammar() {
    assert!(range_ok(&None));
    assert!(range_ok(&Some("[25,55]".to_string())));
    assert!(range_ok(&Some(" [ 25 , 55.25 ] ".to_string())));
    // Tabs, signs, inverted bounds and out-of-cap bounds are rejected.
    assert!(!range_ok(&Some("\t[25,55]".to_string())));
    assert!(!range_ok(&Some("[+25,55]".to_string())));
    assert!(!range_ok(&Some("[55,25]".to_string())));
    assert!(!range_ok(&Some("[25,300]".to_string())));
    assert!(!range_ok(&Some("[25,55] x".to_string())));
    assert!(!range_ok(&Some("25,55".to_string())));
}
