use qtarget::engine::{stall_action, poll_status, PairCursor, PoolStatus, RunningAvg,
    ScoreAggregator, StallAction, StallPolicy};

#[test]
fn cursor_hands_out_consecutive_indices() {
    let mut c = PairCursor::new();
    assert_eq!(c.take(1), 0);
    assert_eq!(c.take(1), 1);
    assert_eq!(c.take(1), 2);
    assert_eq!(c.peek(), 3);
    let mut s = PairCursor::new();
    assert_eq!(s.take(3), 0);
    assert_eq!(s.take(3), 3);
    assert_eq!(s.take(3), 6);
}

#[test]
fn running_average_equals_plain_mean_within_window() {
    // Feeding at most ten scores reproduces the closed-form average.
    let scores: [i64; 10] = [81_000, 79_500, 83_250, 90_000, 62_000, 70_125, 88_000, 75_300,
        80_000, 91_750];
    let mut avg = RunningAvg::new();
    let mut sum: i64 = 0;
    for (k, s) in scores.iter().enumerate() {
        avg.update(*s);
        sum += *s;
        let n = (k + 1) as i64;
        // Rounded to the nearest thousandth, halves up.
        let expect = (2 * sum + n).div_euclid(2 * n);
        assert_eq!(avg.shown_milli(), expect);
    }
}

#[test]
fn running_average_deviates_past_window() {
    // After the window fills, the bounded rule moves a tenth of the gap, so
    // it is no longer the cumulative mean.
    let mut avg = RunningAvg::new();
    for _ in 0..10 {
        avg.update(50_000);
    }
    assert_eq!(avg.shown_milli(), 50_000);
    avg.update(100_000);
    // Bounded rule: 50 + (100 - 50) / 10 = 55.
    assert_eq!(avg.shown_milli(), 55_000);
    // Cumulative mean would be (10 * 50 + 100) / 11 = 54.545...
    let cumulative = (10 * 50_000 + 100_000) / 11;
    assert_ne!(avg.shown_milli(), cumulative);
}

fn run_pool(workers: usize, frames: u64) -> ScoreAggregator {
    // A deterministic schedule standing in for a worker pool: each worker
    // repeatedly takes the next index from the shared cursor, computes a
    // synthetic score, and records it; workers interleave round-robin and
    // hold completed work back so results arrive out of order.
    let mut cursor = PairCursor::new();
    let mut agg = ScoreAggregator::new(1);
    let mut pending: Vec<Vec<(u64, i64)>> = vec![Vec::new(); workers];
    let mut w = 0usize;
    while cursor.peek() < frames {
        let idx = cursor.take(1);
        let score = 60_000 + (idx as i64 % 37) * 1000;
        pending[w].push((idx, score));
        // Each worker flushes once it holds three results, modelling
        // unordered completion.
        if pending[w].len() == 3 {
            while let Some((i, s)) = pending[w].pop() {
                agg.record(i, s);
            }
        }
        w = (w + 1) % workers;
    }
    for q in pending.iter_mut() {
        while let Some((i, s)) = q.pop() {
            agg.record(i, s);
        }
    }
    agg
}

#[test]
fn pool_results_complete_for_every_worker_count() {
    for workers in [1usize, 4, 16] {
        let agg = run_pool(workers, 500);
        assert_eq!(agg.result_count(), 500);
        for i in 0..500usize {
            let e = agg.entry_at(i);
            assert_eq!(e.0, i as u64);
            assert_eq!(e.1, 60_000 + (i as i64 % 37) * 1000);
        }
    }
}

#[test]
fn strided_results_land_on_canonical_indices() {
    let mut agg = ScoreAggregator::new(10);
    agg.record(0, 70_000);
    agg.record(2, 72_000);
    agg.record(1, 71_000);
    assert_eq!(agg.result_count(), 3);
    assert_eq!(*agg.entry_at(0), (0, 70_000));
    assert_eq!(*agg.entry_at(1), (10, 71_000));
    assert_eq!(*agg.entry_at(2), (20, 72_000));
}

#[test]
fn repeated_index_replaces_not_duplicates() {
    let mut agg = ScoreAggregator::new(1);
    agg.record(7, 50_000);
    agg.record(7, 60_000);
    assert_eq!(agg.result_count(), 1);
    assert_eq!(*agg.entry_at(0), (7, 60_000));
}

#[test]
fn drain_status_decisions() {
    assert!(matches!(poll_status(3, 500, 500), PoolStatus::Complete));
    assert!(matches!(poll_status(0, 600, 500), PoolStatus::Complete));
    assert!(matches!(poll_status(0, 400, 500), PoolStatus::Stalled));
    assert!(matches!(poll_status(2, 400, 500), PoolStatus::Working));
}

#[test]
fn stall_policy_drives_the_recovery() {
    let complete = poll_status(0, 500, 500);
    let stalled = poll_status(0, 400, 500);
    let working = poll_status(2, 400, 500);
    assert!(matches!(stall_action(complete, StallPolicy::Abort), StallAction::Finish));
    assert!(matches!(stall_action(working, StallPolicy::Abort), StallAction::KeepWaiting));
    assert!(matches!(
        stall_action(stalled, StallPolicy::AcceptPartial),
        StallAction::AcceptPartial
    ));
    assert!(matches!(stall_action(stalled, StallPolicy::Abort), StallAction::Abort));
}
