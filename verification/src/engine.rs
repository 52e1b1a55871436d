//! The frame-pair scoring engine's verified state: the shared decode cursor
//! that hands each worker exactly one frame pair at a time, the bounded
//! running average shown while scoring, the aggregator that restores
//! canonical frame order, and the drain/stall status decision.
//!
//! Workers, decoders and the scoring call itself live outside: a worker loop
//! takes an index from the cursor under a lock, decodes one frame from each
//! stream, computes the score, and records it here.  Scores are fixed-point
//! thousandths of a quality point.

use vstd::prelude::*;
use crate::num_util::{spec_round_div, round_div, sum_seq};
use crate::score_map::{SortedMap, seq_keys};
use crate::stats::SCORE_LIMIT_MILLI;

verus! {

/// Window of the bounded running-average update rule.
pub const AVG_WINDOW: u64 = 10;

/// The shared decode cursor.  Workers take the next frame index from it
/// under mutual exclusion; each index is handed out exactly once, in
/// strictly increasing order, so the handed-out indices can have no
/// duplicates and no gaps.
pub struct PairCursor {
    next: u64,
}

impl PairCursor {
    /// The next frame index that will be handed out.
    pub closed spec fn spec_next(&self) -> u64 {
        self.next
    }

    pub fn new() -> (r: Self)
        ensures
            r.spec_next() == 0,
    {
        PairCursor { next: 0 }
    }

    /// Current position without advancing.
    pub fn peek(&self) -> (i: u64)
        ensures
            i == self.spec_next(),
    {
        self.next
    }

    /// Hand out the current index and advance by `stride` (the number of
    /// frames the caller will read from each decoder while holding the lock).
    pub fn take(&mut self, stride: u64) -> (idx: u64)
        requires
            1 <= stride,
            old(self).spec_next() + stride <= u64::MAX,
        ensures
            idx == old(self).spec_next(),
            final(self).spec_next() == old(self).spec_next() + stride,
    {
        let idx = self.next;
        self.next = self.next + stride;
        idx
    }
}

/// One step of the bounded running-average rule on the exact model
/// `(sum, count, shown)`: while at most `AVG_WINDOW` scores have arrived the
/// exact cumulative sum is kept and the shown value is the rounded mean;
/// after that the shown value moves by a tenth of its distance to each new
/// score, which is the bounded update `avg += (score - avg) / 10` at
/// thousandth precision.
pub open spec fn avg_step(m: (int, int, int), x: int) -> (int, int, int) {
    if m.1 < AVG_WINDOW {
        (m.0 + x, m.1 + 1, spec_round_div(m.0 + x, m.1 + 1))
    } else {
        (m.0, m.1 + 1, m.2 + spec_round_div(x - m.2, AVG_WINDOW as int))
    }
}

/// The model after feeding a whole score sequence from the start state.
pub open spec fn avg_model(s: Seq<int>) -> (int, int, int)
    decreases s.len(),
{
    if s.len() == 0 {
        (0, 0, 0)
    } else {
        avg_step(avg_model(s.drop_last()), s.last())
    }
}

/// Bounded running average for progress reporting.
pub struct RunningAvg {
    sum_milli: i128,
    count: u64,
    avg_milli: i64,
}

impl RunningAvg {
    pub closed spec fn model(&self) -> (int, int, int) {
        (self.sum_milli as int, self.count as int, self.avg_milli as int)
    }

    /// The value shown, in thousandths.
    pub fn shown_milli(&self) -> (a: i64)
        ensures
            a == self.model().2,
    {
        self.avg_milli
    }

    pub fn count(&self) -> (c: u64)
        ensures
            c == self.model().1,
    {
        self.count
    }

    /// Bounds that keep the update in machine range.  The shown value can
    /// overshoot the score range by at most one thousandth per rounding, so
    /// it is boxed one whole point wider.
    pub open spec fn wf(&self) -> bool {
        &&& 0 <= self.model().1 <= u32::MAX
        &&& -(self.model().1 * SCORE_LIMIT_MILLI as int) <= self.model().0 <= self.model().1
            * SCORE_LIMIT_MILLI as int
        &&& -(SCORE_LIMIT_MILLI + 1000) <= self.model().2 <= SCORE_LIMIT_MILLI + 1000
    }

    pub fn new() -> (r: Self)
        ensures
            r.model() == (0int, 0int, 0int),
            r.wf(),
    {
        RunningAvg { sum_milli: 0, count: 0, avg_milli: 0 }
    }

    /// Feed one score; the state moves by exactly one `avg_step`.
    pub fn update(&mut self, score_milli: i64)
        requires
            old(self).wf(),
            old(self).model().1 < u32::MAX,
            -SCORE_LIMIT_MILLI <= score_milli <= SCORE_LIMIT_MILLI,
        ensures
            final(self).wf(),
            final(self).model() == avg_step(old(self).model(), score_milli as int),
    {
        if self.count < AVG_WINDOW {
            proof {
                let s0 = old(self).model().0;
                let c0 = old(self).model().1;
                let x0 = score_milli as int;
                let lim = SCORE_LIMIT_MILLI as int;
                assert(-((c0 + 1) * lim) <= s0 + x0 <= (c0 + 1) * lim) by (nonlinear_arith)
                    requires
                        -(c0 * lim) <= s0 <= c0 * lim,
                        -lim <= x0 <= lim,
                        0 <= c0,
                ;
            }
            self.sum_milli = self.sum_milli + score_milli as i128;
            self.count = self.count + 1;
            let ghost s = self.sum_milli as int;
            let ghost c = self.count as int;
            proof {
                crate::num_util::lemma_round_div_close(s, c);
            }
            let shown = round_div(self.sum_milli, self.count as i128);
            proof {
                assert(-(SCORE_LIMIT_MILLI as int) <= spec_round_div(s, c)
                    <= SCORE_LIMIT_MILLI as int) by (nonlinear_arith)
                    requires
                        1 <= c,
                        -(c * SCORE_LIMIT_MILLI as int) <= s <= c * SCORE_LIMIT_MILLI as int,
                        2 * (s - spec_round_div(s, c) * c) < c,
                        2 * (s - spec_round_div(s, c) * c) >= -c,
                ;
            }
            self.avg_milli = shown as i64;
        } else {
            self.count = self.count + 1;
            let ghost a = self.avg_milli as int;
            let ghost x = score_milli as int;
            proof {
                crate::num_util::lemma_round_div_close(x - a, AVG_WINDOW as int);
            }
            let delta = round_div(score_milli as i128 - self.avg_milli as i128, AVG_WINDOW as i128);
            proof {
                let d = spec_round_div(x - a, AVG_WINDOW as int);
                assert(2 * ((x - a) - d * 10) < 10);
                assert(2 * ((x - a) - d * 10) >= -10);
                // The shown value moves toward the score and overshoots it by
                // less than a unit, so it stays inside the widened box.
                if a <= x {
                    assert(20 * (a + d) <= 18 * a + 2 * x + 10);
                    assert(a + d <= SCORE_LIMIT_MILLI + 1000);
                    assert(20 * (a + d) >= 20 * a - 10);
                    assert(a + d >= -(SCORE_LIMIT_MILLI + 1000));
                } else {
                    assert(20 * (a + d) >= 18 * a + 2 * x - 10);
                    assert(a + d >= -(SCORE_LIMIT_MILLI + 1000));
                    assert(20 * (a + d) <= 20 * a + 10);
                    assert(a + d <= SCORE_LIMIT_MILLI + 1000);
                }
            }
            self.avg_milli = self.avg_milli + delta as i64;
        }
    }
}

/// Feeding at most `AVG_WINDOW` scores through the bounded update rule keeps
/// the exact cumulative sum and count, so the shown value is the rounded
/// plain mean of everything seen: within the window the bounded rule and the
/// closed-form average agree.
pub proof fn lemma_avg_within_window(s: Seq<int>)
    requires
        s.len() <= AVG_WINDOW,
    ensures
        avg_model(s).0 == sum_seq(s),
        avg_model(s).1 == s.len(),
        s.len() > 0 ==> avg_model(s).2 == spec_round_div(sum_seq(s), s.len() as int),
    decreases s.len(),
{
    if s.len() > 0 {
        lemma_avg_within_window(s.drop_last());
    }
}

/// Drain status of the scoring pool, decided from the outstanding-job count
/// and the number of collected results.
#[derive(Clone, Copy, Debug, PartialEq, Eq, Structural)]
pub enum PoolStatus {
    /// Every expected result is in.
    Complete,
    /// No job is in flight yet results are missing: an anomalous but
    /// recoverable state that needs an explicit continue/abort decision.
    Stalled,
    /// Work is still in flight.
    Working,
}

/// Decide the drain status: complete once `collected` reaches `expected`;
/// stalled when nothing is in flight but results are missing; otherwise the
/// pool is still working.
pub fn poll_status(jobs: u64, collected: u64, expected: u64) -> (st: PoolStatus)
    ensures
        st is Complete <==> collected >= expected,
        st is Stalled <==> collected < expected && jobs == 0,
        st is Working <==> collected < expected && jobs > 0,
{
    if collected >= expected {
        PoolStatus::Complete
    } else if jobs == 0 {
        PoolStatus::Stalled
    } else {
        PoolStatus::Working
    }
}

/// Collects per-frame scores, remapping each strided index onto the
/// canonical timeline and keeping the running average current.
pub struct ScoreAggregator {
    results: SortedMap<i64>,
    avg: RunningAvg,
    cycle: u64,
}

impl ScoreAggregator {
    pub closed spec fn spec_results(&self) -> Seq<(u64, i64)> {
        self.results@
    }

    pub closed spec fn spec_avg(&self) -> (int, int, int) {
        self.avg.model()
    }

    pub closed spec fn spec_cycle(&self) -> u64 {
        self.cycle
    }

    pub open spec fn wf(&self) -> bool {
        &&& self.results_wf()
        &&& self.avg_wf()
        &&& 1 <= self.spec_cycle()
        &&& self.values_bounded()
    }

    /// Every recorded score is inside the accepted score range.
    pub open spec fn values_bounded(&self) -> bool {
        forall|i: int|
            0 <= i < self.spec_results().len() ==> -SCORE_LIMIT_MILLI <= (
            #[trigger] self.spec_results()[i]).1 <= SCORE_LIMIT_MILLI
    }

    pub closed spec fn results_wf(&self) -> bool {
        self.results.wf()
    }

    pub closed spec fn avg_wf(&self) -> bool {
        self.avg.wf()
    }

    /// The score recorded for canonical frame `k`, if any.
    pub open spec fn spec_get(&self, k: u64) -> Option<i64> {
        crate::score_map::seq_lookup(self.spec_results(), k)
    }

    pub fn new(cycle: u64) -> (r: Self)
        requires
            1 <= cycle,
        ensures
            r.wf(),
            r.spec_results() =~= Seq::<(u64, i64)>::empty(),
            r.spec_avg() == (0int, 0int, 0int),
            r.spec_cycle() == cycle,
    {
        ScoreAggregator { results: SortedMap::new(), avg: RunningAvg::new(), cycle }
    }

    pub fn result_count(&self) -> (n: usize)
        ensures
            n == self.spec_results().len(),
    {
        self.results.len()
    }

    pub fn shown_avg_milli(&self) -> (a: i64)
        ensures
            a == self.spec_avg().2,
    {
        self.avg.shown_milli()
    }

    /// Entry at a position, in canonical frame order.
    pub fn entry_at(&self, i: usize) -> (e: &(u64, i64))
        requires
            i < self.spec_results().len(),
        ensures
            *e == self.spec_results()[i as int],
    {
        self.results.entry_at(i)
    }

    /// Record one worker result for strided index `frame_idx`: the score is
    /// stored under the canonical index `frame_idx * cycle`, and the running
    /// average takes one step.
    pub fn record(&mut self, frame_idx: u64, score_milli: i64)
        requires
            old(self).wf(),
            frame_idx * old(self).spec_cycle() <= u64::MAX,
            old(self).spec_avg().1 < u32::MAX,
            -SCORE_LIMIT_MILLI <= score_milli <= SCORE_LIMIT_MILLI,
        ensures
            final(self).wf(),
            final(self).spec_cycle() == old(self).spec_cycle(),
            final(self).spec_get(mul_u64(frame_idx, old(self).spec_cycle())) == Some(score_milli),
            forall|k: u64|
                k != mul_u64(frame_idx, old(self).spec_cycle()) ==> final(self).spec_get(k)
                    == old(self).spec_get(k),
            old(self).spec_get(mul_u64(frame_idx, old(self).spec_cycle())) is None
                ==> final(self).spec_results().len() == old(self).spec_results().len() + 1,
            old(self).spec_get(mul_u64(frame_idx, old(self).spec_cycle())) is Some
                ==> final(self).spec_results().len() == old(self).spec_results().len(),
            final(self).spec_avg() == avg_step(old(self).spec_avg(), score_milli as int),
            seq_keys(final(self).spec_results()).to_set() == seq_keys(
                old(self).spec_results(),
            ).to_set().insert(mul_u64(frame_idx, old(self).spec_cycle())),
    {
        let key = frame_idx * self.cycle;
        self.results.insert(key, score_milli);
        self.avg.update(score_milli);
        proof {
            assert(key == mul_u64(frame_idx, old(self).spec_cycle()));
            assert forall|k2: u64| k2 != key implies crate::score_map::seq_lookup(
                self.results@,
                k2,
            ) == crate::score_map::seq_lookup(old(self).results@, k2) by {
                assert(self.results.spec_get(k2) == old(self).results.spec_get(k2));
            }
            assert forall|i: int|
                0 <= i < self.spec_results().len() implies -SCORE_LIMIT_MILLI <= (
            #[trigger] self.spec_results()[i]).1 <= SCORE_LIMIT_MILLI by {
                if self.spec_results()[i] != (key, score_milli) {
                    assert(old(self).spec_results().contains(self.spec_results()[i]));
                    let j = choose|j: int|
                        0 <= j < old(self).spec_results().len() && old(self).spec_results()[j]
                            == self.spec_results()[i];
                    assert(old(self).values_bounded());
                }
            }
        }
    }
}

/// Truncating-free product of two `u64` values that is known to fit.
pub open spec fn mul_u64(a: u64, b: u64) -> u64
    recommends
        a * b <= u64::MAX,
{
    (a * b) as u64
}

/// Completion of a scoring round, whatever order results arrived in: if the
/// aggregator holds a score for every canonical index `i * cycle` with
/// `i < n`, and holds exactly `n` results, then its key set is exactly the
/// canonical index set — no duplicates, no gaps, no strays.
pub proof fn lemma_pool_complete(agg: &ScoreAggregator, n: u64)
    requires
        agg.wf(),
        agg.spec_results().len() == n,
        forall|i: u64| i < n ==> agg.spec_get(mul_u64(i, agg.spec_cycle())) is Some,
        n * agg.spec_cycle() <= u64::MAX,
    ensures
        seq_keys(agg.spec_results()).to_set() == Set::new(
            |k: u64| exists|i: u64| i < n && k == mul_u64(i, agg.spec_cycle()),
        ),
{
    let ks = seq_keys(agg.spec_results());
    let canon = Set::new(|k: u64| exists|i: u64| i < n && k == mul_u64(i, agg.spec_cycle()));
    let c = agg.spec_cycle();
    // Each canonical index is a key.
    assert forall|k: u64| canon.contains(k) implies ks.to_set().contains(k) by {
        let i = choose|i: u64| i < n && k == mul_u64(i, c);
        lemma_lookup_some_in_keys(agg.spec_results(), k);
    }
    // The canonical set is the image of 0..n under an injective map, so it
    // has exactly n elements.
    let idx_int = vstd::set_lib::set_int_range(0, n as int);
    vstd::set_lib::lemma_int_range(0, n as int);
    let to_u64 = |i: int| i as u64;
    let idx = idx_int.map(to_u64);
    assert(vstd::relations::injective_on(to_u64, idx_int));
    vstd::set_lib::lemma_map_size(idx_int, idx, to_u64);
    let stride_key = |i: u64| mul_u64(i, c);
    assert forall|i: u64| i < n implies #[trigger] (i * c) <= u64::MAX by {
        assert(i * c <= n * c) by (nonlinear_arith)
            requires
                i < n,
                c >= 1,
        ;
    }
    assert(vstd::relations::injective_on(stride_key, idx)) by {
        assert forall|i: u64, j: u64|
            idx.contains(i) && idx.contains(j) && stride_key(i) == stride_key(j) implies i == j by {
            assert(i < n && j < n);
            assert(i * c == j * c ==> i == j) by (nonlinear_arith)
                requires
                    c >= 1,
            ;
        }
    }
    assert forall|k: u64| canon.contains(k) implies idx.map(stride_key).contains(k) by {
        let i = choose|i: u64| i < n && k == mul_u64(i, c);
        assert(idx_int.contains(i as int));
        assert(to_u64(i as int) == i);
        assert(idx.contains(i));
        assert(stride_key(i) == k);
    }
    assert forall|k: u64| idx.map(stride_key).contains(k) implies canon.contains(k) by {
        let i = choose|i: u64| idx.contains(i) && k == stride_key(i);
        let j = choose|j: int| idx_int.contains(j) && i == to_u64(j);
        assert(i < n);
    }
    assert(canon =~= idx.map(stride_key));
    vstd::set_lib::lemma_map_size(idx, canon, stride_key);
    // Keys are strictly sorted, hence duplicate-free, hence exactly n of them.
    assert(ks.no_duplicates()) by {
        assert forall|i: int, j: int| 0 <= i < ks.len() && 0 <= j < ks.len() && i != j implies ks[i]
            != ks[j] by {
            if i < j {
                assert(agg.spec_results()[i].0 < agg.spec_results()[j].0);
            } else {
                assert(agg.spec_results()[j].0 < agg.spec_results()[i].0);
            }
        }
    }
    ks.unique_seq_to_set();
    vstd::set_lib::lemma_len_subset(canon, ks.to_set());
    vstd::set_lib::lemma_subset_equality(canon, ks.to_set());
}

/// A key that looks up to a value occurs in the key sequence.
proof fn lemma_lookup_some_in_keys(s: Seq<(u64, i64)>, k: u64)
    requires
        crate::score_map::seq_lookup(s, k) is Some,
    ensures
        seq_keys(s).contains(k),
    decreases s.len(),
{
    if s.len() > 0 {
        if s.last().0 == k {
            assert(seq_keys(s)[s.len() - 1] == k);
        } else {
            lemma_lookup_some_in_keys(s.drop_last(), k);
            let i = choose|i: int| 0 <= i < s.len() - 1 && seq_keys(s.drop_last())[i] == k;
            assert(seq_keys(s)[i] == k);
        }
    }
}

/// The injected recovery policy for a stalled round: accept the partial
/// result set, or abort the round with nothing written.
#[derive(Clone, Copy, Debug, PartialEq, Eq, Structural)]
pub enum StallPolicy {
    AcceptPartial,
    Abort,
}

/// What the driver must do next with a scoring round.
#[derive(Clone, Copy, Debug, PartialEq, Eq, Structural)]
pub enum StallAction {
    /// Every expected result is in: finish the round.
    Finish,
    /// Work is in flight: keep waiting.
    KeepWaiting,
    /// Stalled, and the policy accepts the partial results.
    AcceptPartial,
    /// Stalled, and the policy aborts: write nothing.
    Abort,
}

/// Decide the next step from the drain status and the recovery policy:
/// a complete round finishes, a working round waits, and a stalled round
/// goes the way the injected policy says.
pub fn stall_action(st: PoolStatus, policy: StallPolicy) -> (a: StallAction)
    ensures
        st is Complete ==> a is Finish,
        st is Working ==> a is KeepWaiting,
        st is Stalled && policy is AcceptPartial ==> a is AcceptPartial,
        st is Stalled && policy is Abort ==> a is Abort,
{
    match st {
        PoolStatus::Complete => StallAction::Finish,
        PoolStatus::Working => StallAction::KeepWaiting,
        PoolStatus::Stalled => match policy {
            StallPolicy::AcceptPartial => StallAction::AcceptPartial,
            StallPolicy::Abort => StallAction::Abort,
        },
    }
}

} // verus!
