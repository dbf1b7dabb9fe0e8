//! Sliding-window breakout detector.
//!
//! One detector runs per symbol. It keeps a bounded FIFO window of pressure
//! snapshots and fires a breakout signal when the most recent
//! `min_consecutive` readings are all extreme on the same side, and the
//! average notional behind them clears a floor.

use std::collections::VecDeque;

use vstd::prelude::*;

use crate::fixed::{NOTIONAL_CAP, PCT_100, PCT_SCALE};

verus! {

/// One pressure reading, produced from a qualifying depth update.
///
/// Invariant: `bid_pressure_pct` lies in `[0, 100]` percent and
/// `total_notional` is a capped notional sum.
#[derive(Clone, Copy)]
pub struct DepthSnapshot {
    /// Bid-side share of the total notional, in `PCT_SCALE` units per
    /// percentage point.
    pub bid_pressure_pct: u64,
    /// Total (bid plus ask) notional behind the reading.
    pub total_notional: u128,
}

/// The ranges a snapshot produced by the pipeline always satisfies.
pub open spec fn snapshot_valid(s: DepthSnapshot) -> bool {
    s.bid_pressure_pct <= PCT_100 && s.total_notional <= NOTIONAL_CAP
}

/// Signal returned by each push: a breakout on one side, or nothing.
///
/// A bearish breakout reports the *sell*-side percentage, not the raw bid
/// percentage.
#[derive(Clone, Copy, Debug, PartialEq, Eq, Structural)]
pub enum BigMoveSignal {
    BullishBreakout { avg_pressure: u64, total_notional: u128 },
    BearishBreakout { avg_pressure: u64, total_notional: u128 },
    NoSignal,
}

/// Sum of the pressure percentages of `w`.
pub open spec fn sum_pct(w: Seq<DepthSnapshot>) -> int
    decreases w.len(),
{
    if w.len() == 0 {
        0
    } else {
        sum_pct(w.drop_last()) + w.last().bid_pressure_pct
    }
}

/// Sum of the total notionals of `w`.
pub open spec fn sum_notional(w: Seq<DepthSnapshot>) -> int
    decreases w.len(),
{
    if w.len() == 0 {
        0
    } else {
        sum_notional(w.drop_last()) + w.last().total_notional
    }
}

/// The `k` most recent entries of `w`, oldest of them first.
pub open spec fn recent(w: Seq<DepthSnapshot>, k: nat) -> Seq<DepthSnapshot>
    recommends
        k <= w.len(),
{
    w.skip(w.len() - k)
}

/// Every entry has bid pressure at or above the threshold `t`.
pub open spec fn all_bullish(w: Seq<DepthSnapshot>, t: u64) -> bool {
    forall|i: int| 0 <= i < w.len() ==> #[trigger] w[i].bid_pressure_pct >= t
}

/// Every entry has sell pressure (100 percent minus bid pressure) at or
/// above the threshold `t`.
pub open spec fn all_bearish(w: Seq<DepthSnapshot>, t: u64) -> bool {
    forall|i: int| 0 <= i < w.len() ==> PCT_100 - #[trigger] w[i].bid_pressure_pct >= t
}

/// The window after appending `s` to `w` under capacity `cap`: the oldest
/// entry is evicted first when the window is full.
pub open spec fn pushed_window(
    w: Seq<DepthSnapshot>,
    cap: nat,
    s: DepthSnapshot,
) -> Seq<DepthSnapshot> {
    if w.len() >= cap {
        w.drop_first().push(s)
    } else {
        w.push(s)
    }
}

/// The signal a window `w` yields under threshold `t`, notional floor
/// `min_n` and run length `k`: nothing while history is insufficient;
/// otherwise a breakout on the side on which all of the `k` most recent
/// readings are extreme, provided their average notional clears the floor.
pub open spec fn window_signal(w: Seq<DepthSnapshot>, t: u64, min_n: u128, k: nat) -> BigMoveSignal {
    if k == 0 || w.len() < k {
        BigMoveSignal::NoSignal
    } else {
        let r = recent(w, k);
        let avg_p = sum_pct(r) / k as int;
        let avg_n = sum_notional(r) / k as int;
        if !all_bullish(r, t) && !all_bearish(r, t) {
            BigMoveSignal::NoSignal
        } else if avg_n < min_n {
            BigMoveSignal::NoSignal
        } else if all_bullish(r, t) {
            BigMoveSignal::BullishBreakout {
                avg_pressure: avg_p as u64,
                total_notional: avg_n as u128,
            }
        } else {
            BigMoveSignal::BearishBreakout {
                avg_pressure: (PCT_100 - avg_p) as u64,
                total_notional: avg_n as u128,
            }
        }
    }
}

/// Why the threshold must exceed 50 percent: above that line a non-empty
/// run can never read as bullish and bearish at once, so the detector
/// never faces an ambiguous signal.
pub proof fn lemma_signal_sides_exclusive(w: Seq<DepthSnapshot>, t: u64)
    requires
        t > 50 * PCT_SCALE,
        w.len() > 0,
    ensures
        !(all_bullish(w, t) && all_bearish(w, t)),
{
    if all_bullish(w, t) && all_bearish(w, t) {
        assert(w[0].bid_pressure_pct >= t);
        assert(PCT_100 - w[0].bid_pressure_pct >= t);
    }
}

/// The window contents after pushing each snapshot of `snaps` in order.
pub open spec fn pushed_all(
    w: Seq<DepthSnapshot>,
    cap: nat,
    snaps: Seq<DepthSnapshot>,
) -> Seq<DepthSnapshot>
    decreases snaps.len(),
{
    if snaps.len() == 0 {
        w
    } else {
        pushed_window(pushed_all(w, cap, snaps.drop_last()), cap, snaps.last())
    }
}

/// The eviction invariant: a push never grows the window beyond the
/// configured capacity, however many pushes have gone before.
pub proof fn lemma_window_bounded(w: Seq<DepthSnapshot>, cap: nat, s: DepthSnapshot)
    requires
        w.len() <= cap,
        1 <= cap,
    ensures
        pushed_window(w, cap, s).len() <= cap,
{
}

/// Pushing at most `cap` snapshots into an empty window keeps them all, in
/// order.
pub proof fn lemma_pushed_all_from_empty(cap: nat, snaps: Seq<DepthSnapshot>)
    requires
        snaps.len() <= cap,
    ensures
        pushed_all(Seq::<DepthSnapshot>::empty(), cap, snaps) == snaps,
    decreases snaps.len(),
{
    if snaps.len() > 0 {
        lemma_pushed_all_from_empty(cap, snaps.drop_last());
        assert(pushed_window(snaps.drop_last(), cap, snaps.last()) =~= snaps);
    }
}

proof fn lemma_sum_pct_const(w: Seq<DepthSnapshot>, p: u64)
    requires
        forall|i: int| 0 <= i < w.len() ==> #[trigger] w[i].bid_pressure_pct == p,
    ensures
        sum_pct(w) == w.len() * p,
    decreases w.len(),
{
    if w.len() > 0 {
        assert(forall|i: int|
            0 <= i < w.len() - 1 ==> w.drop_last()[i] == #[trigger] w[i]);
        lemma_sum_pct_const(w.drop_last(), p);
        assert((w.len() - 1) * p + p == w.len() * p) by (nonlinear_arith);
    }
}

proof fn lemma_sum_notional_bounds(w: Seq<DepthSnapshot>, lo: u128, hi: u128)
    requires
        forall|i: int| 0 <= i < w.len() ==> lo <= #[trigger] w[i].total_notional <= hi,
    ensures
        w.len() * lo <= sum_notional(w) <= w.len() * hi,
    decreases w.len(),
{
    if w.len() == 0 {
    } else {
        assert(forall|i: int|
            0 <= i < w.len() - 1 ==> w.drop_last()[i] == #[trigger] w[i]);
        lemma_sum_notional_bounds(w.drop_last(), lo, hi);
        assert((w.len() - 1) * lo + lo == w.len() * lo) by (nonlinear_arith);
        assert((w.len() - 1) * hi + hi == w.len() * hi) by (nonlinear_arith);
    }
}

/// A run of `k` snapshots all at 100 percent bid pressure, each with
/// notional at or above the floor, fed into a fresh window, yields no
/// signal before the `k`-th push and exactly a bullish breakout (average
/// pressure 100 percent) on the `k`-th.
pub proof fn lemma_bullish_run_fires_on_kth(
    snaps: Seq<DepthSnapshot>,
    cap: nat,
    t: u64,
    min_n: u128,
    k: nat,
)
    requires
        1 <= k,
        k == snaps.len(),
        k <= cap,
        t <= PCT_100,
        forall|i: int| 0 <= i < snaps.len() ==> snapshot_valid(#[trigger] snaps[i]),
        forall|i: int| 0 <= i < snaps.len() ==> #[trigger] snaps[i].bid_pressure_pct == PCT_100,
        forall|i: int| 0 <= i < snaps.len() ==> #[trigger] snaps[i].total_notional >= min_n,
    ensures
        forall|j: int|
            0 <= j < k ==> window_signal(
                pushed_all(Seq::<DepthSnapshot>::empty(), cap, snaps.take(j)),
                t,
                min_n,
                k,
            ) == BigMoveSignal::NoSignal,
        window_signal(pushed_all(Seq::<DepthSnapshot>::empty(), cap, snaps), t, min_n, k)
            == (BigMoveSignal::BullishBreakout {
            avg_pressure: PCT_100,
            total_notional: (sum_notional(snaps) / k as int) as u128,
        }),
{
    assert forall|j: int| 0 <= j < k implies window_signal(
        pushed_all(Seq::<DepthSnapshot>::empty(), cap, snaps.take(j)),
        t,
        min_n,
        k,
    ) == BigMoveSignal::NoSignal by {
        lemma_pushed_all_from_empty(cap, snaps.take(j));
        assert(snaps.take(j).len() == j < k);
    }
    lemma_pushed_all_from_empty(cap, snaps);
    let r = recent(snaps, k);
    assert(r =~= snaps);
    assert(all_bullish(r, t));
    lemma_sum_pct_const(r, PCT_100);
    assert(sum_pct(r) / k as int == PCT_100) by (nonlinear_arith)
        requires
            1 <= k,
            sum_pct(r) == k * PCT_100,
    ;
    lemma_sum_notional_bounds(r, min_n, NOTIONAL_CAP);
    assert(min_n <= sum_notional(r) / k as int <= NOTIONAL_CAP) by (nonlinear_arith)
        requires
            1 <= k,
            k * min_n <= sum_notional(r) <= k * NOTIONAL_CAP,
    ;
}

/// The mirrored run: `k` snapshots all at 0 percent bid pressure yield a
/// bearish breakout whose reported pressure is the sell-side 100 percent,
/// not the raw 0.
pub proof fn lemma_bearish_run_fires_on_kth(
    snaps: Seq<DepthSnapshot>,
    cap: nat,
    t: u64,
    min_n: u128,
    k: nat,
)
    requires
        1 <= k,
        k == snaps.len(),
        k <= cap,
        1 <= t <= PCT_100,
        forall|i: int| 0 <= i < snaps.len() ==> snapshot_valid(#[trigger] snaps[i]),
        forall|i: int| 0 <= i < snaps.len() ==> #[trigger] snaps[i].bid_pressure_pct == 0,
        forall|i: int| 0 <= i < snaps.len() ==> #[trigger] snaps[i].total_notional >= min_n,
    ensures
        forall|j: int|
            0 <= j < k ==> window_signal(
                pushed_all(Seq::<DepthSnapshot>::empty(), cap, snaps.take(j)),
                t,
                min_n,
                k,
            ) == BigMoveSignal::NoSignal,
        window_signal(pushed_all(Seq::<DepthSnapshot>::empty(), cap, snaps), t, min_n, k)
            == (BigMoveSignal::BearishBreakout {
            avg_pressure: PCT_100,
            total_notional: (sum_notional(snaps) / k as int) as u128,
        }),
{
    assert forall|j: int| 0 <= j < k implies window_signal(
        pushed_all(Seq::<DepthSnapshot>::empty(), cap, snaps.take(j)),
        t,
        min_n,
        k,
    ) == BigMoveSignal::NoSignal by {
        lemma_pushed_all_from_empty(cap, snaps.take(j));
        assert(snaps.take(j).len() == j < k);
    }
    lemma_pushed_all_from_empty(cap, snaps);
    let r = recent(snaps, k);
    assert(r =~= snaps);
    assert(!all_bullish(r, t)) by {
        assert(r[0].bid_pressure_pct == 0 < t);
    }
    assert(all_bearish(r, t));
    lemma_sum_pct_const(r, 0);
    assert(sum_pct(r) / k as int == 0) by (nonlinear_arith)
        requires
            1 <= k,
            sum_pct(r) == 0,
    ;
    lemma_sum_notional_bounds(r, min_n, NOTIONAL_CAP);
    assert(min_n <= sum_notional(r) / k as int <= NOTIONAL_CAP) by (nonlinear_arith)
        requires
            1 <= k,
            k * min_n <= sum_notional(r) <= k * NOTIONAL_CAP,
    ;
}

/// Ghost model of a detector: its window and its configuration.
pub ghost struct DetectorModel {
    pub window: Seq<DepthSnapshot>,
    pub window_size: nat,
    pub pressure_threshold: u64,
    pub min_total_notional: u128,
    pub min_consecutive: nat,
}

/// Rolling window of depth pressure snapshots for one symbol.
pub struct BigMoveDetector {
    window: VecDeque<DepthSnapshot>,
    window_size: usize,
    /// Threshold in `PCT_SCALE` units per point; must exceed 50 percent so
    /// that a window can never read as bullish and bearish at once.
    pressure_threshold: u64,
    /// Minimum average notional for a signal to be meaningful.
    min_total_notional: u128,
    /// How many consecutive same-side extreme readings are required.
    min_consecutive: usize,
}

impl View for BigMoveDetector {
    type V = DetectorModel;

    closed spec fn view(&self) -> DetectorModel {
        DetectorModel {
            window: self.window@,
            window_size: self.window_size as nat,
            pressure_threshold: self.pressure_threshold,
            min_total_notional: self.min_total_notional,
            min_consecutive: self.min_consecutive as nat,
        }
    }
}

impl BigMoveDetector {
    /// Well-formedness: the configuration is in range and the window holds
    /// at most `window_size` valid snapshots.
    pub open spec fn wf(&self) -> bool {
        &&& 1 <= self@.window_size <= 1_000_000
        &&& 1 <= self@.min_consecutive
        &&& 50 * PCT_SCALE < self@.pressure_threshold <= PCT_100
        &&& self@.window.len() <= self@.window_size
        &&& forall|i: int|
            0 <= i < self@.window.len() ==> snapshot_valid(#[trigger] self@.window[i])
    }

    /// Creates a detector with an empty window.
    ///
    /// The bounds on the arguments are the documented preconditions of the
    /// detector: a positive bounded capacity, a positive run length, and a
    /// threshold strictly above 50 percent (so that the two sides are
    /// mutually exclusive) and at most 100 percent.
    pub fn new(
        window_size: usize,
        pressure_threshold: u64,
        min_total_notional: u128,
        min_consecutive: usize,
    ) -> (r: Self)
        requires
            1 <= window_size <= 1_000_000,
            1 <= min_consecutive,
            50 * PCT_SCALE < pressure_threshold <= PCT_100,
        ensures
            r.wf(),
            r@.window == Seq::<DepthSnapshot>::empty(),
            r@.window_size == window_size,
            r@.pressure_threshold == pressure_threshold,
            r@.min_total_notional == min_total_notional,
            r@.min_consecutive == min_consecutive,
    {
        BigMoveDetector {
            window: VecDeque::with_capacity(window_size),
            window_size,
            pressure_threshold,
            min_total_notional,
            min_consecutive,
        }
    }

    /// Pushes a snapshot into the window (evicting the oldest entry when
    /// full) and evaluates the window for a breakout.
    pub fn push(&mut self, snapshot: DepthSnapshot) -> (r: BigMoveSignal)
        requires
            old(self).wf(),
            snapshot_valid(snapshot),
        ensures
            final(self).wf(),
            final(self)@.window == pushed_window(
                old(self)@.window,
                old(self)@.window_size,
                snapshot,
            ),
            final(self)@.window_size == old(self)@.window_size,
            final(self)@.pressure_threshold == old(self)@.pressure_threshold,
            final(self)@.min_total_notional == old(self)@.min_total_notional,
            final(self)@.min_consecutive == old(self)@.min_consecutive,
            r == window_signal(
                final(self)@.window,
                old(self)@.pressure_threshold,
                old(self)@.min_total_notional,
                old(self)@.min_consecutive,
            ),
            match r {
                BigMoveSignal::BullishBreakout { avg_pressure, total_notional } => avg_pressure
                    <= PCT_100 && total_notional <= NOTIONAL_CAP,
                BigMoveSignal::BearishBreakout { avg_pressure, total_notional } => avg_pressure
                    <= PCT_100 && total_notional <= NOTIONAL_CAP,
                BigMoveSignal::NoSignal => true,
            },
    {
        if self.window.len() == self.window_size {
            self.window.pop_front();
        }
        self.window.push_back(snapshot);
        proof {
            assert(self.window@ =~= pushed_window(
                old(self)@.window,
                old(self)@.window_size,
                snapshot,
            ));
        }
        let ghost w = self.window@;
        let ghost t = self.pressure_threshold;
        let ghost k_spec = self.min_consecutive as nat;

        let len = self.window.len();
        let k = self.min_consecutive;
        if len < k {
            return BigMoveSignal::NoSignal;
        }
        let ghost r_spec = recent(w, k_spec);
        let start = len - k;
        proof {
            assert(forall|j: int| 0 <= j < k_spec ==> r_spec[j] == w[start + j]);
        }

        let mut all_bull = true;
        let mut all_bear = true;
        let mut sp: u64 = 0;
        let mut sn: u128 = 0;
        let mut i = start;
        while i < len
            invariant
                start <= i <= len,
                len == w.len() <= 1_000_001,
                len == self.window@.len(),
                w == self.window@,
                start == len - k,
                k == k_spec,
                t == self.pressure_threshold,
                forall|j: int| 0 <= j < w.len() ==> snapshot_valid(#[trigger] w[j]),
                r_spec == recent(w, k_spec),
                forall|j: int| 0 <= j < k_spec ==> r_spec[j] == w[start + j],
                all_bull <==> all_bullish(r_spec.take(i - start), t),
                all_bear <==> all_bearish(r_spec.take(i - start), t),
                sp == sum_pct(r_spec.take(i - start)),
                sn == sum_notional(r_spec.take(i - start)),
                sp <= (i - start) * PCT_100,
                sn <= (i - start) * NOTIONAL_CAP,
            decreases len - i,
        {
            let s = &self.window[i];
            proof {
                assert(w[i as int] == r_spec[i - start]);
                assert(snapshot_valid(w[i as int]));
            }
            let bull_here = s.bid_pressure_pct >= self.pressure_threshold;
            let bear_here = PCT_100 - s.bid_pressure_pct >= self.pressure_threshold;
            if !bull_here {
                all_bull = false;
            }
            if !bear_here {
                all_bear = false;
            }
            proof {
                let prev = r_spec.take(i - start);
                let taken = r_spec.take(i - start + 1);
                assert(taken.drop_last() =~= prev);
                assert(taken.last() == r_spec[i - start]);
                assert(forall|j: int| 0 <= j < i - start ==> taken[j] == #[trigger] prev[j]);
                assert(taken[i - start] == r_spec[i - start]);
                assert(all_bullish(taken, t) <==> (all_bullish(prev, t) && bull_here)) by {
                    if all_bullish(prev, t) && bull_here {
                        assert(forall|j: int|
                            0 <= j < taken.len() ==> #[trigger] taken[j].bid_pressure_pct >= t);
                    }
                    if all_bullish(taken, t) {
                        assert(forall|j: int|
                            0 <= j < prev.len() ==> #[trigger] prev[j].bid_pressure_pct >= t);
                        assert(taken[i - start].bid_pressure_pct >= t);
                    }
                }
                assert(all_bearish(taken, t) <==> (all_bearish(prev, t) && bear_here)) by {
                    if all_bearish(prev, t) && bear_here {
                        assert(forall|j: int|
                            0 <= j < taken.len() ==> PCT_100 - #[trigger] taken[j].bid_pressure_pct
                                >= t);
                    }
                    if all_bearish(taken, t) {
                        assert(forall|j: int|
                            0 <= j < prev.len() ==> PCT_100 - #[trigger] prev[j].bid_pressure_pct
                                >= t);
                        assert(PCT_100 - taken[i - start].bid_pressure_pct >= t);
                    }
                }
            }
            proof {
                assert((i - start) * NOTIONAL_CAP + NOTIONAL_CAP == ((i - start) + 1)
                    * NOTIONAL_CAP) by (nonlinear_arith);
                assert(((i - start) + 1) * NOTIONAL_CAP <= 1_000_001 * NOTIONAL_CAP)
                    by (nonlinear_arith)
                    requires
                        0 <= i - start,
                        (i - start) + 1 <= 1_000_001,
                ;
            }
            sp = sp + s.bid_pressure_pct;
            sn = sn + s.total_notional;
            i = i + 1;
        }
        proof {
            assert(r_spec.take(len - start) =~= r_spec);
        }

        if !all_bull && !all_bear {
            return BigMoveSignal::NoSignal;
        }
        let avg_p = sp / k as u64;
        let avg_n = sn / k as u128;
        if avg_n < self.min_total_notional {
            return BigMoveSignal::NoSignal;
        }
        proof {
            assert(sp / (k as u64) <= PCT_100) by (nonlinear_arith)
                requires
                    1 <= k,
                    sp <= k * PCT_100,
                    PCT_100 == 100_000_000u64,
            ;
            assert(sn / (k as u128) <= NOTIONAL_CAP) by (nonlinear_arith)
                requires
                    1 <= k,
                    sn <= k * NOTIONAL_CAP,
            ;
        }
        if all_bull {
            BigMoveSignal::BullishBreakout { avg_pressure: avg_p, total_notional: avg_n }
        } else {
            BigMoveSignal::BearishBreakout {
                avg_pressure: PCT_100 - avg_p,
                total_notional: avg_n,
            }
        }
    }

    /// Number of snapshots currently in the window.
    pub fn window_len(&self) -> (r: usize)
        ensures
            r == self@.window.len(),
    {
        self.window.len()
    }
}

} // verus!
