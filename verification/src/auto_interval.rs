//! The interval that the monitor picks for itself: fast after a drop, and slower
//! one rung at a time while nothing is lost.

use vstd::prelude::*;

verus! {

/// Intervals that auto mode walks between, fastest first. Idle sits on the last
/// rung; a drop snaps straight back to the first.
pub const AUTO_LADDER: [u32; 4] = [1_000, 2_000, 5_000, 10_000];

/// Consecutive loss-free rounds needed before auto mode steps one rung slower.
pub const AUTO_BACKOFF_RUN: u32 = 10;

/// Auto-interval state machine. Any drop on any target drops to the fastest rung
/// immediately; recovery is gradual, one rung per clean run of rounds, so a
/// flapping link keeps sampling fast instead of oscillating.
pub struct AutoInterval {
    step: usize,
    clean_run: u32,
}

/// The rung in force, and the clean rounds counted on it so far.
pub struct AutoView {
    pub step: int,
    pub clean_run: int,
}

impl View for AutoInterval {
    type V = AutoView;

    closed spec fn view(&self) -> AutoView {
        AutoView { step: self.step as int, clean_run: self.clean_run as int }
    }
}

/// A state that can be reached: a rung of the ladder, and a run that is not over.
pub open spec fn valid(a: AutoView) -> bool {
    0 <= a.step < AUTO_LADDER@.len() && 0 <= a.clean_run < AUTO_BACKOFF_RUN
}

/// The state at the start: idle, on the slowest rung.
pub open spec fn idle() -> AutoView {
    AutoView { step: AUTO_LADDER@.len() - 1, clean_run: 0 }
}

/// The interval of a state.
pub open spec fn interval(a: AutoView) -> u32 {
    AUTO_LADDER@[a.step]
}

/// The state after a drop.
pub open spec fn after_loss(a: AutoView) -> AutoView {
    AutoView { step: 0, clean_run: 0 }
}

/// The state after a round without a drop.
pub open spec fn after_clean_round(a: AutoView) -> AutoView {
    if a.clean_run + 1 < AUTO_BACKOFF_RUN {
        AutoView { step: a.step, clean_run: a.clean_run + 1 }
    } else if a.step + 1 < AUTO_LADDER@.len() {
        AutoView { step: a.step + 1, clean_run: 0 }
    } else {
        AutoView { step: AUTO_LADDER@.len() - 1, clean_run: 0 }
    }
}

/// The state after `n` rounds without a drop.
pub open spec fn after_clean_rounds(a: AutoView, n: nat) -> AutoView
    decreases n,
{
    if n == 0 {
        a
    } else {
        after_clean_round(after_clean_rounds(a, (n - 1) as nat))
    }
}

/// Clean rounds still needed before the next step down in speed; none on the
/// slowest rung.
pub open spec fn rounds_needed(a: AutoView) -> Option<u32> {
    if a.step + 1 < AUTO_LADDER@.len() {
        Some((AUTO_BACKOFF_RUN - a.clean_run) as u32)
    } else {
        None
    }
}

impl Default for AutoInterval {
    fn default() -> (r: Self)
        ensures
            r@ == idle(),
    {
        AutoInterval { step: AUTO_LADDER.len() - 1, clean_run: 0 }
    }
}

impl AutoInterval {
    #[verifier::type_invariant]
    closed spec fn reachable(self) -> bool {
        valid(self@)
    }

    /// The interval each target is currently pinged at.
    pub fn interval_ms(&self) -> (r: u32)
        ensures
            valid(self@),
            r == interval(self@),
    {
        proof {
            use_type_invariant(self);
        }
        AUTO_LADDER[self.step]
    }

    /// A packet was dropped: snap to the fastest rung right away.
    pub fn on_loss(&mut self)
        ensures
            final(self)@ == after_loss(old(self)@),
    {
        proof {
            use_type_invariant(&*self);
        }
        self.step = 0;
        self.clean_run = 0;
    }

    /// One full pass over every target completed with no drops.
    pub fn on_clean_round(&mut self)
        ensures
            final(self)@ == after_clean_round(old(self)@),
    {
        proof {
            use_type_invariant(&*self);
        }
        if self.clean_run + 1 < AUTO_BACKOFF_RUN {
            self.clean_run = self.clean_run + 1;
        } else {
            self.clean_run = 0;
            if self.step + 1 < AUTO_LADDER.len() {
                self.step = self.step + 1;
            }
        }
    }

    /// Clean rounds still needed before the next step down in speed, or `None`
    /// once on the slowest rung.
    pub fn clean_needed(&self) -> (r: Option<u32>)
        ensures
            valid(self@),
            r == rounds_needed(self@),
    {
        proof {
            use_type_invariant(self);
        }
        if self.step + 1 < AUTO_LADDER.len() {
            Some(AUTO_BACKOFF_RUN - self.clean_run)
        } else {
            None
        }
    }
}

// ---------------------------------------------------------------------------
// Laws
// ---------------------------------------------------------------------------
/// Every state reached from a reachable one is reachable.
pub proof fn law_states_stay_valid(a: AutoView)
    requires
        valid(a),
    ensures
        valid(idle()),
        valid(after_loss(a)),
        valid(after_clean_round(a)),
{
}

/// Any drop, in any state, leads to the fastest interval at once, and a whole
/// clean run is needed again before it slows down.
pub proof fn law_loss_snaps_to_the_fastest(a: AutoView)
    ensures
        interval(after_loss(a)) == 1_000,
        rounds_needed(after_loss(a)) == Some(AUTO_BACKOFF_RUN),
        forall|rung: int|
            0 <= rung < AUTO_LADDER@.len() ==> interval(after_loss(a)) <= #[trigger] AUTO_LADDER@[rung],
{
    assert(AUTO_LADDER@ =~= seq![1_000u32, 2_000u32, 5_000u32, 10_000u32]);
}

/// A clean round never makes the monitor faster, and moves at most one rung.
pub proof fn law_recovery_is_gradual(a: AutoView)
    requires
        valid(a),
    ensures
        a.step <= after_clean_round(a).step <= a.step + 1,
        interval(a) <= interval(after_clean_round(a)),
{
    assert(AUTO_LADDER@ =~= seq![1_000u32, 2_000u32, 5_000u32, 10_000u32]);
}

/// Clean rounds on one rung, fewer than the run needs, leave the rung alone.
proof fn lemma_within_a_run(a: AutoView, n: nat)
    requires
        valid(a),
        a.clean_run + n < AUTO_BACKOFF_RUN,
    ensures
        after_clean_rounds(a, n) == (AutoView { step: a.step, clean_run: a.clean_run + n }),
    decreases n,
{
    if n > 0 {
        lemma_within_a_run(a, (n - 1) as nat);
    }
}

/// The advertised countdown is exact: with `k` clean rounds of the number
/// needed done, the interval is still the same and the rest is still needed;
/// with all of them done, the interval is the next slower rung's.
pub proof fn law_countdown_is_exact(a: AutoView, k: nat)
    requires
        valid(a),
        rounds_needed(a) is Some,
        k <= rounds_needed(a)->0,
    ensures
        k < rounds_needed(a)->0 ==> {
            &&& interval(after_clean_rounds(a, k)) == interval(a)
            &&& rounds_needed(after_clean_rounds(a, k)) == Some((rounds_needed(a)->0 - k) as u32)
        },
        k == rounds_needed(a)->0 ==> {
            &&& after_clean_rounds(a, k) == (AutoView { step: a.step + 1, clean_run: 0 })
            &&& interval(after_clean_rounds(a, k)) == AUTO_LADDER@[a.step + 1]
        },
{
    if k < rounds_needed(a)->0 {
        lemma_within_a_run(a, k);
    } else {
        lemma_within_a_run(a, (k - 1) as nat);
    }
}

/// On the slowest rung, clean rounds change neither the interval nor the absence
/// of a countdown.
pub proof fn law_idle_stays_idle(a: AutoView, n: nat)
    requires
        valid(a),
        rounds_needed(a) is None,
    ensures
        valid(after_clean_rounds(a, n)),
        interval(after_clean_rounds(a, n)) == interval(idle()),
        rounds_needed(after_clean_rounds(a, n)) is None,
    decreases n,
{
    if n > 0 {
        law_idle_stays_idle(a, (n - 1) as nat);
    }
}

/// The way back from a drop: ten clean rounds at one second, ten at two and ten at five,
/// and then ten seconds for good. In each, the countdown tells the clean rounds that are
/// left, and there is none at the end.
pub proof fn law_way_back_from_a_drop(a: AutoView, rounds: nat)
    ensures
        ({
            let then = after_clean_rounds(after_loss(a), rounds);
            &&& valid(then)
            &&& interval(then) == if rounds < 10 {
                1_000u32
            } else if rounds < 20 {
                2_000
            } else if rounds < 30 {
                5_000
            } else {
                10_000
            }
            &&& rounds < 30 ==> rounds_needed(then) == Some((10 - rounds % 10) as u32)
            &&& rounds >= 30 ==> rounds_needed(then) is None
        }),
{
    assert(AUTO_LADDER@ =~= seq![1_000u32, 2_000u32, 5_000u32, 10_000u32]);
    lemma_way_back(a, rounds);
}

/// The rung and the run after some clean rounds since a drop.
proof fn lemma_way_back(a: AutoView, rounds: nat)
    ensures
        after_clean_rounds(after_loss(a), rounds) == (AutoView {
            step: if rounds < 30 {
                (rounds / 10) as int
            } else {
                3
            },
            clean_run: (rounds % 10) as int,
        }),
    decreases rounds,
{
    if rounds > 0 {
        lemma_way_back(a, (rounds - 1) as nat);
    }
}

/// At the start the interval is ten seconds, and no countdown runs.
pub proof fn law_start_is_the_slowest()
    ensures
        interval(idle()) == 10_000,
        rounds_needed(idle()) is None,
        idle().clean_run == 0,
{
}

/// A clean round counts as one, and the tenth in a row moves to the next slower rung
/// where there is one.
pub proof fn law_each_clean_round_counts(a: AutoView)
    requires
        valid(a),
    ensures
        a.clean_run < 9 ==> after_clean_round(a).step == a.step && after_clean_round(a).clean_run
            == a.clean_run + 1,
        a.clean_run == 9 ==> after_clean_round(a).clean_run == 0,
        a.clean_run == 9 && a.step < 3 ==> after_clean_round(a).step == a.step + 1,
        a.clean_run == 9 && a.step == 3 ==> after_clean_round(a).step == 3,
{
}

} // verus!
