//! The monitor: the state it shares with the UI, whose turn it is to be pinged,
//! and what each ping changes.

use vstd::prelude::*;
use crate::alerts;
use crate::auto_interval;
use crate::auto_interval::AutoInterval;
use crate::auto_interval::AutoView;
use crate::auto_interval::AUTO_LADDER;
use crate::config;
use crate::config::Config;
use crate::config::ConfigView;
use crate::config::Target;
use crate::config::TargetView;
use crate::history;
use crate::history::History;
use crate::history::Sample;
use crate::history::SampleView;
use crate::names::NameMap;
use crate::names::NameSet;
use crate::text;

verus! {

/// Floor on the gap between two consecutive pings, so a long target list can't
/// turn into a burst.
pub const MIN_PING_GAP_MS: u32 = 50;

/// State shared between the worker thread and the UI thread.
pub struct AppState {
    pub history: History,
    /// Whether the monitor picks its own interval (see [`AutoInterval`]).
    pub auto_interval: bool,
    /// The manual interval, used when `auto_interval` is off.
    pub interval_ms: u32,
    /// The interval actually in force right now: in auto mode the one that it has
    /// picked, and otherwise `interval_ms`.
    pub current_interval_ms: u32,
    /// In auto mode, how many more clean rounds are needed before slowing down
    /// a rung. `None` when already at the slowest rung (or auto is off).
    pub auto_clean_needed: Option<u32>,
    pub window_mins: i64,
    pub packet_loss_alert_threshold: u32,
    pub targets: Vec<Target>,
    /// Bumped whenever a new sample lands, so the UI can cheaply detect changes.
    pub revision: u64,
}

/// What the shared state says.
pub struct AppView {
    pub history: Seq<SampleView>,
    pub auto_interval: bool,
    pub interval_ms: u32,
    pub current_interval_ms: u32,
    pub auto_clean_needed: Option<u32>,
    pub window_mins: i64,
    pub packet_loss_alert_threshold: u32,
    pub targets: Seq<TargetView>,
    pub revision: u64,
}

impl View for AppState {
    type V = AppView;

    open spec fn view(&self) -> AppView {
        AppView {
            history: self.history@,
            auto_interval: self.auto_interval,
            interval_ms: self.interval_ms,
            current_interval_ms: self.current_interval_ms,
            auto_clean_needed: self.auto_clean_needed,
            window_mins: self.window_mins,
            packet_loss_alert_threshold: self.packet_loss_alert_threshold,
            targets: config::views(self.targets@),
            revision: self.revision,
        }
    }
}

/// The revision after `r`; it wraps at the end of its range.
pub open spec fn next_revision(r: u64) -> u64 {
    if r == u64::MAX {
        0
    } else {
        (r + 1) as u64
    }
}

/// The state that a configuration starts with: no history, and in auto mode the
/// slowest interval.
pub open spec fn initial(cfg: ConfigView) -> AppView {
    AppView {
        history: Seq::empty(),
        auto_interval: cfg.auto_interval,
        interval_ms: cfg.interval_ms,
        current_interval_ms: if cfg.auto_interval {
            auto_interval::interval(auto_interval::idle())
        } else {
            cfg.interval_ms
        },
        auto_clean_needed: None,
        window_mins: cfg.window_mins,
        packet_loss_alert_threshold: cfg.packet_loss_alert_threshold,
        targets: cfg.targets,
        revision: 0,
    }
}

/// Builds the shared state. History starts empty each launch: stale samples from
/// a previous run would otherwise show up as bogus packet loss (their target
/// names no longer match the current config).
pub fn init_shared(cfg: &Config) -> (r: AppState)
    ensures
        r@ == initial(cfg@),
{
    AppState {
        history: History::default(),
        auto_interval: cfg.auto_interval,
        interval_ms: cfg.interval_ms,
        current_interval_ms: if cfg.auto_interval {
            AUTO_LADDER[AUTO_LADDER.len() - 1]
        } else {
            cfg.interval_ms
        },
        auto_clean_needed: None,
        window_mins: cfg.window_mins,
        packet_loss_alert_threshold: cfg.packet_loss_alert_threshold,
        targets: config::clone_targets(cfg.targets.as_slice()),
        revision: 0,
    }
}

/// The state once its history is cleared.
pub open spec fn cleared(st: AppView) -> AppView {
    AppView { history: Seq::empty(), revision: next_revision(st.revision), ..st }
}

/// Wipes all collected history in place, and bumps the revision so the UI
/// redraws.
pub fn clear_history(st: &mut AppState)
    ensures
        final(st)@ == cleared(old(st)@),
{
    st.history.clear();
    st.revision = st.revision.wrapping_add(1);
}

// ---------------------------------------------------------------------------
// Time
// ---------------------------------------------------------------------------
/// `SystemTime::elapsed`, applied to the Unix epoch: the time since the epoch by
/// the system clock, in whole milliseconds, or `None` where the clock stands
/// before it. Nothing is claimed of the value, which is the clock's.
#[verifier::external_body]
fn millis_since_epoch() -> (r: Option<u128>) {
    std::time::UNIX_EPOCH.elapsed().ok().map(|d| d.as_millis())
}

/// A clock reading as a time in milliseconds: 0 where the clock stands before
/// the epoch, and otherwise the low 64 bits of the reading.
pub open spec fn clock_ms(reading: Option<u128>) -> i64 {
    match reading {
        Some(ms) => ms as i64,
        None => 0,
    }
}

/// A clock reading as a time in milliseconds.
pub fn epoch_ms(reading: Option<u128>) -> (r: i64)
    ensures
        r == clock_ms(reading),
        reading matches Some(ms) ==> (ms <= i64::MAX ==> r == ms),
{
    match reading {
        Some(ms) => ms as i64,
        None => 0,
    }
}

/// The current time in milliseconds since the Unix epoch, as `epoch_ms` gives it
/// for what the system clock shows. Nothing more is stated of it.
pub fn now_ms() -> (r: i64) {
    epoch_ms(millis_since_epoch())
}

// ---------------------------------------------------------------------------
// One ping at a time
// ---------------------------------------------------------------------------
/// What the worker carries from one ping to the next: the interval it picks for
/// itself, the round-robin cursor, whether the current pass has seen any drop,
/// and which targets have alerted.
pub struct Worker {
    auto: AutoInterval,
    next_target: usize,
    round_had_loss: bool,
    alerted: NameSet,
}

/// What the worker's state says.
pub struct WorkerView {
    pub auto: AutoView,
    pub next_target: int,
    pub round_had_loss: bool,
    pub alerted: Set<Seq<char>>,
}

impl View for Worker {
    type V = WorkerView;

    closed spec fn view(&self) -> WorkerView {
        WorkerView {
            auto: self.auto@,
            next_target: self.next_target as int,
            round_had_loss: self.round_had_loss,
            alerted: self.alerted@,
        }
    }
}

/// The worker at the start.
pub open spec fn fresh_worker() -> WorkerView {
    WorkerView {
        auto: auto_interval::idle(),
        next_target: 0,
        round_had_loss: false,
        alerted: Set::empty(),
    }
}

/// The worker once it has looked at the current number of targets: the cursor
/// is within the list, and an empty list ends the pass.
pub open spec fn looked(w: WorkerView, count: nat) -> WorkerView {
    if count == 0 {
        WorkerView { next_target: 0, round_had_loss: false, ..w }
    } else {
        WorkerView { next_target: w.next_target % (count as int), ..w }
    }
}

/// The worker once a ping has come back or been lost. A drop counts at once; a
/// pass over every target that saw none counts at its end.
pub open spec fn counted(w: WorkerView, count: nat, dropped: bool) -> WorkerView {
    let had_loss = w.round_had_loss || dropped;
    let auto = if dropped {
        auto_interval::after_loss(w.auto)
    } else {
        w.auto
    };
    if w.next_target + 1 >= count {
        WorkerView {
            auto: if had_loss {
                auto
            } else {
                auto_interval::after_clean_round(auto)
            },
            next_target: 0,
            round_had_loss: false,
            alerted: w.alerted,
        }
    } else {
        WorkerView {
            auto,
            next_target: w.next_target + 1,
            round_had_loss: had_loss,
            alerted: w.alerted,
        }
    }
}

/// The mode that a ping was made in, as it stood when its target was picked.
#[derive(Clone, Copy)]
pub struct Pacing {
    pub auto_enabled: bool,
    pub interval_ms: u32,
    /// How many targets the list had.
    pub count: usize,
}

/// How much history is kept.
#[derive(Clone, Copy)]
pub struct Limits {
    pub max_age_ms: i64,
    pub max_samples: usize,
}

/// One ping, and the times at which it was recorded, its history pruned, and
/// the targets judged.
pub struct Ping {
    pub name: String,
    pub latency: Option<u32>,
    pub recorded_at: i64,
    pub pruned_at: i64,
    pub judged_at: i64,
}

/// What a ping says.
pub struct PingView {
    pub name: Seq<char>,
    pub latency: Option<u32>,
    pub recorded_at: int,
    pub pruned_at: int,
    pub judged_at: int,
}

impl View for Ping {
    type V = PingView;

    open spec fn view(&self) -> PingView {
        PingView {
            name: self.name@,
            latency: self.latency,
            recorded_at: self.recorded_at as int,
            pruned_at: self.pruned_at as int,
            judged_at: self.judged_at as int,
        }
    }
}

/// What follows from a ping: the alerts to raise, and the interval in which
/// every target is to be pinged once.
pub struct Outcome {
    pub alerts: Vec<(String, u32)>,
    pub round_ms: u32,
}

/// The sample that a ping is recorded as.
pub open spec fn sample_of(ping: PingView) -> SampleView {
    SampleView { t: ping.recorded_at, v: Map::empty().insert(ping.name, ping.latency) }
}

/// The interval in force after a ping.
pub open spec fn round_interval(w: WorkerView, pacing: Pacing) -> u32 {
    if pacing.auto_enabled {
        auto_interval::interval(w.auto)
    } else {
        pacing.interval_ms
    }
}

/// The shared state after a ping.
pub open spec fn recorded(
    st: AppView,
    w: WorkerView,
    pacing: Pacing,
    limits: Limits,
    ping: PingView,
) -> AppView {
    AppView {
        current_interval_ms: round_interval(w, pacing),
        auto_clean_needed: if pacing.auto_enabled {
            auto_interval::rounds_needed(w.auto)
        } else {
            None
        },
        history: history::pruned(
            st.history.push(sample_of(ping)),
            ping.pruned_at,
            limits.max_age_ms as int,
            limits.max_samples as nat,
        ),
        revision: next_revision(st.revision),
        ..st
    }
}

/// What a ping leads to: the worker and the shared state after it, the alerts to
/// raise, and the interval in which every target is to be pinged once.
pub struct Pinged {
    pub worker: WorkerView,
    pub state: AppView,
    pub alerts: Seq<(Seq<char>, int)>,
    pub round_ms: u32,
}

/// What a ping leads to. The targets are judged over the display window that
/// ends when they are judged. While auto mode is off, its state is that of the
/// start.
pub open spec fn pinged(
    w: WorkerView,
    st: AppView,
    pacing: Pacing,
    limits: Limits,
    ping: PingView,
) -> Pinged {
    let passed = counted(w, pacing.count as nat, ping.latency is None);
    let state = recorded(st, passed, pacing, limits, ping);
    let cutoff = alerts::window_cutoff(ping.judged_at, state.window_mins as int);
    let threshold = state.packet_loss_alert_threshold;
    Pinged {
        worker: WorkerView {
            auto: if pacing.auto_enabled {
                passed.auto
            } else {
                auto_interval::idle()
            },
            alerted: alerts::alerting(state.history, state.targets, cutoff, threshold),
            ..passed
        },
        state,
        alerts: alerts::new_alerts(state.history, state.targets, cutoff, threshold, w.alerted),
        round_ms: round_interval(passed, pacing),
    }
}

impl Default for Worker {
    fn default() -> (r: Self)
        ensures
            r@ == fresh_worker(),
    {
        Worker {
            auto: AutoInterval::default(),
            next_target: 0,
            round_had_loss: false,
            alerted: NameSet::new(),
        }
    }
}

impl Worker {
    /// Picks the target to ping next, one per call, so the load is spread evenly
    /// across the interval instead of arriving in a burst. The list can change
    /// between calls, so the cursor is wrapped. `None` where there is no target.
    pub fn pick(&mut self, count: usize) -> (r: Option<usize>)
        ensures
            final(self)@ == looked(old(self)@, count as nat),
            r is Some <==> count > 0,
            r matches Some(i) ==> i < count && i == final(self)@.next_target,
    {
        if count == 0 {
            self.next_target = 0;
            self.round_had_loss = false;
            return None;
        }
        self.next_target = self.next_target % count;
        Some(self.next_target)
    }

    /// Records a ping and judges every target. Auto mode reacts to a drop
    /// immediately, but only slows back down on a full clean pass over every
    /// target; while it is off, its state is that of the start.
    pub fn on_ping(
        &mut self,
        st: &mut AppState,
        pacing: &Pacing,
        limits: &Limits,
        ping: Ping,
    ) -> (r: Outcome)
        ensures
            ({
                let p = pinged(old(self)@, old(st)@, *pacing, *limits, ping@);
                &&& final(self)@ == p.worker
                &&& final(st)@ == p.state
                &&& alerts::alert_views(r.alerts@) == p.alerts
                &&& r.round_ms == p.round_ms
            }),
    {
        if ping.latency.is_none() {
            self.round_had_loss = true;
            self.auto.on_loss();
        }
        if pacing.count == 0 || self.next_target >= pacing.count - 1 {
            self.next_target = 0;
            if !self.round_had_loss {
                self.auto.on_clean_round();
            }
            self.round_had_loss = false;
        } else {
            self.next_target = self.next_target + 1;
        }
        let ghost w = self@;
        assert(w == counted(old(self)@, pacing.count as nat, ping.latency is None));

        let round_ms: u32 = if pacing.auto_enabled {
            self.auto.interval_ms()
        } else {
            pacing.interval_ms
        };
        st.current_interval_ms = round_ms;
        st.auto_clean_needed = if pacing.auto_enabled {
            self.auto.clean_needed()
        } else {
            None
        };
        if !pacing.auto_enabled {
            self.auto = AutoInterval::default();
        }
        let mut readings: history::Readings = NameMap::new();
        readings.insert(ping.name, ping.latency);
        st.history.push(Sample { t: ping.recorded_at, v: readings });
        st.history.prune(ping.pruned_at, limits.max_age_ms, limits.max_samples);
        st.revision = st.revision.wrapping_add(1);
        assert(st@ == recorded(old(st)@, w, *pacing, *limits, ping@));
        let raised = alerts::evaluate_alerts(
            &st.history,
            st.targets.as_slice(),
            st.window_mins,
            st.packet_loss_alert_threshold,
            &mut self.alerted,
            ping.judged_at,
        );
        Outcome { alerts: raised, round_ms }
    }
}

/// The gap between two consecutive pings: each target gets one ping per round,
/// and consecutive pings are a fraction of a round apart.
pub open spec fn gap_ms(round_ms: u32, count: nat) -> nat {
    let share = round_ms as nat / count;
    if share < MIN_PING_GAP_MS {
        MIN_PING_GAP_MS as nat
    } else {
        share
    }
}

/// The gap between two consecutive pings.
pub fn ping_gap_ms(round_ms: u32, count: usize) -> (r: u32)
    requires
        count > 0,
    ensures
        r == gap_ms(round_ms, count as nat),
{
    let share: u64 = round_ms as u64 / count as u64;
    proof {
        vstd::arithmetic::div_mod::lemma_div_is_ordered_by_denominator(round_ms as int, 1, count as int);
    }
    if share < MIN_PING_GAP_MS as u64 {
        MIN_PING_GAP_MS
    } else {
        share as u32
    }
}

/// What is left to wait, in nanoseconds, of a gap of which some is spent.
pub open spec fn left_ns(gap_ms: int, spent_ns: int) -> int {
    if gap_ms * 1_000_000 > spent_ns {
        gap_ms * 1_000_000 - spent_ns
    } else {
        0
    }
}

/// How long to wait before the next ping, in nanoseconds: time already spent
/// waiting on this ping counts toward the gap.
pub fn wait_ns(gap_ms: u32, spent_ns: u64) -> (r: u64)
    ensures
        r == left_ns(gap_ms as int, spent_ns as int),
{
    let gap_ns: u64 = gap_ms as u64 * 1_000_000;
    if gap_ns > spent_ns {
        gap_ns - spent_ns
    } else {
        0
    }
}

/// Whether something that is done every `every_ms` milliseconds is due, given
/// the time since it was last done; what was never done is due.
pub open spec fn due(since_ms: Option<u64>, every_ms: u64) -> bool {
    match since_ms {
        Some(ms) => ms >= every_ms,
        None => true,
    }
}

/// Whether something that is done every `every_ms` milliseconds is due.
pub fn is_due(since_ms: Option<u64>, every_ms: u64) -> (r: bool)
    ensures
        r == due(since_ms, every_ms),
{
    match since_ms {
        Some(ms) => ms >= every_ms,
        None => true,
    }
}

// ---------------------------------------------------------------------------
// Healed addresses
// ---------------------------------------------------------------------------
/// The position of the first target with a name, or the length of the list.
pub open spec fn first_named(targets: Seq<TargetView>, name: Seq<char>) -> nat
    decreases targets.len(),
{
    if targets.len() == 0 || targets[0].name == name {
        0
    } else {
        1 + first_named(targets.drop_first(), name)
    }
}

/// The list with the address of the first target of a name replaced.
pub open spec fn with_ip(
    targets: Seq<TargetView>,
    name: Seq<char>,
    ip: Seq<char>,
) -> Seq<TargetView> {
    let i = first_named(targets, name) as int;
    if i < targets.len() {
        targets.update(i, TargetView { ip, ..targets[i] })
    } else {
        targets
    }
}

/// The list once every resolved target has given its address to the first
/// target of its name, in order.
pub open spec fn healed(targets: Seq<TargetView>, resolved: Seq<TargetView>) -> Seq<TargetView>
    decreases resolved.len(),
{
    if resolved.len() == 0 {
        targets
    } else {
        with_ip(
            healed(targets, resolved.drop_last()),
            resolved.last().name,
            resolved.last().ip,
        )
    }
}

/// The first target of a name is the one before which none has it.
proof fn lemma_first_named(targets: Seq<TargetView>, name: Seq<char>, n: nat)
    requires
        n <= targets.len(),
        forall|i: int| 0 <= i < n ==> (#[trigger] targets[i]).name != name,
        n < targets.len() ==> targets[n as int].name == name,
    ensures
        first_named(targets, name) == n,
    decreases targets.len(),
{
    if n > 0 {
        assert(targets[0].name != name);
        let rest = targets.drop_first();
        assert forall|i: int| 0 <= i < n - 1 implies (#[trigger] rest[i]).name != name by {
            assert(rest[i] == targets[i + 1]);
        }
        if n < targets.len() {
            assert(rest[n - 1] == targets[n as int]);
        }
        lemma_first_named(rest, name, (n - 1) as nat);
    }
}

/// Pushes the addresses of resolved targets back into a list, matched by name.
pub fn heal_targets(targets: &mut Vec<Target>, resolved: &[Target])
    ensures
        config::views(final(targets)@) == healed(
            config::views(old(targets)@),
            config::views(resolved@),
        ),
{
    let ghost before = config::views(targets@);
    let ghost from = config::views(resolved@);
    let mut i: usize = 0;
    assert(from.take(0) =~= Seq::<TargetView>::empty());
    while i < resolved.len()
        invariant
            i <= resolved@.len(),
            from == config::views(resolved@),
            config::views(targets@) == healed(before, from.take(i as int)),
        decreases resolved@.len() - i,
    {
        let ghost current = config::views(targets@);
        let ghost name = from[i as int].name;
        proof {
            assert(from[i as int] == resolved@[i as int]@);
            assert(from.take(i + 1).drop_last() =~= from.take(i as int));
        }
        let mut k: usize = 0;
        while k < targets.len() && !text::same_text(
            targets[k].name.as_str(),
            resolved[i].name.as_str(),
        )
            invariant
                i < resolved@.len(),
                k <= targets@.len(),
                current == config::views(targets@),
                name == resolved@[i as int].name@,
                forall|j: int| 0 <= j < k ==> (#[trigger] current[j]).name != name,
            decreases targets@.len() - k,
        {
            assert(current[k as int] == targets@[k as int]@);
            k += 1;
        }
        proof {
            if k < targets@.len() {
                assert(current[k as int] == targets@[k as int]@);
            }
            lemma_first_named(current, name, k as nat);
        }
        if k < targets.len() {
            let mut t = targets[k].clone();
            t.ip = resolved[i].ip.clone();
            targets.set(k, t);
            assert(config::views(targets@) =~= with_ip(current, name, from[i as int].ip));
        }
        i += 1;
    }
    assert(from.take(from.len() as int) =~= from);
}

// ---------------------------------------------------------------------------
// Laws
// ---------------------------------------------------------------------------
/// The worker after one ping for each item of `drops`, on a list of `count`
/// targets, in auto mode.
pub open spec fn after_pings(w: WorkerView, count: nat, drops: Seq<bool>) -> WorkerView
    decreases drops.len(),
{
    if drops.len() == 0 {
        looked(w, count)
    } else {
        looked(counted(after_pings(w, count, drops.drop_last()), count, drops.last()), count)
    }
}

/// Whose turn it is `n` turns after that of `start`, on a list of `count`.
pub open spec fn turn(start: int, n: nat, count: nat) -> int {
    (start + n) % (count as int)
}

/// One turn further.
proof fn lemma_next_turn(start: int, n: nat, count: nat)
    requires
        count > 0,
        0 <= start < count,
    ensures
        0 <= turn(start, n, count) < count,
        turn(start, n + 1, count) == (if turn(start, n, count) + 1 >= count {
            0
        } else {
            turn(start, n, count) + 1
        }),
{
    let c = count as int;
    let x = start + n;
    vstd::arithmetic::div_mod::lemma_mod_bound(x, c);
    vstd::arithmetic::div_mod::lemma_add_mod_noop(x, 1, c);
    if c == 1 {
        assert((x + 1) % 1 == 0);
        assert(x % 1 == 0);
    } else {
        vstd::arithmetic::div_mod::lemma_small_mod(1, count);
        let m = x % c;
        assert((x + 1) % c == (m + 1) % c);
        if m + 1 < c {
            vstd::arithmetic::div_mod::lemma_small_mod((m + 1) as nat, count);
        } else {
            vstd::arithmetic::div_mod::lemma_mod_self_0(c);
        }
    }
}

/// Targets take turns: however the pings end, the next target pinged is the one
/// after the last, and the list starts over at its end.
pub proof fn law_targets_take_turns(w: WorkerView, count: nat, drops: Seq<bool>)
    requires
        count > 0,
        0 <= w.next_target < count,
    ensures
        after_pings(w, count, drops).next_target == turn(w.next_target, drops.len(), count),
    decreases drops.len(),
{
    if drops.len() == 0 {
        vstd::arithmetic::div_mod::lemma_small_mod(w.next_target as nat, count);
    } else {
        let n = (drops.len() - 1) as nat;
        law_targets_take_turns(w, count, drops.drop_last());
        lemma_next_turn(w.next_target, n, count);
        lemma_next_turn(w.next_target, n + 1, count);
        let next = turn(w.next_target, n + 1, count);
        vstd::arithmetic::div_mod::lemma_small_mod(next as nat, count);
    }
}

/// In a round of as many pings as there are targets, every target has exactly
/// one turn.
pub proof fn law_one_turn_per_round(start: int, target: int, count: nat)
    requires
        0 <= start < count,
        0 <= target < count,
    ensures
        exists|n: nat|
            n < count && #[trigger] turn(start, n, count) == target && forall|m: nat|
                m < count && #[trigger] turn(start, m, count) == target ==> m == n,
{
    let c = count as int;
    let n: nat = if target >= start {
        (target - start) as nat
    } else {
        (target - start + c) as nat
    };
    assert forall|m: nat| m < count implies #[trigger] turn(start, m, count) == (if start + m < c {
        start + m
    } else {
        start + m - c
    }) by {
        if start + m < c {
            vstd::arithmetic::div_mod::lemma_small_mod((start + m) as nat, count);
        } else {
            vstd::arithmetic::div_mod::lemma_mod_sub_multiples_vanish(start + m, c);
            vstd::arithmetic::div_mod::lemma_small_mod((start + m - c) as nat, count);
        }
    }
    assert(n < count && turn(start, n, count) == target);
    assert forall|m: nat| m < count && #[trigger] turn(start, m, count) == target implies m == n by {}
}

/// Some ping was dropped.
pub open spec fn any_drop(drops: Seq<bool>) -> bool {
    exists|i: int| 0 <= i < drops.len() && #[trigger] drops[i]
}

/// The worker part-way through a pass.
proof fn lemma_within_a_pass(w: WorkerView, count: nat, drops: Seq<bool>)
    requires
        w.next_target == 0,
        !w.round_had_loss,
        drops.len() < count,
    ensures
        after_pings(w, count, drops) == (WorkerView {
            auto: if any_drop(drops) {
                auto_interval::after_loss(w.auto)
            } else {
                w.auto
            },
            next_target: drops.len() as int,
            round_had_loss: any_drop(drops),
            alerted: w.alerted,
        }),
    decreases drops.len(),
{
    vstd::arithmetic::div_mod::lemma_small_mod(drops.len(), count);
    if drops.len() > 0 {
        lemma_any_drop_step(drops);
        lemma_within_a_pass(w, count, drops.drop_last());
    }
}

/// A drop is the last one or an earlier one.
proof fn lemma_any_drop_step(drops: Seq<bool>)
    requires
        drops.len() > 0,
    ensures
        any_drop(drops) == (any_drop(drops.drop_last()) || drops.last()),
{
    let shorter = drops.drop_last();
    if any_drop(shorter) {
        let i = choose|i: int| 0 <= i < shorter.len() && #[trigger] shorter[i];
        assert(drops[i]);
    }
    if drops.last() {
        assert(drops[drops.len() - 1]);
    }
    if any_drop(drops) && !drops.last() {
        let i = choose|i: int| 0 <= i < drops.len() && #[trigger] drops[i];
        assert(shorter[i]);
    }
}

/// A full pass over the targets counts as one clean round where no ping was
/// dropped, and leaves the fastest rung in force where any was.
pub proof fn law_a_pass_is_one_round(w: WorkerView, count: nat, drops: Seq<bool>)
    requires
        count > 0,
        w.next_target == 0,
        !w.round_had_loss,
        drops.len() == count,
    ensures
        after_pings(w, count, drops) == (WorkerView {
            auto: if any_drop(drops) {
                auto_interval::after_loss(w.auto)
            } else {
                auto_interval::after_clean_round(w.auto)
            },
            ..w
        }),
{
    lemma_any_drop_step(drops);
    lemma_within_a_pass(w, count, drops.drop_last());
    vstd::arithmetic::div_mod::lemma_small_mod(0, count);
}

/// A drop is answered at once: whatever the state, the ping after it is paced
/// by the fastest interval, and a full countdown is shown.
pub proof fn law_a_drop_is_answered_at_once(
    st: AppView,
    w: WorkerView,
    pacing: Pacing,
    limits: Limits,
    ping: PingView,
)
    requires
        pacing.auto_enabled,
        ping.latency is None,
    ensures
        ({
            let after = recorded(
                st,
                counted(w, pacing.count as nat, true),
                pacing,
                limits,
                ping,
            );
            &&& after.current_interval_ms == 1_000
            &&& after.auto_clean_needed == Some(auto_interval::AUTO_BACKOFF_RUN)
        }),
{
    auto_interval::law_loss_snaps_to_the_fastest(w.auto);
}

/// With auto mode off, the interval in force is the one that was set, and no
/// countdown is shown.
pub proof fn law_manual_interval_is_kept(
    st: AppView,
    w: WorkerView,
    pacing: Pacing,
    limits: Limits,
    ping: PingView,
)
    requires
        !pacing.auto_enabled,
    ensures
        recorded(st, w, pacing, limits, ping).current_interval_ms == pacing.interval_ms,
        recorded(st, w, pacing, limits, ping).auto_clean_needed is None,
{
}

/// Every ping is recorded: where the limits leave room for it, its sample is the
/// newest of the history, after the newest of the earlier samples that are within
/// the limit on age. The revision always changes, so the UI redraws.
pub proof fn law_ping_is_recorded(
    st: AppView,
    w: WorkerView,
    pacing: Pacing,
    limits: Limits,
    ping: PingView,
)
    requires
        limits.max_samples > 0,
        ping.recorded_at >= ping.pruned_at - limits.max_age_ms,
    ensures
        ({
            let after = recorded(st, w, pacing, limits, ping);
            let cutoff = ping.pruned_at - limits.max_age_ms;
            &&& after.history == history::newest(
                history::recent(st.history, cutoff),
                (limits.max_samples - 1) as nat,
            ).push(sample_of(ping))
            &&& after.revision != st.revision
        }),
{
    let cutoff = ping.pruned_at - limits.max_age_ms;
    assert(st.history.push(sample_of(ping)).drop_last() =~= st.history);
    let earlier = history::newest(
        history::recent(st.history, cutoff),
        (limits.max_samples - 1) as nat,
    );
    assert(recorded(st, w, pacing, limits, ping).history =~= earlier.push(sample_of(ping)));
}

/// While the clock does not go back, the history stays in the order in which its
/// samples were taken.
pub proof fn law_history_stays_in_order(
    st: AppView,
    w: WorkerView,
    pacing: Pacing,
    limits: Limits,
    ping: PingView,
)
    requires
        history::in_order(st.history),
        st.history.len() > 0 ==> st.history.last().t <= ping.recorded_at,
    ensures
        history::in_order(recorded(st, w, pacing, limits, ping).history),
{
    let longer = st.history.push(sample_of(ping));
    let after = recorded(st, w, pacing, limits, ping).history;
    assert forall|i: int, j: int| 0 <= i <= j < longer.len() implies (#[trigger] longer[i]).t <= (
    #[trigger] longer[j]).t by {
        if j < st.history.len() {
            assert(st.history[i].t <= st.history[j].t);
        } else if i < st.history.len() {
            assert(st.history[i].t <= st.history[st.history.len() - 1].t);
        }
    }
    history::law_prune_takes_from_the_front(
        longer,
        ping.pruned_at,
        limits.max_age_ms as int,
        limits.max_samples as nat,
    );
    let cut = longer.len() - after.len();
    assert forall|i: int, j: int| 0 <= i <= j < after.len() implies (#[trigger] after[i]).t <= (
    #[trigger] after[j]).t by {
        assert(after[i] == longer[cut + i]);
        assert(after[j] == longer[cut + j]);
    }
}

/// Pings are never closer than the floor, and where their share of the round is
/// above it, every target has its ping within the round.
pub proof fn law_pings_are_spread(round_ms: u32, count: nat)
    requires
        count > 0,
    ensures
        gap_ms(round_ms, count) >= MIN_PING_GAP_MS,
        round_ms as nat >= MIN_PING_GAP_MS * count ==> gap_ms(round_ms, count) * count <= round_ms,
{
    let r = round_ms as nat;
    let share = r / count;
    assert(share * count <= r) by (nonlinear_arith)
        requires
            share == r / count,
            count > 0,
    ;
    assert(r >= 50 * count ==> share >= 50) by (nonlinear_arith)
        requires
            share == r / count,
            count > 0,
    ;
}

/// A launch starts clean: no target has loss to show, and none alerts, until it
/// has been measured.
pub proof fn law_launch_starts_clean(cfg: ConfigView, name: Seq<char>, cutoff: int)
    ensures
        crate::loss::measured(initial(cfg).history, name, cutoff) == 0,
        crate::loss::loss_percent(initial(cfg).history, name, cutoff) == 0,
        !alerts::over_threshold(
            initial(cfg).history,
            name,
            cutoff,
            cfg.packet_loss_alert_threshold,
        ),
{
}

/// Healing with the first `n` resolved targets changes the first `n` addresses.
proof fn lemma_healed_so_far(
    targets: Seq<TargetView>,
    resolved: Seq<TargetView>,
    n: nat,
)
    requires
        n <= resolved.len() == targets.len(),
        forall|i: int|
            0 <= i < targets.len() ==> (#[trigger] resolved[i]).name == targets[i].name,
        names_differ(targets),
    ensures
        healed(targets, resolved.take(n as int)).len() == targets.len(),
        forall|i: int|
            0 <= i < targets.len() ==> #[trigger] healed(targets, resolved.take(n as int))[i]
                == (TargetView {
                ip: if i < n {
                    resolved[i].ip
                } else {
                    targets[i].ip
                },
                ..targets[i]
            }),
    decreases n,
{
    if n > 0 {
        let k = n - 1;
        lemma_healed_so_far(targets, resolved, k as nat);
        assert(resolved.take(n as int).drop_last() =~= resolved.take(k));
        let before = healed(targets, resolved.take(k));
        assert(before[k].name == targets[k].name);
        assert forall|i: int| 0 <= i < k implies (#[trigger] before[i]).name
            != resolved[k].name by {
            assert(targets[i].name != targets[k].name);
        }
        lemma_first_named(before, resolved[k].name, k as nat);
    }
}

/// No two targets of a list have the same name.
pub open spec fn names_differ(targets: Seq<TargetView>) -> bool {
    forall|i: int, j: int|
        0 <= i < j < targets.len() ==> (#[trigger] targets[i]).name != (#[trigger] targets[j]).name
}

/// Where no two targets have the same name, healing gives every target the
/// address that it was resolved to.
pub proof fn law_healing_gives_the_resolved_address(
    targets: Seq<TargetView>,
    resolved: Seq<TargetView>,
)
    requires
        names_differ(targets),
        resolved.len() == targets.len(),
        forall|i: int|
            0 <= i < targets.len() ==> (#[trigger] resolved[i]).name == targets[i].name,
    ensures
        healed(targets, resolved).len() == targets.len(),
        forall|i: int|
            0 <= i < targets.len() ==> #[trigger] healed(targets, resolved)[i] == (TargetView {
                ip: resolved[i].ip,
                ..targets[i]
            }),
{
    lemma_healed_so_far(targets, resolved, resolved.len());
    assert(resolved.take(resolved.len() as int) =~= resolved);
}

/// Healing changes nothing of the list but addresses.
pub proof fn law_healing_changes_only_addresses(
    targets: Seq<TargetView>,
    resolved: Seq<TargetView>,
)
    ensures
        healed(targets, resolved).len() == targets.len(),
        forall|i: int|
            0 <= i < targets.len() ==> (#[trigger] healed(targets, resolved)[i]).name
                == targets[i].name && healed(targets, resolved)[i].mac == targets[i].mac,
    decreases resolved.len(),
{
    if resolved.len() > 0 {
        law_healing_changes_only_addresses(targets, resolved.drop_last());
    }
}

/// What a ping leaves of the shared state: its own sample is the last that was recorded
/// before pruning, with the time, the name and the reading of the ping and nothing else.
/// The interval in force and the countdown are those of the mode. Nothing that the user
/// set changes.
pub proof fn law_what_a_ping_records(
    w: WorkerView,
    st: AppView,
    pacing: Pacing,
    limits: Limits,
    ping: PingView,
)
    ensures
        ({
            let p = pinged(w, st, pacing, limits, ping);
            let sample = sample_of(ping);
            &&& sample.t == ping.recorded_at
            &&& forall|name: Seq<char>| #[trigger]
                sample.v.dom().contains(name) <==> name == ping.name
            &&& sample.v[ping.name] == ping.latency
            &&& p.state.history == history::pruned(
                st.history.push(sample),
                ping.pruned_at,
                limits.max_age_ms as int,
                limits.max_samples as nat,
            )
            &&& p.state.revision == if st.revision < u64::MAX {
                (st.revision + 1) as u64
            } else {
                0
            }
            &&& p.state.auto_interval == st.auto_interval
            &&& p.state.interval_ms == st.interval_ms
            &&& p.state.window_mins == st.window_mins
            &&& p.state.packet_loss_alert_threshold == st.packet_loss_alert_threshold
            &&& p.state.targets == st.targets
            &&& p.round_ms == p.state.current_interval_ms
            &&& !pacing.auto_enabled ==> p.round_ms == pacing.interval_ms
                && p.state.auto_clean_needed is None
            &&& pacing.auto_enabled ==> p.round_ms == auto_interval::interval(p.worker.auto)
                && p.state.auto_clean_needed == auto_interval::rounds_needed(p.worker.auto)
        }),
{
}

/// What a ping leaves of the worker. The next target is the one after it, or the first
/// after the last. A drop leads to the fastest rung; the end of a pass without a drop is
/// a clean round; every other ping leaves the pace as it was. Without auto mode it is
/// that of the start.
pub proof fn law_what_a_ping_does_to_the_pace(
    w: WorkerView,
    st: AppView,
    pacing: Pacing,
    limits: Limits,
    ping: PingView,
)
    ensures
        ({
            let after = pinged(w, st, pacing, limits, ping).worker;
            let dropped = ping.latency == None::<u32>;
            let ends = w.next_target >= pacing.count - 1;
            &&& after.next_target == if ends {
                0
            } else {
                w.next_target + 1
            }
            &&& after.round_had_loss == (!ends && (w.round_had_loss || dropped))
            &&& !pacing.auto_enabled ==> after.auto == auto_interval::idle()
            &&& pacing.auto_enabled && dropped ==> after.auto.step == 0 && after.auto.clean_run
                == 0
            &&& pacing.auto_enabled && !dropped && ends && !w.round_had_loss ==> after.auto
                == auto_interval::after_clean_round(w.auto)
            &&& pacing.auto_enabled && !dropped && !(ends && !w.round_had_loss) ==> after.auto
                == w.auto
        }),
{
}

/// After a ping every target is judged over the samples that the history then holds: a
/// target that ten samples of the display window measured, and whose loss in it is above
/// the threshold, has alerted, and it alerts now where it had not before.
pub proof fn law_every_ping_judges_every_target(
    w: WorkerView,
    st: AppView,
    pacing: Pacing,
    limits: Limits,
    ping: PingView,
    i: int,
)
    requires
        0 <= i < st.targets.len(),
    ensures
        ({
            let p = pinged(w, st, pacing, limits, ping);
            let name = st.targets[i].name;
            let cutoff = ping.judged_at - st.window_mins * 60_000;
            let percent = crate::loss::loss_percent(p.state.history, name, cutoff);
            let over = crate::loss::measured(p.state.history, name, cutoff) >= 10 && percent
                > st.packet_loss_alert_threshold;
            &&& p.worker.alerted.contains(name) <==> over
            &&& p.alerts.contains((name, percent)) <==> over && !w.alerted.contains(name)
        }),
{
    let p = pinged(w, st, pacing, limits, ping);
    alerts::law_loss_over_the_threshold_alerts(
        p.state.history,
        st.targets,
        ping.judged_at - st.window_mins * 60_000,
        st.packet_loss_alert_threshold,
        w.alerted,
        i,
    );
}

/// A launch takes over what the configuration says, and starts without history. The
/// interval in force is the one that is set, or in auto mode ten seconds.
pub proof fn law_launch_takes_over_the_configuration(cfg: ConfigView)
    ensures
        ({
            let st = initial(cfg);
            &&& st.history.len() == 0
            &&& st.auto_interval == cfg.auto_interval
            &&& st.interval_ms == cfg.interval_ms
            &&& st.window_mins == cfg.window_mins
            &&& st.packet_loss_alert_threshold == cfg.packet_loss_alert_threshold
            &&& st.targets == cfg.targets
            &&& st.current_interval_ms == if cfg.auto_interval {
                10_000
            } else {
                cfg.interval_ms
            }
            &&& st.auto_clean_needed is None
        }),
{
}

/// The worker starts with the first target, at the slowest pace, and with no target that
/// has alerted. An empty list sends it back to the first target and forgets the pass;
/// any other leaves the cursor on a target, and where it is on one already it stays.
pub proof fn law_where_the_worker_stands(w: WorkerView, count: nat)
    ensures
        fresh_worker().next_target == 0,
        !fresh_worker().round_had_loss,
        fresh_worker().auto == auto_interval::idle(),
        forall|name: Seq<char>| !(#[trigger] fresh_worker().alerted.contains(name)),
        looked(w, count).auto == w.auto,
        looked(w, count).alerted == w.alerted,
        count == 0 ==> looked(w, count).next_target == 0 && !looked(w, count).round_had_loss,
        count > 0 ==> 0 <= looked(w, count).next_target < count && looked(w, count).round_had_loss
            == w.round_had_loss,
        0 <= w.next_target < count ==> looked(w, count).next_target == w.next_target,
{
    if count > 0 {
        vstd::arithmetic::div_mod::lemma_mod_bound(w.next_target, count as int);
        if 0 <= w.next_target < count {
            vstd::arithmetic::div_mod::lemma_small_mod(w.next_target as nat, count);
        }
    }
}

/// The gap between two pings is their share of the round, rounded down: as many gaps as
/// there are targets fit into the round, and with one millisecond more they would not.
/// It is 50 ms where that share is less.
pub proof fn law_gap_is_the_share_of_the_round(round_ms: u32, count: nat)
    requires
        count > 0,
    ensures
        round_ms < 50 * count ==> gap_ms(round_ms, count) == 50,
        round_ms >= 50 * count ==> gap_ms(round_ms, count) * count <= round_ms < (gap_ms(
            round_ms,
            count,
        ) + 1) * count,
{
    let r = round_ms as nat;
    let share = r / count;
    assert(share * count <= r < (share + 1) * count) by (nonlinear_arith)
        requires
            share == r / count,
            count > 0,
    ;
    assert(r >= 50 * count ==> share >= 50) by (nonlinear_arith)
        requires
            share == r / count,
            count > 0,
    ;
    assert(r < 50 * count ==> share < 50) by (nonlinear_arith)
        requires
            share == r / count,
            count > 0,
    ;
}

/// What is left to wait makes up the gap with what is spent, and where the gap is spent
/// already nothing is left.
pub proof fn law_wait_makes_up_the_gap(gap_ms: int, spent_ns: int)
    ensures
        spent_ns <= gap_ms * 1_000_000 ==> left_ns(gap_ms, spent_ns) + spent_ns == gap_ms
            * 1_000_000,
        spent_ns >= gap_ms * 1_000_000 ==> left_ns(gap_ms, spent_ns) == 0,
{
}

/// What was never done is due, and what was done is due again once its period is over.
pub proof fn law_due_once_the_period_is_over(ms: u64, every_ms: u64)
    ensures
        due(None, every_ms),
        due(Some(ms), every_ms) <==> ms >= every_ms,
{
}

/// A resolved target gives its address to the first target of its name, and to no other.
/// Without resolved targets nothing changes.
pub proof fn law_healing_goes_by_name(
    targets: Seq<TargetView>,
    resolved: Seq<TargetView>,
    one: TargetView,
    i: int,
)
    requires
        0 <= i < targets.len(),
    ensures
        healed(targets, Seq::empty()) == targets,
        ({
            let before = healed(targets, resolved);
            let after = healed(targets, resolved.push(one));
            let first = targets[i].name == one.name && forall|j: int|
                0 <= j < i ==> (#[trigger] targets[j]).name != one.name;
            &&& after.len() == targets.len()
            &&& first ==> after[i] == (TargetView { ip: one.ip, ..before[i] })
            &&& !first ==> after[i] == before[i]
        }),
{
    let before = healed(targets, resolved);
    assert(resolved.push(one).drop_last() =~= resolved);
    law_healing_changes_only_addresses(targets, resolved);
    lemma_first_named_is_first(before, one.name);
    let n = first_named(before, one.name) as int;
    if n < before.len() {
        assert(before[n].name == targets[n].name);
    }
    let first = targets[i].name == one.name && forall|j: int|
        0 <= j < i ==> (#[trigger] targets[j]).name != one.name;
    if first {
        if n < i {
            assert(targets[n].name != one.name);
        }
        if i < n {
            assert(before[i].name == targets[i].name);
        }
    } else if n == i {
        assert forall|j: int| 0 <= j < i implies (#[trigger] targets[j]).name != one.name by {
            assert(before[j].name == targets[j].name);
        }
    }
}

/// The first target of a name has it, and none before it does.
proof fn lemma_first_named_is_first(targets: Seq<TargetView>, name: Seq<char>)
    ensures
        first_named(targets, name) <= targets.len(),
        first_named(targets, name) < targets.len() ==> targets[first_named(
            targets,
            name,
        ) as int].name == name,
        forall|i: int|
            0 <= i < first_named(targets, name) ==> (#[trigger] targets[i]).name != name,
    decreases targets.len(),
{
    if targets.len() > 0 && targets[0].name != name {
        let rest = targets.drop_first();
        lemma_first_named_is_first(rest, name);
        assert forall|i: int| 0 <= i < first_named(targets, name) implies (
        #[trigger] targets[i]).name != name by {
            if i > 0 {
                assert(targets[i] == rest[i - 1]);
            }
        }
    }
}

/// A clock that stands before the epoch reads as 0, and one within the range of a time as
/// it shows.
pub proof fn law_clock_reads_as_it_shows(ms: u128)
    ensures
        clock_ms(None) == 0,
        ms <= i64::MAX ==> clock_ms(Some(ms)) == ms,
{
}

/// Clearing takes every sample and nothing else, and changes the revision.
pub proof fn law_clearing_takes_every_sample(st: AppView)
    ensures
        cleared(st).history.len() == 0,
        cleared(st).revision != st.revision,
        cleared(st) == (AppView {
            history: cleared(st).history,
            revision: cleared(st).revision,
            ..st
        }),
        st.revision < u64::MAX ==> next_revision(st.revision) == st.revision + 1,
{
}

/// The shared state says what it holds, and so does a ping.
pub proof fn law_state_says_what_it_holds(st: AppState, ping: Ping)
    ensures
        st@.history == st.history@,
        st@.auto_interval == st.auto_interval,
        st@.interval_ms == st.interval_ms,
        st@.current_interval_ms == st.current_interval_ms,
        st@.auto_clean_needed == st.auto_clean_needed,
        st@.window_mins == st.window_mins,
        st@.packet_loss_alert_threshold == st.packet_loss_alert_threshold,
        st@.targets == config::views(st.targets@),
        st@.revision == st.revision,
        ping@.name == ping.name@,
        ping@.latency == ping.latency,
        ping@.recorded_at == ping.recorded_at,
        ping@.pruned_at == ping.pruned_at,
        ping@.judged_at == ping.judged_at,
{
}

} // verus!
