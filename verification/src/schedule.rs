//! What the monitor's thread does, one action at a time: it looks up the
//! addresses of pinned targets when that is due, pings the next target, tells of
//! new alerts, stores the history now and then, and waits.

use vstd::prelude::*;
use crate::alerts;
use crate::arp;
use crate::config;
use crate::config::Config;
use crate::config::ConfigView;
use crate::config::Target;
use crate::config::TargetView;
use crate::monitor;
use crate::monitor::AppState;
use crate::monitor::AppView;
use crate::monitor::Limits;
use crate::monitor::Pacing;
use crate::monitor::Ping;
use crate::monitor::PingView;
use crate::monitor::Worker;
use crate::monitor::WorkerView;
use crate::ping;
use crate::text;

verus! {

/// How often the history is stored, in ms.
pub const SAVE_MS: u64 = 2_000;

/// How long the replies to a sweep may take to reach the ARP table, in ms.
pub const SETTLE_MS: u32 = 2_500;

/// The timeout of each ping of a sweep, in ms.
pub const SWEEP_TIMEOUT_MS: u32 = 200;

// ---------------------------------------------------------------------------
// Actions
// ---------------------------------------------------------------------------
/// What is to be done next.
pub enum Action {
    /// Run `arp -a`, and hand back what it printed.
    ReadTable,
    /// Ping each of these addresses, so that the ARP table holds them.
    Sweep(Vec<String>),
    /// Run `ping` with these arguments, and hand back what it printed.
    Ping(Vec<String>),
    /// Tell of these alerts.
    Notify(Vec<(String, u32)>),
    /// Store the history.
    Save,
    /// Wait for so many nanoseconds.
    Wait(u64),
}

/// What an action says.
pub enum ActionView {
    ReadTable,
    Sweep(Seq<Seq<char>>),
    Ping(Seq<Seq<char>>),
    Notify(Seq<(Seq<char>, int)>),
    Save,
    Wait(int),
}

impl View for Action {
    type V = ActionView;

    open spec fn view(&self) -> ActionView {
        match *self {
            Action::ReadTable => ActionView::ReadTable,
            Action::Sweep(addresses) => ActionView::Sweep(text::texts(addresses@)),
            Action::Ping(args) => ActionView::Ping(text::texts(args@)),
            Action::Notify(list) => ActionView::Notify(alerts::alert_views(list@)),
            Action::Save => ActionView::Save,
            Action::Wait(ns) => ActionView::Wait(ns as int),
        }
    }
}

/// The time of day in ms since the Unix epoch, and the nanoseconds passed since
/// some fixed instant.
#[derive(Clone, Copy)]
pub struct Clock {
    pub wall_ms: i64,
    pub mono_ns: u64,
}

/// Which action was handed out last.
#[derive(Clone, Copy, Debug, PartialEq, Eq, Structural)]
pub enum Phase {
    /// None, or the wait that ends a cycle.
    Start,
    /// The first look at the ARP table.
    FirstTable,
    /// The sweep for addresses that the table did not hold.
    Sweep,
    /// The wait after the sweep.
    Settle,
    /// The second look at the ARP table.
    SecondTable,
    /// The ping of a target.
    Ping,
    /// The notification of alerts.
    Notify,
    /// The storing of the history.
    Save,
}

/// What the monitor's thread carries from one action to the next.
pub struct Schedule {
    worker: Worker,
    phase: Phase,
    targets: Vec<Target>,
    pacing: Pacing,
    name: String,
    round_ms: u32,
    started_ns: u64,
    resolved_ns: Option<u64>,
    saved_ns: u64,
    limits: Limits,
    timeout_ms: u32,
    mac_resolve_ms: u64,
}

/// What a schedule says: the worker, the last action, the targets and the mode
/// as they stood at the start of the cycle, the target that is pinged, the
/// interval of the round, when the ping was started, when addresses were last
/// looked up and the history last stored, and what the configuration sets.
pub struct ScheduleView {
    pub worker: WorkerView,
    pub phase: Phase,
    pub targets: Seq<TargetView>,
    pub pacing: Pacing,
    pub name: Seq<char>,
    pub round_ms: u32,
    pub started_ns: u64,
    pub resolved_ns: Option<u64>,
    pub saved_ns: u64,
    pub limits: Limits,
    pub timeout_ms: u32,
    pub mac_resolve_ms: u64,
}

impl View for Schedule {
    type V = ScheduleView;

    closed spec fn view(&self) -> ScheduleView {
        ScheduleView {
            worker: self.worker@,
            phase: self.phase,
            targets: config::views(self.targets@),
            pacing: self.pacing,
            name: self.name@,
            round_ms: self.round_ms,
            started_ns: self.started_ns,
            resolved_ns: self.resolved_ns,
            saved_ns: self.saved_ns,
            limits: self.limits,
            timeout_ms: self.timeout_ms,
            mac_resolve_ms: self.mac_resolve_ms,
        }
    }
}

/// A schedule, the shared state, and the action that they lead to.
pub struct Turn {
    pub schedule: ScheduleView,
    pub state: AppView,
    pub action: ActionView,
}

// ---------------------------------------------------------------------------
// What each action leads to
// ---------------------------------------------------------------------------
/// The time from one instant to a later one, in ns.
pub open spec fn passed_ns(then: u64, now: u64) -> int {
    if now > then {
        now - then
    } else {
        0
    }
}

/// The time since something was last done, in ms.
pub open spec fn since_ms(then: Option<u64>, now: u64) -> Option<u64> {
    match then {
        Some(t) => Some((passed_ns(t, now) / 1_000_000) as u64),
        None => None,
    }
}

/// The schedule at the start of the program.
pub open spec fn initial(cfg: ConfigView, now_ns: u64) -> ScheduleView {
    ScheduleView {
        worker: monitor::fresh_worker(),
        phase: Phase::Start,
        targets: Seq::empty(),
        pacing: Pacing { auto_enabled: false, interval_ms: 0, count: 0 },
        name: Seq::empty(),
        round_ms: 0,
        started_ns: 0,
        resolved_ns: None,
        saved_ns: now_ns,
        limits: Limits {
            max_age_ms: cfg.history_max_age_ms,
            max_samples: cfg.history_max_samples,
        },
        timeout_ms: cfg.timeout_ms,
        mac_resolve_ms: cfg.mac_resolve_ms,
    }
}

/// The end of a cycle: the rest of the gap between two pings is waited for.
pub open spec fn closing(s: ScheduleView, st: AppView, clock: Clock) -> Turn {
    Turn {
        schedule: ScheduleView { phase: Phase::Start, ..s },
        state: st,
        action: ActionView::Wait(
            monitor::left_ns(
                monitor::gap_ms(s.round_ms, s.pacing.count as nat) as int,
                passed_ns(s.started_ns, clock.mono_ns),
            ),
        ),
    }
}

/// After the alerts, the history is stored where that is due.
pub open spec fn storing(s: ScheduleView, st: AppView, clock: Clock) -> Turn {
    if monitor::due(since_ms(Some(s.saved_ns), clock.mono_ns), SAVE_MS) {
        Turn {
            schedule: ScheduleView { phase: Phase::Save, ..s },
            state: st,
            action: ActionView::Save,
        }
    } else {
        closing(s, st, clock)
    }
}

/// What a ping is recorded as, given what it printed; a ping that could not be
/// made is a drop.
pub open spec fn ping_of(s: ScheduleView, output: Option<Seq<char>>, clock: Clock) -> PingView {
    PingView {
        name: s.name,
        latency: match output {
            Some(o) => ping::reply_latency(o),
            None => None,
        },
        recorded_at: clock.wall_ms as int,
        pruned_at: clock.wall_ms as int,
        judged_at: clock.wall_ms as int,
    }
}

/// After a ping it is recorded, and new alerts are told of.
pub open spec fn recording(
    s: ScheduleView,
    st: AppView,
    output: Option<Seq<char>>,
    clock: Clock,
) -> Turn {
    let p = monitor::pinged(s.worker, st, s.pacing, s.limits, ping_of(s, output, clock));
    let after = ScheduleView { worker: p.worker, round_ms: p.round_ms, ..s };
    if p.alerts.len() > 0 {
        Turn {
            schedule: ScheduleView { phase: Phase::Notify, ..after },
            state: p.state,
            action: ActionView::Notify(p.alerts),
        }
    } else {
        storing(after, p.state, clock)
    }
}

/// The target whose turn it is gets its ping; without targets the interval is
/// waited for.
pub open spec fn pinging(s: ScheduleView, st: AppView, clock: Clock) -> Turn {
    let worker = monitor::looked(s.worker, s.targets.len());
    if s.targets.len() == 0 {
        Turn {
            schedule: ScheduleView { worker, phase: Phase::Start, ..s },
            state: st,
            action: ActionView::Wait(s.pacing.interval_ms * 1_000_000),
        }
    } else {
        let target = s.targets[worker.next_target];
        Turn {
            schedule: ScheduleView {
                worker,
                phase: Phase::Ping,
                name: target.name,
                started_ns: clock.mono_ns,
                ..s
            },
            state: st,
            action: ActionView::Ping(ping::ping_arguments(target.ip, s.timeout_ms as nat)),
        }
    }
}

/// Addresses that were looked up go to the shared list.
pub open spec fn healing(s: ScheduleView, st: AppView, clock: Clock) -> Turn {
    pinging(
        ScheduleView { resolved_ns: Some(clock.mono_ns), ..s },
        AppView { targets: monitor::healed(st.targets, s.targets), ..st },
        clock,
    )
}

/// The address around which to look for pinned targets that the table does not
/// hold.
pub open spec fn sweep_base(
    targets: Seq<TargetView>,
    table: Map<Seq<char>, Seq<char>>,
) -> Option<Seq<char>> {
    if arp::any_missing(targets, table) {
        arp::first_lan_ip(targets)
    } else {
        None
    }
}

/// The targets as the table leaves them.
pub open spec fn all_followed(
    targets: Seq<TargetView>,
    table: Map<Seq<char>, Seq<char>>,
) -> Seq<TargetView> {
    targets.map_values(|t: TargetView| arp::followed(t, table))
}

/// What the table printed; nothing where it could not be read.
pub open spec fn printed(output: Option<Seq<char>>) -> Seq<char> {
    match output {
        Some(o) => o,
        None => Seq::empty(),
    }
}

/// After a look at the table the pinned targets follow it. Where the first look
/// did not find them all, the network is swept before a second one.
pub open spec fn following(
    s: ScheduleView,
    st: AppView,
    output: Option<Seq<char>>,
    clock: Clock,
    first: bool,
) -> Turn {
    let table = arp::arp_entries(text::lines(printed(output)));
    let base = sweep_base(s.targets, table);
    if first && base is Some {
        Turn {
            schedule: ScheduleView { phase: Phase::Sweep, ..s },
            state: st,
            action: ActionView::Sweep(ping::neighbours(base->0)),
        }
    } else {
        healing(ScheduleView { targets: all_followed(s.targets, table), ..s }, st, clock)
    }
}

/// A cycle starts with a look at the shared state. Where it is due, and some
/// target is pinned, the ARP table is read.
pub open spec fn opening(s: ScheduleView, st: AppView, clock: Clock) -> Turn {
    let seen = ScheduleView {
        targets: st.targets,
        pacing: Pacing {
            auto_enabled: st.auto_interval,
            interval_ms: st.interval_ms,
            count: st.targets.len() as usize,
        },
        ..s
    };
    if monitor::due(since_ms(s.resolved_ns, clock.mono_ns), s.mac_resolve_ms) {
        if arp::any_pinned(st.targets) {
            Turn {
                schedule: ScheduleView { phase: Phase::FirstTable, ..seen },
                state: st,
                action: ActionView::ReadTable,
            }
        } else {
            healing(seen, st, clock)
        }
    } else {
        pinging(seen, st, clock)
    }
}

/// What follows the last action, given what it printed.
pub open spec fn turned(
    s: ScheduleView,
    st: AppView,
    output: Option<Seq<char>>,
    clock: Clock,
) -> Turn {
    match s.phase {
        Phase::Start => opening(s, st, clock),
        Phase::FirstTable => following(s, st, output, clock, true),
        Phase::Sweep => Turn {
            schedule: ScheduleView { phase: Phase::Settle, ..s },
            state: st,
            action: ActionView::Wait(SETTLE_MS * 1_000_000),
        },
        Phase::Settle => Turn {
            schedule: ScheduleView { phase: Phase::SecondTable, ..s },
            state: st,
            action: ActionView::ReadTable,
        },
        Phase::SecondTable => following(s, st, output, clock, false),
        Phase::Ping => recording(s, st, output, clock),
        Phase::Notify => storing(s, st, clock),
        Phase::Save => closing(ScheduleView { saved_ns: clock.mono_ns, ..s }, st, clock),
    }
}

// ---------------------------------------------------------------------------
// The schedule
// ---------------------------------------------------------------------------
/// The time since something was last done, in ms.
fn ms_since(then: Option<u64>, now: u64) -> (r: Option<u64>)
    ensures
        r == since_ms(then, now),
{
    match then {
        Some(t) => Some(now.saturating_sub(t) / 1_000_000),
        None => None,
    }
}

impl Schedule {
    /// Until the ping, the number of targets is that of the list, and from the
    /// ping on there is one.
    #[verifier::type_invariant]
    closed spec fn consistent(self) -> bool {
        match self.phase {
            Phase::Start => true,
            Phase::Ping | Phase::Notify | Phase::Save => self.pacing.count > 0,
            _ => self.pacing.count == self.targets@.len(),
        }
    }

    /// The schedule of a configuration, at the start of the program.
    pub fn new(cfg: &Config, now_ns: u64) -> (r: Self)
        ensures
            r@ == initial(cfg@, now_ns),
    {
        let r = Schedule {
            worker: Worker::default(),
            phase: Phase::Start,
            targets: Vec::new(),
            pacing: Pacing { auto_enabled: false, interval_ms: 0, count: 0 },
            name: String::new(),
            round_ms: 0,
            started_ns: 0,
            resolved_ns: None,
            saved_ns: now_ns,
            limits: Limits {
                max_age_ms: cfg.history_max_age_ms,
                max_samples: cfg.history_max_samples,
            },
            timeout_ms: cfg.timeout_ms,
            mac_resolve_ms: cfg.mac_resolve_ms,
        };
        assert(r@.targets =~= Seq::<TargetView>::empty());
        assert(r@.name =~= Seq::<char>::empty());
        r
    }

    /// The end of a cycle.
    fn close(&mut self, clock: Clock) -> (r: Action)
        requires
            old(self)@.pacing.count > 0,
        ensures
            forall|st: AppView| #[trigger]
                closing(old(self)@, st, clock) == (Turn {
                    schedule: final(self)@,
                    state: st,
                    action: r@,
                }),
    {
        let gap: u32 = monitor::ping_gap_ms(self.round_ms, self.pacing.count);
        let spent: u64 = clock.mono_ns.saturating_sub(self.started_ns);
        self.phase = Phase::Start;
        Action::Wait(monitor::wait_ns(gap, spent))
    }

    /// After the alerts.
    fn store(&mut self, clock: Clock) -> (r: Action)
        requires
            old(self)@.pacing.count > 0,
        ensures
            forall|st: AppView| #[trigger]
                storing(old(self)@, st, clock) == (Turn {
                    schedule: final(self)@,
                    state: st,
                    action: r@,
                }),
    {
        if monitor::is_due(ms_since(Some(self.saved_ns), clock.mono_ns), SAVE_MS) {
            self.phase = Phase::Save;
            Action::Save
        } else {
            let ghost before = self@;
            let r = self.close(clock);
            assert forall|st: AppView| #[trigger] storing(before, st, clock) == (Turn {
                schedule: self@,
                state: st,
                action: r@,
            }) by {
                assert(closing(before, st, clock) == (Turn {
                    schedule: self@,
                    state: st,
                    action: r@,
                }));
            }
            r
        }
    }

    /// After a ping.
    fn record(&mut self, st: &mut AppState, output: Option<&str>, clock: Clock) -> (r: Action)
        requires
            old(self)@.pacing.count > 0,
        ensures
            recording(
                old(self)@,
                old(st)@,
                match output {
                    Some(o) => Some(o@),
                    None => None,
                },
                clock,
            ) == (Turn { schedule: final(self)@, state: final(st)@, action: r@ }),
    {
        proof {
            use_type_invariant(&*self);
        }
        let latency = match output {
            Some(o) => ping::ping_reply(o),
            None => None,
        };
        let record = Ping {
            name: self.name.clone(),
            latency,
            recorded_at: clock.wall_ms,
            pruned_at: clock.wall_ms,
            judged_at: clock.wall_ms,
        };
        let mut worker = Worker::default();
        std::mem::swap(&mut worker, &mut self.worker);
        let outcome = worker.on_ping(st, &self.pacing, &self.limits, record);
        self.worker = worker;
        self.round_ms = outcome.round_ms;
        assert(alerts::alert_views(outcome.alerts@).len() == outcome.alerts@.len());
        if outcome.alerts.len() > 0 {
            self.phase = Phase::Notify;
            Action::Notify(outcome.alerts)
        } else {
            let ghost before = self@;
            let r = self.store(clock);
            assert(storing(before, st@, clock) == (Turn {
                schedule: self@,
                state: st@,
                action: r@,
            }));
            r
        }
    }

    /// The ping of the target whose turn it is.
    fn ping(&mut self, clock: Clock) -> (r: Action)
        requires
            old(self)@.pacing.count == old(self)@.targets.len(),
        ensures
            forall|st: AppView| #[trigger]
                pinging(old(self)@, st, clock) == (Turn {
                    schedule: final(self)@,
                    state: st,
                    action: r@,
                }),
    {
        proof {
            use_type_invariant(&*self);
        }
        let ghost before = self@;
        let count: usize = self.targets.len();
        assert(self@.targets.len() == count);
        let mut worker = Worker::default();
        std::mem::swap(&mut worker, &mut self.worker);
        let picked = worker.pick(count);
        self.worker = worker;
        match picked {
            None => {
                self.phase = Phase::Start;
                Action::Wait(self.pacing.interval_ms as u64 * 1_000_000)
            },
            Some(i) => {
                assert(before.targets[i as int] == self.targets@[i as int]@);
                self.name = self.targets[i].name.clone();
                self.started_ns = clock.mono_ns;
                self.phase = Phase::Ping;
                Action::Ping(ping::ping_args(self.targets[i].ip.as_str(), self.timeout_ms))
            },
        }
    }

    /// After addresses were looked up.
    fn heal(&mut self, st: &mut AppState, clock: Clock) -> (r: Action)
        requires
            old(self)@.pacing.count == old(self)@.targets.len(),
        ensures
            healing(old(self)@, old(st)@, clock) == (Turn {
                schedule: final(self)@,
                state: final(st)@,
                action: r@,
            }),
    {
        proof {
            use_type_invariant(&*self);
        }
        self.resolved_ns = Some(clock.mono_ns);
        monitor::heal_targets(&mut st.targets, self.targets.as_slice());
        let ghost before = self@;
        let r = self.ping(clock);
        assert(pinging(before, st@, clock) == (Turn { schedule: self@, state: st@, action: r@ }));
        r
    }

    /// After a look at the table.
    fn follow(
        &mut self,
        st: &mut AppState,
        output: Option<&str>,
        clock: Clock,
        first: bool,
    ) -> (r: Action)
        requires
            old(self)@.pacing.count == old(self)@.targets.len(),
        ensures
            following(
                old(self)@,
                old(st)@,
                match output {
                    Some(o) => Some(o@),
                    None => None,
                },
                clock,
                first,
            ) == (Turn { schedule: final(self)@, state: final(st)@, action: r@ }),
    {
        proof {
            use_type_invariant(&*self);
        }
        let table = match output {
            Some(o) => arp::read_arp_table(o),
            None => arp::read_arp_table(""),
        };
        proof {
            reveal_strlit("");
            assert(""@ =~= Seq::<char>::empty());
        }
        if first {
            match arp::sweep_from(self.targets.as_slice(), &table) {
                Some(ip) => {
                    self.phase = Phase::Sweep;
                    return Action::Sweep(ping::sweep_addresses(ip.as_str()));
                },
                None => {},
            }
        }
        let mut targets = config::clone_targets(self.targets.as_slice());
        arp::follow_arp(&mut targets, &table);
        self.targets = targets;
        assert(self@.targets.len() == old(self)@.targets.len());
        self.heal(st, clock)
    }

    /// The start of a cycle.
    fn open(&mut self, st: &mut AppState, clock: Clock) -> (r: Action)
        requires
            old(self)@.phase is Start,
        ensures
            opening(old(self)@, old(st)@, clock) == (Turn {
                schedule: final(self)@,
                state: final(st)@,
                action: r@,
            }),
    {
        assert(st@.targets.len() == st.targets@.len());
        let targets = config::clone_targets(st.targets.as_slice());
        assert(config::views(targets@).len() == targets@.len());
        self.targets = targets;
        self.pacing = Pacing {
            auto_enabled: st.auto_interval,
            interval_ms: st.interval_ms,
            count: st.targets.len(),
        };
        if monitor::is_due(ms_since(self.resolved_ns, clock.mono_ns), self.mac_resolve_ms) {
            if arp::has_pinned(self.targets.as_slice()) {
                self.phase = Phase::FirstTable;
                Action::ReadTable
            } else {
                self.heal(st, clock)
            }
        } else {
            let ghost before = self@;
            let r = self.ping(clock);
            assert(pinging(before, st@, clock) == (Turn {
                schedule: self@,
                state: st@,
                action: r@,
            }));
            r
        }
    }

    /// The next action, once the last one is done. `output` is what the last
    /// action printed, where it ran a program that could be run.
    pub fn next(&mut self, st: &mut AppState, output: Option<&str>, clock: Clock) -> (r: Action)
        ensures
            turned(
                old(self)@,
                old(st)@,
                match output {
                    Some(o) => Some(o@),
                    None => None,
                },
                clock,
            ) == (Turn { schedule: final(self)@, state: final(st)@, action: r@ }),
    {
        proof {
            use_type_invariant(&*self);
        }
        match self.phase {
            Phase::Start => self.open(st, clock),
            Phase::FirstTable => self.follow(st, output, clock, true),
            Phase::Sweep => {
                self.phase = Phase::Settle;
                Action::Wait(SETTLE_MS as u64 * 1_000_000)
            },
            Phase::Settle => {
                self.phase = Phase::SecondTable;
                Action::ReadTable
            },
            Phase::SecondTable => self.follow(st, output, clock, false),
            Phase::Ping => self.record(st, output, clock),
            Phase::Notify => {
                let ghost before = self@;
                let r = self.store(clock);
                assert(storing(before, st@, clock) == (Turn {
                    schedule: self@,
                    state: st@,
                    action: r@,
                }));
                r
            },
            Phase::Save => {
                self.saved_ns = clock.mono_ns;
                let ghost before = self@;
                let r = self.close(clock);
                assert(closing(before, st@, clock) == (Turn {
                    schedule: self@,
                    state: st@,
                    action: r@,
                }));
                r
            },
        }
    }
}

// ---------------------------------------------------------------------------
// Laws
// ---------------------------------------------------------------------------
/// How far a cycle has yet to go: the number of actions after this one, at most.
pub open spec fn actions_left(phase: Phase) -> nat {
    match phase {
        Phase::Start => 0,
        Phase::Save => 1,
        Phase::Notify => 2,
        Phase::Ping => 3,
        Phase::SecondTable => 4,
        Phase::Settle => 5,
        Phase::Sweep => 6,
        Phase::FirstTable => 7,
    }
}

/// A cycle always comes to its end: whatever the actions print, whatever the
/// clocks show and whatever becomes of the shared state meanwhile, every action
/// within a cycle brings its end nearer. So no phase comes twice in a cycle, and
/// there is at most one ping in each.
pub proof fn law_cycles_end(
    s: ScheduleView,
    st: AppView,
    output: Option<Seq<char>>,
    clock: Clock,
)
    ensures
        !(s.phase is Start) ==> actions_left(turned(s, st, output, clock).schedule.phase)
            < actions_left(s.phase),
        s.phase is Start ==> {
            let phase = turned(s, st, output, clock).schedule.phase;
            phase is Start || phase is Ping || phase is FirstTable
        },
{
}

/// Each action belongs to a phase: a cycle ends with a wait, and only then does
/// the next one start.
pub proof fn law_phase_tells_the_action(
    s: ScheduleView,
    st: AppView,
    output: Option<Seq<char>>,
    clock: Clock,
)
    ensures
        match turned(s, st, output, clock).schedule.phase {
            Phase::Start => turned(s, st, output, clock).action is Wait,
            Phase::FirstTable => turned(s, st, output, clock).action is ReadTable,
            Phase::Sweep => turned(s, st, output, clock).action is Sweep,
            Phase::Settle => turned(s, st, output, clock).action is Wait,
            Phase::SecondTable => turned(s, st, output, clock).action is ReadTable,
            Phase::Ping => turned(s, st, output, clock).action is Ping,
            Phase::Notify => turned(s, st, output, clock).action is Notify,
            Phase::Save => turned(s, st, output, clock).action is Save,
        },
{
}

/// The user is told exactly of the alerts that a ping raises, and of nothing
/// where it raises none.
pub proof fn law_new_alerts_are_told(
    s: ScheduleView,
    st: AppView,
    output: Option<Seq<char>>,
    clock: Clock,
)
    ensures
        ({
            let action = turned(s, st, output, clock).action;
            let raised = monitor::pinged(
                s.worker,
                st,
                s.pacing,
                s.limits,
                ping_of(s, output, clock),
            ).alerts;
            &&& s.phase is Ping && raised.len() > 0 ==> action == ActionView::Notify(raised)
            &&& action is Notify ==> s.phase is Ping && raised.len() > 0
        }),
{
}

/// The history is stored only after a ping, and only where that was not done in
/// the last `SAVE_MS` milliseconds, counted from when it was done.
pub proof fn law_history_is_stored_now_and_then(
    s: ScheduleView,
    st: AppView,
    output: Option<Seq<char>>,
    clock: Clock,
)
    ensures
        turned(s, st, output, clock).action is Save ==> {
            &&& s.phase is Ping || s.phase is Notify
            &&& passed_ns(s.saved_ns, clock.mono_ns) >= SAVE_MS * 1_000_000
        },
        s.phase is Notify && passed_ns(s.saved_ns, clock.mono_ns) >= SAVE_MS * 1_000_000
            ==> turned(s, st, output, clock).action is Save,
        s.phase is Save ==> turned(s, st, output, clock).schedule.saved_ns == clock.mono_ns,
{
}

/// Pings keep their distance: the wait that ends a cycle lasts, with the time
/// spent since its ping was started, at least as long as the gap between pings,
/// and no longer than that where the gap is not over yet.
pub proof fn law_pings_keep_their_distance(
    s: ScheduleView,
    st: AppView,
    output: Option<Seq<char>>,
    clock: Clock,
)
    requires
        s.phase is Ping || s.phase is Notify || s.phase is Save,
        turned(s, st, output, clock).schedule.phase is Start,
    ensures
        ({
            let after = turned(s, st, output, clock);
            let gap_ns = monitor::gap_ms(after.schedule.round_ms, s.pacing.count as nat)
                * 1_000_000;
            let spent_ns = passed_ns(s.started_ns, clock.mono_ns);
            &&& after.action is Wait
            &&& after.action->Wait_0 + spent_ns >= gap_ns
            &&& spent_ns <= gap_ns ==> after.action->Wait_0 + spent_ns == gap_ns
            &&& gap_ns >= monitor::MIN_PING_GAP_MS * 1_000_000
        }),
{
}

/// The monitor leaves the user's settings alone: no action changes the mode, the
/// interval, the window or the threshold, nor the number, the order, the names
/// or the MAC addresses of the targets.
pub proof fn law_settings_are_left_alone(
    s: ScheduleView,
    st: AppView,
    output: Option<Seq<char>>,
    clock: Clock,
)
    ensures
        ({
            let after = turned(s, st, output, clock).state;
            &&& after.auto_interval == st.auto_interval
            &&& after.interval_ms == st.interval_ms
            &&& after.window_mins == st.window_mins
            &&& after.packet_loss_alert_threshold == st.packet_loss_alert_threshold
            &&& after.targets.len() == st.targets.len()
            &&& forall|i: int|
                0 <= i < st.targets.len() ==> (#[trigger] after.targets[i]).name
                    == st.targets[i].name && after.targets[i].mac == st.targets[i].mac
        }),
{
    let table = arp::arp_entries(text::lines(printed(output)));
    monitor::law_healing_changes_only_addresses(st.targets, st.targets);
    monitor::law_healing_changes_only_addresses(st.targets, s.targets);
    monitor::law_healing_changes_only_addresses(st.targets, all_followed(s.targets, table));
}

/// The table is read only where some target is pinned, and the network is swept
/// only where the first look at the table missed a pinned target.
pub proof fn law_nothing_is_looked_up_in_vain(
    s: ScheduleView,
    st: AppView,
    output: Option<Seq<char>>,
    clock: Clock,
)
    ensures
        ({
            let action = turned(s, st, output, clock).action;
            &&& s.phase is Start && action is ReadTable ==> arp::any_pinned(st.targets)
            &&& action is Sweep ==> s.phase is FirstTable && arp::any_missing(
                s.targets,
                arp::arp_entries(text::lines(printed(output))),
            )
        }),
{
}

/// Pinned targets heal: once the table has been read, and no sweep is to come
/// first, every target that is pinned to a MAC address of the table has the IP
/// that the table gives for it, and every other target the IP that it had at the
/// start of the cycle. That is where no two targets have the same name and the
/// list was not edited since the start of the cycle.
pub proof fn law_pinned_targets_heal(
    s: ScheduleView,
    st: AppView,
    output: Option<Seq<char>>,
    clock: Clock,
    i: int,
)
    requires
        s.phase is FirstTable || s.phase is SecondTable,
        !(turned(s, st, output, clock).action is Sweep),
        monitor::names_differ(st.targets),
        s.targets.len() == st.targets.len(),
        forall|j: int|
            0 <= j < st.targets.len() ==> (#[trigger] s.targets[j]).name == st.targets[j].name,
        0 <= i < st.targets.len(),
    ensures
        ({
            let table = arp::arp_entries(text::lines(printed(output)));
            let after = turned(s, st, output, clock).state.targets;
            &&& after.len() == st.targets.len()
            &&& after[i].ip == arp::followed(s.targets[i], table).ip
            &&& s.targets[i].mac matches Some(mac) ==> (table.contains_key(arp::normal_mac(mac))
                ==> after[i].ip == table[arp::normal_mac(mac)])
        }),
{
    let table = arp::arp_entries(text::lines(printed(output)));
    let resolved = all_followed(s.targets, table);
    assert forall|j: int| 0 <= j < st.targets.len() implies (#[trigger] resolved[j]).name
        == st.targets[j].name by {
        arp::law_follow_changes_only_the_ip(s.targets[j], table);
        assert(s.targets[j].name == st.targets[j].name);
    }
    monitor::law_healing_gives_the_resolved_address(st.targets, resolved);
    assert(resolved[i] == arp::followed(s.targets[i], table));
    assert(monitor::healed(st.targets, resolved)[i].ip == resolved[i].ip);
}

/// At the start everything is due but the storing of the history, and what the
/// configuration sets is in force.
pub proof fn law_schedule_starts_from_the_configuration(cfg: ConfigView, now_ns: u64)
    ensures
        ({
            let s = initial(cfg, now_ns);
            &&& s.phase is Start
            &&& s.worker == monitor::fresh_worker()
            &&& s.resolved_ns is None
            &&& s.saved_ns == now_ns
            &&& s.limits.max_age_ms == cfg.history_max_age_ms
            &&& s.limits.max_samples == cfg.history_max_samples
            &&& s.timeout_ms == cfg.timeout_ms
            &&& s.mac_resolve_ms == cfg.mac_resolve_ms
        }),
{
}

/// A cycle pings the target whose turn it is, as the shared list has it when the cycle
/// starts, where no lookup is due. The shared state stays as it is.
pub proof fn law_a_cycle_pings_the_next_target(
    s: ScheduleView,
    st: AppView,
    output: Option<Seq<char>>,
    clock: Clock,
)
    requires
        s.phase is Start,
        0 <= s.worker.next_target,
        0 < st.targets.len() <= usize::MAX,
        s.resolved_ns is Some,
        clock.mono_ns - s.resolved_ns->0 < s.mac_resolve_ms * 1_000_000,
        s.mac_resolve_ms > 0,
    ensures
        ({
            let i = s.worker.next_target % (st.targets.len() as int);
            let after = turned(s, st, output, clock);
            &&& after.action == ActionView::Ping(
                ping::ping_arguments(st.targets[i].ip, s.timeout_ms as nat),
            )
            &&& after.schedule.phase is Ping
            &&& after.schedule.name == st.targets[i].name
            &&& after.schedule.worker.next_target == i
            &&& after.schedule.started_ns == clock.mono_ns
            &&& after.schedule.pacing.auto_enabled == st.auto_interval
            &&& after.schedule.pacing.interval_ms == st.interval_ms
            &&& after.schedule.pacing.count == st.targets.len()
            &&& after.schedule.resolved_ns == s.resolved_ns
            &&& after.state == st
        }),
{
}

/// A lookup is due where none was made yet, or the last one lies as long back as the
/// configuration sets. The table is then read where some target is pinned; where none
/// is, the next target is pinged.
pub proof fn law_lookups_are_made_when_due(
    s: ScheduleView,
    st: AppView,
    output: Option<Seq<char>>,
    clock: Clock,
)
    requires
        s.phase is Start,
        s.resolved_ns is None || clock.mono_ns - s.resolved_ns->0 >= s.mac_resolve_ms * 1_000_000,
    ensures
        ({
            let after = turned(s, st, output, clock);
            let pinned = exists|i: int|
                0 <= i < st.targets.len() && (#[trigger] st.targets[i]).mac is Some;
            &&& pinned ==> after.action is ReadTable && after.schedule.phase is FirstTable
                && after.state == st && after.schedule.targets == st.targets
            &&& !pinned ==> after.schedule.resolved_ns == Some(clock.mono_ns) && !(
            after.action is ReadTable)
            &&& !pinned && st.targets.len() > 0 ==> after.action is Ping
        }),
{
    if s.resolved_ns is Some {
        let t = s.resolved_ns->0;
        assert(passed_ns(t, clock.mono_ns) / 1_000_000 >= s.mac_resolve_ms);
    }
}

/// Without targets the whole interval is waited for, and nothing is pinged.
pub proof fn law_without_targets_the_interval_is_waited_for(
    s: ScheduleView,
    st: AppView,
    output: Option<Seq<char>>,
    clock: Clock,
)
    requires
        s.phase is Start,
        st.targets.len() == 0,
    ensures
        turned(s, st, output, clock).action == ActionView::Wait(st.interval_ms * 1_000_000),
        turned(s, st, output, clock).schedule.phase is Start,
        turned(s, st, output, clock).state == st,
{
    assert(!arp::any_pinned(st.targets));
    assert(monitor::healed(st.targets, st.targets) == st.targets);
    assert((AppView { targets: st.targets, ..st }) == st);
}

/// A ping is recorded under the name of the target that was pinged, at the time of the
/// clock, with the latency that its output tells. A ping that could not be made, or whose
/// output tells of no reply, is a drop.
pub proof fn law_what_a_ping_printed_is_recorded(
    s: ScheduleView,
    st: AppView,
    output: Option<Seq<char>>,
    clock: Clock,
)
    requires
        s.phase is Ping,
    ensures
        ({
            let ping = PingView {
                name: s.name,
                latency: if output is Some {
                    ping::reply_latency(output->0)
                } else {
                    None
                },
                recorded_at: clock.wall_ms as int,
                pruned_at: clock.wall_ms as int,
                judged_at: clock.wall_ms as int,
            };
            let p = monitor::pinged(s.worker, st, s.pacing, s.limits, ping);
            let after = turned(s, st, output, clock);
            &&& after.state == p.state
            &&& after.schedule.worker == p.worker
            &&& after.schedule.round_ms == p.round_ms
            &&& p.alerts.len() > 0 ==> after.action == ActionView::Notify(p.alerts)
            &&& p.alerts.len() == 0 && clock.mono_ns - s.saved_ns >= 2_000_000_000
                ==> after.action is Save
            &&& p.alerts.len() == 0 && clock.mono_ns - s.saved_ns < 2_000_000_000
                ==> after.action is Wait
        }),
{
}

/// A pinned target that the first look at the table misses is looked for: every neighbour
/// of the first target on the LAN is pinged, two and a half seconds are waited for, and
/// the table is read again. There is no second sweep.
pub proof fn law_missing_targets_are_swept_for(
    s: ScheduleView,
    st: AppView,
    output: Option<Seq<char>>,
    clock: Clock,
)
    ensures
        ({
            let table = arp::arp_entries(text::lines(printed(output)));
            let after = turned(s, st, output, clock);
            &&& s.phase is FirstTable && arp::any_missing(s.targets, table) && arp::first_lan_ip(
                s.targets,
            ) is Some ==> after.action == ActionView::Sweep(
                ping::neighbours(arp::first_lan_ip(s.targets)->0),
            ) && after.schedule.phase is Sweep && after.state == st
            &&& s.phase is Sweep ==> after.action == ActionView::Wait(2_500_000_000)
                && after.schedule.phase is Settle && after.state == st
            &&& s.phase is Settle ==> after.action is ReadTable
                && after.schedule.phase is SecondTable && after.state == st
            &&& s.phase is SecondTable ==> !(after.action is Sweep)
            &&& output is None ==> table == Map::<Seq<char>, Seq<char>>::empty()
        }),
{
    let none = Seq::<char>::empty();
    text::law_lines_end_at_line_feeds(none, none);
    if output is None {
        assert(text::lines(none).len() == 0);
        assert(text::lines(none) =~= Seq::<Seq<char>>::empty());
        arp::law_other_lines_are_passed_over(Seq::empty(), none);
    }
}

/// Once the table has been read and no sweep is to come first, the next target is pinged
/// at the address that the table gives for it, where it is pinned to a MAC address of the
/// table, and otherwise at its own.
pub proof fn law_the_ping_goes_to_the_healed_address(
    s: ScheduleView,
    st: AppView,
    output: Option<Seq<char>>,
    clock: Clock,
)
    requires
        s.phase is FirstTable || s.phase is SecondTable,
        0 <= s.worker.next_target,
        s.targets.len() > 0,
        !(turned(s, st, output, clock).action is Sweep),
    ensures
        ({
            let table = arp::arp_entries(text::lines(printed(output)));
            let after = turned(s, st, output, clock);
            let t = s.targets[s.worker.next_target % (s.targets.len() as int)];
            let ip = if t.mac is Some && table.dom().contains(arp::normal_mac(t.mac->0)) {
                table[arp::normal_mac(t.mac->0)]
            } else {
                t.ip
            };
            &&& after.action == ActionView::Ping(ping::ping_arguments(ip, s.timeout_ms as nat))
            &&& after.schedule.name == t.name
            &&& after.schedule.resolved_ns == Some(clock.mono_ns)
            &&& after.state.history == st.history
        }),
{
    let i = s.worker.next_target % (s.targets.len() as int);
    vstd::arithmetic::div_mod::lemma_mod_bound(s.worker.next_target, s.targets.len() as int);
    let table = arp::arp_entries(text::lines(printed(output)));
    let all = all_followed(s.targets, table);
    assert(all[i] == arp::followed(s.targets[i], table));
    arp::law_follow_changes_only_the_ip(s.targets[i], table);
}

/// The time that passed is the difference of the instants, and none where the later one
/// was given first; in ms it is counted in whole ones.
pub proof fn law_time_that_passed(then: u64, now: u64)
    ensures
        now >= then ==> passed_ns(then, now) + then == now,
        now <= then ==> passed_ns(then, now) == 0,
        since_ms(None, now) is None,
        since_ms(Some(then), now) is Some,
        since_ms(Some(then), now)->0 * 1_000_000 <= passed_ns(then, now) < (since_ms(
            Some(then),
            now,
        )->0 + 1) * 1_000_000,
{
}

} // verus!
