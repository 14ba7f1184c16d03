use netmon_rs::config::{save_settings, Config, Target};
use netmon_rs::monitor::{init_shared, AppState};
use netmon_rs::schedule::{Action, Clock, Schedule, SAVE_MS};

const MS: u64 = 1_000_000;
const REPLY: &str = "Reply from 8.8.8.8: bytes=32 time=12ms TTL=117";

fn at(ms: u64) -> Clock {
    Clock {
        wall_ms: 1_700_000_000_000 + ms as i64,
        mono_ns: ms * MS,
    }
}

fn state(targets: Vec<Target>) -> (Schedule, AppState) {
    let mut cfg = Config::starter(None);
    cfg.targets = targets;
    (Schedule::new(&cfg, 0), init_shared(&cfg))
}

fn ping_args(action: Action) -> Vec<String> {
    match action {
        Action::Ping(args) => args,
        _ => panic!("not a ping"),
    }
}

fn wait(action: Action) -> u64 {
    match action {
        Action::Wait(ns) => ns,
        _ => panic!("not a wait"),
    }
}

#[test]
fn a_cycle_pings_one_target_and_waits() {
    let (mut schedule, mut st) = state(vec![
        Target::new("A", "1.1.1.1", None),
        Target::new("B", "2.2.2.2", None),
    ]);
    let args = ping_args(schedule.next(&mut st, None, at(0)));
    assert_eq!(args, vec!["-n", "1", "-w", "1500", "1.1.1.1"]);
    // Two targets in a round of a second: half a second apart, less what the
    // ping took.
    assert_eq!(wait(schedule.next(&mut st, Some(REPLY), at(20))), 480 * MS);
    assert_eq!(st.history.samples.len(), 1);
    assert_eq!(st.history.samples[0].v.get("A"), Some(&Some(12)));
    assert_eq!(st.history.samples[0].t, 1_700_000_000_020);
    let args = ping_args(schedule.next(&mut st, None, at(500)));
    assert_eq!(args[4], "2.2.2.2");
    // A ping that could not be made is a drop, and one that took longer than
    // the gap is followed at once.
    assert_eq!(wait(schedule.next(&mut st, None, at(1_600))), 0);
    assert_eq!(st.history.samples[1].v.get("B"), Some(&None));
    assert_eq!(ping_args(schedule.next(&mut st, None, at(1_600)))[4], "1.1.1.1");
}

#[test]
fn the_history_is_stored_now_and_then() {
    let (mut schedule, mut st) = state(vec![Target::new("A", "1.1.1.1", None)]);
    ping_args(schedule.next(&mut st, None, at(0)));
    assert_eq!(wait(schedule.next(&mut st, Some(REPLY), at(10))), 990 * MS);
    ping_args(schedule.next(&mut st, None, at(SAVE_MS - 10)));
    assert!(matches!(schedule.next(&mut st, Some(REPLY), at(SAVE_MS)), Action::Save));
    // Counted from when it was done.
    assert_eq!(wait(schedule.next(&mut st, None, at(SAVE_MS + 90))), 900 * MS);
    ping_args(schedule.next(&mut st, None, at(2 * SAVE_MS)));
    wait(schedule.next(&mut st, Some(REPLY), at(2 * SAVE_MS + 89)));
}

#[test]
fn new_alerts_are_told_once() {
    let (mut schedule, mut st) = state(vec![Target::new("A", "1.1.1.1", None)]);
    let mut told = Vec::new();
    let mut ms = 0;
    for _ in 0..40 {
        match schedule.next(&mut st, None, at(ms)) {
            Action::Notify(alerts) => told.push(alerts),
            Action::Wait(ns) => ms += ns / MS,
            _ => {}
        }
        ms += 1;
    }
    assert_eq!(told, vec![vec![("A".to_string(), 100)]]);
    let times: Vec<i64> = st.history.samples.iter().map(|s| s.t).collect();
    assert!(times.windows(2).all(|w| w[0] <= w[1]));
    assert!(!st.auto_interval);
    assert_eq!((st.interval_ms, st.window_mins), (1_000, 10));
}

#[test]
fn without_targets_the_interval_is_waited_for() {
    let (mut schedule, mut st) = state(Vec::new());
    st.interval_ms = 5_000;
    assert_eq!(wait(schedule.next(&mut st, None, at(0))), 5_000 * MS);
    assert_eq!(wait(schedule.next(&mut st, None, at(5_000))), 5_000 * MS);
    assert!(st.history.samples.is_empty());
}

const TABLE: &str = "  192.168.1.44          0c-ef-15-c1-57-90     dynamic\r\n";

#[test]
fn pinned_targets_heal() {
    let (mut schedule, mut st) = state(vec![
        Target::new("Free", "8.8.8.8", None),
        Target::new("NAS", "192.168.1.9", Some("0C:EF:15:C1:57:90")),
    ]);
    assert!(matches!(schedule.next(&mut st, None, at(0)), Action::ReadTable));
    let args = ping_args(schedule.next(&mut st, Some(TABLE), at(30)));
    assert_eq!(args[4], "8.8.8.8");
    assert_eq!(st.targets[0].ip, "8.8.8.8");
    assert_eq!(st.targets[1].ip, "192.168.1.44");
    assert_eq!(st.targets[1].mac.as_deref(), Some("0C:EF:15:C1:57:90"));
    wait(schedule.next(&mut st, Some(REPLY), at(40)));
    // Not due again for half a minute.
    assert_eq!(ping_args(schedule.next(&mut st, None, at(600)))[4], "192.168.1.44");
    wait(schedule.next(&mut st, Some(REPLY), at(610)));
    assert!(matches!(schedule.next(&mut st, None, at(30_030)), Action::ReadTable));
}

#[test]
fn a_missing_target_is_looked_for() {
    let (mut schedule, mut st) = state(vec![Target::new(
        "NAS",
        "192.168.1.9",
        Some("0C-EF-15-C1-57-90"),
    )]);
    assert!(matches!(schedule.next(&mut st, None, at(0)), Action::ReadTable));
    match schedule.next(&mut st, None, at(1)) {
        Action::Sweep(addresses) => {
            assert_eq!(addresses.len(), 254);
            assert_eq!(addresses[8], "192.168.1.9");
        }
        _ => panic!("not a sweep"),
    }
    assert_eq!(wait(schedule.next(&mut st, None, at(2_000))), 2_500 * MS);
    assert!(matches!(schedule.next(&mut st, None, at(4_500)), Action::ReadTable));
    let args = ping_args(schedule.next(&mut st, Some(TABLE), at(4_510)));
    assert_eq!(args[4], "192.168.1.44");
    // A second miss is not looked for again in the same cycle.
    let (mut schedule, mut st) = state(vec![Target::new(
        "NAS",
        "192.168.1.9",
        Some("0C-EF-15-C1-57-90"),
    )]);
    for _ in 0..4 {
        schedule.next(&mut st, None, at(0));
    }
    assert_eq!(ping_args(schedule.next(&mut st, Some(""), at(1)))[4], "192.168.1.9");
}

#[test]
fn a_missing_target_off_the_lan_is_not_looked_for() {
    let (mut schedule, mut st) = state(vec![Target::new(
        "NAS",
        "10.0.0.9",
        Some("0C-EF-15-C1-57-90"),
    )]);
    assert!(matches!(schedule.next(&mut st, None, at(0)), Action::ReadTable));
    assert_eq!(ping_args(schedule.next(&mut st, Some("x"), at(1)))[4], "10.0.0.9");
}

#[test]
fn an_edit_takes_effect_in_the_next_cycle() {
    let (mut schedule, mut st) = state(vec![Target::new("A", "1.1.1.1", None)]);
    assert_eq!(ping_args(schedule.next(&mut st, None, at(0)))[4], "1.1.1.1");
    st.targets = vec![Target::new("B", "2.2.2.2", None)];
    wait(schedule.next(&mut st, Some(REPLY), at(10)));
    assert!(st.history.samples[0].v.contains_key("A"));
    assert_eq!(ping_args(schedule.next(&mut st, None, at(1_000)))[4], "2.2.2.2");
}

#[test]
fn what_the_panel_saves_comes_back() {
    let targets = vec![Target::new("A", "1.1.1.1", None)];
    let saved = save_settings(true, 2_000, 60, 25, &targets);
    assert_eq!(saved.version, 2);
    let again = Config::load(None, Some(saved)).config;
    assert!(again.auto_interval && again.targets == targets);
    assert_eq!(
        (again.interval_ms, again.window_mins, again.packet_loss_alert_threshold),
        (2_000, 60, 25)
    );
}
