use netmon_rs::alerts::evaluate_alerts;
use netmon_rs::auto_interval::{AutoInterval, AUTO_BACKOFF_RUN, AUTO_LADDER};
use netmon_rs::config::{Config, Target};
use netmon_rs::history::{History, Sample};
use netmon_rs::loss::target_loss;
use netmon_rs::monitor::{
    clear_history, epoch_ms, heal_targets, init_shared, is_due, now_ms, ping_gap_ms, wait_ns,
    AppState, Limits, Pacing, Ping, Worker,
};
use netmon_rs::names::{NameMap, NameSet};

/// `drops` failures followed by `replies` successes, one second apart,
/// starting at `now`.
fn history(name: &str, drops: usize, replies: usize, now: i64) -> History {
    let mut samples = Vec::new();
    for i in 0..(drops + replies) {
        let mut values = NameMap::new();
        values.insert(name.to_string(), (i >= drops).then_some(10));
        samples.push(Sample {
            t: now + i as i64 * 1_000,
            v: values,
        });
    }
    History { samples }
}

#[test]
fn calculates_loss_for_measured_samples() {
    let history = history("Router", 2, 8, 1_000);
    assert_eq!(target_loss(&history, "Router", 0), (10, 20));
    assert_eq!(target_loss(&history, "Other", 0), (0, 0));
}

/// A minute of health sampled every 10 s next to a minute of loss sampled
/// every second is ~50% loss — by raw sample count it would read as 90%.
#[test]
fn weights_loss_by_elapsed_time_not_sample_count() {
    let mut samples = Vec::new();
    let mut push = |t: i64, ok: bool| {
        let mut values = NameMap::new();
        values.insert("Router".to_string(), ok.then_some(10));
        samples.push(Sample { t, v: values });
    };
    for i in 0..=6 {
        push(i * 10_000, true);
    }
    for i in 61..=120 {
        push(i * 1_000, false);
    }
    let history = History { samples };
    let (measured, loss) = target_loss(&history, "Router", 0);
    assert_eq!(measured, 67);
    // 60 s dropped against 60 s healthy plus the leading sample's default.
    assert_eq!(loss, 49);
}

#[test]
fn a_slow_healthy_sample_outweighs_a_fast_dropped_one() {
    let mut samples = Vec::new();
    let mut push = |t: i64, ok: bool| {
        let mut values = NameMap::new();
        values.insert("Router".to_string(), ok.then_some(10));
        samples.push(Sample { t, v: values });
    };
    push(0, true);
    push(1_000, false); // 1 s of loss
    push(11_000, true); // 10 s of health
    let history = History { samples };
    let (measured, loss) = target_loss(&history, "Router", 0);
    assert_eq!(measured, 3);
    // 1 s dropped out of 1 s + 10 s + the leading sample's 1 s default.
    assert_eq!(loss, 8);
}

#[test]
fn auto_snaps_to_the_fastest_rung_on_any_loss() {
    let mut auto = AutoInterval::default();
    assert_eq!(auto.interval_ms(), AUTO_LADDER[AUTO_LADDER.len() - 1]);
    auto.on_loss();
    assert_eq!(auto.interval_ms(), AUTO_LADDER[0]);
    assert_eq!(auto.clean_needed(), Some(AUTO_BACKOFF_RUN));
}

#[test]
fn auto_backs_off_one_rung_per_clean_run() {
    let mut auto = AutoInterval::default();
    auto.on_loss();
    for rung in 1..AUTO_LADDER.len() {
        for _ in 0..AUTO_BACKOFF_RUN - 1 {
            auto.on_clean_round();
            assert_eq!(auto.interval_ms(), AUTO_LADDER[rung - 1]);
        }
        auto.on_clean_round();
        assert_eq!(auto.interval_ms(), AUTO_LADDER[rung]);
    }
    // Already slowest: stays there and stops advertising a countdown.
    auto.on_clean_round();
    assert_eq!(auto.interval_ms(), AUTO_LADDER[AUTO_LADDER.len() - 1]);
    assert_eq!(auto.clean_needed(), None);
}

#[test]
fn auto_restarts_the_clean_run_after_a_relapse() {
    let mut auto = AutoInterval::default();
    auto.on_loss();
    for _ in 0..AUTO_BACKOFF_RUN - 1 {
        auto.on_clean_round();
    }
    auto.on_loss();
    assert_eq!(auto.interval_ms(), AUTO_LADDER[0]);
    assert_eq!(auto.clean_needed(), Some(AUTO_BACKOFF_RUN));
}

#[test]
fn waits_for_ten_samples_and_uses_strict_threshold() {
    let target = Target::new("Router", "192.168.1.1", None);
    let mut alerted = NameSet::new();
    assert!(
        evaluate_alerts(
            &history("Router", 9, 0, 1_000),
            std::slice::from_ref(&target),
            10,
            15,
            &mut alerted,
            1_000,
        )
        .is_empty()
    );
    assert!(
        evaluate_alerts(
            &history("Router", 3, 17, 1_000),
            std::slice::from_ref(&target),
            10,
            15,
            &mut alerted,
            1_000,
        )
        .is_empty()
    );
}

#[test]
fn alerts_once_then_rearms_after_recovery() {
    let target = Target::new("Router", "192.168.1.1", None);
    let mut alerted = NameSet::new();
    let unhealthy = history("Router", 2, 8, 1_000);
    assert_eq!(
        evaluate_alerts(
            &unhealthy,
            std::slice::from_ref(&target),
            10,
            15,
            &mut alerted,
            1_000,
        ),
        vec![("Router".to_string(), 20)]
    );
    assert!(
        evaluate_alerts(
            &unhealthy,
            std::slice::from_ref(&target),
            10,
            15,
            &mut alerted,
            1_000,
        )
        .is_empty()
    );

    let healthy = history("Router", 0, 10, 1_000);
    assert!(
        evaluate_alerts(
            &healthy,
            std::slice::from_ref(&target),
            10,
            15,
            &mut alerted,
            1_000,
        )
        .is_empty()
    );
    assert_eq!(
        evaluate_alerts(
            &unhealthy,
            std::slice::from_ref(&target),
            10,
            15,
            &mut alerted,
            1_000,
        ),
        vec![("Router".to_string(), 20)]
    );
}

#[test]
fn combines_crossings_and_forgets_removed_targets() {
    let targets = vec![
        Target::new("Router", "192.168.1.1", None),
        Target::new("Internet", "8.8.8.8", None),
    ];
    let mut combined = History::default();
    for i in 0..10 {
        let mut values = NameMap::new();
        values.insert("Router".to_string(), (i >= 2).then_some(10));
        values.insert("Internet".to_string(), (i >= 3).then_some(10));
        combined.samples.push(Sample {
            t: 1_000 - (9 - i) * 1_000,
            v: values,
        });
    }
    let mut alerted = NameSet::new();
    assert_eq!(
        evaluate_alerts(&combined, &targets, 10, 15, &mut alerted, 1_000),
        vec![("Router".to_string(), 20), ("Internet".to_string(), 30),]
    );

    evaluate_alerts(&combined, &targets[1..], 10, 15, &mut alerted, 1_000);
    assert!(!alerted.contains("Router"));
    assert!(alerted.contains("Internet"));
}

#[test]
fn a_name_listed_twice_alerts_once() {
    let targets = vec![
        Target::new("Router", "192.168.1.1", None),
        Target::new("Router", "192.168.1.2", None),
    ];
    let mut alerted = NameSet::new();
    assert_eq!(
        evaluate_alerts(&history("Router", 2, 8, 1_000), &targets, 10, 15, &mut alerted, 1_000),
        vec![("Router".to_string(), 20)]
    );
    assert_eq!(alerted.len(), 1);
}

#[test]
fn alerts_look_only_at_the_window() {
    let target = Target::new("Router", "192.168.1.1", None);
    let mut alerted = NameSet::new();
    let drops = history("Router", 20, 0, 0);
    assert!(
        evaluate_alerts(
            &drops,
            std::slice::from_ref(&target),
            10,
            15,
            &mut alerted,
            620_000,
        )
        .is_empty()
    );
    // A window that begins before any time that a sample can carry.
    assert_eq!(
        evaluate_alerts(
            &drops,
            std::slice::from_ref(&target),
            10,
            15,
            &mut alerted,
            i64::MIN,
        ),
        vec![("Router".to_string(), 100)]
    );
}

#[test]
fn loss_ignores_what_was_not_measured() {
    let mut h = history("Router", 2, 8, 1_000);
    let mut values = NameMap::new();
    values.insert("Other".to_string(), None);
    h.push(Sample { t: 20_000, v: values });
    assert_eq!(target_loss(&h, "Router", 0), (10, 20));
    assert_eq!(target_loss(&h, "Other", 0), (1, 100));
    // From the third sample on there is no drop left.
    assert_eq!(target_loss(&h, "Router", 3_000), (8, 0));
    assert_eq!(target_loss(&History::default(), "Router", 0), (0, 0));
}

#[test]
fn loss_caps_a_long_gap_and_floors_a_backward_one() {
    let mut samples = Vec::new();
    for (t, ok) in [(0i64, true), (3_600_000, false), (3_599_000, true)] {
        let mut values = NameMap::new();
        values.insert("Router".to_string(), ok.then_some(1));
        samples.push(Sample { t, v: values });
    }
    // 60 000 dropped of 1 000 + 60 000 + 1.
    assert_eq!(target_loss(&History { samples }, "Router", 0), (3, 98));
}

#[test]
fn loss_follows_the_newest_sample() {
    let mut h = history("Router", 1, 1, 0);
    let (_, before) = target_loss(&h, "Router", 0);
    let mut reply = NameMap::new();
    reply.insert("Router".to_string(), Some(3));
    h.push(Sample { t: 2_000, v: reply });
    let (_, better) = target_loss(&h, "Router", 0);
    let mut drop = NameMap::new();
    drop.insert("Router".to_string(), None);
    h.push(Sample { t: 3_000, v: drop });
    let (_, worse) = target_loss(&h, "Router", 0);
    assert_eq!((before, better, worse), (50, 33, 50));
}

#[test]
fn prune_drops_old_samples_then_the_excess() {
    let mut h = history("Router", 0, 10, 0);
    h.prune(9_000, 5_000, 100);
    assert_eq!(h.samples.first().map(|s| s.t), Some(4_000));
    assert_eq!(h.samples.len(), 6);
    h.prune(9_000, 5_000, 100);
    assert_eq!(h.samples.len(), 6);
    h.prune(9_000, 5_000, 2);
    assert_eq!(h.samples.iter().map(|s| s.t).collect::<Vec<_>>(), vec![8_000, 9_000]);
    h.prune(100_000, 5_000, 2);
    assert!(h.samples.is_empty());
    h.prune(i64::MIN, i64::MAX, 0);
    assert!(h.samples.is_empty());
}

#[test]
fn prune_drops_old_samples_wherever_they_stand() {
    let sample = |t: i64| Sample {
        t,
        v: NameMap::new(),
    };
    // The clock went back between the two.
    let mut h = History {
        samples: vec![sample(9_000), sample(1_000)],
    };
    h.prune(10_000, 5_000, 100);
    assert_eq!(h.samples.iter().map(|s| s.t).collect::<Vec<_>>(), vec![9_000]);
    let mut h = History {
        samples: [9_000, 1_000, 8_000, 2_000, 7_000, 5_000].map(sample).into(),
    };
    h.prune(10_000, 5_000, 3);
    assert_eq!(h.samples.iter().map(|s| s.t).collect::<Vec<_>>(), vec![8_000, 7_000, 5_000]);
}

fn config(auto_interval: bool) -> Config {
    let mut cfg = Config::starter(None);
    cfg.auto_interval = auto_interval;
    cfg.interval_ms = 7_000;
    cfg
}

fn ping(worker: &mut Worker, st: &mut AppState, latency: Option<u32>, at: i64) -> (usize, u32) {
    let count = st.targets.len();
    let picked = worker.pick(count).unwrap();
    let pacing = Pacing {
        auto_enabled: st.auto_interval,
        interval_ms: st.interval_ms,
        count,
    };
    let limits = Limits {
        max_age_ms: 3_600_000,
        max_samples: 1_000,
    };
    let name = st.targets[picked].name.clone();
    let outcome = worker.on_ping(
        st,
        &pacing,
        &limits,
        Ping {
            name,
            latency,
            recorded_at: at,
            pruned_at: at,
            judged_at: at,
        },
    );
    (picked, outcome.round_ms)
}

#[test]
fn launch_starts_clean() {
    let st = init_shared(&config(true));
    assert!(st.history.samples.is_empty());
    assert_eq!(st.current_interval_ms, 10_000);
    assert_eq!(st.auto_clean_needed, None);
    assert_eq!(st.packet_loss_alert_threshold, 15);
    assert_eq!(st.targets.len(), 3);
    assert_eq!(st.revision, 0);
    assert_eq!(init_shared(&config(false)).current_interval_ms, 7_000);
}

#[test]
fn targets_take_turns() {
    let mut worker = Worker::default();
    let mut st = init_shared(&config(true));
    let picks: Vec<usize> = (0..7)
        .map(|i| ping(&mut worker, &mut st, Some(5), i * 100).0)
        .collect();
    assert_eq!(picks, vec![0, 1, 2, 0, 1, 2, 0]);
    // A shorter list wraps the cursor, and an empty one starts over.
    st.targets.truncate(1);
    assert_eq!(worker.pick(1), Some(0));
    assert_eq!(worker.pick(0), None);
    assert_eq!(worker.pick(3), Some(0));
}

#[test]
fn a_drop_is_answered_at_once_and_recovery_takes_clean_passes() {
    let mut worker = Worker::default();
    let mut st = init_shared(&config(true));
    assert_eq!(ping(&mut worker, &mut st, Some(5), 0).1, 10_000);
    assert_eq!(ping(&mut worker, &mut st, None, 100).1, 1_000);
    assert_eq!(st.auto_clean_needed, Some(10));
    // The pass that saw the drop is not clean.
    ping(&mut worker, &mut st, Some(5), 200);
    assert_eq!(st.auto_clean_needed, Some(10));
    for pass in 0..10 {
        for i in 0..3 {
            ping(&mut worker, &mut st, Some(5), 300 + pass * 3 + i);
        }
    }
    assert_eq!(st.current_interval_ms, 2_000);
    assert_eq!(st.auto_clean_needed, Some(10));
}

#[test]
fn manual_interval_is_kept() {
    let mut worker = Worker::default();
    let mut st = init_shared(&config(false));
    assert_eq!(ping(&mut worker, &mut st, None, 0).1, 7_000);
    assert_eq!(st.current_interval_ms, 7_000);
    assert_eq!(st.auto_clean_needed, None);
    assert_eq!(st.revision, 1);
    // Turning auto mode on starts from idle, not from the drop before.
    st.auto_interval = true;
    assert_eq!(ping(&mut worker, &mut st, Some(5), 1).1, 10_000);
}

#[test]
fn a_ping_lands_in_the_history_and_can_alert() {
    let mut worker = Worker::default();
    let mut cfg = config(false);
    cfg.targets = vec![Target::new("Router", "192.168.1.1", None)];
    let mut st = init_shared(&cfg);
    let pacing = Pacing {
        auto_enabled: false,
        interval_ms: 1_000,
        count: 1,
    };
    let limits = Limits {
        max_age_ms: 3_600_000,
        max_samples: 11,
    };
    let mut alerts = Vec::new();
    for i in 0..12 {
        let at = 1_000_000 + i * 1_000;
        worker.pick(1);
        let outcome = worker.on_ping(
            &mut st,
            &pacing,
            &limits,
            Ping {
                name: "Router".to_string(),
                latency: None,
                recorded_at: at,
                pruned_at: at,
                judged_at: at,
            },
        );
        alerts.push(outcome.alerts.len());
        assert_eq!(st.history.samples.last().map(|s| s.t), Some(at));
    }
    assert_eq!(alerts, vec![0, 0, 0, 0, 0, 0, 0, 0, 0, 1, 0, 0]);
    assert_eq!(st.history.samples.len(), 11);
    assert_eq!(st.revision, 12);
}

#[test]
fn clearing_wipes_history_and_bumps_the_revision() {
    let mut st = init_shared(&config(false));
    st.history = history("Router", 1, 1, 0);
    st.revision = u64::MAX;
    clear_history(&mut st);
    assert!(st.history.samples.is_empty());
    assert_eq!(st.revision, 0);
    assert_eq!(st.targets.len(), 3);
}

#[test]
fn pings_are_spread_over_the_round() {
    assert_eq!(ping_gap_ms(10_000, 4), 2_500);
    assert_eq!(ping_gap_ms(1_000, 3), 333);
    assert_eq!(ping_gap_ms(1_000, 100), 50);
    assert_eq!(wait_ns(50, 20_000_000), 30_000_000);
    assert_eq!(wait_ns(50, 60_000_000), 0);
}

#[test]
fn what_was_never_done_is_due() {
    assert!(is_due(None, 30_000));
    assert!(is_due(Some(30_000), 30_000));
    assert!(!is_due(Some(29_999), 30_000));
}

#[test]
fn clock_readings() {
    assert_eq!(epoch_ms(None), 0);
    assert_eq!(epoch_ms(Some(1_700_000_000_000)), 1_700_000_000_000);
    assert_eq!(epoch_ms(Some(1u128 << 64)), 0);
    // Well after this library was written, and not running backwards by much.
    let first = now_ms();
    assert!(first > 1_700_000_000_000);
    assert!(now_ms() >= first - 60_000);
}

#[test]
fn healing_matches_by_name_and_changes_only_addresses() {
    let mut targets = vec![
        Target::new("A", "1.1.1.1", Some("aa-aa-aa-aa-aa-aa")),
        Target::new("B", "2.2.2.2", None),
        Target::new("A", "3.3.3.3", None),
    ];
    let resolved = vec![
        Target::new("A", "9.9.9.9", None),
        Target::new("Gone", "8.8.8.8", None),
    ];
    heal_targets(&mut targets, &resolved);
    assert!(targets[0] == Target::new("A", "9.9.9.9", Some("aa-aa-aa-aa-aa-aa")));
    assert!(targets[1] == Target::new("B", "2.2.2.2", None));
    assert!(targets[2] == Target::new("A", "3.3.3.3", None));
}
