use netmon_rs::config::{Config, Target, WINDOW_MINS};
use netmon_rs::history::{History, Sample};
use netmon_rs::monitor::{init_shared, Limits, Pacing, Ping, Worker};
use netmon_rs::names::NameMap;
use netmon_rs::ui::cards::{
    latency_text, loss_text, spark_drops, spark_lines, spark_scale, spark_values, SparkProps,
};
use netmon_rs::ui::chart::{
    axis_times, local_offset_ms, series_color, snapshot, time_label, ChartProps, ClockReading,
    COLORS,
};
use netmon_rs::ui::settings::{
    can_move_down, can_move_up, choose_interval, choose_window, form_title, host_to_resolve,
    interval_to_index, mac_text, move_down, move_up, open_form, remove_target, resolved, save_form,
    selected_interval, selected_window, window_to_index, Editing, Form, INTERVAL_LABELS,
    INTERVAL_MS, WINDOW_LABELS,
};
use netmon_rs::ui::window_icon::is_main_window;
use netmon_rs::ui::{
    fmt_interval, health_of, loss_color, overview, pace_label, pace_status, status_text,
    window_start, Health,
};

fn sample(t: i64, readings: &[(&str, Option<u32>)]) -> Sample {
    let mut v = NameMap::new();
    for (name, ms) in readings {
        v.insert(name.to_string(), *ms);
    }
    Sample { t, v }
}

fn targets(names: &[&str]) -> Vec<Target> {
    names.iter().map(|n| Target::new(n, "host", None)).collect()
}

fn names(list: &[Target]) -> Vec<&str> {
    list.iter().map(|t| t.name.as_str()).collect()
}

#[test]
fn cards_show_their_own_newest_reading() {
    let h = History {
        samples: vec![
            sample(0, &[("A", Some(5))]),
            sample(1_000, &[("B", None)]),
            sample(2_000, &[("A", Some(7))]),
            sample(3_000, &[("C", Some(9))]),
        ],
    };
    let o = overview(&h, &targets(&["A", "B", "D"]), 0);
    assert_eq!(o.worst_loss, 100);
    assert_eq!(
        o.cards
            .iter()
            .map(|c| (c.name.as_str(), c.index, c.current, c.loss, c.measured))
            .collect::<Vec<_>>(),
        vec![
            ("A", 0, Some(7), 0, 2),
            ("B", 1, None, 100, 1),
            ("D", 2, None, 0, 0),
        ]
    );
    assert_eq!(overview(&h, &[], 0).worst_loss, 0);
    // The newest reading counts even where it is older than the window.
    let later = overview(&h, &targets(&["A"]), 10_000);
    assert_eq!((later.cards[0].current, later.cards[0].measured), (Some(7), 0));
}

#[test]
fn status_by_worst_loss() {
    assert_eq!(status_text(0), "All hops healthy");
    assert_eq!(status_text(9), "Minor loss (9%)");
    assert_eq!(status_text(10), "Packet loss up to 10%");
    assert!(health_of(1) == Health::Minor);
    assert_eq!(loss_color(0), (0x3f, 0xb9, 0x50));
    assert_eq!(loss_color(5), (0xd2, 0x99, 0x22));
    assert_eq!(loss_color(50), (0xf8, 0x51, 0x49));
}

#[test]
fn pace_in_words() {
    assert_eq!(fmt_interval(1_000), "1 s");
    assert_eq!(fmt_interval(1_499), "1 s");
    assert_eq!(fmt_interval(1_500), "2 s");
    assert_eq!(fmt_interval(u32::MAX), "4294967 s");
    assert_eq!(pace_label(true, 1_000), "Auto: every 1 s");
    assert_eq!(pace_label(false, 10_000), "Every 10 s");
    assert_eq!(
        pace_status(false, 5_000, Some(3)),
        "Pinging each target every 5 s, one at a time spread across the interval."
    );
    assert_eq!(
        pace_status(true, 1_000, Some(1)),
        "Auto: pinging every 1 s after a drop - 1 more clean round to slow down."
    );
    assert_eq!(
        pace_status(true, 1_000, Some(10)),
        "Auto: pinging every 1 s after a drop - 10 more clean rounds to slow down."
    );
    assert_eq!(
        pace_status(true, 10_000, None),
        "Auto: pinging every 10 s while healthy - any drop switches to 1 s."
    );
}

#[test]
fn window_starts() {
    assert_eq!(window_start(600_000, 10), Some(0));
    assert_eq!(window_start(0, i64::MAX), None);
    assert_eq!(window_start(i64::MAX, i64::MIN), None);
}

#[test]
fn card_texts() {
    assert_eq!(latency_text(Some(12)), "12 ms");
    assert_eq!(latency_text(None), "-- drop");
    assert_eq!(loss_text(20, 67), "20% loss (67 samples)");
}

#[test]
fn sparkline_values_lines_and_drops() {
    let h = History {
        samples: vec![
            sample(0, &[("A", Some(5))]),
            sample(1_000, &[("A", Some(5))]),
            sample(2_000, &[("A", Some(80))]),
            sample(3_000, &[("A", None)]),
            sample(4_000, &[("B", Some(1))]),
            sample(5_000, &[("A", Some(6))]),
        ],
    };
    let list = targets(&["A", "B"]);
    let vals = spark_values(&h, &list, 0, 1_000);
    assert_eq!(
        vals,
        vec![Some(Some(5)), Some(Some(80)), Some(None), None, Some(Some(6))]
    );
    assert_eq!(spark_lines(&vals), vec![1]);
    assert_eq!(spark_drops(&vals), vec![2]);
    assert_eq!(spark_scale(&vals), 80);
    assert_eq!(spark_scale(&[Some(Some(3)), None]), 50);
    assert_eq!(spark_values(&h, &list, 1, 1_000).len(), vals.len());
    assert!(spark_values(&h, &list, 2, 0).is_empty());
    let props = SparkProps {
        index: 0,
        revision: 1,
        window_mins: 10,
        width: 12,
    };
    assert_eq!(props.drawn_width(), 80);
    assert!(props == SparkProps { ..props });
    assert!(props != SparkProps { revision: 2, ..props });
}

#[test]
fn chart_carries_in_the_last_reading_of_each_series() {
    let h = History {
        samples: vec![
            sample(0, &[("A", Some(1))]),
            sample(1_000, &[("B", Some(2))]),
            sample(2_000, &[("A", Some(3))]),
            sample(3_000, &[("A", Some(4))]),
            sample(4_000, &[("B", Some(5))]),
            sample(5_000, &[("A", None)]),
            sample(6_000, &[("A", Some(6))]),
        ],
    };
    let data = snapshot(&h, &targets(&["A", "B"]), 4_000, 6_000);
    assert_eq!(data.names, vec!["A", "B"]);
    assert_eq!((data.t_start, data.t_end), (4_000, 6_000));
    assert_eq!(
        data.samples.iter().map(|s| s.t).collect::<Vec<_>>(),
        vec![1_000, 3_000, 4_000, 5_000, 6_000]
    );
    assert_eq!(data.samples[0].vals, vec![None, Some(Some(2))]);
    assert_eq!(data.drop_marks(), vec![3]);
    // The drop of A breaks its line; the samples of A do not break that of B.
    assert_eq!(data.series_lines(0), vec![]);
    assert_eq!(data.series_lines(1), vec![(0, 2)]);
    assert_eq!(data.series_lines(9), vec![]);
    assert_eq!(data.scale_ms(), 50);
    // With no series nothing is carried in.
    assert_eq!(snapshot(&h, &[], 4_000, 6_000).samples.len(), 3);
}

#[test]
fn chart_carries_in_past_a_removed_target() {
    let h = History {
        samples: vec![
            sample(0, &[("A", Some(1))]),
            sample(1_000, &[("Removed", Some(2))]),
            sample(6_000, &[("A", Some(3))]),
        ],
    };
    let data = snapshot(&h, &targets(&["A"]), 5_000, 10_000);
    assert_eq!(data.samples.iter().map(|s| s.t).collect::<Vec<_>>(), vec![0, 6_000]);
    assert_eq!(data.series_lines(0), vec![(0, 1)]);
}

#[test]
fn chart_carries_in_one_sample_for_two_series() {
    let h = History {
        samples: vec![
            sample(0, &[("B", Some(9))]),
            sample(1_000, &[("A", Some(1)), ("B", None)]),
            sample(2_000, &[("C", Some(2))]),
        ],
    };
    let data = snapshot(&h, &targets(&["A", "B"]), 5_000, 10_000);
    assert_eq!(data.samples.len(), 1);
    assert_eq!(data.samples[0].t, 1_000);
    assert_eq!(data.samples[0].vals, vec![Some(Some(1)), Some(None)]);
}

#[test]
fn the_offset_holds_at_the_end_of_a_month() {
    let clock = |day: u16, hour: u16| ClockReading {
        day,
        hour,
        minute: 0,
        second: 0,
    };
    assert_eq!(local_offset_ms(clock(31, 20), clock(1, 4)), -28_800_000);
    assert_eq!(local_offset_ms(clock(1, 4), clock(31, 20)), 28_800_000);
    assert_eq!(local_offset_ms(clock(28, 23), clock(1, 0)), -3_600_000);
    assert_eq!(local_offset_ms(clock(14, 20), clock(15, 4)), -28_800_000);
    assert_eq!(local_offset_ms(clock(15, 4), clock(15, 4)), 0);
}

#[test]
fn chart_scale_follows_the_largest_reading() {
    let h = History {
        samples: vec![sample(0, &[("A", Some(10))]), sample(1, &[("A", Some(300))])],
    };
    let data = snapshot(&h, &targets(&["A"]), 0, 1);
    assert_eq!(data.scale_ms(), 300);
    assert_eq!(data.series_lines(0), vec![(0, 1)]);
    assert!(data.drop_marks().is_empty());
}

#[test]
fn chart_axes() {
    assert_eq!(
        axis_times(1_000, 2_000),
        Some((1_000, vec![1_000, 1_250, 1_500, 1_750, 2_000]))
    );
    assert_eq!(axis_times(5, 5), Some((1, vec![5, 5, 5, 5, 6])));
    assert_eq!(axis_times(i64::MAX, i64::MAX), None);
    assert_eq!(axis_times(i64::MIN, i64::MAX), None);
    assert_eq!(time_label(3_723_000, 0, 600_000), "01:02:03");
    assert_eq!(time_label(3_723_000, 3_600_000, 600_001), "02:02");
    assert_eq!(time_label(-1_000, 0, 0), "23:59:59");
    assert_eq!(time_label(-999, 0, 0), "00:00:00");
    assert_eq!(time_label(-86_400_000, 0, 0), "00:00:00");
    let utc = ClockReading {
        day: 1,
        hour: 23,
        minute: 30,
        second: 0,
    };
    let local = ClockReading {
        day: 2,
        hour: 1,
        minute: 30,
        second: 0,
    };
    assert_eq!(local_offset_ms(local, utc), 7_200_000);
    assert_eq!(local_offset_ms(utc, local), -7_200_000);
    assert_eq!(series_color(0), COLORS[0]);
    assert_eq!(series_color(7), COLORS[2]);
    let props = ChartProps {
        frame: 1,
        window_mins: 10,
        width: 10,
        height: 500,
    };
    assert_eq!(props.drawn_size(), (160, 500));
    assert!(props != ChartProps { frame: 2, ..props });
}

#[test]
fn choices_round_trip() {
    for (i, ms) in INTERVAL_MS.iter().enumerate() {
        assert_eq!(interval_to_index(*ms), i as i32);
        assert_eq!(selected_interval(i as i32), *ms);
    }
    for (i, mins) in WINDOW_MINS.iter().enumerate() {
        assert_eq!(window_to_index(*mins), i as i32);
        assert_eq!(selected_window(i as i32), *mins);
    }
    assert_eq!(interval_to_index(1_234), 0);
    assert_eq!(window_to_index(11), 0);
    assert_eq!(selected_interval(99), 60_000);
    assert_eq!(selected_window(-4), 10);
    assert_eq!(INTERVAL_LABELS.len(), INTERVAL_MS.len());
    assert_eq!(WINDOW_LABELS[2], "1 hour");
}

#[test]
fn choices_are_put_in_force() {
    let mut st = init_shared(&Config::starter(None));
    st.interval_ms = 1_000;
    st.window_mins = 30;
    assert!(choose_interval(&mut st, 2));
    assert_eq!((st.interval_ms, st.window_mins), (5_000, 30));
    assert!(choose_window(&mut st, 4));
    assert_eq!((st.interval_ms, st.window_mins), (5_000, 360));
    // Nothing is chosen, and nothing changes.
    assert!(!choose_interval(&mut st, -1));
    assert!(!choose_window(&mut st, -1));
    assert_eq!((st.interval_ms, st.window_mins), (5_000, 360));
    // Past the end stands the last choice.
    assert!(choose_interval(&mut st, 9));
    assert!(choose_window(&mut st, 9));
    assert_eq!((st.interval_ms, st.window_mins), (60_000, 360));
    assert_eq!((st.targets.len(), st.revision), (3, 0));
}

#[test]
fn alerts_follow_the_chosen_window() {
    // Ten minutes of drops half an hour ago, and now a reply: the window decides
    // whether the drops count.
    let at = 3_600_000;
    for (index, alerts) in [(0, 0), (2, 1)] {
        let mut st = init_shared(&Config::starter(None));
        st.targets = targets(&["A"]);
        for i in 0..10 {
            st.history.push(sample(at - 1_800_000 + i * 60_000, &[("A", None)]));
        }
        assert!(choose_window(&mut st, index));
        let pacing = Pacing {
            auto_enabled: false,
            interval_ms: st.interval_ms,
            count: 1,
        };
        let limits = Limits {
            max_age_ms: 7_200_000,
            max_samples: 100,
        };
        let outcome = Worker::default().on_ping(
            &mut st,
            &pacing,
            &limits,
            Ping {
                name: "A".to_string(),
                latency: Some(5),
                recorded_at: at,
                pruned_at: at,
                judged_at: at,
            },
        );
        assert_eq!(outcome.alerts.len(), alerts);
    }
}

#[test]
fn rows_move_and_go() {
    let list = targets(&["A", "B", "C"]);
    assert!(!can_move_up(0) && can_move_up(1));
    assert!(can_move_down(1, 3) && !can_move_down(2, 3) && !can_move_down(0, 0));
    let up = move_up(&list, 2);
    assert_eq!(names(&up), vec!["A", "C", "B"]);
    assert_eq!(names(&move_down(&up, 1)), vec!["A", "B", "C"]);
    assert_eq!(names(&remove_target(&list, 1)), vec!["A", "C"]);
    assert_eq!(mac_text(&list[0]), "MAC: \u{2014}");
    assert_eq!(mac_text(&Target::new("A", "b", Some(""))), "MAC: \u{2014}");
    assert_eq!(mac_text(&Target::new("A", "b", Some("aa-bb"))), "MAC: aa-bb");
}

#[test]
fn forms_open_and_save() {
    let list = vec![
        Target::new("A", "1.1.1.1", Some("aa-bb")),
        Target::new("B", "2.2.2.2", None),
    ];
    let same = save_form(&list, Editing::Row(0), &open_form(Editing::Row(0), &list));
    assert!(same == list);
    let form = Form {
        name: " New \t".to_string(),
        host: "\u{a0}host\n".to_string(),
        mac: "   ".to_string(),
    };
    let added = save_form(&list, Editing::New, &form);
    assert_eq!(added.len(), 3);
    assert!(added[2] == Target::new("New", "host", None));
    let replaced = save_form(&list, Editing::Row(1), &form);
    assert!(replaced[0] == list[0] && replaced[1] == Target::new("New", "host", None));
    assert_eq!(save_form(&list, Editing::Row(7), &form).len(), 3);
    assert_eq!(open_form(Editing::New, &list).name, "");
    assert_eq!(open_form(Editing::Row(1), &list).host, "2.2.2.2");
    assert_eq!(open_form(Editing::Row(0), &list).mac, "aa-bb");
    assert_eq!(form_title(Editing::New), "Add target");
    assert_eq!(form_title(Editing::Row(0)), "Edit target");
}

#[test]
fn resolving_a_mac() {
    assert_eq!(host_to_resolve("  "), None);
    assert_eq!(host_to_resolve(" 1.2.3.4 ").as_deref(), Some("1.2.3.4"));
    let blank = resolved(None, None);
    assert_eq!((blank.mac, blank.status.as_str()), (None, "Enter a host/IP first."));
    let found = resolved(Some("1.2.3.4"), Some("AA-BB".to_string()));
    assert_eq!((found.mac.as_deref(), found.status.as_str()), (Some("AA-BB"), ""));
    let none = resolved(Some("1.2.3.4"), None);
    assert_eq!(none.mac, None);
    assert_eq!(none.status, "No MAC found for 1.2.3.4 (must be on your LAN).");
}

#[test]
fn the_main_window() {
    assert!(is_main_window(false, "Network Monitor"));
    assert!(!is_main_window(true, "Network Monitor"));
    assert!(!is_main_window(false, "Network Monitor - runtime required"));
}
