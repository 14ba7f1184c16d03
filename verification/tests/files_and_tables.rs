use netmon_rs::arp::{
    fmt_mac, follow_arp, has_pinned, is_mac, norm_mac, read_arp_table, resolve_mac_for_ip,
    sweep_from,
};
use netmon_rs::config::{
    clamp_interval, clamp_window, default_interval, default_threshold, default_version,
    default_window, detect_gateway, is_ipv4, Config, Settings, Target, WINDOW_MINS,
};
use netmon_rs::ping::{parse_latency, ping_args, ping_reply, sweep_addresses};
use netmon_rs::setup::{install_args, next_step, open_args, Step, DOWNLOAD_PAGE, WINGET_IDS};

#[test]
fn intervals_are_held_to_their_range() {
    assert_eq!(clamp_interval(0), 1000);
    assert_eq!(clamp_interval(1500), 1500);
    assert_eq!(clamp_interval(60_001), 60_000);
    assert_eq!(clamp_interval(clamp_interval(7)), clamp_interval(7));
}

#[test]
fn windows_snap_to_those_on_offer() {
    for mins in WINDOW_MINS {
        assert_eq!(clamp_window(mins), mins);
    }
    assert_eq!(clamp_window(11), 10);
    assert_eq!(clamp_window(-5), 10);
}

#[test]
fn a_fresh_install_seeds_and_stores_its_defaults() {
    let loaded = Config::load(Some("10.0.0.1".to_string()), None);
    let cfg = loaded.config;
    assert_eq!(cfg.interval_ms, 1000);
    assert_eq!(cfg.window_mins, 10);
    assert_eq!(cfg.packet_loss_alert_threshold, 15);
    assert_eq!(cfg.timeout_ms, 1500);
    assert_eq!(cfg.history_max_age_ms, 6 * 60 * 60 * 1000);
    assert_eq!(cfg.history_max_samples, 60_000);
    assert_eq!(cfg.mac_resolve_ms, 30_000);
    assert!(cfg.targets[0] == Target::new("Gateway", "10.0.0.1", None));
    assert!(cfg.targets[1] == Target::new("Internet (8.8.8.8)", "8.8.8.8", None));
    assert!(cfg.targets[2] == Target::new("MSFT NCSI", "www.msftconnecttest.com", None));
    let stored = loaded.to_save.unwrap();
    assert_eq!(stored.version, 2);
    // The next start finds the same defaults, though the gateway has changed.
    let again = Config::load(None, Some(stored));
    assert!(again.to_save.is_none());
    assert_eq!(again.config.targets[0].ip, "10.0.0.1");
    assert_eq!(Config::starter(None).targets[0].ip, "192.168.1.1");
}

#[test]
fn stored_settings_are_applied_and_held() {
    let loaded = Config::load(
        None,
        Some(Settings {
            version: 1,
            auto_interval: true,
            interval_ms: 5,
            window_mins: 7,
            packet_loss_alert_threshold: 40,
            targets: Vec::new(),
        }),
    );
    assert!(loaded.to_save.is_none());
    assert!(loaded.config.auto_interval);
    assert_eq!(loaded.config.interval_ms, 1000);
    assert_eq!(loaded.config.window_mins, 10);
    assert_eq!(loaded.config.packet_loss_alert_threshold, 40);
    assert_eq!(loaded.config.targets.len(), 3);
}

#[test]
fn settings_persist() {
    let mut cfg = Config::starter(None);
    cfg.auto_interval = true;
    cfg.interval_ms = 30_000;
    cfg.window_mins = 180;
    cfg.packet_loss_alert_threshold = 5;
    cfg.targets = vec![Target::new("NAS", "nas.local", Some("0C-EF-15-C1-57-90"))];
    let again = Config::load(None, Some(cfg.to_settings())).config;
    assert!(again.auto_interval);
    assert_eq!(again.interval_ms, 30_000);
    assert_eq!(again.window_mins, 180);
    assert_eq!(again.packet_loss_alert_threshold, 5);
    assert!(again.targets == cfg.targets);
    assert_eq!(
        (default_version(), default_interval(), default_window(), default_threshold()),
        (2, 1000, 10, 15)
    );
}

#[test]
fn ipv4_addresses() {
    for good in ["8.8.8.8", "0.0.0.0", "255.255.255.255", "192.168.001.1"] {
        assert!(is_ipv4(good), "{good}");
    }
    for bad in ["", "1.2.3", "1.2.3.4.5", "1.2.3.256", "1..2.3", "a.b.c.d", "1.2.3.4 ", "fe80::1"] {
        assert!(!is_ipv4(bad), "{bad}");
    }
}

#[test]
fn gateway_from_ipconfig() {
    let output = "Windows IP Configuration\r\n\r\n   IPv4 Address. . . : 192.168.1.7\r\n   \
                  Default Gateway . . . . . . . . . : fe80::1\r\n   \
                  Default Gateway . . . . . . . . . : \r\n   \
                  Default Gateway . . . . . . . . . : 192.168.1.254\r\n   \
                  Default Gateway . . . . . . . . . : 10.0.0.1\r\n";
    assert_eq!(detect_gateway(output).as_deref(), Some("192.168.1.254"));
    assert_eq!(detect_gateway("no gateway here: 1.2.3.4"), None);
    assert_eq!(detect_gateway(""), None);
}

#[test]
fn replies_and_drops() {
    assert_eq!(
        ping_reply("Reply from 8.8.8.8: bytes=32 time=12ms TTL=117\r\n"),
        Some(12)
    );
    assert_eq!(ping_reply("Reply from 192.168.1.1: bytes=32 time<1ms TTL=64"), Some(1));
    assert_eq!(ping_reply("64 bytes: icmp_seq=1 ttl=64 time=7.5 ms"), Some(7));
    assert_eq!(ping_reply("REPLY: TIME=33MS TTL=1"), Some(33));
    assert_eq!(ping_reply("time=12ms"), None);
    assert_eq!(ping_reply("Request timed out."), None);
    assert_eq!(ping_reply("TTL=1"), None);
    assert_eq!(parse_latency("time 12ms"), None);
    assert_eq!(parse_latency("time=ms"), None);
    assert_eq!(parse_latency("time"), None);
    assert_eq!(parse_latency("time=4294967295"), Some(u32::MAX));
    assert_eq!(parse_latency("time=4294967296"), None);
}

#[test]
fn a_host_named_time_does_not_hide_the_latency() {
    let output = "Pinging time.windows.com [20.0.0.1] with 32 bytes of data: \
                  Reply from 20.0.0.1: bytes=32 time=12ms TTL=117";
    assert_eq!(parse_latency(output), Some(12));
    assert_eq!(ping_reply(output), Some(12));
    assert_eq!(parse_latency("time=ms, then time<3ms"), Some(3));
    assert_eq!(parse_latency("Pinging time.example: TIME=8ms"), Some(8));
    // The first number counts, and `time` comes before `TIME`.
    assert_eq!(parse_latency("time=4294967296 time=1"), None);
    assert_eq!(parse_latency("TIME=1 time=2 time=3"), Some(2));
    assert_eq!(parse_latency("time="), None);
}

#[test]
fn ping_arguments() {
    assert_eq!(
        ping_args("8.8.8.8", 1500),
        vec!["-n", "1", "-w", "1500", "8.8.8.8"]
    );
}

#[test]
fn sweeps_the_neighbours() {
    let all = sweep_addresses("192.168.7.33");
    assert_eq!(all.len(), 254);
    assert_eq!(all[0], "192.168.7.1");
    assert_eq!(all[253], "192.168.7.254");
    assert!(sweep_addresses("localhost").is_empty());
    assert_eq!(sweep_addresses("a.")[9], "a.10");
}

#[test]
fn mac_addresses() {
    assert_eq!(norm_mac("0C-EF-15-c1-57-90"), "0cef15c15790");
    assert_eq!(fmt_mac("0c:ef:15:c1:57:90"), "0C-EF-15-C1-57-90");
    assert_eq!(fmt_mac("abc"), "AB-C");
    assert_eq!(fmt_mac(""), "");
    assert!(is_mac("0c:ef:15:c1:57:90"));
    assert!(!is_mac("0cef15c15790"));
    assert!(!is_mac("0c-ef-15"));
    for s in ["0c:ef:15:c1:57:90", "A-b-C-d-1-2-3-4-5-6-7-8"] {
        assert_eq!(norm_mac(&norm_mac(s)), norm_mac(s));
        assert_eq!(norm_mac(&fmt_mac(s)), norm_mac(s));
        assert!(is_mac(&fmt_mac(s)));
        assert_eq!(fmt_mac(&fmt_mac(s)), fmt_mac(s));
    }
}

const ARP: &str = "\r\nInterface: 192.168.1.7 --- 0x5\r\n  Internet Address      Physical Address      Type\r\n  192.168.1.1           0c-ef-15-c1-57-90     dynamic\r\n  192.168.1.9           aa-bb-cc-dd-ee-ff     dynamic\r\n  192.168.1.12          aa-bb-cc-dd-ee-ff     dynamic\r\n  224.0.0.22            short                 static\r\n";

#[test]
fn mac_of_an_address() {
    assert_eq!(
        resolve_mac_for_ip("192.168.1.1", ARP).as_deref(),
        Some("0C-EF-15-C1-57-90")
    );
    assert_eq!(resolve_mac_for_ip("192.168.1.2", ARP), None);
    assert_eq!(resolve_mac_for_ip("224.0.0.22", ARP), None);
    assert_eq!(resolve_mac_for_ip("router", "router 0c-ef-15-c1-57-90"), None);
}

#[test]
fn pinned_targets_follow_the_table() {
    let table = read_arp_table(ARP);
    assert_eq!(table.len(), 2);
    assert_eq!(table.get("0cef15c15790").map(String::as_str), Some("192.168.1.1"));
    // Of two lines for one address, the later one counts.
    assert_eq!(table.get("aabbccddeeff").map(String::as_str), Some("192.168.1.12"));

    let mut targets = vec![
        Target::new("Router", "192.168.1.200", Some("0C:EF:15:C1:57:90")),
        Target::new("Free", "192.168.1.201", None),
        Target::new("Lost", "10.0.0.1", Some("11-22-33-44-55-66")),
    ];
    assert!(has_pinned(&targets));
    assert!(!has_pinned(&targets[1..2]));
    assert_eq!(sweep_from(&targets, &table).as_deref(), Some("192.168.1.200"));
    assert_eq!(sweep_from(&targets[..2], &table), None);
    assert_eq!(sweep_from(&targets[2..], &table), None);
    follow_arp(&mut targets, &table);
    let ips: Vec<&str> = targets.iter().map(|t| t.ip.as_str()).collect();
    assert_eq!(ips, vec!["192.168.1.1", "192.168.1.201", "10.0.0.1"]);
    assert_eq!(targets[0].mac.as_deref(), Some("0C:EF:15:C1:57:90"));
}

#[test]
fn setup_tries_each_package_and_then_the_page() {
    let mut step = Step::Ask;
    let mut seen = Vec::new();
    for well in [true, false, false, false, true, true] {
        step = next_step(step, well);
        seen.push(step);
    }
    assert_eq!(
        seen,
        vec![
            Step::Install(0),
            Step::Install(1),
            Step::Install(2),
            Step::Tell,
            Step::OpenPage,
            Step::GiveUp,
        ]
    );
    assert_eq!(next_step(Step::Install(1), true), Step::Retry);
    assert_eq!(next_step(Step::Ask, false), Step::OpenPage);
    assert_eq!(next_step(Step::Retry, false), Step::Retry);
    assert_eq!(next_step(Step::GiveUp, true), Step::GiveUp);
    assert_eq!(
        install_args(WINGET_IDS[0]),
        vec![
            "install",
            "--id",
            "Microsoft.WindowsAppRuntime.2",
            "--silent",
            "--accept-source-agreements",
            "--accept-package-agreements",
        ]
    );
    assert_eq!(open_args(DOWNLOAD_PAGE), vec!["/c", "start", "", DOWNLOAD_PAGE]);
}
