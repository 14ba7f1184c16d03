use netmon_rs::bandwidth::{
    traffic_between, BandwidthHistory, BandwidthSample, Counters, SAMPLE_MS,
};
use netmon_rs::network_info::{
    adapters_reply, dhcp_reply, dhcp_size_reply, file_time, format_local_time, format_remaining,
    holds_ipv4, ip_addr_string, query, unix_seconds_to_ms, AdapterRow, AdaptersReply,
    DeviceNetworkInfo, DhcpRow, LeaseTimes, LocalTime, SocketAddress, UnicastRow, AF_INET,
};
use netmon_rs::notification::{
    escape_xml, packet_loss_alert, test_notification, toast_xml, wide, APP_USER_MODEL_ID,
};

#[test]
fn prunes_by_age_and_count() {
    let mut history = BandwidthHistory::default();
    for t in 0..10 {
        history.push(BandwidthSample {
            t: t * 1_000,
            rx_bps: 0.0,
            tx_bps: 0.0,
        });
    }
    history.prune(9_000, 5_000, 100);
    assert_eq!(history.samples.first().map(|s| s.t), Some(4_000));
    history.prune(9_000, 5_000, 2);
    assert_eq!(history.samples.len(), 2);
    assert_eq!(history.latest().map(|s| s.t), Some(9_000));
}

#[test]
fn prunes_old_throughput_wherever_it_stands() {
    let mut history: BandwidthHistory<u8> = BandwidthHistory::default();
    for t in [9_000, 1_000, 8_000] {
        history.push(BandwidthSample { t, rx_bps: 1, tx_bps: 2 });
    }
    history.prune(10_000, 5_000, 100);
    assert_eq!(history.samples.iter().map(|s| s.t).collect::<Vec<_>>(), vec![9_000, 8_000]);
    history.prune(10_000, 5_000, 1);
    assert_eq!(history.samples.iter().map(|s| s.t).collect::<Vec<_>>(), vec![8_000]);
}

#[test]
fn a_recorded_sample_is_the_latest() {
    let mut history: BandwidthHistory<u8> = BandwidthHistory::default();
    assert!(history.latest().is_none());
    for t in [0, 1_000, 500_000] {
        history.record(BandwidthSample { t, rx_bps: 1, tx_bps: 2 }, 60_000, 10);
        assert_eq!(history.latest().map(|s| s.t), Some(t));
    }
    assert_eq!(history.samples.len(), 1);
    assert_eq!(SAMPLE_MS, 1_000);
}

fn counters(index: u32, octets: u64, at_ns: u64) -> Counters {
    Counters {
        index,
        in_octets: octets,
        out_octets: octets * 2,
        at_ns,
    }
}

#[test]
fn traffic_needs_two_comparable_readings() {
    let before = counters(7, 1_000, 0);
    let t = traffic_between(Some(&before), Some(&counters(7, 3_000, 1_000_000_000))).unwrap();
    assert_eq!((t.rx_octets, t.tx_octets, t.span_ns), (2_000, 4_000, 1_000_000_000));
    // The default route moved, the readings are too close, or one is missing.
    assert!(traffic_between(Some(&before), Some(&counters(8, 3_000, 1_000_000_000))).is_none());
    assert!(traffic_between(Some(&before), Some(&counters(7, 3_000, 100_000_000))).is_none());
    assert!(traffic_between(None, Some(&before)).is_none());
    assert!(traffic_between(Some(&before), None).is_none());
    // A counter that went back was reset.
    let reset = traffic_between(Some(&before), Some(&counters(7, 5, 200_000_000))).unwrap();
    assert_eq!((reset.rx_octets, reset.tx_octets), (0, 0));
}

#[test]
fn formats_lease_countdown() {
    assert_eq!(format_remaining(0), "expired");
    assert_eq!(format_remaining(1_000), "1s");
    assert_eq!(format_remaining(61_000), "1m 1s");
    assert_eq!(format_remaining(3_661_000), "1h 1m 1s");
    assert_eq!(format_remaining(90_061_000), "1d 1h 1m 1s");
}

#[test]
fn lease_countdown_rounds_up() {
    assert_eq!(format_remaining(-1), "expired");
    assert_eq!(format_remaining(1), "1s");
    assert_eq!(format_remaining(1_001), "2s");
    assert_eq!(format_remaining(86_400_000), "1d 0h 0m 0s");
    assert_eq!(format_remaining(i64::MAX), "106751991167d 7h 12m 56s");
}

fn at(hour: u16, minute: u16) -> LocalTime {
    LocalTime {
        year: 2026,
        month: 3,
        day: 14,
        hour,
        minute,
    }
}

#[test]
fn local_times_on_a_twelve_hour_clock() {
    assert_eq!(format_local_time(at(0, 5)), "3/14/2026 12:05 AM");
    assert_eq!(format_local_time(at(11, 59)), "3/14/2026 11:59 AM");
    assert_eq!(format_local_time(at(12, 0)), "3/14/2026 12:00 PM");
    assert_eq!(format_local_time(at(21, 5)), "3/14/2026 9:05 PM");
}

#[test]
fn native_times() {
    // 1970-01-01 is 116444736000000000 ticks.
    let (low, high) = file_time(0).unwrap();
    assert_eq!((high as u64) << 32 | low as u64, 116_444_736_000_000_000);
    let (low, high) = file_time(1_700_000_000_999).unwrap();
    assert_eq!((high as u64) << 32 | low as u64, 133_444_736_000_000_000);
    assert!(file_time(i64::MAX).is_none());
    assert!(file_time(i64::MIN).is_none());
    assert_eq!(unix_seconds_to_ms(0), None);
    assert_eq!(unix_seconds_to_ms(-3), None);
    assert_eq!(unix_seconds_to_ms(5), Some(5_000));
    assert_eq!(unix_seconds_to_ms(i64::MAX), Some(i64::MAX));
}

fn v4(octets: [u8; 4]) -> Option<SocketAddress> {
    Some(SocketAddress {
        family: AF_INET,
        octets,
    })
}

fn adapter(up: bool, has_gateway: bool, unicast: Vec<UnicastRow>) -> AdapterRow {
    AdapterRow {
        up,
        name: "Ethernet".to_string(),
        has_gateway,
        gateway: v4([192, 168, 1, 1]),
        unicast,
    }
}

fn unicast(address: Option<SocketAddress>) -> UnicastRow {
    UnicastRow {
        address,
        prefix_len: 24,
    }
}

fn lease(ip: &str, enabled: bool) -> DhcpRow {
    DhcpRow {
        ip: ip.to_string(),
        dhcp_enabled: enabled,
        server: "192.168.1.1".to_string(),
        lease_obtained: 1_000,
        lease_expires: 4_661,
    }
}

const NO_TIMES: LeaseTimes = LeaseTimes {
    obtained: None,
    expires: None,
};

#[test]
fn lists_active_adapters_with_their_leases() {
    let v6 = Some(SocketAddress {
        family: 23,
        octets: [1, 2, 3, 4],
    });
    let info = query(Ok((
        vec![lease("0.0.0.0", true), lease("192.168.1.7", false), lease("192.168.1.7", true)],
        vec![
            adapter(false, true, vec![unicast(v4([10, 0, 0, 1]))]),
            adapter(true, false, vec![unicast(v4([10, 0, 0, 2]))]),
            adapter(true, true, vec![unicast(None), unicast(v6)]),
            adapter(
                true,
                true,
                vec![unicast(None), unicast(v4([192, 168, 1, 7])), unicast(v4([10, 0, 0, 3]))],
            ),
            adapter(true, true, vec![unicast(v4([172, 16, 0, 9]))]),
        ],
    )));
    assert_eq!(info.primary_address(), "192.168.1.7/24");
    assert_eq!(info.adapter_name(), "Ethernet");
    let times = LeaseTimes {
        obtained: Some(at(9, 0)),
        expires: None,
    };
    assert_eq!(
        info.connection_details(1_000_000, times),
        "Gateway: 192.168.1.1\nDHCP: 192.168.1.1\nLease: 3/14/2026 9:00 AM\nto unknown\nExpires in: 1h 1m 1s"
    );
    match info {
        DeviceNetworkInfo::Loaded(adapters) => {
            assert_eq!(adapters.len(), 2);
            assert_eq!(adapters[0].lease_obtained_ms, Some(1_000_000));
            assert_eq!(adapters[1].ip_address, "172.16.0.9");
            assert!(adapters[1].dhcp_server.is_none());
            assert_eq!(
                adapters[1].connection_details(0, NO_TIMES),
                "Gateway: 192.168.1.1\nDHCP: not enabled"
            );
        }
        _ => panic!("not loaded"),
    }
}

#[test]
fn adapters_without_dhcp_show_no_lease() {
    let mut row = adapter(true, true, vec![unicast(v4([10, 0, 0, 1]))]);
    row.gateway = None;
    let info = query(Ok((vec![lease("10.0.0.1", false)], vec![row])));
    assert_eq!(
        info.connection_details(0, NO_TIMES),
        "Gateway: not reported\nDHCP: not enabled"
    );
}

#[test]
fn what_is_shown_without_an_adapter() {
    let loading = DeviceNetworkInfo::default();
    assert_eq!(loading.primary_address(), "Loading...");
    assert_eq!(loading.adapter_name(), "");
    assert_eq!(loading.connection_details(0, NO_TIMES), "Loading network information...");
    let none = query(Ok((Vec::new(), Vec::new())));
    assert_eq!(none.primary_address(), "No IPv4 address");
    assert_eq!(none.adapter_name(), "");
    assert_eq!(none.connection_details(0, NO_TIMES), "No active adapter detected");
    let failed = query(Err("boom".to_string()));
    assert_eq!(failed.primary_address(), "Unavailable");
    assert_eq!(
        failed.connection_details(0, NO_TIMES),
        "Network information unavailable: boom"
    );
}

#[test]
fn native_replies() {
    assert!(matches!(adapters_reply(0), AdaptersReply::Done));
    assert!(matches!(adapters_reply(111), AdaptersReply::Again));
    match adapters_reply(5) {
        AdaptersReply::Failed(m) => assert_eq!(m, "GetAdaptersAddresses failed with error 5"),
        _ => panic!("not failed"),
    }
    assert_eq!(dhcp_size_reply(111), Ok(()));
    assert_eq!(
        dhcp_size_reply(0),
        Err("GetAdaptersInfo sizing failed with error 0".to_string())
    );
    assert_eq!(dhcp_reply(0), Ok(()));
    assert_eq!(dhcp_reply(111), Err("GetAdaptersInfo failed with error 111".to_string()));
    assert!(holds_ipv4(16) && !holds_ipv4(15));
    assert_eq!(ip_addr_string(""), None);
    assert_eq!(ip_addr_string("0.0.0.0"), None);
    assert_eq!(ip_addr_string("1.2.3.4").as_deref(), Some("1.2.3.4"));
}

#[test]
fn escapes_toast_text() {
    assert_eq!(
        escape_xml("A&B <router> \"down\""),
        "A&amp;B &lt;router&gt; &quot;down&quot;"
    );
}

#[test]
fn escaped_text_reads_back() {
    for s in ["", "it's", "&amp;", "<<>>", "a&lt;b", "plain"] {
        let e = escape_xml(s);
        assert!(!e.contains(|c: char| "<>\"'".contains(c)));
        let back = e
            .replace("&lt;", "<")
            .replace("&gt;", ">")
            .replace("&quot;", "\"")
            .replace("&apos;", "'")
            .replace("&amp;", "&");
        assert_eq!(back, s);
        assert_eq!(escape_xml(&format!("{s}<&")), format!("{e}&lt;&amp;"));
    }
    assert_ne!(escape_xml("&lt;"), escape_xml("<"));
}

#[test]
fn toasts() {
    let alert = packet_loss_alert(&[("Router".to_string(), 20), ("R&D".to_string(), 100)]);
    assert_eq!(alert.title, "High packet loss detected");
    assert_eq!(alert.body, "Router: 20%, R&D: 100%");
    assert_eq!(
        toast_xml(&alert),
        "<toast><visual><binding template=\"ToastGeneric\"><text>High packet loss detected</text><text>Router: 20%, R&amp;D: 100%</text></binding></visual></toast>"
    );
    assert_eq!(packet_loss_alert(&[]).body, "");
    let test = test_notification();
    assert_eq!(test.title, "Network Monitor test");
    assert_eq!(test.body, "Notifications are configured correctly.");
    assert_eq!(wide(vec![65, 66]), vec![65, 66, 0]);
    assert_eq!(APP_USER_MODEL_ID, "DamyanPepper.NetworkMonitor");
}
