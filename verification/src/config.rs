//! Targets, the values the monitor starts from, and what is kept of them in the
//! settings file.

use vstd::prelude::*;
use crate::text;

verus! {

/// A ping target. `ip` may be a host name, and follows the ARP table where `mac`
/// is set.
#[derive(PartialEq)]
pub struct Target {
    pub name: String,
    pub ip: String,
    pub mac: Option<String>,
}

/// What a target says.
pub struct TargetView {
    pub name: Seq<char>,
    pub ip: Seq<char>,
    pub mac: Option<Seq<char>>,
}

impl View for Target {
    type V = TargetView;

    open spec fn view(&self) -> TargetView {
        TargetView { name: self.name@, ip: self.ip@, mac: text::text_option(self.mac) }
    }
}

/// What each target of a list says.
pub open spec fn views(targets: Seq<Target>) -> Seq<TargetView> {
    targets.map_values(|t: Target| t@)
}

impl Clone for Target {
    fn clone(&self) -> (r: Self)
        ensures
            r@ == self@,
    {
        Target {
            name: self.name.clone(),
            ip: self.ip.clone(),
            mac: match &self.mac {
                Some(m) => Some(m.clone()),
                None => None,
            },
        }
    }
}

impl Target {
    /// A target with the given fields.
    pub fn new(name: &str, ip: &str, mac: Option<&str>) -> (r: Self)
        ensures
            r@.name == name@,
            r@.ip == ip@,
            r@.mac == (match mac {
                Some(m) => Some(m@),
                None => None,
            }),
    {
        Target {
            name: name.to_owned(),
            ip: ip.to_owned(),
            mac: match mac {
                Some(m) => Some(m.to_owned()),
                None => None,
            },
        }
    }
}

/// A copy of a list of targets.
pub fn clone_targets(targets: &[Target]) -> (r: Vec<Target>)
    ensures
        views(r@) == views(targets@),
{
    let mut out: Vec<Target> = Vec::new();
    let mut i: usize = 0;
    while i < targets.len()
        invariant
            i <= targets@.len(),
            views(out@) == views(targets@).take(i as int),
        decreases targets@.len() - i,
    {
        let ghost before = out@;
        let copy = targets[i].clone();
        out.push(copy);
        assert(views(out@) =~= views(before).push(copy@));
        assert(views(targets@).take(i + 1) =~= views(targets@).take(i as int).push(
            views(targets@)[i as int],
        ));
        i += 1;
    }
    assert(views(targets@).take(targets@.len() as int) =~= views(targets@));
    out
}

/// The display windows, in minutes, that the UI offers.
pub const WINDOW_MINS: [i64; 5] = [10, 30, 60, 180, 360];

/// Packet loss, in percent, above which a target alerts unless set otherwise.
pub const DEFAULT_ALERT_THRESHOLD: u32 = 15;

/// What the monitor runs with.
pub struct Config {
    /// Whether the monitor picks its own interval.
    pub auto_interval: bool,
    pub interval_ms: u32,
    pub window_mins: i64,
    pub packet_loss_alert_threshold: u32,
    pub timeout_ms: u32,
    pub history_max_age_ms: i64,
    pub history_max_samples: usize,
    pub mac_resolve_ms: u64,
    pub targets: Vec<Target>,
}

/// The part of a configuration that the settings file holds.
pub struct Settings {
    pub version: u32,
    pub auto_interval: bool,
    pub interval_ms: u32,
    pub window_mins: i64,
    pub packet_loss_alert_threshold: u32,
    pub targets: Vec<Target>,
}

/// What a configuration says.
pub struct ConfigView {
    pub auto_interval: bool,
    pub interval_ms: u32,
    pub window_mins: i64,
    pub packet_loss_alert_threshold: u32,
    pub timeout_ms: u32,
    pub history_max_age_ms: i64,
    pub history_max_samples: usize,
    pub mac_resolve_ms: u64,
    pub targets: Seq<TargetView>,
}

/// What stored settings say.
pub struct SettingsView {
    pub version: u32,
    pub auto_interval: bool,
    pub interval_ms: u32,
    pub window_mins: i64,
    pub packet_loss_alert_threshold: u32,
    pub targets: Seq<TargetView>,
}

impl View for Config {
    type V = ConfigView;

    open spec fn view(&self) -> ConfigView {
        ConfigView {
            auto_interval: self.auto_interval,
            interval_ms: self.interval_ms,
            window_mins: self.window_mins,
            packet_loss_alert_threshold: self.packet_loss_alert_threshold,
            timeout_ms: self.timeout_ms,
            history_max_age_ms: self.history_max_age_ms,
            history_max_samples: self.history_max_samples,
            mac_resolve_ms: self.mac_resolve_ms,
            targets: views(self.targets@),
        }
    }
}

impl View for Settings {
    type V = SettingsView;

    open spec fn view(&self) -> SettingsView {
        SettingsView {
            version: self.version,
            auto_interval: self.auto_interval,
            interval_ms: self.interval_ms,
            window_mins: self.window_mins,
            packet_loss_alert_threshold: self.packet_loss_alert_threshold,
            targets: views(self.targets@),
        }
    }
}

/// The starter targets of a fresh install.
pub open spec fn starter_targets(gateway: Option<Seq<char>>) -> Seq<TargetView> {
    seq![
        TargetView {
            name: "Gateway"@,
            ip: match gateway {
                Some(g) => g,
                None => "192.168.1.1"@,
            },
            mac: None,
        },
        TargetView { name: "Internet (8.8.8.8)"@, ip: "8.8.8.8"@, mac: None },
        TargetView { name: "MSFT NCSI"@, ip: "www.msftconnecttest.com"@, mac: None },
    ]
}

/// The configuration of a fresh install.
pub open spec fn starter_config(gateway: Option<Seq<char>>) -> ConfigView {
    ConfigView {
        auto_interval: false,
        interval_ms: 1000,
        window_mins: 10,
        packet_loss_alert_threshold: DEFAULT_ALERT_THRESHOLD,
        timeout_ms: 1500,
        history_max_age_ms: 21_600_000,
        history_max_samples: 60_000,
        mac_resolve_ms: 30_000,
        targets: starter_targets(gateway),
    }
}

/// A ping interval held to the range from 1 s to 60 s.
pub open spec fn clamped_interval(ms: u32) -> u32 {
    if ms < 1000 {
        1000
    } else if ms > 60_000 {
        60_000
    } else {
        ms
    }
}

/// A display window held to those on offer.
pub open spec fn clamped_window(mins: i64) -> i64 {
    if WINDOW_MINS@.contains(mins) {
        mins
    } else {
        10
    }
}

/// The configuration that stored settings lead to. Where there are none, or none
/// that can be read, it is that of a fresh install.
pub open spec fn configured(
    gateway: Option<Seq<char>>,
    stored: Option<SettingsView>,
) -> ConfigView {
    let base = starter_config(gateway);
    match stored {
        Some(s) => ConfigView {
            auto_interval: s.auto_interval,
            interval_ms: clamped_interval(s.interval_ms),
            window_mins: clamped_window(s.window_mins),
            packet_loss_alert_threshold: s.packet_loss_alert_threshold,
            targets: if s.targets.len() == 0 {
                base.targets
            } else {
                s.targets
            },
            ..base
        },
        None => base,
    }
}

/// The settings that a configuration is stored as.
pub open spec fn stored(config: ConfigView) -> SettingsView {
    SettingsView {
        version: 2,
        auto_interval: config.auto_interval,
        interval_ms: config.interval_ms,
        window_mins: config.window_mins,
        packet_loss_alert_threshold: config.packet_loss_alert_threshold,
        targets: config.targets,
    }
}

/// The generic starter targets: the machine's own gateway, or a common address
/// where none was detected, and two well-known internet endpoints.
pub fn default_targets(gateway: Option<String>) -> (r: Vec<Target>)
    ensures
        views(r@) == starter_targets(text::text_option(gateway)),
{
    let address = match gateway {
        Some(g) => g,
        None => "192.168.1.1".to_owned(),
    };
    let mut out: Vec<Target> = Vec::new();
    out.push(Target::new("Gateway", address.as_str(), None));
    out.push(Target::new("Internet (8.8.8.8)", "8.8.8.8", None));
    out.push(Target::new("MSFT NCSI", "www.msftconnecttest.com", None));
    assert(views(out@) =~= starter_targets(text::text_option(gateway)));
    out
}

/// The schema version of a settings file that names none.
pub fn default_version() -> (r: u32)
    ensures
        r == 2,
{
    2
}

/// The interval of a settings file that names none.
pub fn default_interval() -> (r: u32)
    ensures
        r == 1000,
{
    1000
}

/// The display window of a settings file that names none.
pub fn default_window() -> (r: i64)
    ensures
        r == 10,
{
    10
}

/// The alert threshold of a settings file that names none.
pub fn default_threshold() -> (r: u32)
    ensures
        r == DEFAULT_ALERT_THRESHOLD,
{
    DEFAULT_ALERT_THRESHOLD
}

/// Holds the ping interval to the range from 1 s to 60 s.
pub fn clamp_interval(ms: u32) -> (r: u32)
    ensures
        r == clamped_interval(ms),
{
    if ms < 1000 {
        1000
    } else if ms > 60_000 {
        60_000
    } else {
        ms
    }
}

/// Snaps a window to one of those on offer, and to 10 minutes otherwise.
pub fn clamp_window(mins: i64) -> (r: i64)
    ensures
        r == clamped_window(mins),
{
    let mut i: usize = 0;
    while i < WINDOW_MINS.len()
        invariant
            i <= WINDOW_MINS@.len(),
            forall|j: int| 0 <= j < i ==> WINDOW_MINS@[j] != mins,
        decreases WINDOW_MINS@.len() - i,
    {
        if WINDOW_MINS[i] == mins {
            assert(WINDOW_MINS@[i as int] == mins);
            return mins;
        }
        i += 1;
    }
    10
}

/// The settings to write to the settings file.
pub fn save_settings(
    auto_interval: bool,
    interval_ms: u32,
    window_mins: i64,
    packet_loss_alert_threshold: u32,
    targets: &[Target],
) -> (r: Settings)
    ensures
        r@ == (SettingsView {
            version: 2,
            auto_interval,
            interval_ms,
            window_mins,
            packet_loss_alert_threshold,
            targets: views(targets@),
        }),
{
    Settings {
        version: default_version(),
        auto_interval,
        interval_ms,
        window_mins,
        packet_loss_alert_threshold,
        targets: clone_targets(targets),
    }
}

/// What a start reads from the settings file: the configuration to run with,
/// and what to write back where there was nothing to read.
pub struct Loaded {
    pub config: Config,
    pub to_save: Option<Settings>,
}

impl Config {
    /// The configuration of a fresh install, given the gateway that was detected.
    pub fn starter(gateway: Option<String>) -> (r: Self)
        ensures
            r@ == starter_config(text::text_option(gateway)),
    {
        Config {
            auto_interval: false,
            interval_ms: default_interval(),
            window_mins: default_window(),
            packet_loss_alert_threshold: default_threshold(),
            timeout_ms: 1500,
            history_max_age_ms: 21_600_000,
            history_max_samples: 60_000,
            mac_resolve_ms: 30_000,
            targets: default_targets(gateway),
        }
    }

    /// The settings to store for this configuration.
    pub fn to_settings(&self) -> (r: Settings)
        ensures
            r@ == stored(self@),
    {
        save_settings(
            self.auto_interval,
            self.interval_ms,
            self.window_mins,
            self.packet_loss_alert_threshold,
            self.targets.as_slice(),
        )
    }

    /// Starts from the defaults and applies the stored settings. Where there are
    /// none, the seeded defaults are to be stored, so that they stay the same
    /// from then on.
    pub fn load(gateway: Option<String>, settings: Option<Settings>) -> (r: Loaded)
        ensures
            r.config@ == configured(
                text::text_option(gateway),
                match settings {
                    Some(s) => Some(s@),
                    None => None,
                },
            ),
            r.to_save is Some <==> settings is None,
            r.to_save matches Some(s) ==> s@ == stored(r.config@),
    {
        let mut config = Config::starter(gateway);
        match settings {
            Some(s) => {
                config.auto_interval = s.auto_interval;
                config.interval_ms = clamp_interval(s.interval_ms);
                config.window_mins = clamp_window(s.window_mins);
                config.packet_loss_alert_threshold = s.packet_loss_alert_threshold;
                if s.targets.len() != 0 {
                    config.targets = s.targets;
                }
                Loaded { config, to_save: None }
            },
            None => {
                let first = config.to_settings();
                Loaded { config, to_save: Some(first) }
            },
        }
    }
}

// ---------------------------------------------------------------------------
// Addresses
// ---------------------------------------------------------------------------
/// A dotted IPv4 address: four decimal octets.
pub open spec fn is_ipv4_text(s: Seq<char>) -> bool {
    let parts = text::split(s, '.');
    parts.len() == 4 && forall|i: int| 0 <= i < 4 ==> text::is_octet(#[trigger] parts[i])
}

/// Whether a text is a dotted IPv4 address.
pub fn is_ipv4(s: &str) -> (r: bool)
    ensures
        r == is_ipv4_text(s@),
{
    let chars = text::chars_of(s);
    is_ipv4_chars(chars.as_slice())
}

/// Whether a run of characters is a dotted IPv4 address.
pub fn is_ipv4_chars(s: &[char]) -> (r: bool)
    ensures
        r == is_ipv4_text(s@),
{
    let parts = text::split_at_each(s, '.');
    let ghost spec_parts = text::split(s@, '.');
    assert(text::pieces(parts@).len() == parts@.len());
    if parts.len() != 4 {
        return false;
    }
    let mut i: usize = 0;
    while i < 4
        invariant
            i <= 4,
            parts@.len() == 4,
            spec_parts == text::pieces(parts@),
            spec_parts == text::split(s@, '.'),
            forall|j: int| 0 <= j < i ==> text::is_octet(#[trigger] spec_parts[j]),
        decreases 4 - i,
    {
        assert(spec_parts[i as int] == parts@[i as int]@);
        if !text::octet(parts[i].as_slice()) {
            return false;
        }
        i += 1;
    }
    true
}

/// The address on a line that names a default gateway: what follows the last
/// colon, where that is an IPv4 address.
pub open spec fn gateway_on(line: Seq<char>) -> Option<Seq<char>> {
    let tail = text::trimmed(text::split(line, ':').last());
    if text::contains(line, "Default Gateway"@) && is_ipv4_text(tail) {
        Some(tail)
    } else {
        None
    }
}

/// The first gateway that a list of lines names.
pub open spec fn first_gateway(lines: Seq<Seq<char>>) -> Option<Seq<char>>
    decreases lines.len(),
{
    if lines.len() == 0 {
        None
    } else if gateway_on(lines[0]) is Some {
        gateway_on(lines[0])
    } else {
        first_gateway(lines.drop_first())
    }
}

/// The default gateway, read from what `ipconfig` printed.
pub fn detect_gateway(output: &str) -> (r: Option<String>)
    ensures
        text::text_option(r) == first_gateway(text::lines(output@)),
{
    let lines = text::lines_of(output);
    let ghost all = text::lines(output@);
    let mut i: usize = 0;
    assert(all.skip(0) =~= all);
    assert(text::pieces(lines@).len() == lines@.len());
    while i < lines.len()
        invariant
            i <= lines@.len(),
            all == text::pieces(lines@),
            all == text::lines(output@),
            first_gateway(all) == first_gateway(all.skip(i as int)),
        decreases lines@.len() - i,
    {
        proof {
            assert(all[i as int] == lines@[i as int]@);
            assert(all.skip(i as int)[0] == all[i as int]);
            assert(all.skip(i as int).drop_first() =~= all.skip(i + 1));
        }
        let label = text::chars_of("Default Gateway");
        let named = text::find(lines[i].as_slice(), label.as_slice()).is_some();
        let parts = text::split_at_each(lines[i].as_slice(), ':');
        proof {
            assert(text::pieces(parts@).last() == parts@.last()@);
        }
        let tail = text::trim_chars(parts[parts.len() - 1].as_slice());
        if named && is_ipv4_chars(tail.as_slice()) {
            return Some(text::text_of(tail.as_slice()));
        }
        i += 1;
    }
    assert(all.skip(all.len() as int).len() == 0);
    None
}

// ---------------------------------------------------------------------------
// Laws
// ---------------------------------------------------------------------------
/// A gateway that is detected is an IPv4 address, and some line names it.
pub proof fn law_gateway_is_an_address(lines: Seq<Seq<char>>)
    ensures
        first_gateway(lines) matches Some(g) ==> is_ipv4_text(g) && exists|i: int|
            0 <= i < lines.len() && gateway_on(#[trigger] lines[i]) == Some(g),
    decreases lines.len(),
{
    if lines.len() > 0 && gateway_on(lines[0]) is None {
        let rest = lines.drop_first();
        law_gateway_is_an_address(rest);
        if first_gateway(rest) is Some {
            let g = first_gateway(rest)->0;
            let i = choose|i: int| 0 <= i < rest.len() && gateway_on(#[trigger] rest[i]) == Some(g);
            assert(lines[i + 1] == rest[i]);
        }
    }
}

/// A held interval is within 1 s and 60 s, and holding it again changes nothing.
pub proof fn law_interval_in_range(ms: u32)
    ensures
        1000 <= clamped_interval(ms) <= 60_000,
        clamped_interval(clamped_interval(ms)) == clamped_interval(ms),
        1000 <= ms <= 60_000 ==> clamped_interval(ms) == ms,
{
}

/// A held window is always one of those on offer, and those are left alone.
pub proof fn law_window_on_offer(mins: i64)
    ensures
        WINDOW_MINS@.contains(clamped_window(mins)),
        WINDOW_MINS@.contains(mins) ==> clamped_window(mins) == mins,
{
    assert(WINDOW_MINS@[0] == 10);
}

/// Whatever was stored, the monitor starts with an interval in range, a window
/// on offer and at least one target.
pub proof fn law_start_is_valid(gateway: Option<Seq<char>>, settings: Option<SettingsView>)
    ensures
        ({
            let c = configured(gateway, settings);
            &&& 1000 <= c.interval_ms <= 60_000
            &&& WINDOW_MINS@.contains(c.window_mins)
            &&& c.targets.len() > 0
        }),
{
    assert(WINDOW_MINS@[0] == 10);
}

/// What is stored comes back at the next start: the interval, the window, the
/// alert threshold, the mode and the targets.
pub proof fn law_settings_persist(
    gateway: Option<Seq<char>>,
    config: ConfigView,
)
    requires
        1000 <= config.interval_ms <= 60_000,
        WINDOW_MINS@.contains(config.window_mins),
        config.targets.len() > 0,
    ensures
        ({
            let c = configured(gateway, Some(stored(config)));
            &&& c.auto_interval == config.auto_interval
            &&& c.interval_ms == config.interval_ms
            &&& c.window_mins == config.window_mins
            &&& c.packet_loss_alert_threshold == config.packet_loss_alert_threshold
            &&& c.targets == config.targets
        }),
{
}

/// A fresh install that stores its seeded defaults starts from the same ones
/// again, even where the gateway has changed meanwhile.
pub proof fn law_seeded_defaults_are_stable(
    gateway: Option<Seq<char>>,
    later_gateway: Option<Seq<char>>,
)
    ensures
        configured(later_gateway, Some(stored(configured(gateway, None)))) == configured(
            gateway,
            None,
        ),
{
    assert(WINDOW_MINS@[0] == 10);
}

/// Four octets with dots between them are an address, whatever network it is on, and an
/// address is nothing else.
pub proof fn law_four_octets_make_an_address(
    a: Seq<char>,
    b: Seq<char>,
    c: Seq<char>,
    d: Seq<char>,
)
    requires
        text::is_octet(a),
        text::is_octet(b),
        text::is_octet(c),
        text::is_octet(d),
    ensures
        is_ipv4_text(a + seq!['.'] + b + seq!['.'] + c + seq!['.'] + d),
        text::split(a + seq!['.'] + b + seq!['.'] + c + seq!['.'] + d, '.') == seq![a, b, c, d],
{
    lemma_octet_has_no_dot(a);
    lemma_octet_has_no_dot(b);
    lemma_octet_has_no_dot(c);
    lemma_octet_has_no_dot(d);
    let none = Seq::<char>::empty();
    let two = a + seq!['.'] + b;
    let three = two + seq!['.'] + c;
    text::law_split_at_every_separator(none, a, '.');
    text::law_split_at_every_separator(a, b, '.');
    text::law_split_at_every_separator(two, c, '.');
    text::law_split_at_every_separator(three, d, '.');
    let parts = text::split(three + seq!['.'] + d, '.');
    assert(parts =~= seq![a, b, c, d]);
}

/// An address has exactly four parts between its dots, and each is an octet.
pub proof fn law_an_address_is_four_octets(s: Seq<char>)
    ensures
        is_ipv4_text(s) <==> {
            let parts = text::split(s, '.');
            &&& parts.len() == 4
            &&& text::is_octet(parts[0])
            &&& text::is_octet(parts[1])
            &&& text::is_octet(parts[2])
            &&& text::is_octet(parts[3])
        },
{
}

/// An octet holds no dot.
proof fn lemma_octet_has_no_dot(s: Seq<char>)
    requires
        text::is_octet(s),
    ensures
        !s.contains('.'),
{
    if s.contains('.') {
        let i = choose|i: int| 0 <= i < s.len() && s[i] == '.';
        if s[0] == '+' {
            assert(s.skip(1)[i - 1] == '.');
            assert(text::is_digit(s.skip(1)[i - 1]));
        } else {
            assert(text::is_digit(s[i]));
        }
    }
}

/// The gateway is read from the first line that names a default gateway and has an
/// address behind its last colon.
pub proof fn law_gateway_is_on_the_first_line_with_one(lines: Seq<Seq<char>>, i: int)
    requires
        0 <= i < lines.len(),
        text::contains(lines[i], "Default Gateway"@),
        is_ipv4_text(text::trimmed(text::split(lines[i], ':').last())),
        forall|j: int|
            0 <= j < i ==> !text::contains(#[trigger] lines[j], "Default Gateway"@)
                || !is_ipv4_text(text::trimmed(text::split(lines[j], ':').last())),
    ensures
        first_gateway(lines) == Some(text::trimmed(text::split(lines[i], ':').last())),
    decreases lines.len(),
{
    if i > 0 {
        assert(!text::contains(lines[0], "Default Gateway"@) || !is_ipv4_text(
            text::trimmed(text::split(lines[0], ':').last()),
        ));
        let rest = lines.drop_first();
        assert forall|j: int| 0 <= j < i - 1 implies !text::contains(
            #[trigger] rest[j],
            "Default Gateway"@,
        ) || !is_ipv4_text(text::trimmed(text::split(rest[j], ':').last())) by {
            assert(rest[j] == lines[j + 1]);
        }
        law_gateway_is_on_the_first_line_with_one(rest, i - 1);
    }
}

/// Where no line names a default gateway with an address, none is detected.
pub proof fn law_no_gateway_without_such_a_line(lines: Seq<Seq<char>>)
    requires
        forall|j: int|
            0 <= j < lines.len() ==> !text::contains(#[trigger] lines[j], "Default Gateway"@)
                || !is_ipv4_text(text::trimmed(text::split(lines[j], ':').last())),
    ensures
        first_gateway(lines) is None,
    decreases lines.len(),
{
    if lines.len() > 0 {
        assert(!text::contains(lines[0], "Default Gateway"@) || !is_ipv4_text(
            text::trimmed(text::split(lines[0], ':').last()),
        ));
        let rest = lines.drop_first();
        assert forall|j: int| 0 <= j < rest.len() implies !text::contains(
            #[trigger] rest[j],
            "Default Gateway"@,
        ) || !is_ipv4_text(text::trimmed(text::split(rest[j], ':').last())) by {
            assert(rest[j] == lines[j + 1]);
        }
        law_no_gateway_without_such_a_line(rest);
    }
}

/// Values out of range go to the nearest end of it, and a window that is not on offer
/// goes to ten minutes. The windows on offer are of ten and thirty minutes and of one,
/// three and six hours.
pub proof fn law_values_are_held(ms: u32, mins: i64)
    ensures
        ms < 1_000 ==> clamped_interval(ms) == 1_000,
        ms > 60_000 ==> clamped_interval(ms) == 60_000,
        1_000 <= ms <= 60_000 ==> clamped_interval(ms) == ms,
        ({
            let offered = mins == 10 || mins == 30 || mins == 60 || mins == 180 || mins == 360;
            clamped_window(mins) == if offered {
                mins
            } else {
                10
            }
        }),
{
    assert(WINDOW_MINS@ =~= seq![10i64, 30i64, 60i64, 180i64, 360i64]);
    assert(WINDOW_MINS@[0] == 10);
    assert(WINDOW_MINS@[1] == 30);
    assert(WINDOW_MINS@[2] == 60);
    assert(WINDOW_MINS@[3] == 180);
    assert(WINDOW_MINS@[4] == 360);
}

/// Stored settings are applied as they are, but for the interval and the window, which
/// are held to their ranges, and an empty list of targets, which gives way to the
/// starter targets. What is not stored is that of a fresh install.
pub proof fn law_stored_settings_are_applied(gateway: Option<Seq<char>>, s: SettingsView)
    ensures
        ({
            let c = configured(gateway, Some(s));
            &&& c.auto_interval == s.auto_interval
            &&& c.packet_loss_alert_threshold == s.packet_loss_alert_threshold
            &&& c.interval_ms == clamped_interval(s.interval_ms)
            &&& c.window_mins == clamped_window(s.window_mins)
            &&& s.targets.len() > 0 ==> c.targets == s.targets
            &&& s.targets.len() == 0 ==> c.targets == starter_targets(gateway)
            &&& c.timeout_ms == 1_500
            &&& c.history_max_age_ms == 21_600_000
            &&& c.history_max_samples == 60_000
            &&& c.mac_resolve_ms == 30_000
        }),
{
}

/// A fresh install pings every second in manual mode, shows ten minutes, alerts above
/// 15 % and keeps six hours of history. It starts with the gateway, at the address
/// that was detected or else at a common one, and with two hosts on the internet.
pub proof fn law_fresh_install(gateway: Option<Seq<char>>)
    ensures
        ({
            let c = configured(gateway, None);
            &&& !c.auto_interval
            &&& c.interval_ms == 1_000
            &&& c.window_mins == 10
            &&& c.packet_loss_alert_threshold == 15
            &&& c.timeout_ms == 1_500
            &&& c.history_max_age_ms == 6 * 60 * 60 * 1_000
            &&& c.history_max_samples == 60_000
            &&& c.mac_resolve_ms == 30_000
            &&& c.targets.len() == 3
            &&& c.targets[0].name == "Gateway"@
            &&& gateway is Some ==> c.targets[0].ip == gateway->0
            &&& gateway is None ==> c.targets[0].ip == "192.168.1.1"@
            &&& c.targets[1].ip == "8.8.8.8"@
            &&& c.targets[2].ip == "www.msftconnecttest.com"@
            &&& forall|i: int| 0 <= i < 3 ==> (#[trigger] c.targets[i]).mac is None
        }),
{
}

/// What is stored of a configuration is what it says, with the version of the format.
pub proof fn law_stored_is_what_it_says(config: ConfigView)
    ensures
        stored(config).version == 2,
        stored(config).auto_interval == config.auto_interval,
        stored(config).interval_ms == config.interval_ms,
        stored(config).window_mins == config.window_mins,
        stored(config).packet_loss_alert_threshold == config.packet_loss_alert_threshold,
        stored(config).targets == config.targets,
{
}

/// A target says its name, its address and its MAC address where it has one, and a list says
/// each of its targets, in order.
pub proof fn law_targets_say_what_they_hold(list: Seq<Target>, i: int)
    requires
        0 <= i < list.len(),
    ensures
        views(list).len() == list.len(),
        views(list)[i].name == list[i].name@,
        views(list)[i].ip == list[i].ip@,
        list[i].mac matches Some(mac) ==> views(list)[i].mac == Some(mac@),
        list[i].mac is None ==> views(list)[i].mac is None,
{
}

} // verus!
