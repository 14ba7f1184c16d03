//! Local adapter information shown on the dashboard: which adapters are listed,
//! and how their addresses and leases are told.

use vstd::prelude::*;
use vstd::string::*;
use crate::names::NameMap;
use crate::text;

verus! {

/// The code of a native call that succeeded.
pub const NO_ERROR: u32 = 0;

/// The code of a native call whose buffer was too small.
pub const ERROR_BUFFER_OVERFLOW: u32 = 111;

/// The address family of IPv4.
pub const AF_INET: u16 = 2;

/// The size in bytes of a native IPv4 socket address.
pub const SOCKADDR_IN_LEN: i32 = 16;

/// The size with which the first adapter query is made.
pub const FIRST_BUFFER_LEN: u32 = 15_000;

// ---------------------------------------------------------------------------
// What is shown
// ---------------------------------------------------------------------------
/// One active adapter.
#[derive(Clone, PartialEq)]
pub struct AdapterInfo {
    pub name: String,
    pub ip_address: String,
    pub subnet_prefix: u32,
    pub gateway: Option<String>,
    pub dhcp_server: Option<String>,
    pub lease_obtained_ms: Option<i64>,
    pub lease_expires_ms: Option<i64>,
}

/// What an adapter says.
pub struct AdapterView {
    pub name: Seq<char>,
    pub ip_address: Seq<char>,
    pub subnet_prefix: u32,
    pub gateway: Option<Seq<char>>,
    pub dhcp_server: Option<Seq<char>>,
    pub lease_obtained_ms: Option<i64>,
    pub lease_expires_ms: Option<i64>,
}

impl View for AdapterInfo {
    type V = AdapterView;

    open spec fn view(&self) -> AdapterView {
        AdapterView {
            name: self.name@,
            ip_address: self.ip_address@,
            subnet_prefix: self.subnet_prefix,
            gateway: text::text_option(self.gateway),
            dhcp_server: text::text_option(self.dhcp_server),
            lease_obtained_ms: self.lease_obtained_ms,
            lease_expires_ms: self.lease_expires_ms,
        }
    }
}

/// What each adapter of a list says.
pub open spec fn adapter_views(adapters: Seq<AdapterInfo>) -> Seq<AdapterView> {
    adapters.map_values(|a: AdapterInfo| a@)
}

/// What is known of the device's network.
#[derive(Clone, PartialEq)]
pub enum DeviceNetworkInfo {
    Loading,
    Loaded(Vec<AdapterInfo>),
    Error(String),
}

/// A local time of day and date, as a calendar shows it.
#[derive(Clone, Copy)]
pub struct LocalTime {
    pub year: u16,
    pub month: u16,
    pub day: u16,
    pub hour: u16,
    pub minute: u16,
}

/// The local times of a lease, where they could be told.
#[derive(Clone, Copy)]
pub struct LeaseTimes {
    pub obtained: Option<LocalTime>,
    pub expires: Option<LocalTime>,
}

/// An hour of the day on a twelve-hour clock.
pub open spec fn twelve_hour(hour: nat) -> nat {
    if hour == 0 {
        12
    } else if hour <= 12 {
        hour
    } else {
        (hour - 12) as nat
    }
}

/// The half of the day that an hour is in.
pub open spec fn half_day(hour: nat) -> Seq<char> {
    if hour < 12 {
        "AM"@
    } else {
        "PM"@
    }
}

/// A local time in writing, as in `3/14/2026 9:05 PM`.
pub open spec fn written_time(t: LocalTime) -> Seq<char> {
    text::decimal(t.month as nat) + "/"@ + text::decimal(t.day as nat) + "/"@ + text::decimal(
        t.year as nat,
    ) + " "@ + text::decimal(twelve_hour(t.hour as nat)) + ":"@ + text::two_digits(
        t.minute as nat,
    ) + " "@ + half_day(t.hour as nat)
}

/// A moment of a lease in writing: `unknown` where the lease does not name it or
/// its local time could not be told.
pub open spec fn lease_moment(at_ms: Option<i64>, local: Option<LocalTime>) -> Seq<char> {
    if at_ms is Some && local is Some {
        written_time(local->0)
    } else {
        "unknown"@
    }
}

/// A number of seconds as days, hours, minutes and seconds, without leading
/// units that are zero.
pub open spec fn written_span(seconds: nat) -> Seq<char> {
    let days = seconds / 86_400;
    let hours = seconds % 86_400 / 3_600;
    let minutes = seconds % 3_600 / 60;
    let rest = text::decimal(seconds % 60) + "s"@;
    if days > 0 {
        text::decimal(days) + "d "@ + text::decimal(hours) + "h "@ + text::decimal(minutes) + "m "@
            + rest
    } else if hours > 0 {
        text::decimal(hours) + "h "@ + text::decimal(minutes) + "m "@ + rest
    } else if minutes > 0 {
        text::decimal(minutes) + "m "@ + rest
    } else {
        rest
    }
}

/// The time that is left, in writing: whole seconds, rounded up.
pub open spec fn remaining(ms: int) -> Seq<char> {
    if ms <= 0 {
        "expired"@
    } else {
        written_span(((ms + 999) / 1000) as nat)
    }
}

/// The details of an adapter, in lines.
pub open spec fn adapter_details(a: AdapterView, now_ms: int, lease: LeaseTimes) -> Seq<char> {
    let head = "Gateway: "@ + (match a.gateway {
        Some(g) => g,
        None => "not reported"@,
    });
    match a.dhcp_server {
        Some(server) => head + "\nDHCP: "@ + server + "\nLease: "@ + lease_moment(
            a.lease_obtained_ms,
            lease.obtained,
        ) + "\nto "@ + lease_moment(a.lease_expires_ms, lease.expires) + "\nExpires in: "@ + (
        match a.lease_expires_ms {
            Some(expires) => remaining(expires - now_ms),
            None => "unknown"@,
        }),
        None => head + "\nDHCP: not enabled"@,
    }
}

/// Appends a moment of a lease.
fn push_lease_moment(out: &mut String, at_ms: Option<i64>, local: Option<LocalTime>)
    ensures
        final(out)@ == old(out)@ + lease_moment(at_ms, local),
{
    match (at_ms, local) {
        (Some(_ms), Some(t)) => {
            let written = format_local_time(t);
            out.append(written.as_str());
        },
        _ => {
            out.append("unknown");
        },
    }
}

/// A local time in writing, as in `3/14/2026 9:05 PM`.
pub fn format_local_time(t: LocalTime) -> (r: String)
    ensures
        r@ == written_time(t),
{
    let hour: u16 = if t.hour == 0 {
        12
    } else if t.hour <= 12 {
        t.hour
    } else {
        t.hour - 12
    };
    let mut out = String::new();
    text::push_decimal(&mut out, t.month as u64);
    out.append("/");
    text::push_decimal(&mut out, t.day as u64);
    out.append("/");
    text::push_decimal(&mut out, t.year as u64);
    out.append(" ");
    text::push_decimal(&mut out, hour as u64);
    out.append(":");
    text::push_two_digits(&mut out, t.minute as u64);
    out.append(" ");
    if t.hour < 12 {
        out.append("AM");
    } else {
        out.append("PM");
    }
    assert(out@ =~= written_time(t));
    out
}

/// The time that is left of a lease, in writing.
pub fn format_remaining(remaining_ms: i64) -> (r: String)
    ensures
        r@ == remaining(remaining_ms as int),
{
    format_left(remaining_ms as i128)
}

/// The time that is left between two moments, in writing.
fn format_left(remaining_ms: i128) -> (r: String)
    requires
        -0x2_0000_0000_0000_0000 <= remaining_ms <= 0x2_0000_0000_0000_0000,
    ensures
        r@ == remaining(remaining_ms as int),
{
    let mut out = String::new();
    if remaining_ms <= 0 {
        out.append("expired");
        assert(out@ =~= "expired"@);
        return out;
    }
    let total: u64 = ((remaining_ms + 999) / 1000) as u64;
    let days: u64 = total / 86_400;
    let hours: u64 = total % 86_400 / 3_600;
    let minutes: u64 = total % 3_600 / 60;
    let seconds: u64 = total % 60;
    if days > 0 {
        text::push_decimal(&mut out, days);
        out.append("d ");
    }
    if days > 0 || hours > 0 {
        text::push_decimal(&mut out, hours);
        out.append("h ");
    }
    if days > 0 || hours > 0 || minutes > 0 {
        text::push_decimal(&mut out, minutes);
        out.append("m ");
    }
    text::push_decimal(&mut out, seconds);
    out.append("s");
    assert(out@ =~= written_span(total as nat));
    out
}

impl AdapterInfo {
    /// The details of this adapter: its gateway and its lease.
    pub fn connection_details(&self, now_ms: i64, lease: LeaseTimes) -> (r: String)
        ensures
            r@ == adapter_details(self@, now_ms as int, lease),
    {
        let mut out = String::new();
        out.append("Gateway: ");
        match &self.gateway {
            Some(g) => {
                out.append(g.as_str());
            },
            None => {
                out.append("not reported");
            },
        }
        match &self.dhcp_server {
            Some(server) => {
                out.append("\nDHCP: ");
                out.append(server.as_str());
                out.append("\nLease: ");
                push_lease_moment(&mut out, self.lease_obtained_ms, lease.obtained);
                out.append("\nto ");
                push_lease_moment(&mut out, self.lease_expires_ms, lease.expires);
                out.append("\nExpires in: ");
                match self.lease_expires_ms {
                    Some(expires) => {
                        let left = format_left(expires as i128 - now_ms as i128);
                        out.append(left.as_str());
                    },
                    None => {
                        out.append("unknown");
                    },
                }
            },
            None => {
                out.append("\nDHCP: not enabled");
            },
        }
        assert(out@ =~= adapter_details(self@, now_ms as int, lease));
        out
    }
}

impl Default for DeviceNetworkInfo {
    fn default() -> (r: Self)
        ensures
            r is Loading,
    {
        DeviceNetworkInfo::Loading
    }
}

impl DeviceNetworkInfo {
    /// The first adapter that is listed.
    pub open spec fn first(&self) -> Option<AdapterView> {
        match *self {
            DeviceNetworkInfo::Loaded(adapters) => if adapters@.len() > 0 {
                Some(adapters@[0]@)
            } else {
                None
            },
            _ => None,
        }
    }

    /// The address that is shown.
    pub open spec fn address_line(&self) -> Seq<char> {
        match (*self, self.first()) {
            (DeviceNetworkInfo::Loading, _) => "Loading..."@,
            (DeviceNetworkInfo::Error(_), _) => "Unavailable"@,
            (DeviceNetworkInfo::Loaded(_), None) => "No IPv4 address"@,
            (DeviceNetworkInfo::Loaded(_), Some(a)) => a.ip_address + "/"@ + text::decimal(
                a.subnet_prefix as nat,
            ),
        }
    }

    /// The name that is shown.
    pub open spec fn name_line(&self) -> Seq<char> {
        match self.first() {
            Some(a) => a.name,
            None => Seq::empty(),
        }
    }

    /// The details that are shown.
    pub open spec fn details_line(&self, now_ms: int, lease: LeaseTimes) -> Seq<char> {
        match (*self, self.first()) {
            (DeviceNetworkInfo::Loading, _) => "Loading network information..."@,
            (DeviceNetworkInfo::Error(message), _) => "Network information unavailable: "@
                + message@,
            (DeviceNetworkInfo::Loaded(_), None) => "No active adapter detected"@,
            (DeviceNetworkInfo::Loaded(_), Some(a)) => adapter_details(a, now_ms, lease),
        }
    }

    /// The address of the first adapter with its prefix, or why there is none.
    pub fn primary_address(&self) -> (r: String)
        ensures
            r@ == self.address_line(),
    {
        match self {
            DeviceNetworkInfo::Loading => "Loading...".to_owned(),
            DeviceNetworkInfo::Loaded(adapters) => {
                if adapters.len() > 0 {
                    let mut out = String::new();
                    out.append(adapters[0].ip_address.as_str());
                    out.append("/");
                    text::push_decimal(&mut out, adapters[0].subnet_prefix as u64);
                    assert(out@ =~= adapters@[0]@.ip_address + "/"@ + text::decimal(
                        adapters@[0]@.subnet_prefix as nat,
                    ));
                    out
                } else {
                    "No IPv4 address".to_owned()
                }
            },
            DeviceNetworkInfo::Error(_message) => "Unavailable".to_owned(),
        }
    }

    /// The name of the first adapter; empty where there is none.
    pub fn adapter_name(&self) -> (r: String)
        ensures
            r@ == self.name_line(),
    {
        match self {
            DeviceNetworkInfo::Loaded(adapters) => {
                if adapters.len() > 0 {
                    adapters[0].name.clone()
                } else {
                    String::new()
                }
            },
            _ => String::new(),
        }
    }

    /// The details of the first adapter, or why there are none. `lease` holds
    /// the local times of that adapter's lease.
    pub fn connection_details(&self, now_ms: i64, lease: LeaseTimes) -> (r: String)
        ensures
            r@ == self.details_line(now_ms as int, lease),
    {
        match self {
            DeviceNetworkInfo::Loading => "Loading network information...".to_owned(),
            DeviceNetworkInfo::Loaded(adapters) => {
                if adapters.len() > 0 {
                    adapters[0].connection_details(now_ms, lease)
                } else {
                    "No active adapter detected".to_owned()
                }
            },
            DeviceNetworkInfo::Error(message) => {
                let mut out = String::new();
                out.append("Network information unavailable: ");
                out.append(message.as_str());
                assert(out@ =~= "Network information unavailable: "@ + message@);
                out
            },
        }
    }
}

// ---------------------------------------------------------------------------
// Times
// ---------------------------------------------------------------------------
/// Seconds between the native epoch and the Unix epoch.
pub const WINDOWS_EPOCH_OFFSET_SECS: i64 = 11_644_473_600;

/// Division that rounds toward zero.
pub open spec fn toward_zero(a: int, b: int) -> int {
    if a >= 0 {
        a / b
    } else {
        -((-a) / b)
    }
}

/// A Unix time in ms as a native time: a count of ticks of 100 ns, in whole
/// seconds.
pub open spec fn ticks(timestamp_ms: int) -> int {
    (toward_zero(timestamp_ms, 1000) + WINDOWS_EPOCH_OFFSET_SECS) * 10_000_000
}

/// The low and high halves of the native time of a Unix time in ms; `None` where
/// the native form has no such time.
pub fn file_time(timestamp_ms: i64) -> (r: Option<(u32, u32)>)
    ensures
        r is Some <==> 0 <= ticks(timestamp_ms as int) <= u64::MAX,
        r matches Some(halves) ==> halves.1 * 0x1_0000_0000 + halves.0 == ticks(
            timestamp_ms as int,
        ),
{
    let ms: i128 = timestamp_ms as i128;
    let seconds: i128 = if ms >= 0 {
        ms / 1000
    } else {
        -((-ms) / 1000)
    };
    let count: i128 = (seconds + WINDOWS_EPOCH_OFFSET_SECS as i128) * 10_000_000;
    if count < 0 || count > u64::MAX as i128 {
        return None;
    }
    let count: u64 = count as u64;
    let low: u32 = (count % 0x1_0000_0000) as u32;
    let high: u32 = (count / 0x1_0000_0000) as u32;
    Some((low, high))
}

/// A positive Unix time in seconds as ms, held to the range; other values mean
/// that no time was given.
pub open spec fn lease_ms(seconds: i64) -> Option<i64> {
    if seconds <= 0 {
        None
    } else if seconds * 1000 > i64::MAX {
        Some(i64::MAX)
    } else {
        Some((seconds * 1000) as i64)
    }
}

/// A Unix time in seconds as ms.
pub fn unix_seconds_to_ms(value: i64) -> (r: Option<i64>)
    ensures
        r == lease_ms(value),
{
    if value <= 0 {
        None
    } else if value > i64::MAX / 1000 {
        Some(i64::MAX)
    } else {
        Some(value * 1000)
    }
}

// ---------------------------------------------------------------------------
// What the native calls report
// ---------------------------------------------------------------------------
/// An address as a native socket address holds it.
pub struct SocketAddress {
    pub family: u16,
    pub octets: [u8; 4],
}

/// One address of an adapter. There is no `address` where the native record was
/// absent or too short.
pub struct UnicastRow {
    pub address: Option<SocketAddress>,
    pub prefix_len: u8,
}

/// One adapter of the address list.
pub struct AdapterRow {
    pub up: bool,
    pub name: String,
    pub has_gateway: bool,
    pub gateway: Option<SocketAddress>,
    pub unicast: Vec<UnicastRow>,
}

/// One adapter of the DHCP list, with its texts and times as they are given.
pub struct DhcpRow {
    pub ip: String,
    pub dhcp_enabled: bool,
    pub server: String,
    pub lease_obtained: i64,
    pub lease_expires: i64,
}

/// The lease of an adapter.
pub struct DhcpInfo {
    pub server: Option<String>,
    pub obtained_ms: Option<i64>,
    pub expires_ms: Option<i64>,
}

/// What a lease says.
pub struct DhcpView {
    pub server: Option<Seq<char>>,
    pub obtained_ms: Option<i64>,
    pub expires_ms: Option<i64>,
}

impl View for DhcpInfo {
    type V = DhcpView;

    open spec fn view(&self) -> DhcpView {
        DhcpView {
            server: text::text_option(self.server),
            obtained_ms: self.obtained_ms,
            expires_ms: self.expires_ms,
        }
    }
}

/// The lease of each IP address.
pub type DhcpTable = NameMap<DhcpInfo>;

/// What the leases say.
pub open spec fn lease_views(table: Map<Seq<char>, DhcpInfo>) -> Map<Seq<char>, DhcpView> {
    table.map_values(|d: DhcpInfo| d@)
}

/// An address text that names an address.
pub open spec fn real_address(s: Seq<char>) -> Option<Seq<char>> {
    if s.len() > 0 && s != "0.0.0.0"@ {
        Some(s)
    } else {
        None
    }
}

/// The lease that a row gives; without DHCP there is none.
pub open spec fn lease_of(row: DhcpRow) -> DhcpView {
    if row.dhcp_enabled {
        DhcpView {
            server: real_address(row.server@),
            obtained_ms: lease_ms(row.lease_obtained),
            expires_ms: lease_ms(row.lease_expires),
        }
    } else {
        DhcpView { server: None, obtained_ms: None, expires_ms: None }
    }
}

/// The lease of each address that the rows give; of two rows for one address,
/// the later one.
pub open spec fn leases(rows: Seq<DhcpRow>) -> Map<Seq<char>, DhcpView>
    decreases rows.len(),
{
    if rows.len() == 0 {
        Map::empty()
    } else {
        let before = leases(rows.drop_last());
        match real_address(rows.last().ip@) {
            Some(ip) => before.insert(ip, lease_of(rows.last())),
            None => before,
        }
    }
}

/// Four octets with dots between them.
pub open spec fn dotted(octets: Seq<u8>) -> Seq<char> {
    text::decimal(octets[0] as nat) + "."@ + text::decimal(octets[1] as nat) + "."@ + text::decimal(
        octets[2] as nat,
    ) + "."@ + text::decimal(octets[3] as nat)
}

/// The IPv4 address that a socket address holds.
pub open spec fn ipv4_of(address: Option<SocketAddress>) -> Option<Seq<char>> {
    match address {
        Some(a) => if a.family == AF_INET {
            Some(dotted(a.octets@))
        } else {
            None
        },
        None => None,
    }
}

/// The position of the first IPv4 address, or the length of the list.
pub open spec fn first_ipv4(rows: Seq<UnicastRow>) -> nat
    decreases rows.len(),
{
    if rows.len() == 0 || ipv4_of(rows[0].address) is Some {
        0
    } else {
        1 + first_ipv4(rows.drop_first())
    }
}

/// The adapter that a row of the list makes: one that is up, has a gateway and
/// has an IPv4 address, of which the first is taken.
pub open spec fn adapter_of(
    row: AdapterRow,
    table: Map<Seq<char>, DhcpView>,
) -> Option<AdapterView> {
    let i = first_ipv4(row.unicast@) as int;
    if row.up && row.has_gateway && i < row.unicast@.len() {
        let ip = ipv4_of(row.unicast@[i].address)->0;
        let lease = if table.contains_key(ip) {
            table[ip]
        } else {
            DhcpView { server: None, obtained_ms: None, expires_ms: None }
        };
        Some(
            AdapterView {
                name: row.name@,
                ip_address: ip,
                subnet_prefix: row.unicast@[i].prefix_len as u32,
                gateway: ipv4_of(row.gateway),
                dhcp_server: lease.server,
                lease_obtained_ms: lease.obtained_ms,
                lease_expires_ms: lease.expires_ms,
            },
        )
    } else {
        None
    }
}

/// The adapters that the rows of the list make, in order.
pub open spec fn adapters_of(
    rows: Seq<AdapterRow>,
    table: Map<Seq<char>, DhcpView>,
) -> Seq<AdapterView>
    decreases rows.len(),
{
    if rows.len() == 0 {
        Seq::empty()
    } else {
        let before = adapters_of(rows.drop_last(), table);
        match adapter_of(rows.last(), table) {
            Some(a) => before.push(a),
            None => before,
        }
    }
}

/// An address text, where it names an address.
pub fn ip_addr_string(value: &str) -> (r: Option<String>)
    ensures
        text::text_option(r) == real_address(value@),
{
    if !value.is_empty() && !text::same_text(value, "0.0.0.0") {
        Some(value.to_owned())
    } else {
        None
    }
}

/// Whether a native socket address is long enough to hold an IPv4 address.
pub fn holds_ipv4(length: i32) -> (r: bool)
    ensures
        r == (length >= SOCKADDR_IN_LEN),
{
    length >= SOCKADDR_IN_LEN
}

/// The IPv4 address that a socket address holds.
pub fn socket_ipv4(address: &Option<SocketAddress>) -> (r: Option<String>)
    ensures
        text::text_option(r) == ipv4_of(*address),
{
    match address {
        Some(a) => {
            if a.family != AF_INET {
                return None;
            }
            let mut out = String::new();
            text::push_decimal(&mut out, a.octets[0] as u64);
            out.append(".");
            text::push_decimal(&mut out, a.octets[1] as u64);
            out.append(".");
            text::push_decimal(&mut out, a.octets[2] as u64);
            out.append(".");
            text::push_decimal(&mut out, a.octets[3] as u64);
            assert(out@ =~= dotted(a.octets@));
            Some(out)
        },
        None => None,
    }
}

/// The leases that the DHCP list gives.
pub fn query_dhcp_info(rows: &[DhcpRow]) -> (r: DhcpTable)
    ensures
        lease_views(r@) == leases(rows@),
{
    let mut table: DhcpTable = NameMap::new();
    let mut i: usize = 0;
    assert(rows@.take(0) =~= Seq::<DhcpRow>::empty());
    assert(lease_views(table@) =~= leases(rows@.take(0)));
    while i < rows.len()
        invariant
            i <= rows@.len(),
            lease_views(table@) == leases(rows@.take(i as int)),
        decreases rows@.len() - i,
    {
        assert(rows@.take(i + 1).drop_last() =~= rows@.take(i as int));
        let row = &rows[i];
        let details = if row.dhcp_enabled {
            DhcpInfo {
                server: ip_addr_string(row.server.as_str()),
                obtained_ms: unix_seconds_to_ms(row.lease_obtained),
                expires_ms: unix_seconds_to_ms(row.lease_expires),
            }
        } else {
            DhcpInfo { server: None, obtained_ms: None, expires_ms: None }
        };
        assert(details@ == lease_of(rows@[i as int]));
        match ip_addr_string(row.ip.as_str()) {
            Some(ip) => {
                let ghost before = table@;
                table.insert(ip, details);
                assert(lease_views(table@) =~= lease_views(before).insert(ip@, details@));
            },
            None => {},
        }
        i += 1;
    }
    assert(rows@.take(rows@.len() as int) =~= rows@);
    table
}

/// A copy of an optional text.
fn copy_option(s: &Option<String>) -> (r: Option<String>)
    ensures
        text::text_option(r) == text::text_option(*s),
{
    match s {
        Some(t) => Some(t.clone()),
        None => None,
    }
}

/// The adapter that one row makes.
fn adapter_from(row: &AdapterRow, dhcp: &DhcpTable) -> (r: Option<AdapterInfo>)
    ensures
        adapter_of(*row, lease_views(dhcp@)) == (match r {
            Some(a) => Some(a@),
            None => None,
        }),
{
    if !row.up || !row.has_gateway {
        return None;
    }
    let ghost table = lease_views(dhcp@);
    let mut i: usize = 0;
    assert(row.unicast@.skip(0) =~= row.unicast@);
    while i < row.unicast.len()
        invariant
            i <= row.unicast@.len(),
            row.up && row.has_gateway,
            table == lease_views(dhcp@),
            first_ipv4(row.unicast@) == i + first_ipv4(row.unicast@.skip(i as int)),
        decreases row.unicast@.len() - i,
    {
        let ghost rest = row.unicast@.skip(i as int);
        assert(rest[0] == row.unicast@[i as int]);
        assert(rest.drop_first() =~= row.unicast@.skip(i + 1));
        match socket_ipv4(&row.unicast[i].address) {
            Some(ip_address) => {
                assert(first_ipv4(row.unicast@) == i);
                assert(table.contains_key(ip_address@) == dhcp@.contains_key(ip_address@));
                let (server, obtained, expires) = match dhcp.get(ip_address.as_str()) {
                    Some(info) => (copy_option(&info.server), info.obtained_ms, info.expires_ms),
                    None => (None, None, None),
                };
                let info = AdapterInfo {
                    name: row.name.clone(),
                    ip_address,
                    subnet_prefix: row.unicast[i].prefix_len as u32,
                    gateway: socket_ipv4(&row.gateway),
                    dhcp_server: server,
                    lease_obtained_ms: obtained,
                    lease_expires_ms: expires,
                };
                return Some(info);
            },
            None => {},
        }
        i += 1;
    }
    None
}

/// The adapters that the address list gives, with their leases.
pub fn query_native(rows: &[AdapterRow], dhcp: &DhcpTable) -> (r: Vec<AdapterInfo>)
    ensures
        adapter_views(r@) == adapters_of(rows@, lease_views(dhcp@)),
{
    let mut out: Vec<AdapterInfo> = Vec::new();
    let ghost table = lease_views(dhcp@);
    let mut i: usize = 0;
    assert(rows@.take(0) =~= Seq::<AdapterRow>::empty());
    assert(adapter_views(out@) =~= adapters_of(rows@.take(0), table));
    while i < rows.len()
        invariant
            i <= rows@.len(),
            table == lease_views(dhcp@),
            adapter_views(out@) == adapters_of(rows@.take(i as int), table),
        decreases rows@.len() - i,
    {
        assert(rows@.take(i + 1).drop_last() =~= rows@.take(i as int));
        match adapter_from(&rows[i], dhcp) {
            Some(info) => {
                let ghost before = out@;
                out.push(info);
                assert(adapter_views(out@) =~= adapter_views(before).push(info@));
            },
            None => {},
        }
        i += 1;
    }
    assert(rows@.take(rows@.len() as int) =~= rows@);
    out
}

/// What is known of the device's network, given what the native calls reported
/// or why they failed.
pub fn query(native: Result<(Vec<DhcpRow>, Vec<AdapterRow>), String>) -> (r: DeviceNetworkInfo)
    ensures
        match native {
            Ok(lists) => r matches DeviceNetworkInfo::Loaded(adapters) && adapter_views(
                adapters@,
            ) == adapters_of(lists.1@, leases(lists.0@)),
            Err(message) => r == DeviceNetworkInfo::Error(message),
        },
{
    match native {
        Ok((dhcp_rows, rows)) => {
            let dhcp = query_dhcp_info(dhcp_rows.as_slice());
            DeviceNetworkInfo::Loaded(query_native(rows.as_slice(), &dhcp))
        },
        Err(error) => DeviceNetworkInfo::Error(error),
    }
}

/// What to do after an adapter query: its buffer holds the list, it is to be
/// made again with a larger one, or it failed.
pub enum AdaptersReply {
    Done,
    Again,
    Failed(String),
}

/// A message with the code of a native call that failed.
pub open spec fn failure(what: Seq<char>, code: u32) -> Seq<char> {
    what + text::decimal(code as nat)
}

/// A message with the code of a native call that failed.
fn failure_text(what: &str, code: u32) -> (r: String)
    ensures
        r@ == failure(what@, code),
{
    let mut out = String::new();
    out.append(what);
    text::push_decimal(&mut out, code as u64);
    assert(out@ =~= failure(what@, code));
    out
}

/// What to do after an adapter query that returned `code`.
pub fn adapters_reply(code: u32) -> (r: AdaptersReply)
    ensures
        match r {
            AdaptersReply::Done => code == NO_ERROR,
            AdaptersReply::Again => code == ERROR_BUFFER_OVERFLOW,
            AdaptersReply::Failed(message) => code != NO_ERROR && code != ERROR_BUFFER_OVERFLOW
                && message@ == failure("GetAdaptersAddresses failed with error "@, code),
        },
{
    if code == NO_ERROR {
        AdaptersReply::Done
    } else if code == ERROR_BUFFER_OVERFLOW {
        AdaptersReply::Again
    } else {
        AdaptersReply::Failed(failure_text("GetAdaptersAddresses failed with error ", code))
    }
}

/// Whether the DHCP query that asks for the buffer size, and returned `code`,
/// told it.
pub fn dhcp_size_reply(code: u32) -> (r: Result<(), String>)
    ensures
        r is Ok <==> code == ERROR_BUFFER_OVERFLOW,
        r matches Err(message) ==> message@ == failure(
            "GetAdaptersInfo sizing failed with error "@,
            code,
        ),
{
    if code == ERROR_BUFFER_OVERFLOW {
        Ok(())
    } else {
        Err(failure_text("GetAdaptersInfo sizing failed with error ", code))
    }
}

/// Whether the DHCP query that returned `code` filled its buffer.
pub fn dhcp_reply(code: u32) -> (r: Result<(), String>)
    ensures
        r is Ok <==> code == NO_ERROR,
        r matches Err(message) ==> message@ == failure(
            "GetAdaptersInfo failed with error "@,
            code,
        ),
{
    if code == NO_ERROR {
        Ok(())
    } else {
        Err(failure_text("GetAdaptersInfo failed with error ", code))
    }
}

// ---------------------------------------------------------------------------
// Laws
// ---------------------------------------------------------------------------
/// The units of a written span make up the whole of it, each within its range.
pub proof fn law_units_make_up_the_span(seconds: nat)
    ensures
        (seconds / 86_400) * 86_400 + (seconds % 86_400 / 3_600) * 3_600 + (seconds % 3_600 / 60)
            * 60 + seconds % 60 == seconds,
        seconds % 86_400 / 3_600 < 24,
        seconds % 3_600 / 60 < 60,
        seconds % 60 < 60,
{
}

/// An hour of the day is between 1 and 12 on a twelve-hour clock, and with its
/// half of the day it tells the hour.
pub proof fn law_twelve_hours(hour: nat)
    requires
        hour < 24,
    ensures
        1 <= twelve_hour(hour) <= 12,
        hour == twelve_hour(hour) % 12 + if hour < 12 {
            0nat
        } else {
            12nat
        },
{
}

/// Some row that is up and has a gateway makes the adapter.
pub open spec fn comes_from(
    rows: Seq<AdapterRow>,
    table: Map<Seq<char>, DhcpView>,
    a: AdapterView,
) -> bool {
    exists|j: int|
        0 <= j < rows.len() && (#[trigger] rows[j]).up && rows[j].has_gateway && adapter_of(
            rows[j],
            table,
        ) == Some(a)
}

/// Every adapter that is listed comes from one that is up, has a gateway and has
/// an IPv4 address.
pub proof fn law_only_active_adapters(rows: Seq<AdapterRow>, table: Map<Seq<char>, DhcpView>)
    ensures
        adapters_of(rows, table).len() <= rows.len(),
        forall|i: int|
            0 <= i < adapters_of(rows, table).len() ==> comes_from(
                rows,
                table,
                #[trigger] adapters_of(rows, table)[i],
            ),
    decreases rows.len(),
{
    if rows.len() > 0 {
        let shorter = rows.drop_last();
        let before = adapters_of(shorter, table);
        let all = adapters_of(rows, table);
        law_only_active_adapters(shorter, table);
        assert forall|i: int| 0 <= i < all.len() implies comes_from(
            rows,
            table,
            #[trigger] all[i],
        ) by {
            if i < before.len() {
                assert(all[i] == before[i]);
                assert(comes_from(shorter, table, before[i]));
                let j = choose|j: int|
                    0 <= j < shorter.len() && (#[trigger] shorter[j]).up && shorter[j].has_gateway
                        && adapter_of(shorter[j], table) == Some(before[i]);
                assert(rows[j] == shorter[j]);
            } else {
                assert(rows[rows.len() - 1] == rows.last());
            }
        }
    }
}

/// An adapter without DHCP has no lease to show, whatever the other fields of its
/// row hold.
pub proof fn law_no_lease_without_dhcp(row: DhcpRow)
    requires
        !row.dhcp_enabled,
    ensures
        lease_of(row).server is None,
        lease_of(row).obtained_ms is None,
        lease_of(row).expires_ms is None,
{
}

/// The time that is left is told in whole seconds, rounded up, and as expired once there
/// is none.
pub proof fn law_time_left_is_rounded_up(ms: int, seconds: nat)
    ensures
        ms <= 0 ==> remaining(ms) == "expired"@,
        seconds > 0 && (seconds - 1) * 1_000 < ms <= seconds * 1_000 ==> remaining(ms)
            == written_span(seconds),
{
    if seconds > 0 && (seconds - 1) * 1_000 < ms <= seconds * 1_000 {
        assert((ms + 999) / 1_000 == seconds);
    }
}

/// A span is told in days, hours, minutes and seconds, from the first of them that is not
/// zero on; the seconds are always told.
pub proof fn law_span_is_told_in_its_units(days: nat, hours: nat, minutes: nat, seconds: nat)
    requires
        hours < 24,
        minutes < 60,
        seconds < 60,
    ensures
        ({
            let written = written_span(((days * 24 + hours) * 60 + minutes) * 60 + seconds);
            let s = text::decimal(seconds) + "s"@;
            let m = text::decimal(minutes) + "m "@;
            let h = text::decimal(hours) + "h "@;
            let d = text::decimal(days) + "d "@;
            &&& days > 0 ==> written == d + h + m + s
            &&& days == 0 && hours > 0 ==> written == h + m + s
            &&& days == 0 && hours == 0 && minutes > 0 ==> written == m + s
            &&& days == 0 && hours == 0 && minutes == 0 ==> written == s
        }),
{
    let total = ((days * 24 + hours) * 60 + minutes) * 60 + seconds;
    assert(total == days * 86_400 + hours * 3_600 + minutes * 60 + seconds);
    assert(total / 86_400 == days);
    assert(total % 86_400 == hours * 3_600 + minutes * 60 + seconds);
    assert(total % 86_400 / 3_600 == hours);
    assert(total % 3_600 == minutes * 60 + seconds);
    assert(total % 3_600 / 60 == minutes);
    assert(total % 60 == seconds);
    let s = text::decimal(seconds) + "s"@;
    let m = text::decimal(minutes) + "m "@;
    let h = text::decimal(hours) + "h "@;
    let d = text::decimal(days) + "d "@;
    if days > 0 {
        assert(written_span(total) =~= d + h + m + s);
    } else if hours > 0 {
        assert(written_span(total) =~= h + m + s);
    } else if minutes > 0 {
        assert(written_span(total) =~= m + s);
    }
}

/// The twelve-hour clock: midnight and noon are 12, the hours up to noon are themselves,
/// and the later ones start over.
pub proof fn law_hours_of_the_clock(hour: nat)
    ensures
        twelve_hour(0) == 12,
        1 <= hour <= 12 ==> twelve_hour(hour) == hour,
        13 <= hour ==> twelve_hour(hour) + 12 == hour,
        hour < 12 ==> half_day(hour) == "AM"@,
        hour >= 12 ==> half_day(hour) == "PM"@,
{
}

/// A local time is told as month, day and year, and then as hour, minute and half of the
/// day. A moment that the lease does not name, or whose local time is not known, is told
/// as unknown.
pub proof fn law_local_time_is_told(t: LocalTime, at_ms: i64)
    ensures
        ({
            let date = text::decimal(t.month as nat) + "/"@ + text::decimal(t.day as nat) + "/"@
                + text::decimal(t.year as nat);
            let clock = text::decimal(twelve_hour(t.hour as nat)) + ":"@ + text::two_digits(
                t.minute as nat,
            ) + " "@ + half_day(t.hour as nat);
            written_time(t) == date + " "@ + clock
        }),
        lease_moment(Some(at_ms), Some(t)) == written_time(t),
        lease_moment(None, Some(t)) == "unknown"@,
        lease_moment(Some(at_ms), None) == "unknown"@,
{
    let date = text::decimal(t.month as nat) + "/"@ + text::decimal(t.day as nat) + "/"@
        + text::decimal(t.year as nat);
    let clock = text::decimal(twelve_hour(t.hour as nat)) + ":"@ + text::two_digits(
        t.minute as nat,
    ) + " "@ + half_day(t.hour as nat);
    assert(written_time(t) =~= date + " "@ + clock);
}

/// The details tell the gateway of the adapter, and of its lease the server, the moments
/// and the time that is left. An adapter without a DHCP server tells of no lease.
pub proof fn law_details_tell_gateway_and_lease(a: AdapterView, now_ms: int, lease: LeaseTimes)
    ensures
        ({
            let gateway = if a.gateway is Some {
                a.gateway->0
            } else {
                "not reported"@
            };
            let left = if a.lease_expires_ms is Some {
                remaining(a.lease_expires_ms->0 - now_ms)
            } else {
                "unknown"@
            };
            let told = adapter_details(a, now_ms, lease);
            &&& a.dhcp_server is None ==> told == "Gateway: "@ + gateway + "\nDHCP: not enabled"@
            &&& a.dhcp_server is Some ==> told == "Gateway: "@ + gateway + "\nDHCP: "@
                + a.dhcp_server->0 + "\nLease: "@ + lease_moment(
                a.lease_obtained_ms,
                lease.obtained,
            ) + "\nto "@ + lease_moment(a.lease_expires_ms, lease.expires) + "\nExpires in: "@
                + left
        }),
{
}

/// Division toward zero: the quotient of the sizes, with the sign of the dividend.
pub proof fn law_division_toward_zero(a: int, b: int)
    requires
        b > 0,
    ensures
        a >= 0 ==> toward_zero(a, b) * b <= a < (toward_zero(a, b) + 1) * b,
        a <= 0 ==> (toward_zero(a, b) - 1) * b < a <= toward_zero(a, b) * b,
{
    if a >= 0 {
        let q = a / b;
        assert(q * b <= a < (q + 1) * b) by (nonlinear_arith)
            requires
                q == a / b,
                b > 0,
                a >= 0,
        ;
        if a == 0 {
            assert(q == 0) by (nonlinear_arith)
                requires
                    q == a / b,
                    b > 0,
                    a == 0,
            ;
            assert((q - 1) * b < a <= q * b) by (nonlinear_arith)
                requires
                    q == 0,
                    a == 0,
                    b > 0,
            ;
        }
    } else {
        let c = -a;
        let q = c / b;
        assert(q * b <= c < (q + 1) * b) by (nonlinear_arith)
            requires
                q == c / b,
                b > 0,
                c > 0,
        ;
        assert(((-q) - 1) * b < -c <= (-q) * b) by (nonlinear_arith)
            requires
                q * b <= c < (q + 1) * b,
        ;
    }
}

/// A native time counts ticks of 100 ns from the year 1601: ten million for each second,
/// and those of the 11 644 473 600 seconds up to the Unix epoch besides.
pub proof fn law_native_time_counts_from_its_own_epoch(seconds: int)
    requires
        seconds >= 0,
    ensures
        ticks(0) == 116_444_736_000_000_000,
        ticks(seconds * 1_000) == ticks(0) + seconds * 10_000_000,
{
    assert(seconds * 1_000 / 1_000 == seconds);
}

/// A positive time in seconds is a thousand times as much in ms, or the largest time where
/// that is too much. Any other means that there is none.
pub proof fn law_lease_times_are_in_ms(seconds: i64)
    ensures
        seconds <= 0 ==> lease_ms(seconds) is None,
        0 < seconds <= 9_223_372_036_854_775 ==> lease_ms(seconds) is Some && lease_ms(seconds)->0
            == seconds * 1_000,
        seconds > 9_223_372_036_854_775 ==> lease_ms(seconds) == Some(i64::MAX),
{
}

/// Every address text names an address but the empty one and the one of zeros.
pub proof fn law_which_texts_name_an_address(s: Seq<char>)
    ensures
        s.len() > 0 && s != "0.0.0.0"@ ==> real_address(s) == Some(s),
        s.len() == 0 || s == "0.0.0.0"@ ==> real_address(s) is None,
{
}

/// Every row with an address is in the table of leases, under that address, and takes the
/// place of an earlier one. A row with DHCP gives its server and its times, and one without
/// gives none of them. Rows without an address change nothing.
pub proof fn law_every_lease_is_kept(rows: Seq<DhcpRow>, row: DhcpRow)
    ensures
        ({
            let before = leases(rows);
            let after = leases(rows.push(row));
            let ip = row.ip@;
            let lease = after[ip];
            &&& leases(Seq::empty()) == Map::<Seq<char>, DhcpView>::empty()
            &&& ip.len() == 0 || ip == "0.0.0.0"@ ==> after == before
            &&& ip.len() > 0 && ip != "0.0.0.0"@ ==> {
                &&& after == before.insert(ip, lease)
                &&& row.dhcp_enabled ==> lease.server == real_address(row.server@)
                    && lease.obtained_ms == lease_ms(row.lease_obtained) && lease.expires_ms
                    == lease_ms(row.lease_expires)
                &&& !row.dhcp_enabled ==> lease.server is None && lease.obtained_ms is None
                    && lease.expires_ms is None
            }
        }),
{
    assert(rows.push(row).drop_last() =~= rows);
    let ip = row.ip@;
    if ip.len() > 0 && ip != "0.0.0.0"@ {
        assert(leases(rows.push(row)) =~= leases(rows).insert(ip, lease_of(row)));
    }
}

/// An IPv4 address is told as its four octets with dots between them; an address of another
/// family, or none, is not told.
pub proof fn law_addresses_are_told_by_their_octets(a: SocketAddress)
    ensures
        a.family == 2 ==> ipv4_of(Some(a)) == Some(dotted(a.octets@)),
        a.family != 2 ==> ipv4_of(Some(a)) is None,
        ipv4_of(None) is None,
        crate::config::is_ipv4_text(dotted(a.octets@)),
        text::split(dotted(a.octets@), '.') == seq![
            text::decimal(a.octets@[0] as nat),
            text::decimal(a.octets@[1] as nat),
            text::decimal(a.octets@[2] as nat),
            text::decimal(a.octets@[3] as nat),
        ],
{
    let o = a.octets@;
    reveal_strlit(".");
    assert("."@ =~= seq!['.']);
    lemma_octet_text(o[0]);
    lemma_octet_text(o[1]);
    lemma_octet_text(o[2]);
    lemma_octet_text(o[3]);
    crate::config::law_four_octets_make_an_address(
        text::decimal(o[0] as nat),
        text::decimal(o[1] as nat),
        text::decimal(o[2] as nat),
        text::decimal(o[3] as nat),
    );
    assert(text::split(dotted(o), '.') =~= seq![
        text::decimal(o[0] as nat),
        text::decimal(o[1] as nat),
        text::decimal(o[2] as nat),
        text::decimal(o[3] as nat),
    ]);
}

/// A byte in decimal is an octet.
proof fn lemma_octet_text(n: u8)
    ensures
        text::is_octet(text::decimal(n as nat)),
{
    text::lemma_decimal_round_trip(n as nat);
    let s = text::decimal(n as nat);
    assert(text::is_digit(s[0]));
}

/// An adapter is listed exactly when it is up, has a gateway and has an IPv4 address. It is
/// listed under its name with the first of those addresses, the prefix of that one, its
/// gateway where that is an IPv4 address, and the lease of the address where there is one.
pub proof fn law_which_adapters_are_listed(
    row: AdapterRow,
    table: Map<Seq<char>, DhcpView>,
    i: int,
)
    requires
        0 <= i <= row.unicast@.len(),
        forall|j: int| 0 <= j < i ==> ipv4_of((#[trigger] row.unicast@[j]).address) is None,
        i < row.unicast@.len() ==> ipv4_of(row.unicast@[i].address) is Some,
    ensures
        adapter_of(row, table) is Some <==> row.up && row.has_gateway && i < row.unicast@.len(),
        adapter_of(row, table) matches Some(a) ==> {
            let ip = ipv4_of(row.unicast@[i].address)->0;
            &&& a.name == row.name@
            &&& a.ip_address == ip
            &&& a.subnet_prefix == row.unicast@[i].prefix_len
            &&& a.gateway == ipv4_of(row.gateway)
            &&& table.dom().contains(ip) ==> a.dhcp_server == table[ip].server
                && a.lease_obtained_ms == table[ip].obtained_ms && a.lease_expires_ms
                == table[ip].expires_ms
            &&& !table.dom().contains(ip) ==> a.dhcp_server is None && a.lease_obtained_ms is None
                && a.lease_expires_ms is None
        },
{
    lemma_first_ipv4(row.unicast@, i as nat);
}

/// The first IPv4 address is the one before which there is none.
proof fn lemma_first_ipv4(rows: Seq<UnicastRow>, n: nat)
    requires
        n <= rows.len(),
        forall|j: int| 0 <= j < n ==> ipv4_of((#[trigger] rows[j]).address) is None,
        n < rows.len() ==> ipv4_of(rows[n as int].address) is Some,
    ensures
        first_ipv4(rows) == n,
    decreases rows.len(),
{
    if n > 0 {
        assert(ipv4_of(rows[0].address) is None);
        let rest = rows.drop_first();
        assert forall|j: int| 0 <= j < n - 1 implies ipv4_of((#[trigger] rest[j]).address)
            is None by {
            assert(rest[j] == rows[j + 1]);
        }
        if n < rows.len() {
            assert(rest[n - 1] == rows[n as int]);
        }
        lemma_first_ipv4(rest, (n - 1) as nat);
    }
}

/// Adapters are listed in the order in which they are reported: one more at the end adds
/// itself at the end where it is listed, and changes no other.
pub proof fn law_adapters_are_listed_in_order(
    rows: Seq<AdapterRow>,
    row: AdapterRow,
    table: Map<Seq<char>, DhcpView>,
)
    ensures
        adapters_of(Seq::empty(), table).len() == 0,
        adapter_of(row, table) is Some ==> adapters_of(rows.push(row), table) == adapters_of(
            rows,
            table,
        ).push(adapter_of(row, table)->0),
        adapter_of(row, table) is None ==> adapters_of(rows.push(row), table) == adapters_of(
            rows,
            table,
        ),
{
    assert(rows.push(row).drop_last() =~= rows);
}

/// The device card tells the first adapter that is listed: its address with the prefix, its
/// name and its details. Until the adapters are known, where there are none and where they
/// could not be read, it says so.
pub proof fn law_card_tells_the_first_adapter(
    info: DeviceNetworkInfo,
    now_ms: int,
    lease: LeaseTimes,
)
    ensures
        info is Loading ==> info.address_line() == "Loading..."@ && info.details_line(now_ms, lease)
            == "Loading network information..."@ && info.name_line().len() == 0,
        info matches DeviceNetworkInfo::Error(message) ==> info.address_line() == "Unavailable"@
            && info.details_line(now_ms, lease) == "Network information unavailable: "@ + message@
            && info.name_line().len() == 0,
        info matches DeviceNetworkInfo::Loaded(list) ==> {
            &&& list@.len() == 0 ==> info.address_line() == "No IPv4 address"@ && info.details_line(
                now_ms,
                lease,
            ) == "No active adapter detected"@ && info.name_line().len() == 0
            &&& list@.len() > 0 ==> {
                let a = list@[0]@;
                &&& info.address_line() == a.ip_address + "/"@ + text::decimal(
                    a.subnet_prefix as nat,
                )
                &&& info.name_line() == a.name
                &&& info.details_line(now_ms, lease) == adapter_details(a, now_ms, lease)
            }
        },
{
}

/// The native codes that the replies go by.
pub proof fn law_native_codes()
    ensures
        NO_ERROR == 0,
        ERROR_BUFFER_OVERFLOW == 111,
        AF_INET == 2,
        SOCKADDR_IN_LEN == 16,
{
}

/// A list of adapters says each of them, in order, and a table of leases the lease of each
/// address that it holds.
pub proof fn law_lists_say_what_they_hold(
    adapters: Seq<AdapterInfo>,
    table: Map<Seq<char>, DhcpInfo>,
    i: int,
    ip: Seq<char>,
)
    ensures
        adapter_views(adapters).len() == adapters.len(),
        0 <= i < adapters.len() ==> {
            let a = adapter_views(adapters)[i];
            &&& a.name == adapters[i].name@
            &&& a.ip_address == adapters[i].ip_address@
            &&& a.subnet_prefix == adapters[i].subnet_prefix
            &&& a.gateway == text::text_option(adapters[i].gateway)
            &&& a.dhcp_server == text::text_option(adapters[i].dhcp_server)
            &&& a.lease_obtained_ms == adapters[i].lease_obtained_ms
            &&& a.lease_expires_ms == adapters[i].lease_expires_ms
        },
        lease_views(table).dom() == table.dom(),
        table.dom().contains(ip) ==> {
            let lease = lease_views(table)[ip];
            &&& lease.server == text::text_option(table[ip].server)
            &&& lease.obtained_ms == table[ip].obtained_ms
            &&& lease.expires_ms == table[ip].expires_ms
        },
{
    assert(lease_views(table).dom() =~= table.dom());
}

} // verus!
