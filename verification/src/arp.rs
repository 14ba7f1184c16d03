//! MAC addresses and the ARP table: how an address is written, what the table
//! says, and how pinned targets follow it.

use vstd::prelude::*;
use crate::config;
use crate::config::Target;
use crate::config::TargetView;
use crate::names::NameMap;
use crate::text;

verus! {

/// The IP of each MAC address, in normal form, that the ARP table holds.
pub type ArpTable = NameMap<String>;

/// A hexadecimal digit in lower case.
pub open spec fn lower(c: char) -> char {
    if 'A' <= c <= 'F' {
        (c as u32 + 32) as char
    } else {
        c
    }
}

/// A hexadecimal digit in upper case.
pub open spec fn upper(c: char) -> char {
    if 'a' <= c <= 'f' {
        (c as u32 - 32) as char
    } else {
        c
    }
}

/// The normal form of a MAC address: its hexadecimal digits, in lower case.
pub open spec fn normal_mac(s: Seq<char>) -> Seq<char>
    decreases s.len(),
{
    if s.len() == 0 {
        Seq::empty()
    } else if text::is_hex_digit(s.last()) {
        normal_mac(s.drop_last()).push(lower(s.last()))
    } else {
        normal_mac(s.drop_last())
    }
}

/// A text in pairs of characters with dashes between them.
pub open spec fn dashed(s: Seq<char>) -> Seq<char>
    decreases s.len(),
{
    if s.len() <= 2 {
        s
    } else {
        s.take(2).push('-') + dashed(s.skip(2))
    }
}

/// The printed form of a MAC address: its digits in upper case, in pairs with
/// dashes between them.
pub open spec fn printed_mac(s: Seq<char>) -> Seq<char> {
    dashed(normal_mac(s).map_values(|c: char| upper(c)))
}

/// A MAC address: twelve hexadecimal digits, with a separator somewhere.
pub open spec fn is_mac_text(s: Seq<char>) -> bool {
    (s.contains('-') || s.contains(':')) && normal_mac(s).len() == 12
}

/// The upper case of a hexadecimal digit.
fn upper_char(c: char) -> (r: char)
    requires
        text::is_hex_digit(c),
    ensures
        r == upper(c),
{
    if 'a' <= c && c <= 'f' {
        (c as u8 - 32) as char
    } else {
        c
    }
}

/// The lower case of a hexadecimal digit.
fn lower_char(c: char) -> (r: char)
    requires
        text::is_hex_digit(c),
    ensures
        r == lower(c),
{
    if 'A' <= c && c <= 'F' {
        (c as u8 + 32) as char
    } else {
        c
    }
}

/// The normal form of a MAC address is made of lower-case hexadecimal digits.
pub proof fn lemma_normal_mac_digits(s: Seq<char>)
    ensures
        forall|i: int|
            0 <= i < normal_mac(s).len() ==> text::is_hex_digit(#[trigger] normal_mac(s)[i])
                && lower(normal_mac(s)[i]) == normal_mac(s)[i],
    decreases s.len(),
{
    if s.len() > 0 {
        let before = normal_mac(s.drop_last());
        lemma_normal_mac_digits(s.drop_last());
        assert forall|i: int| 0 <= i < normal_mac(s).len() implies text::is_hex_digit(
            #[trigger] normal_mac(s)[i],
        ) && lower(normal_mac(s)[i]) == normal_mac(s)[i] by {
            if i < before.len() {
                assert(normal_mac(s)[i] == before[i]);
            } else {
                assert(normal_mac(s)[i] == lower(s.last()));
            }
        }
    }
}

/// The normal form of a run of characters.
fn normal_chars(s: &[char]) -> (r: Vec<char>)
    ensures
        r@ == normal_mac(s@),
{
    let mut out: Vec<char> = Vec::new();
    let mut i: usize = 0;
    assert(s@.take(0) =~= Seq::<char>::empty());
    while i < s.len()
        invariant
            i <= s@.len(),
            out@ == normal_mac(s@.take(i as int)),
        decreases s@.len() - i,
    {
        assert(s@.take(i + 1).drop_last() =~= s@.take(i as int));
        if text::hex_char(s[i]) {
            out.push(lower_char(s[i]));
        }
        i += 1;
    }
    assert(s@.take(s@.len() as int) =~= s@);
    out
}

/// The normal form of a MAC address: its hexadecimal digits, in lower case.
pub fn norm_mac(s: &str) -> (r: String)
    ensures
        r@ == normal_mac(s@),
{
    let chars = text::chars_of(s);
    let out = normal_chars(chars.as_slice());
    text::text_of(out.as_slice())
}

/// Dashes go before every even position but the first.
proof fn lemma_dashed_step(s: Seq<char>, n: int)
    requires
        0 <= n < s.len(),
    ensures
        dashed(s.take(n + 1)) == (if n > 0 && n % 2 == 0 {
            dashed(s.take(n)).push('-').push(s[n])
        } else {
            dashed(s.take(n)).push(s[n])
        }),
    decreases n,
{
    if n < 2 {
        assert(s.take(n + 1) =~= s.take(n).push(s[n]));
    } else if n == 2 {
        reveal_with_fuel(dashed, 2);
        assert(s.take(3).take(2) =~= s.take(2));
        assert(s.take(3).skip(2) =~= seq![s[2]]);
        assert(dashed(s.take(3)) =~= s.take(2).push('-').push(s[2]));
    } else {
        let rest = s.skip(2);
        lemma_dashed_step(rest, n - 2);
        assert(s.take(n + 1).take(2) =~= s.take(2));
        assert(s.take(n).take(2) =~= s.take(2));
        assert(s.take(n + 1).skip(2) =~= rest.take(n - 1));
        assert(s.take(n).skip(2) =~= rest.take(n - 2));
        assert(rest[n - 2] == s[n]);
        let head = s.take(2).push('-');
        if n % 2 == 0 {
            assert(head + dashed(rest.take(n - 2)).push('-').push(s[n]) =~= (head + dashed(
                rest.take(n - 2),
            )).push('-').push(s[n]));
        } else {
            assert(head + dashed(rest.take(n - 2)).push(s[n]) =~= (head + dashed(
                rest.take(n - 2),
            )).push(s[n]));
        }
    }
}

/// A MAC address in upper-case pairs with dashes between them, as in
/// `0C-EF-15-C1-57-90`.
pub fn fmt_mac(s: &str) -> (r: String)
    ensures
        r@ == printed_mac(s@),
{
    let chars = text::chars_of(s);
    let hex = normal_chars(chars.as_slice());
    let mut out = String::new();
    let mut i: usize = 0;
    let ghost capital = normal_mac(s@).map_values(|c: char| upper(c));
    proof {
        lemma_normal_mac_digits(s@);
        assert(capital.take(0) =~= Seq::<char>::empty());
    }
    while i < hex.len()
        invariant
            i <= hex@.len(),
            hex@ == normal_mac(s@),
            capital == hex@.map_values(|c: char| upper(c)),
            forall|j: int| 0 <= j < hex@.len() ==> text::is_hex_digit(#[trigger] hex@[j]),
            out@ == dashed(capital.take(i as int)),
        decreases hex@.len() - i,
    {
        proof {
            lemma_dashed_step(capital, i as int);
            assert(capital[i as int] == upper(hex@[i as int]));
        }
        if i > 0 && i % 2 == 0 {
            out.push('-');
        }
        out.push(upper_char(hex[i]));
        i += 1;
    }
    assert(capital.take(capital.len() as int) =~= capital);
    out
}

/// Whether a run of characters is a MAC address.
fn is_mac_chars(s: &[char]) -> (r: bool)
    ensures
        r == is_mac_text(s@),
{
    let separated = text::has_char(s, '-') || text::has_char(s, ':');
    let hex = normal_chars(s);
    separated && hex.len() == 12
}

/// Whether a text is a MAC address.
pub fn is_mac(s: &str) -> (r: bool)
    ensures
        r == is_mac_text(s@),
{
    let chars = text::chars_of(s);
    is_mac_chars(chars.as_slice())
}

// ---------------------------------------------------------------------------
// The table that `arp -a` prints
// ---------------------------------------------------------------------------
/// The MAC address that a line gives for the IP, printed.
pub open spec fn mac_on(line: Seq<char>, ip: Seq<char>) -> Option<Seq<char>> {
    let tokens = text::words(line);
    if tokens.len() >= 2 && tokens[0] == ip && is_mac_text(tokens[1]) {
        Some(printed_mac(tokens[1]))
    } else {
        None
    }
}

/// The MAC address that the first line to name the IP gives.
pub open spec fn first_mac(lines: Seq<Seq<char>>, ip: Seq<char>) -> Option<Seq<char>>
    decreases lines.len(),
{
    if lines.len() == 0 {
        None
    } else if mac_on(lines[0], ip) is Some {
        mac_on(lines[0], ip)
    } else {
        first_mac(lines.drop_first(), ip)
    }
}

/// The MAC address of an IP, in what `arp -a` printed.
pub open spec fn mac_of(ip: Seq<char>, arp_output: Seq<char>) -> Option<Seq<char>> {
    if config::is_ipv4_text(ip) {
        first_mac(text::lines(arp_output), ip)
    } else {
        None
    }
}

/// The MAC address of an IP, read from what `arp -a` printed; `None` where the
/// text is no IPv4 address or the table does not hold it.
pub fn resolve_mac_for_ip(ip: &str, arp_output: &str) -> (r: Option<String>)
    ensures
        text::text_option(r) == mac_of(ip@, arp_output@),
{
    if !config::is_ipv4(ip) {
        return None;
    }
    let wanted = text::chars_of(ip);
    let lines = text::lines_of(arp_output);
    let ghost all = text::lines(arp_output@);
    let mut i: usize = 0;
    assert(all.skip(0) =~= all);
    assert(text::pieces(lines@).len() == lines@.len());
    while i < lines.len()
        invariant
            i <= lines@.len(),
            wanted@ == ip@,
            all == text::pieces(lines@),
            all == text::lines(arp_output@),
            config::is_ipv4_text(ip@),
            first_mac(all, ip@) == first_mac(all.skip(i as int), ip@),
        decreases lines@.len() - i,
    {
        proof {
            assert(all[i as int] == lines@[i as int]@);
            assert(all.skip(i as int)[0] == all[i as int]);
            assert(all.skip(i as int).drop_first() =~= all.skip(i + 1));
        }
        let tokens = text::words_of(lines[i].as_slice());
        proof {
            let spec_tokens = text::words(all[i as int]);
            assert(spec_tokens == text::pieces(tokens@));
            assert(spec_tokens.len() == tokens@.len());
            if tokens@.len() >= 2 {
                assert(spec_tokens[0] == tokens@[0]@);
                assert(spec_tokens[1] == tokens@[1]@);
            }
        }
        if tokens.len() >= 2 && text::same_chars(tokens[0].as_slice(), wanted.as_slice())
            && is_mac_chars(tokens[1].as_slice()) {
            let mac = text::text_of(tokens[1].as_slice());
            return Some(fmt_mac(mac.as_str()));
        }
        i += 1;
    }
    assert(all.skip(all.len() as int).len() == 0);
    None
}

/// A line of the table that gives an IPv4 address and its MAC address.
pub open spec fn is_entry(line: Seq<char>) -> bool {
    let tokens = text::words(line);
    tokens.len() >= 2 && config::is_ipv4_text(tokens[0]) && is_mac_text(tokens[1])
}

/// The IP of each MAC address that the lines give; of two lines for one MAC
/// address, the later one.
pub open spec fn arp_entries(lines: Seq<Seq<char>>) -> Map<Seq<char>, Seq<char>>
    decreases lines.len(),
{
    if lines.len() == 0 {
        Map::empty()
    } else {
        let before = arp_entries(lines.drop_last());
        if is_entry(lines.last()) {
            let tokens = text::words(lines.last());
            before.insert(normal_mac(tokens[1]), tokens[0])
        } else {
            before
        }
    }
}

/// What a table says.
pub open spec fn table_view(table: Map<Seq<char>, String>) -> Map<Seq<char>, Seq<char>> {
    table.map_values(|ip: String| ip@)
}

/// Reads the table that `arp -a` printed.
pub fn read_arp_table(arp_output: &str) -> (r: ArpTable)
    ensures
        table_view(r@) == arp_entries(text::lines(arp_output@)),
{
    let mut table: ArpTable = NameMap::new();
    let lines = text::lines_of(arp_output);
    let ghost all = text::lines(arp_output@);
    let mut i: usize = 0;
    assert(text::pieces(lines@).len() == lines@.len());
    assert(all.take(0) =~= Seq::<Seq<char>>::empty());
    assert(table_view(table@) =~= arp_entries(all.take(0)));
    while i < lines.len()
        invariant
            i <= lines@.len(),
            all == text::pieces(lines@),
            table_view(table@) == arp_entries(all.take(i as int)),
        decreases lines@.len() - i,
    {
        let tokens = text::words_of(lines[i].as_slice());
        proof {
            assert(all[i as int] == lines@[i as int]@);
            assert(all.take(i + 1).drop_last() =~= all.take(i as int));
            assert(all.take(i + 1).last() == all[i as int]);
            let spec_tokens = text::words(all[i as int]);
            assert(spec_tokens == text::pieces(tokens@));
            assert(spec_tokens.len() == tokens@.len());
            if tokens@.len() >= 2 {
                assert(spec_tokens[0] == tokens@[0]@);
                assert(spec_tokens[1] == tokens@[1]@);
            }
        }
        if tokens.len() >= 2 && config::is_ipv4_chars(tokens[0].as_slice()) && is_mac_chars(
            tokens[1].as_slice(),
        ) {
            let hex = normal_chars(tokens[1].as_slice());
            let mac = text::text_of(hex.as_slice());
            let ip = text::text_of(tokens[0].as_slice());
            let ghost before = table@;
            table.insert(mac, ip);
            assert(table_view(table@) =~= table_view(before).insert(mac@, ip@));
        }
        i += 1;
    }
    assert(all.take(all.len() as int) =~= all);
    table
}

// ---------------------------------------------------------------------------
// Pinned targets
// ---------------------------------------------------------------------------
/// Some target is pinned to a MAC address.
pub open spec fn any_pinned(targets: Seq<TargetView>) -> bool {
    exists|i: int| 0 <= i < targets.len() && (#[trigger] targets[i]).mac is Some
}

/// Some target is pinned to a MAC address that the table does not hold.
pub open spec fn any_missing(
    targets: Seq<TargetView>,
    table: Map<Seq<char>, Seq<char>>,
) -> bool {
    exists|i: int|
        0 <= i < targets.len() && (#[trigger] targets[i]).mac is Some && !table.contains_key(
            normal_mac(targets[i].mac->0),
        )
}

/// The first target address on a 192.168 network.
pub open spec fn first_lan_ip(targets: Seq<TargetView>) -> Option<Seq<char>>
    decreases targets.len(),
{
    if targets.len() == 0 {
        None
    } else if text::occurs_at(targets[0].ip, "192.168."@, 0) {
        Some(targets[0].ip)
    } else {
        first_lan_ip(targets.drop_first())
    }
}

/// A target as the table leaves it: one that is pinned to a MAC address of the
/// table has the IP given there.
pub open spec fn followed(t: TargetView, table: Map<Seq<char>, Seq<char>>) -> TargetView {
    match t.mac {
        Some(mac) => if table.contains_key(normal_mac(mac)) {
            TargetView { ip: table[normal_mac(mac)], ..t }
        } else {
            t
        },
        None => t,
    }
}

/// Whether any target is pinned to a MAC address. Where none is, the table need
/// not be read.
pub fn has_pinned(targets: &[Target]) -> (r: bool)
    ensures
        r == any_pinned(config::views(targets@)),
{
    let ghost all = config::views(targets@);
    let mut i: usize = 0;
    while i < targets.len()
        invariant
            i <= targets@.len(),
            all == config::views(targets@),
            forall|j: int| 0 <= j < i ==> (#[trigger] all[j]).mac is None,
        decreases targets@.len() - i,
    {
        assert(all[i as int] == targets@[i as int]@);
        if targets[i].mac.is_some() {
            return true;
        }
        i += 1;
    }
    false
}

/// The address around which to look for pinned targets that the table does not
/// hold: that of the first target on a 192.168 network. `None` where none is
/// missing or no target is on such a network.
pub fn sweep_from(targets: &[Target], table: &ArpTable) -> (r: Option<String>)
    ensures
        text::text_option(r) == (if any_missing(config::views(targets@), table_view(table@)) {
            first_lan_ip(config::views(targets@))
        } else {
            None
        }),
{
    let ghost all = config::views(targets@);
    let ghost entries = table_view(table@);
    let mut missing = false;
    let mut i: usize = 0;
    while i < targets.len() && !missing
        invariant
            i <= targets@.len(),
            all == config::views(targets@),
            entries == table_view(table@),
            missing ==> any_missing(all, entries),
            !missing ==> forall|j: int|
                0 <= j < i ==> ((#[trigger] all[j]).mac is Some ==> entries.contains_key(
                    normal_mac(all[j].mac->0),
                )),
        decreases targets@.len() - i,
    {
        assert(all[i as int] == targets@[i as int]@);
        match &targets[i].mac {
            Some(mac) => {
                let hex = norm_mac(mac.as_str());
                assert(entries.contains_key(hex@) == table@.contains_key(hex@));
                if !table.contains_key(hex.as_str()) {
                    missing = true;
                }
            },
            None => {},
        }
        i += 1;
    }
    if !missing {
        return None;
    }
    let mut k: usize = 0;
    assert(all.skip(0) =~= all);
    while k < targets.len()
        invariant
            k <= targets@.len(),
            all == config::views(targets@),
            entries == table_view(table@),
            any_missing(all, entries),
            first_lan_ip(all) == first_lan_ip(all.skip(k as int)),
        decreases targets@.len() - k,
    {
        proof {
            assert(all[k as int] == targets@[k as int]@);
            assert(all.skip(k as int)[0] == all[k as int]);
            assert(all.skip(k as int).drop_first() =~= all.skip(k + 1));
        }
        if text::begins_with(targets[k].ip.as_str(), "192.168.") {
            return Some(targets[k].ip.clone());
        }
        k += 1;
    }
    assert(all.skip(all.len() as int).len() == 0);
    None
}

/// Points every target that is pinned to a MAC address of the table at the IP
/// given there.
pub fn follow_arp(targets: &mut Vec<Target>, table: &ArpTable)
    ensures
        config::views(final(targets)@) == config::views(old(targets)@).map_values(
            |t: TargetView| followed(t, table_view(table@)),
        ),
{
    let ghost before = config::views(targets@);
    let ghost entries = table_view(table@);
    let mut i: usize = 0;
    while i < targets.len()
        invariant
            i <= targets@.len(),
            before == config::views(old(targets)@),
            entries == table_view(table@),
            targets@.len() == before.len(),
            forall|j: int|
                0 <= j < i ==> (#[trigger] targets@[j])@ == followed(before[j], entries),
            forall|j: int| i <= j < before.len() ==> (#[trigger] targets@[j])@ == before[j],
        decreases targets@.len() - i,
    {
        let found = match &targets[i].mac {
            Some(mac) => {
                let hex = norm_mac(mac.as_str());
                assert(entries.contains_key(hex@) == table@.contains_key(hex@));
                match table.get(hex.as_str()) {
                    Some(ip) => Some(ip.clone()),
                    None => None,
                }
            },
            None => None,
        };
        match found {
            Some(ip) => {
                let mut t = targets[i].clone();
                t.ip = ip;
                targets.set(i, t);
            },
            None => {},
        }
        i += 1;
    }
    assert(config::views(targets@) =~= before.map_values(
        |t: TargetView| followed(t, entries),
    ));
}

// ---------------------------------------------------------------------------
// Laws
// ---------------------------------------------------------------------------
/// The normal form of a concatenation is that of the parts.
proof fn lemma_normal_mac_concat(a: Seq<char>, b: Seq<char>)
    ensures
        normal_mac(a + b) == normal_mac(a) + normal_mac(b),
    decreases b.len(),
{
    if b.len() == 0 {
        assert(a + b =~= a);
        assert(normal_mac(a) + normal_mac(b) =~= normal_mac(a));
    } else {
        lemma_normal_mac_concat(a, b.drop_last());
        assert((a + b).drop_last() =~= a + b.drop_last());
        assert(normal_mac(a + b) =~= normal_mac(a) + normal_mac(b));
    }
}

/// Upper case and back: digits keep their normal form.
proof fn lemma_normal_mac_of_upper(s: Seq<char>)
    requires
        forall|i: int|
            0 <= i < s.len() ==> text::is_hex_digit(#[trigger] s[i]) && lower(s[i]) == s[i],
    ensures
        normal_mac(s.map_values(|c: char| upper(c))) == s,
        normal_mac(s) == s,
    decreases s.len(),
{
    let u = s.map_values(|c: char| upper(c));
    if s.len() > 0 {
        let shorter = s.drop_last();
        lemma_normal_mac_of_upper(shorter);
        assert(u.drop_last() =~= shorter.map_values(|c: char| upper(c)));
        assert(shorter.push(s.last()) =~= s);
        let c = s.last();
        assert(text::is_hex_digit(c) && lower(c) == c);
        assert(u.last() == upper(c));
        assert(text::is_hex_digit(upper(c)));
        assert(lower(upper(c)) == c);
    } else {
        assert(normal_mac(u) =~= s);
    }
}

/// Dashes do not change the normal form.
proof fn lemma_normal_mac_of_dashed(s: Seq<char>)
    ensures
        normal_mac(dashed(s)) == normal_mac(s),
    decreases s.len(),
{
    if s.len() > 2 {
        lemma_normal_mac_of_dashed(s.skip(2));
        let head = s.take(2);
        lemma_normal_mac_concat(head.push('-'), dashed(s.skip(2)));
        lemma_normal_mac_concat(head, s.skip(2));
        assert(head.push('-').drop_last() =~= head);
        assert(!text::is_hex_digit('-'));
        assert(head + s.skip(2) =~= s);
    }
}

/// Normal form is a normal form, and a printed address has the same one as the
/// address it prints.
pub proof fn law_one_normal_form(s: Seq<char>)
    ensures
        normal_mac(normal_mac(s)) == normal_mac(s),
        normal_mac(printed_mac(s)) == normal_mac(s),
{
    lemma_normal_mac_digits(s);
    lemma_normal_mac_of_upper(normal_mac(s));
    lemma_normal_mac_of_dashed(normal_mac(s).map_values(|c: char| upper(c)));
}

/// Printing a MAC address gives a MAC address, and printing it again gives the
/// same text.
pub proof fn law_printed_is_a_mac(s: Seq<char>)
    requires
        is_mac_text(s),
    ensures
        is_mac_text(printed_mac(s)),
        printed_mac(printed_mac(s)) == printed_mac(s),
{
    law_one_normal_form(s);
    let capital = normal_mac(s).map_values(|c: char| upper(c));
    assert(capital.len() == 12);
    assert(printed_mac(s)[2] == '-');
}

/// What is looked up for an IP is a MAC address, in its printed form.
pub proof fn law_resolved_is_a_mac(lines: Seq<Seq<char>>, ip: Seq<char>)
    ensures
        first_mac(lines, ip) matches Some(mac) ==> is_mac_text(mac) && printed_mac(mac) == mac,
    decreases lines.len(),
{
    if lines.len() > 0 {
        if mac_on(lines[0], ip) is Some {
            law_printed_is_a_mac(text::words(lines[0])[1]);
        } else {
            law_resolved_is_a_mac(lines.drop_first(), ip);
        }
    }
}

/// The table gives IPv4 addresses, and only for MAC addresses in normal form: a
/// pinned target that follows it is always pointed at an IPv4 address.
pub proof fn law_table_gives_addresses(lines: Seq<Seq<char>>, mac: Seq<char>)
    requires
        arp_entries(lines).contains_key(mac),
    ensures
        config::is_ipv4_text(arp_entries(lines)[mac]),
        mac.len() == 12,
        normal_mac(mac) == mac,
    decreases lines.len(),
{
    let tokens = text::words(lines.last());
    if is_entry(lines.last()) && normal_mac(tokens[1]) == mac {
        law_one_normal_form(tokens[1]);
    } else {
        law_table_gives_addresses(lines.drop_last(), mac);
    }
}

/// Following the table changes nothing of a target but its IP, and nothing at
/// all of a target that is not pinned or not in the table. Following it again
/// changes nothing more.
pub proof fn law_follow_changes_only_the_ip(t: TargetView, table: Map<Seq<char>, Seq<char>>)
    ensures
        followed(t, table).name == t.name,
        followed(t, table).mac == t.mac,
        t.mac is None ==> followed(t, table) == t,
        t.mac is Some && !table.contains_key(normal_mac(t.mac->0)) ==> followed(t, table) == t,
        t.mac is Some && table.contains_key(normal_mac(t.mac->0)) ==> followed(t, table).ip
            == table[normal_mac(t.mac->0)],
        followed(followed(t, table), table) == followed(t, table),
{
}

/// Every line whose first word is an IPv4 address and whose second word is a MAC
/// address is in the table, whatever network the address is on: the MAC address, in
/// normal form, has that IP. Entries for other MAC addresses stay as they were.
pub proof fn law_every_entry_is_read(lines: Seq<Seq<char>>, line: Seq<char>)
    requires
        text::words(line).len() >= 2,
        config::is_ipv4_text(text::words(line)[0]),
        is_mac_text(text::words(line)[1]),
    ensures
        ({
            let mac = normal_mac(text::words(line)[1]);
            let table = arp_entries(lines.push(line));
            &&& table.dom().contains(mac)
            &&& table[mac] == text::words(line)[0]
            &&& forall|other: Seq<char>|
                other != mac ==> (#[trigger] table.dom().contains(other) <==> arp_entries(
                    lines,
                ).dom().contains(other)) && (table.dom().contains(other) ==> table[other]
                    == arp_entries(lines)[other])
        }),
{
    assert(lines.push(line).drop_last() =~= lines);
}

/// Every other line leaves the table as it was, and without lines it is empty.
pub proof fn law_other_lines_are_passed_over(lines: Seq<Seq<char>>, line: Seq<char>)
    ensures
        text::words(line).len() < 2 || !config::is_ipv4_text(text::words(line)[0]) || !is_mac_text(
            text::words(line)[1],
        ) ==> arp_entries(lines.push(line)) == arp_entries(lines),
        arp_entries(Seq::empty()) == Map::<Seq<char>, Seq<char>>::empty(),
{
    assert(lines.push(line).drop_last() =~= lines);
}

/// A target that is pinned to a MAC address goes to the IP that the last line for that
/// address gives, however the address is written there and in the target.
pub proof fn law_pinned_target_goes_where_its_line_says(
    lines: Seq<Seq<char>>,
    line: Seq<char>,
    t: TargetView,
)
    requires
        text::words(line).len() >= 2,
        config::is_ipv4_text(text::words(line)[0]),
        is_mac_text(text::words(line)[1]),
        t.mac is Some,
        normal_mac(t.mac->0) == normal_mac(text::words(line)[1]),
    ensures
        followed(t, arp_entries(lines.push(line))) == (TargetView {
            name: t.name,
            ip: text::words(line)[0],
            mac: t.mac,
        }),
{
    law_every_entry_is_read(lines, line);
}

/// The normal form takes the hexadecimal digits one by one, capital letters in lower
/// case, and leaves out every other character.
pub proof fn law_normal_form_keeps_the_digits(s: Seq<char>, c: char)
    ensures
        normal_mac(Seq::empty()).len() == 0,
        '0' <= c <= '9' || 'a' <= c <= 'f' ==> normal_mac(s.push(c)) == normal_mac(s).push(c),
        'A' <= c <= 'F' ==> normal_mac(s.push(c)) == normal_mac(s).push((c as u32 + 0x20) as char),
        !('0' <= c <= '9' || 'a' <= c <= 'f' || 'A' <= c <= 'F') ==> normal_mac(s.push(c))
            == normal_mac(s),
{
    assert(s.push(c).drop_last() =~= s);
}

/// A text is a MAC address exactly when it has twelve hexadecimal digits and a dash or a
/// colon somewhere.
pub proof fn law_what_a_mac_address_is(s: Seq<char>)
    ensures
        is_mac_text(s) <==> normal_mac(s).len() == 12 && exists|i: int|
            0 <= i < s.len() && (#[trigger] s[i] == '-' || s[i] == ':'),
{
    if s.contains('-') {
        let i = choose|i: int| 0 <= i < s.len() && s[i] == '-';
        assert(s[i] == '-' || s[i] == ':');
    }
    if s.contains(':') {
        let i = choose|i: int| 0 <= i < s.len() && s[i] == ':';
        assert(s[i] == '-' || s[i] == ':');
    }
}

/// A MAC address is printed in pairs of its digits, letters in capitals, with a dash
/// between each two pairs.
pub proof fn law_printed_in_pairs(s: Seq<char>, k: int)
    requires
        normal_mac(s).len() == 12,
        0 <= k < 6,
    ensures
        printed_mac(s).len() == 17,
        printed_mac(s)[3 * k] == capital(normal_mac(s)[2 * k]),
        printed_mac(s)[3 * k + 1] == capital(normal_mac(s)[2 * k + 1]),
        k < 5 ==> printed_mac(s)[3 * k + 2] == '-',
{
    let c = normal_mac(s).map_values(|c: char| upper(c));
    reveal_with_fuel(dashed, 7);
    assert(printed_mac(s) =~= seq![
        c[0], c[1], '-', c[2], c[3], '-', c[4], c[5], '-', c[6], c[7], '-', c[8], c[9], '-',
        c[10], c[11],
    ]);
}

/// The capital of a letter from `a` to `f`; every other character is its own.
pub open spec fn capital(c: char) -> char {
    match c {
        'a' => 'A',
        'b' => 'B',
        'c' => 'C',
        'd' => 'D',
        'e' => 'E',
        'f' => 'F',
        _ => c,
    }
}

/// What is looked up for an IP is the MAC address on the first line that has the IP as
/// its first word and a MAC address as its second, in printed form.
pub proof fn law_mac_is_on_the_first_line_for_the_ip(
    lines: Seq<Seq<char>>,
    ip: Seq<char>,
    i: int,
)
    requires
        0 <= i < lines.len(),
        text::words(lines[i]).len() >= 2,
        text::words(lines[i])[0] == ip,
        is_mac_text(text::words(lines[i])[1]),
        forall|j: int|
            0 <= j < i ==> text::words(#[trigger] lines[j]).len() < 2 || text::words(lines[j])[0]
                != ip || !is_mac_text(text::words(lines[j])[1]),
    ensures
        first_mac(lines, ip) == Some(printed_mac(text::words(lines[i])[1])),
    decreases lines.len(),
{
    if i > 0 {
        assert(text::words(lines[0]).len() < 2 || text::words(lines[0])[0] != ip || !is_mac_text(
            text::words(lines[0])[1],
        ));
        let rest = lines.drop_first();
        assert forall|j: int| 0 <= j < i - 1 implies text::words(#[trigger] rest[j]).len() < 2
            || text::words(rest[j])[0] != ip || !is_mac_text(text::words(rest[j])[1]) by {
            assert(rest[j] == lines[j + 1]);
        }
        law_mac_is_on_the_first_line_for_the_ip(rest, ip, i - 1);
    }
}

/// An IP that no line gives a MAC address for has none.
pub proof fn law_no_mac_without_a_line(lines: Seq<Seq<char>>, ip: Seq<char>)
    requires
        forall|j: int|
            0 <= j < lines.len() ==> text::words(#[trigger] lines[j]).len() < 2 || text::words(
                lines[j],
            )[0] != ip || !is_mac_text(text::words(lines[j])[1]),
    ensures
        first_mac(lines, ip) is None,
    decreases lines.len(),
{
    if lines.len() > 0 {
        assert(text::words(lines[0]).len() < 2 || text::words(lines[0])[0] != ip || !is_mac_text(
            text::words(lines[0])[1],
        ));
        let rest = lines.drop_first();
        assert forall|j: int| 0 <= j < rest.len() implies text::words(#[trigger] rest[j]).len() < 2
            || text::words(rest[j])[0] != ip || !is_mac_text(text::words(rest[j])[1]) by {
            assert(rest[j] == lines[j + 1]);
        }
        law_no_mac_without_a_line(rest, ip);
    }
}

/// One pinned target is enough for the table to be worth reading, and one that the
/// table does not hold for some to be missing, wherever it stands in the list.
pub proof fn law_one_pinned_target_is_enough(
    targets: Seq<TargetView>,
    table: Map<Seq<char>, Seq<char>>,
    i: int,
)
    requires
        0 <= i < targets.len(),
    ensures
        targets[i].mac is Some ==> any_pinned(targets),
        targets[i].mac is Some && !table.dom().contains(normal_mac(targets[i].mac->0))
            ==> any_missing(targets, table),
{
}

/// Where no target is pinned none is looked up, and where the table holds every pinned
/// one none is missing.
pub proof fn law_nothing_to_look_up(targets: Seq<TargetView>, table: Map<Seq<char>, Seq<char>>)
    ensures
        (forall|i: int| 0 <= i < targets.len() ==> (#[trigger] targets[i]).mac is None)
            ==> !any_pinned(targets),
        (forall|i: int|
            0 <= i < targets.len() && (#[trigger] targets[i]).mac is Some ==> table.dom().contains(
                normal_mac(targets[i].mac->0),
            )) ==> !any_missing(targets, table),
{
}

/// The network is swept around the first target whose address begins with `192.168.`,
/// and around none where there is no such target.
pub proof fn law_sweep_starts_from_the_first_lan_address(targets: Seq<TargetView>, i: int)
    requires
        0 <= i <= targets.len(),
        forall|j: int|
            0 <= j < i ==> !text::occurs_at((#[trigger] targets[j]).ip, "192.168."@, 0),
        i < targets.len() ==> text::occurs_at(targets[i].ip, "192.168."@, 0),
    ensures
        first_lan_ip(targets) == if i < targets.len() {
            Some(targets[i].ip)
        } else {
            None
        },
    decreases targets.len(),
{
    if i > 0 {
        assert(!text::occurs_at(targets[0].ip, "192.168."@, 0));
        let rest = targets.drop_first();
        assert forall|j: int| 0 <= j < i - 1 implies !text::occurs_at(
            (#[trigger] rest[j]).ip,
            "192.168."@,
            0,
        ) by {
            assert(rest[j] == targets[j + 1]);
        }
        law_sweep_starts_from_the_first_lan_address(rest, i - 1);
    }
}

/// The MAC address of an IPv4 address is looked up on the lines of the table; for any other
/// text there is none.
pub proof fn law_only_addresses_are_looked_up(ip: Seq<char>, arp_output: Seq<char>)
    ensures
        config::is_ipv4_text(ip) ==> mac_of(ip, arp_output) == first_mac(
            text::lines(arp_output),
            ip,
        ),
        !config::is_ipv4_text(ip) ==> mac_of(ip, arp_output) is None,
{
}

/// A table says, for each MAC address that it holds, the IP that it gives for it.
pub proof fn law_table_says_what_it_holds(table: Map<Seq<char>, String>, mac: Seq<char>)
    ensures
        table_view(table).dom() == table.dom(),
        table.dom().contains(mac) ==> table_view(table)[mac] == table[mac]@,
{
    assert(table_view(table).dom() =~= table.dom());
}

} // verus!
