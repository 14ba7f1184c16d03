//! What is handed to `ping`, and what is read from its output.

use vstd::prelude::*;
use vstd::string::*;
use crate::text;

verus! {

/// The arguments of one ping: a single echo, a timeout in ms, and the host.
pub open spec fn ping_arguments(ip: Seq<char>, timeout_ms: nat) -> Seq<Seq<char>> {
    seq!["-n"@, "1"@, "-w"@, text::decimal(timeout_ms), ip]
}

/// The arguments with which one host is pinged once.
pub fn ping_args(ip: &str, timeout_ms: u32) -> (r: Vec<String>)
    ensures
        text::texts(r@) == ping_arguments(ip@, timeout_ms as nat),
{
    let mut timeout = String::new();
    text::push_decimal(&mut timeout, timeout_ms as u64);
    assert(timeout@ =~= text::decimal(timeout_ms as nat));
    let mut out: Vec<String> = Vec::new();
    out.push("-n".to_owned());
    out.push("1".to_owned());
    out.push("-w".to_owned());
    out.push(timeout);
    out.push(ip.to_owned());
    assert(text::texts(out@) =~= ping_arguments(ip@, timeout_ms as nat));
    out
}

/// The digits that a text begins with.
pub open spec fn leading_digits(s: Seq<char>) -> Seq<char>
    decreases s.len(),
{
    if s.len() > 0 && text::is_digit(s[0]) {
        seq![s[0]] + leading_digits(s.drop_first())
    } else {
        Seq::empty()
    }
}

/// A fragment such as `time=12` or `time<1` stands at position `i`: the label, an
/// equals or less-than sign, and a digit.
pub open spec fn fragment_at(s: Seq<char>, label: Seq<char>, i: int) -> bool {
    &&& text::occurs_at(s, label, i)
    &&& i + label.len() + 1 < s.len()
    &&& s[i + label.len()] == '=' || s[i + label.len()] == '<'
    &&& text::is_digit(s[i + label.len() + 1])
}

/// `i` is the first position at which a fragment with the label stands.
pub open spec fn first_fragment_at(s: Seq<char>, label: Seq<char>, i: int) -> bool {
    fragment_at(s, label, i) && forall|j: int| j < i ==> !#[trigger] fragment_at(s, label, j)
}

/// The first position at which a fragment with the label stands, where one does.
pub open spec fn fragment(s: Seq<char>, label: Seq<char>) -> Option<int> {
    if exists|i: int| #[trigger] fragment_at(s, label, i) {
        Some(choose|i: int| first_fragment_at(s, label, i))
    } else {
        None
    }
}

/// Where the time of a reply stands: at the first `time` fragment, and where there
/// is none at the first `TIME` fragment.
pub open spec fn time_at(s: Seq<char>) -> Option<int> {
    match fragment(s, "time"@) {
        Some(i) => Some(i),
        None => fragment(s, "TIME"@),
    }
}

/// The number of a `time=12ms` or `time<1ms` fragment.
pub open spec fn latency_in(s: Seq<char>) -> Option<u32> {
    match time_at(s) {
        Some(i) => {
            let digits = leading_digits(s.skip(i + 5));
            if text::value(digits) <= u32::MAX {
                Some(text::value(digits) as u32)
            } else {
                None
            }
        },
        None => None,
    }
}

/// The latency that a reply reports. A real reply has a `TTL=` field beside its
/// time.
pub open spec fn reply_latency(s: Seq<char>) -> Option<u32> {
    if text::contains(s, "TTL="@) || text::contains(s, "ttl="@) {
        latency_in(s)
    } else {
        None
    }
}

/// The leading digits stop at the first character that is none.
proof fn lemma_leading_digits(s: Seq<char>, n: int)
    requires
        0 <= n <= s.len(),
        forall|i: int| 0 <= i < n ==> text::is_digit(#[trigger] s[i]),
        n < s.len() ==> !text::is_digit(s[n]),
    ensures
        leading_digits(s) == s.take(n),
    decreases n,
{
    if n > 0 {
        assert(text::is_digit(s[0]));
        let rest = s.drop_first();
        assert forall|i: int| 0 <= i < n - 1 implies text::is_digit(#[trigger] rest[i]) by {
            assert(rest[i] == s[i + 1]);
        }
        lemma_leading_digits(rest, n - 1);
        assert(s.take(n) =~= seq![s[0]] + rest.take(n - 1));
    } else {
        assert(s.take(0) =~= Seq::<char>::empty());
    }
}

/// The first position at which a fragment with the label stands.
fn find_fragment(s: &[char], label: &[char]) -> (r: Option<usize>)
    ensures
        fragment(s@, label@) == (match r {
            Some(i) => Some(i as int),
            None => None,
        }),
        r matches Some(i) ==> first_fragment_at(s@, label@, i as int),
{
    let mut i: usize = 0;
    while i < s.len()
        invariant
            i <= s@.len(),
            forall|j: int| j < i ==> !#[trigger] fragment_at(s@, label@, j),
        decreases s@.len() - i,
    {
        if text::stands_at(s, label, i) {
            let sign: usize = i + label.len();
            if s.len() - sign > 1 && (s[sign] == '=' || s[sign] == '<') && text::digit_char(
                s[sign + 1],
            ) {
                proof {
                    assert(first_fragment_at(s@, label@, i as int));
                    let p = choose|p: int| first_fragment_at(s@, label@, p);
                    assert(fragment_at(s@, label@, p));
                    assert(p == i);
                }
                return Some(i);
            }
        }
        i += 1;
    }
    None
}

/// Reads the latency from a `time=12ms` or `time<1ms` fragment.
pub fn parse_latency(output: &str) -> (r: Option<u32>)
    ensures
        r == latency_in(output@),
{
    let chars = text::chars_of(output);
    let lower = text::chars_of("time");
    let upper = text::chars_of("TIME");
    proof {
        reveal_strlit("time");
        reveal_strlit("TIME");
    }
    let found = match find_fragment(chars.as_slice(), lower.as_slice()) {
        Some(i) => Some(i),
        None => find_fragment(chars.as_slice(), upper.as_slice()),
    };
    match found {
        Some(i) => {
            let n: usize = chars.len();
            assert(i + 5 < n);
            let from: usize = i + 5;
            let mut to: usize = from;
            while to < chars.len() && text::digit_char(chars[to])
                invariant
                    from <= to <= chars@.len(),
                    from < chars@.len(),
                    text::is_digit(chars@[from as int]),
                    forall|j: int| from <= j < to ==> text::is_digit(#[trigger] chars@[j]),
                decreases chars@.len() - to,
            {
                to += 1;
            }
            assert(to > from);
            let digits = text::copy_chars(chars.as_slice(), from, to);
            proof {
                let tail = chars@.skip(from as int);
                lemma_leading_digits(tail, to - from);
                assert(digits@ =~= tail.take(to - from));
            }
            text::parse_u32(digits.as_slice())
        },
        None => None,
    }
}

/// The latency in ms of one ping, read from its output; `None` when the packet
/// was dropped or timed out.
pub fn ping_reply(output: &str) -> (r: Option<u32>)
    ensures
        r == reply_latency(output@),
{
    if !text::has(output, "TTL=") && !text::has(output, "ttl=") {
        return None;
    }
    parse_latency(output)
}

/// What stands before the last `c` of a text.
pub open spec fn before_last(s: Seq<char>, c: char) -> Option<Seq<char>>
    decreases s.len(),
{
    if s.len() == 0 {
        None
    } else if s.last() == c {
        Some(s.drop_last())
    } else {
        before_last(s.drop_last(), c)
    }
}

/// The host addresses of the /24 network that an address is in.
pub open spec fn neighbours(ip: Seq<char>) -> Seq<Seq<char>> {
    match before_last(ip, '.') {
        Some(base) => Seq::new(254, |i: int| base + "."@ + text::decimal((i + 1) as nat)),
        None => Seq::empty(),
    }
}

/// Every host address of the /24 network around an address; none where the text
/// has no dot.
pub fn sweep_addresses(sample_ip: &str) -> (r: Vec<String>)
    ensures
        text::texts(r@) == neighbours(sample_ip@),
{
    let chars = text::chars_of(sample_ip);
    let mut end: usize = chars.len();
    assert(chars@.take(end as int) =~= chars@);
    while end > 0 && chars[end - 1] != '.'
        invariant
            end <= chars@.len(),
            before_last(chars@, '.') == before_last(chars@.take(end as int), '.'),
        decreases end,
    {
        assert(chars@.take(end as int).drop_last() =~= chars@.take(end - 1));
        end -= 1;
    }
    let mut out: Vec<String> = Vec::new();
    if end == 0 {
        assert(text::texts(out@) =~= neighbours(sample_ip@));
        return out;
    }
    assert(chars@.take(end as int).drop_last() =~= chars@.take(end - 1));
    let base = text::copy_chars(chars.as_slice(), 0, end - 1);
    assert(base@ =~= chars@.take(end - 1));
    let ghost all = neighbours(sample_ip@);
    let mut i: u64 = 1;
    while i <= 254
        invariant
            1 <= i <= 255,
            all.len() == 254,
            all == neighbours(sample_ip@),
            before_last(sample_ip@, '.') == Some(base@),
            text::texts(out@) == all.take(i - 1),
        decreases 255 - i,
    {
        let mut address = text::text_of(base.as_slice());
        address.append(".");
        text::push_decimal(&mut address, i);
        let ghost before = out@;
        out.push(address);
        proof {
            assert(address@ =~= all[i - 1]);
            assert(text::texts(out@) =~= text::texts(before).push(address@));
            assert(all.take(i as int) =~= all.take(i - 1).push(all[i - 1]));
        }
        i += 1;
    }
    assert(all.take(254) =~= all);
    out
}

// ---------------------------------------------------------------------------
// Laws
// ---------------------------------------------------------------------------
/// A text without a `TTL=` field is a drop, whatever times it names.
pub proof fn law_no_ttl_is_a_drop(s: Seq<char>)
    requires
        !text::contains(s, "TTL="@),
        !text::contains(s, "ttl="@),
    ensures
        reply_latency(s) is None,
{
}

/// The fragment with the label at position `at` is the one that is read: the first
/// with `time`, or the first with `TIME` where there is none with `time`.
pub open spec fn read_at(s: Seq<char>, label: Seq<char>, at: int) -> bool {
    &&& forall|j: int| j < at ==> !#[trigger] fragment_at(s, label, j)
    &&& label == "time"@ || (label == "TIME"@ && forall|j: int|
        !#[trigger] fragment_at(s, "time"@, j))
}

/// A reply reads back the latency that it writes: after the label and an equals or
/// less-than sign, the number up to the first character that is no digit. A label
/// that stands earlier without a sign and a number, as in the name of a host, does
/// not matter.
pub proof fn law_reply_reads_back(
    before: Seq<char>,
    label: Seq<char>,
    sign: char,
    latency: u32,
    after: Seq<char>,
)
    requires
        sign == '=' || sign == '<',
        after.len() > 0 ==> !text::is_digit(after[0]),
        ({
            let s = before + label + seq![sign] + text::decimal(latency as nat) + after;
            &&& read_at(s, label, before.len() as int)
            &&& text::contains(s, "TTL="@) || text::contains(s, "ttl="@)
        }),
    ensures
        reply_latency(
            before + label + seq![sign] + text::decimal(latency as nat) + after,
        ) == Some(latency),
{
    reveal_strlit("time");
    reveal_strlit("TIME");
    let digits = text::decimal(latency as nat);
    let s = before + label + seq![sign] + digits + after;
    let at = before.len() as int;
    assert(label.len() == 4);
    text::lemma_decimal_round_trip(latency as nat);
    assert(s.subrange(at, at + 4) =~= label);
    assert(s[at + 4] == sign);
    assert(s[at + 5] == digits[0]);
    assert(fragment_at(s, label, at));
    assert(first_fragment_at(s, label, at));
    let p = choose|p: int| first_fragment_at(s, label, p);
    assert(fragment_at(s, label, p));
    assert(p == at);
    assert(time_at(s) == Some(at));
    let tail = s.skip(at + 5);
    assert(tail =~= digits + after);
    assert forall|i: int| 0 <= i < digits.len() implies text::is_digit(#[trigger] tail[i]) by {
        assert(tail[i] == digits[i]);
    }
    if digits.len() < tail.len() {
        assert(tail[digits.len() as int] == after[0]);
    }
    lemma_leading_digits(tail, digits.len() as int);
    assert(tail.take(digits.len() as int) =~= digits);
}

/// A fragment is the label, character by character, then an equals or less-than sign,
/// then a decimal digit, and nothing else is.
pub proof fn law_what_a_fragment_is(s: Seq<char>, label: Seq<char>, i: int)
    ensures
        fragment_at(s, label, i) <==> {
            let sign = i + label.len();
            &&& 0 <= i && sign + 1 < s.len()
            &&& forall|k: int| 0 <= k < label.len() ==> s[i + k] == #[trigger] label[k]
            &&& s[sign] == '=' || s[sign] == '<'
            &&& '0' <= s[sign + 1] <= '9'
        },
{
    text::law_contains_finds_every_place(s, label, i);
}

/// The digits that a text begins with reach up to the first character that is none.
pub proof fn law_leading_digits_stop_at_the_first_other(digits: Seq<char>, rest: Seq<char>)
    requires
        forall|i: int| 0 <= i < digits.len() ==> '0' <= #[trigger] digits[i] <= '9',
        rest.len() > 0 ==> !('0' <= rest[0] <= '9'),
    ensures
        leading_digits(digits + rest) == digits,
{
    let s = digits + rest;
    assert forall|i: int| 0 <= i < digits.len() implies text::is_digit(#[trigger] s[i]) by {
        assert(s[i] == digits[i]);
    }
    if digits.len() < s.len() {
        assert(s[digits.len() as int] == rest[0]);
    }
    lemma_leading_digits(s, digits.len() as int);
    assert(s.take(digits.len() as int) =~= digits);
}

/// The number of the fragment that is read is the latency, with or without leading
/// zeros, and whatever it is; one that is too large for a `u32` gives none.
pub proof fn law_latency_is_the_number_of_the_fragment(
    before: Seq<char>,
    label: Seq<char>,
    sign: char,
    digits: Seq<char>,
    after: Seq<char>,
)
    requires
        sign == '=' || sign == '<',
        digits.len() > 0,
        forall|i: int| 0 <= i < digits.len() ==> '0' <= #[trigger] digits[i] <= '9',
        after.len() > 0 ==> !('0' <= after[0] <= '9'),
        read_at(before + label + seq![sign] + digits + after, label, before.len() as int),
    ensures
        latency_in(before + label + seq![sign] + digits + after) == if text::value(digits)
            <= u32::MAX {
            Some(text::value(digits) as u32)
        } else {
            None
        },
{
    reveal_strlit("time");
    reveal_strlit("TIME");
    let s = before + label + seq![sign] + digits + after;
    let at = before.len() as int;
    assert(s.subrange(at, at + 4) =~= label);
    assert(s[at + 4] == sign);
    assert(s[at + 5] == digits[0]);
    assert(fragment_at(s, label, at));
    assert(first_fragment_at(s, label, at));
    let p = choose|p: int| first_fragment_at(s, label, p);
    assert(fragment_at(s, label, p));
    assert(p == at);
    assert(time_at(s) == Some(at));
    assert(s.skip(at + 5) =~= digits + after);
    law_leading_digits_stop_at_the_first_other(digits, after);
}

/// A text without any such fragment gives no latency.
pub proof fn law_no_latency_without_a_fragment(s: Seq<char>)
    requires
        forall|i: int| !#[trigger] fragment_at(s, "time"@, i),
        forall|i: int| !#[trigger] fragment_at(s, "TIME"@, i),
    ensures
        latency_in(s) is None,
        reply_latency(s) is None,
{
}

/// A text with a `TTL=` field, in either case, is a reply, and its latency is the one
/// that it tells.
pub proof fn law_a_reply_has_the_latency_it_tells(s: Seq<char>)
    ensures
        text::contains(s, "TTL="@) || text::contains(s, "ttl="@) ==> reply_latency(s)
            == latency_in(s),
{
}

/// A host is pinged once, with its timeout in ms, at the address that is given.
pub proof fn law_one_echo_to_the_host(ip: Seq<char>, timeout_ms: nat)
    ensures
        ping_arguments(ip, timeout_ms).len() == 5,
        ping_arguments(ip, timeout_ms)[0] == "-n"@,
        ping_arguments(ip, timeout_ms)[1] == "1"@,
        ping_arguments(ip, timeout_ms)[2] == "-w"@,
        ping_arguments(ip, timeout_ms)[3] == text::decimal(timeout_ms),
        ping_arguments(ip, timeout_ms)[4] == ip,
{
}

/// The neighbours of an address have all but its last number, and as the last number
/// each one from 1 to 254, in order. A text without a dot has none.
pub proof fn law_neighbours_share_the_network(base: Seq<char>, last: Seq<char>, k: int)
    requires
        !last.contains('.'),
        1 <= k <= 254,
    ensures
        neighbours(base + seq!['.'] + last).len() == 254,
        neighbours(base + seq!['.'] + last)[k - 1] == base + seq!['.'] + text::decimal(k as nat),
        neighbours(last).len() == 0,
{
    reveal_strlit(".");
    assert("."@ =~= seq!['.']);
    lemma_before_last(base, last);
    lemma_no_last(last);
}

/// The last dot is the one that no other follows.
proof fn lemma_before_last(base: Seq<char>, last: Seq<char>)
    requires
        !last.contains('.'),
    ensures
        before_last(base + seq!['.'] + last, '.') == Some(base),
    decreases last.len(),
{
    let s = base + seq!['.'] + last;
    if last.len() > 0 {
        let shorter = last.drop_last();
        assert(last[last.len() - 1] != '.');
        assert forall|i: int| 0 <= i < shorter.len() implies shorter[i] != '.' by {
            assert(last[i] == shorter[i]);
        }
        lemma_before_last(base, shorter);
        assert(s.drop_last() =~= base + seq!['.'] + shorter);
        assert(s.last() == last.last());
    } else {
        assert(s.drop_last() =~= base);
        assert(s.last() == '.');
    }
}

/// A text without a dot has no last one.
proof fn lemma_no_last(s: Seq<char>)
    requires
        !s.contains('.'),
    ensures
        before_last(s, '.') is None,
    decreases s.len(),
{
    if s.len() > 0 {
        let shorter = s.drop_last();
        assert(s[s.len() - 1] != '.');
        assert forall|i: int| 0 <= i < shorter.len() implies shorter[i] != '.' by {
            assert(s[i] == shorter[i]);
        }
        lemma_no_last(shorter);
    }
}

} // verus!
