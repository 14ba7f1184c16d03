//! What the dashboard shows: the cards, the status line and the pace.

pub mod cards;
pub mod chart;
pub mod settings;
pub mod window_icon;

use vstd::prelude::*;
use vstd::string::*;
use crate::alerts;
use crate::config;
use crate::config::Target;
use crate::config::TargetView;
use crate::history::History;
use crate::history::SampleView;
use crate::loss;
use crate::text;

verus! {

/// UI refresh period. Also the chart's scroll granularity.
pub const REFRESH_MS: u64 = 500;

/// Refreshes between two looks at the device's network.
pub const NETWORK_REFRESH_TICKS: u64 = 120;

/// One target's card.
pub struct CardInfo {
    pub name: String,
    pub ip: String,
    pub index: usize,
    pub current: Option<u32>,
    pub loss: u32,
    pub measured: usize,
}

/// What a card says.
pub struct CardView {
    pub name: Seq<char>,
    pub ip: Seq<char>,
    pub index: int,
    pub current: Option<u32>,
    pub loss: int,
    pub measured: nat,
}

impl View for CardInfo {
    type V = CardView;

    open spec fn view(&self) -> CardView {
        CardView {
            name: self.name@,
            ip: self.ip@,
            index: self.index as int,
            current: self.current,
            loss: self.loss as int,
            measured: self.measured as nat,
        }
    }
}

/// What each card of a list says.
pub open spec fn card_views(cards: Seq<CardInfo>) -> Seq<CardView> {
    cards.map_values(|c: CardInfo| c@)
}

/// The newest reading of a target; targets are pinged in turn, so the newest
/// sample usually belongs to a different one.
pub open spec fn newest_reading(samples: Seq<SampleView>, name: Seq<char>) -> Option<Option<u32>>
    decreases samples.len(),
{
    if samples.len() == 0 {
        None
    } else if samples.last().v.contains_key(name) {
        Some(samples.last().v[name])
    } else {
        newest_reading(samples.drop_last(), name)
    }
}

/// The card of a target.
pub open spec fn card_of(
    samples: Seq<SampleView>,
    t: TargetView,
    index: int,
    cutoff: int,
) -> CardView {
    CardView {
        name: t.name,
        ip: t.ip,
        index,
        current: match newest_reading(samples, t.name) {
            Some(reading) => reading,
            None => None,
        },
        loss: loss::loss_percent(samples, t.name, cutoff),
        measured: loss::measured(samples, t.name, cutoff),
    }
}

/// The highest loss of any target; none where there is no target.
pub open spec fn worst_loss(samples: Seq<SampleView>, targets: Seq<TargetView>, cutoff: int) -> int
    decreases targets.len(),
{
    if targets.len() == 0 {
        0
    } else {
        let before = worst_loss(samples, targets.drop_last(), cutoff);
        let last = loss::loss_percent(samples, targets.last().name, cutoff);
        if last > before {
            last
        } else {
            before
        }
    }
}

/// What the dashboard says of the targets.
pub struct Overview {
    pub cards: Vec<CardInfo>,
    pub worst_loss: u32,
}

/// The latency of a target's newest reading; none where that is a drop, or where
/// there is no reading.
fn current_latency(history: &History, name: &str) -> (r: Option<u32>)
    ensures
        r == (match newest_reading(history@, name@) {
            Some(reading) => reading,
            None => None,
        }),
{
    let ghost all = history@;
    let mut i: usize = history.samples.len();
    assert(all.take(all.len() as int) =~= all);
    while i > 0
        invariant
            i <= history.samples@.len(),
            all == history@,
            newest_reading(all, name@) == newest_reading(all.take(i as int), name@),
        decreases i,
    {
        let ghost upto = all.take(i as int);
        assert(upto.last() == history.samples@[i - 1]@);
        assert(upto.drop_last() =~= all.take(i - 1));
        match history.samples[i - 1].v.get(name) {
            Some(reading) => {
                return *reading;
            },
            None => {},
        }
        i -= 1;
    }
    None
}

/// A card for every target, in order, and the highest loss among them. Only
/// samples that measured a target count toward its loss.
pub fn overview(history: &History, targets: &[Target], cutoff: i64) -> (r: Overview)
    ensures
        card_views(r.cards@) == Seq::new(
            targets@.len(),
            |i: int| card_of(history@, config::views(targets@)[i], i, cutoff as int),
        ),
        r.worst_loss == worst_loss(history@, config::views(targets@), cutoff as int),
{
    let ghost all = config::views(targets@);
    let ghost samples = history@;
    let ghost cards_spec = Seq::new(
        targets@.len(),
        |i: int| card_of(samples, all[i], i, cutoff as int),
    );
    let mut cards: Vec<CardInfo> = Vec::new();
    let mut worst: u32 = 0;
    let mut i: usize = 0;
    assert(all.take(0) =~= Seq::<TargetView>::empty());
    assert(card_views(cards@) =~= cards_spec.take(0));
    while i < targets.len()
        invariant
            i <= targets@.len(),
            all == config::views(targets@),
            samples == history@,
            cards_spec == Seq::new(
                targets@.len(),
                |i: int| card_of(samples, all[i], i, cutoff as int),
            ),
            card_views(cards@) == cards_spec.take(i as int),
            worst == worst_loss(samples, all.take(i as int), cutoff as int),
        decreases targets@.len() - i,
    {
        proof {
            assert(all[i as int] == targets@[i as int]@);
            assert(all.take(i + 1).drop_last() =~= all.take(i as int));
        }
        let (measured, percent) = loss::target_loss(history, targets[i].name.as_str(), cutoff);
        if percent > worst {
            worst = percent;
        }
        let card = CardInfo {
            name: targets[i].name.clone(),
            ip: targets[i].ip.clone(),
            index: i,
            current: current_latency(history, targets[i].name.as_str()),
            loss: percent,
            measured,
        };
        let ghost before = cards@;
        cards.push(card);
        proof {
            assert(card@ == cards_spec[i as int]);
            assert(card_views(cards@) =~= card_views(before).push(card@));
            assert(cards_spec.take(i + 1) =~= cards_spec.take(i as int).push(
                cards_spec[i as int],
            ));
        }
        i += 1;
    }
    assert(all.take(all.len() as int) =~= all);
    assert(cards_spec.take(cards_spec.len() as int) =~= cards_spec);
    Overview { cards, worst_loss: worst }
}

/// The start of the display window; `None` where it is out of range.
pub fn window_start(now: i64, window_mins: i64) -> (r: Option<i64>)
    ensures
        r is Some <==> i64::MIN <= alerts::window_cutoff(now as int, window_mins as int)
            <= i64::MAX,
        r matches Some(t) ==> t == alerts::window_cutoff(now as int, window_mins as int),
{
    let start: i128 = now as i128 - window_mins as i128 * 60_000;
    if start < i64::MIN as i128 || start > i64::MAX as i128 {
        None
    } else {
        Some(start as i64)
    }
}

// ---------------------------------------------------------------------------
// Status
// ---------------------------------------------------------------------------
/// How bad a loss is.
#[derive(Clone, Copy, Debug, PartialEq, Eq, Structural)]
pub enum Health {
    Healthy,
    Minor,
    Bad,
}

/// How bad a loss in percent is.
pub open spec fn health(loss_pct: u32) -> Health {
    if loss_pct == 0 {
        Health::Healthy
    } else if loss_pct < 10 {
        Health::Minor
    } else {
        Health::Bad
    }
}

/// How bad a loss in percent is.
pub fn health_of(loss_pct: u32) -> (r: Health)
    ensures
        r == health(loss_pct),
{
    if loss_pct == 0 {
        Health::Healthy
    } else if loss_pct < 10 {
        Health::Minor
    } else {
        Health::Bad
    }
}

/// The color of a loss, as red, green and blue.
pub open spec fn health_color(loss_pct: u32) -> (u8, u8, u8) {
    match health(loss_pct) {
        Health::Healthy => (0x3fu8, 0xb9u8, 0x50u8),
        Health::Minor => (0xd2u8, 0x99u8, 0x22u8),
        Health::Bad => (0xf8u8, 0x51u8, 0x49u8),
    }
}

/// The color of a loss, as red, green and blue.
pub fn loss_color(loss_pct: u32) -> (r: (u8, u8, u8))
    ensures
        r == health_color(loss_pct),
{
    match health_of(loss_pct) {
        Health::Healthy => (0x3f, 0xb9, 0x50),
        Health::Minor => (0xd2, 0x99, 0x22),
        Health::Bad => (0xf8, 0x51, 0x49),
    }
}

/// The status line.
pub open spec fn status(worst_loss: u32) -> Seq<char> {
    match health(worst_loss) {
        Health::Healthy => "All hops healthy"@,
        Health::Minor => "Minor loss ("@ + text::decimal(worst_loss as nat) + "%)"@,
        Health::Bad => "Packet loss up to "@ + text::decimal(worst_loss as nat) + "%"@,
    }
}

/// The status line for the highest loss of any target.
pub fn status_text(worst_loss: u32) -> (r: String)
    ensures
        r@ == status(worst_loss),
{
    let mut out = String::new();
    match health_of(worst_loss) {
        Health::Healthy => {
            out.append("All hops healthy");
        },
        Health::Minor => {
            out.append("Minor loss (");
            text::push_decimal(&mut out, worst_loss as u64);
            out.append("%)");
        },
        Health::Bad => {
            out.append("Packet loss up to ");
            text::push_decimal(&mut out, worst_loss as u64);
            out.append("%");
        },
    }
    assert(out@ =~= status(worst_loss));
    out
}

// ---------------------------------------------------------------------------
// Pace
// ---------------------------------------------------------------------------
/// A ping interval in writing: whole seconds, rounded to the nearest.
pub open spec fn written_interval(ms: u32) -> Seq<char> {
    text::decimal(((ms + 500) / 1000) as nat) + " s"@
}

/// A ping interval in writing. All the offered values are whole seconds.
pub fn fmt_interval(ms: u32) -> (r: String)
    ensures
        r@ == written_interval(ms),
{
    let mut out = String::new();
    text::push_decimal(&mut out, (ms as u64 + 500) / 1000);
    out.append(" s");
    assert(out@ =~= written_interval(ms));
    out
}

/// The pace badge.
pub open spec fn badge(auto_interval: bool, current_interval_ms: u32) -> Seq<char> {
    (if auto_interval {
        "Auto: every "@
    } else {
        "Every "@
    }) + written_interval(current_interval_ms)
}

/// Short pace badge for the header, e.g. `Auto: every 1 s`.
pub fn pace_label(auto_interval: bool, current_interval_ms: u32) -> (r: String)
    ensures
        r@ == badge(auto_interval, current_interval_ms),
{
    let every = fmt_interval(current_interval_ms);
    let mut out = String::new();
    if auto_interval {
        out.append("Auto: every ");
    } else {
        out.append("Every ");
    }
    out.append(every.as_str());
    assert(out@ =~= badge(auto_interval, current_interval_ms));
    out
}

/// The explanation of the pace.
pub open spec fn pace(
    auto_interval: bool,
    current_interval_ms: u32,
    clean_needed: Option<u32>,
) -> Seq<char> {
    let every = written_interval(current_interval_ms);
    if !auto_interval {
        "Pinging each target every "@ + every + ", one at a time spread across the interval."@
    } else {
        match clean_needed {
            Some(n) => "Auto: pinging every "@ + every + " after a drop - "@ + text::decimal(
                n as nat,
            ) + (if n == 1 {
                " more clean round to slow down."@
            } else {
                " more clean rounds to slow down."@
            }),
            None => "Auto: pinging every "@ + every
                + " while healthy - any drop switches to 1 s."@,
        }
    }
}

/// The longer explanation shown in the settings panel.
pub fn pace_status(
    auto_interval: bool,
    current_interval_ms: u32,
    clean_needed: Option<u32>,
) -> (r: String)
    ensures
        r@ == pace(auto_interval, current_interval_ms, clean_needed),
{
    let every = fmt_interval(current_interval_ms);
    let mut out = String::new();
    if !auto_interval {
        out.append("Pinging each target every ");
        out.append(every.as_str());
        out.append(", one at a time spread across the interval.");
    } else {
        out.append("Auto: pinging every ");
        out.append(every.as_str());
        match clean_needed {
            Some(n) => {
                out.append(" after a drop - ");
                text::push_decimal(&mut out, n as u64);
                if n == 1 {
                    out.append(" more clean round to slow down.");
                } else {
                    out.append(" more clean rounds to slow down.");
                }
            },
            None => {
                out.append(" while healthy - any drop switches to 1 s.");
            },
        }
    }
    assert(out@ =~= pace(auto_interval, current_interval_ms, clean_needed));
    out
}

// ---------------------------------------------------------------------------
// Laws
// ---------------------------------------------------------------------------
/// The highest loss is that of some target, and no target's is higher.
pub proof fn law_worst_is_the_highest(
    samples: Seq<SampleView>,
    targets: Seq<TargetView>,
    cutoff: int,
)
    ensures
        0 <= worst_loss(samples, targets, cutoff) <= 100,
        forall|i: int|
            0 <= i < targets.len() ==> loss::loss_percent(
                samples,
                (#[trigger] targets[i]).name,
                cutoff,
            ) <= worst_loss(samples, targets, cutoff),
        worst_loss(samples, targets, cutoff) > 0 ==> exists|i: int|
            0 <= i < targets.len() && loss::loss_percent(
                samples,
                (#[trigger] targets[i]).name,
                cutoff,
            ) == worst_loss(samples, targets, cutoff),
    decreases targets.len(),
{
    if targets.len() > 0 {
        let shorter = targets.drop_last();
        law_worst_is_the_highest(samples, shorter, cutoff);
        loss::law_loss_is_a_percentage(samples, targets.last().name, cutoff);
        assert forall|i: int| 0 <= i < targets.len() implies loss::loss_percent(
            samples,
            (#[trigger] targets[i]).name,
            cutoff,
        ) <= worst_loss(samples, targets, cutoff) by {
            if i < shorter.len() {
                assert(shorter[i] == targets[i]);
            }
        }
        if worst_loss(samples, targets, cutoff) > 0 {
            if worst_loss(samples, shorter, cutoff) == worst_loss(samples, targets, cutoff) {
                let i = choose|i: int|
                    0 <= i < shorter.len() && loss::loss_percent(
                        samples,
                        (#[trigger] shorter[i]).name,
                        cutoff,
                    ) == worst_loss(samples, shorter, cutoff);
                assert(targets[i] == shorter[i]);
            } else {
                assert(targets[targets.len() - 1] == targets.last());
            }
        }
    }
}

/// A target that was measured shows its own newest reading, however many samples
/// of other targets came after it.
pub proof fn law_card_shows_its_own_reading(
    samples: Seq<SampleView>,
    others: Seq<SampleView>,
    name: Seq<char>,
)
    requires
        forall|i: int| 0 <= i < others.len() ==> !(#[trigger] others[i]).v.contains_key(name),
    ensures
        newest_reading(samples + others, name) == newest_reading(samples, name),
    decreases others.len(),
{
    if others.len() > 0 {
        let shorter = others.drop_last();
        assert forall|i: int| 0 <= i < shorter.len() implies !(
        #[trigger] shorter[i]).v.contains_key(name) by {
            assert(shorter[i] == others[i]);
        }
        law_card_shows_its_own_reading(samples, shorter, name);
        assert((samples + others).drop_last() =~= samples + shorter);
        assert((samples + others).last() == others[others.len() - 1]);
    } else {
        assert(samples + others =~= samples);
    }
}

/// The newest reading of a target is that of the last sample that measured it, be it
/// a reply or a drop, and there is none where no sample did. Its card shows that
/// reading: a drop shows no latency, whatever the target answered before.
pub proof fn law_card_shows_the_last_measurement(
    samples: Seq<SampleView>,
    t: TargetView,
    index: int,
    cutoff: int,
    i: int,
)
    requires
        0 <= i < samples.len(),
        samples[i].v.dom().contains(t.name),
        forall|j: int| i < j < samples.len() ==> !(#[trigger] samples[j]).v.dom().contains(t.name),
    ensures
        newest_reading(samples, t.name) == Some(samples[i].v[t.name]),
        card_of(samples, t, index, cutoff).current == samples[i].v[t.name],
    decreases samples.len(),
{
    if i < samples.len() - 1 {
        let shorter = samples.drop_last();
        assert(!samples[samples.len() - 1].v.dom().contains(t.name));
        assert forall|j: int| i < j < shorter.len() implies !(
        #[trigger] shorter[j]).v.dom().contains(t.name) by {
            assert(shorter[j] == samples[j]);
        }
        law_card_shows_the_last_measurement(shorter, t, index, cutoff, i);
    }
}

/// A sample that measured a target gives its newest reading, also where it is a drop,
/// and one that did not leaves it as it was. Without samples there is none.
pub proof fn law_newest_reading_follows_the_samples(
    samples: Seq<SampleView>,
    sample: SampleView,
    name: Seq<char>,
)
    ensures
        newest_reading(Seq::empty(), name) is None,
        sample.v.dom().contains(name) ==> newest_reading(samples.push(sample), name) == Some(
            sample.v[name],
        ),
        !sample.v.dom().contains(name) ==> newest_reading(samples.push(sample), name)
            == newest_reading(samples, name),
{
    assert(samples.push(sample).drop_last() =~= samples);
}

/// A card tells of its own target: its name, its address and its place in the list,
/// its loss in the window and the samples that this rests on. A target that no sample
/// measured shows no latency.
pub proof fn law_card_tells_of_its_target(
    samples: Seq<SampleView>,
    t: TargetView,
    index: int,
    cutoff: int,
)
    ensures
        ({
            let card = card_of(samples, t, index, cutoff);
            &&& card.name == t.name
            &&& card.ip == t.ip
            &&& card.index == index
            &&& card.loss == loss::loss_percent(samples, t.name, cutoff)
            &&& card.measured == loss::measured(samples, t.name, cutoff)
            &&& (forall|i: int|
                0 <= i < samples.len() ==> !(#[trigger] samples[i]).v.dom().contains(t.name))
                ==> card.current is None
        }),
{
    if forall|i: int|
        0 <= i < samples.len() ==> !(#[trigger] samples[i]).v.dom().contains(t.name) {
        lemma_never_measured(samples, t.name);
    }
}

/// A target that no sample measured has no newest reading.
proof fn lemma_never_measured(samples: Seq<SampleView>, name: Seq<char>)
    requires
        forall|i: int| 0 <= i < samples.len() ==> !(#[trigger] samples[i]).v.dom().contains(name),
    ensures
        newest_reading(samples, name) is None,
    decreases samples.len(),
{
    if samples.len() > 0 {
        let shorter = samples.drop_last();
        assert(!samples[samples.len() - 1].v.dom().contains(name));
        assert forall|i: int| 0 <= i < shorter.len() implies !(
        #[trigger] shorter[i]).v.dom().contains(name) by {
            assert(shorter[i] == samples[i]);
        }
        lemma_never_measured(shorter, name);
    }
}

/// The status line says that all is well at no loss, and otherwise tells the loss:
/// as minor below a tenth, and as bad from there on.
pub proof fn law_status_tells_the_loss(worst_loss: u32)
    ensures
        worst_loss == 0 ==> health(worst_loss) is Healthy && status(worst_loss)
            == "All hops healthy"@,
        1 <= worst_loss <= 9 ==> health(worst_loss) is Minor && status(worst_loss)
            == "Minor loss ("@ + text::decimal(worst_loss as nat) + "%)"@,
        worst_loss >= 10 ==> health(worst_loss) is Bad && status(worst_loss)
            == "Packet loss up to "@ + text::decimal(worst_loss as nat) + "%"@,
{
}

/// An interval is written as the whole number of seconds that is nearest to it, and a
/// half goes up.
pub proof fn law_intervals_are_written_in_seconds(ms: u32, seconds: nat)
    requires
        seconds * 1000 <= ms + 500 < (seconds + 1) * 1000,
    ensures
        written_interval(ms) == text::decimal(seconds) + " s"@,
{
    assert((ms + 500) / 1000 == seconds);
}

/// The explanation of the pace tells the interval in force, and in auto mode after a
/// drop also how many clean rounds are still needed.
pub proof fn law_pace_tells_the_countdown(current_interval_ms: u32, needed: Option<u32>, n: u32)
    ensures
        pace(false, current_interval_ms, needed) == "Pinging each target every "@
            + written_interval(current_interval_ms)
            + ", one at a time spread across the interval."@,
        pace(true, current_interval_ms, None) == "Auto: pinging every "@ + written_interval(
            current_interval_ms,
        ) + " while healthy - any drop switches to 1 s."@,
        pace(true, current_interval_ms, Some(n)) == "Auto: pinging every "@ + written_interval(
            current_interval_ms,
        ) + " after a drop - "@ + text::decimal(n as nat) + if n == 1 {
            " more clean round to slow down."@
        } else {
            " more clean rounds to slow down."@
        },
{
}

/// The status is green at no loss, amber below a tenth and red from there on.
pub proof fn law_color_tells_the_loss(loss_pct: u32)
    ensures
        loss_pct == 0 ==> health_color(loss_pct) == (0x3fu8, 0xb9u8, 0x50u8),
        1 <= loss_pct <= 9 ==> health_color(loss_pct) == (0xd2u8, 0x99u8, 0x22u8),
        loss_pct >= 10 ==> health_color(loss_pct) == (0xf8u8, 0x51u8, 0x49u8),
{
}

/// The badge tells the interval in force, and whether the monitor picked it.
pub proof fn law_badge_tells_the_interval(current_interval_ms: u32)
    ensures
        badge(true, current_interval_ms) == "Auto: every "@ + written_interval(
            current_interval_ms,
        ),
        badge(false, current_interval_ms) == "Every "@ + written_interval(current_interval_ms),
{
}

/// A list of cards says each of them, in order.
pub proof fn law_cards_say_what_they_hold(cards: Seq<CardInfo>, i: int)
    requires
        0 <= i < cards.len(),
    ensures
        card_views(cards).len() == cards.len(),
        card_views(cards)[i].name == cards[i].name@,
        card_views(cards)[i].ip == cards[i].ip@,
        card_views(cards)[i].index == cards[i].index,
        card_views(cards)[i].current == cards[i].current,
        card_views(cards)[i].loss == cards[i].loss,
        card_views(cards)[i].measured == cards[i].measured,
{
}

} // verus!
