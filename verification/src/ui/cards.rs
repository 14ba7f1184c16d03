//! Per-target status cards: the texts, and what the sparkline draws.

use vstd::prelude::*;
use vstd::string::*;
use crate::config::Target;
use crate::history::History;
use crate::history::SampleView;
use crate::text;
use crate::ui::chart;

verus! {

/// The height of a sparkline.
pub const SPARK_H: i32 = 40;

/// The least width of a sparkline.
pub const MIN_SPARK_W: i32 = 80;

/// What a sparkline is drawn for. It is drawn again only when one of these
/// changes.
#[derive(Clone, Copy, PartialEq, Eq, Structural)]
pub struct SparkProps {
    pub index: usize,
    pub revision: u64,
    pub window_mins: i64,
    pub width: i32,
}

impl SparkProps {
    /// The width that is drawn.
    pub fn drawn_width(&self) -> (r: i32)
        ensures
            r == (if self.width < MIN_SPARK_W {
                MIN_SPARK_W
            } else {
                self.width
            }),
    {
        if self.width < MIN_SPARK_W {
            MIN_SPARK_W
        } else {
            self.width
        }
    }
}

/// A latency in writing.
pub open spec fn written_latency(current: Option<u32>) -> Seq<char> {
    match current {
        Some(ms) => text::decimal(ms as nat) + " ms"@,
        None => "-- drop"@,
    }
}

/// A loss in writing, with the number of samples it rests on.
pub open spec fn written_loss(loss_pct: u32, sample_count: usize) -> Seq<char> {
    text::decimal(loss_pct as nat) + "% loss ("@ + text::decimal(sample_count as nat)
        + " samples)"@
}

/// The current latency in writing.
pub fn latency_text(current: Option<u32>) -> (r: String)
    ensures
        r@ == written_latency(current),
{
    match current {
        Some(ms) => {
            let mut out = String::new();
            text::push_decimal(&mut out, ms as u64);
            out.append(" ms");
            assert(out@ =~= text::decimal(ms as nat) + " ms"@);
            out
        },
        None => "-- drop".to_owned(),
    }
}

/// The loss in writing, with the number of samples it rests on.
pub fn loss_text(loss_pct: u32, sample_count: usize) -> (r: String)
    ensures
        r@ == written_loss(loss_pct, sample_count),
{
    let mut out = String::new();
    text::push_decimal(&mut out, loss_pct as u64);
    out.append("% loss (");
    text::push_decimal(&mut out, sample_count as u64);
    out.append(" samples)");
    assert(out@ =~= written_loss(loss_pct, sample_count));
    out
}

/// What a sample says of a name: nothing, a drop, or a reading.
pub open spec fn value_of(sample: SampleView, name: Seq<char>) -> Option<Option<u32>> {
    if sample.v.contains_key(name) {
        Some(sample.v[name])
    } else {
        None
    }
}

/// What the samples taken from `cutoff` on say of a name, in order.
pub open spec fn values_since(
    samples: Seq<SampleView>,
    name: Seq<char>,
    cutoff: int,
) -> Seq<Option<Option<u32>>>
    decreases samples.len(),
{
    if samples.len() == 0 {
        Seq::empty()
    } else {
        let before = values_since(samples.drop_last(), name, cutoff);
        if samples.last().t >= cutoff {
            before.push(value_of(samples.last(), name))
        } else {
            before
        }
    }
}

/// What the sparkline of the target at `index` is drawn from: what the samples
/// of the window say of it, and nothing where there is no such target.
pub fn spark_values(
    history: &History,
    targets: &[Target],
    index: usize,
    cutoff: i64,
) -> (r: Vec<Option<Option<u32>>>)
    ensures
        r@ == (if index < targets@.len() {
            values_since(history@, targets@[index as int].name@, cutoff as int)
        } else {
            Seq::empty()
        }),
{
    let mut out: Vec<Option<Option<u32>>> = Vec::new();
    if index >= targets.len() {
        return out;
    }
    let ghost all = history@;
    let ghost name = targets@[index as int].name@;
    let mut i: usize = 0;
    assert(all.take(0) =~= Seq::<SampleView>::empty());
    while i < history.samples.len()
        invariant
            i <= history.samples@.len(),
            index < targets@.len(),
            all == history@,
            name == targets@[index as int].name@,
            out@ == values_since(all.take(i as int), name, cutoff as int),
        decreases history.samples@.len() - i,
    {
        proof {
            assert(all.take(i + 1).drop_last() =~= all.take(i as int));
            assert(all.take(i + 1).last() == history.samples@[i as int]@);
        }
        let sample = &history.samples[i];
        if sample.t >= cutoff {
            let value: Option<Option<u32>> = match sample.v.get(targets[index].name.as_str()) {
                Some(reading) => Some(*reading),
                None => None,
            };
            out.push(value);
        }
        i += 1;
    }
    assert(all.take(all.len() as int) =~= all);
    out
}

/// A value is a reading that is not a drop.
pub open spec fn is_reading(value: Option<Option<u32>>) -> bool {
    value matches Some(Some(_))
}

/// The largest reading, and at least the floor of the scale.
pub fn spark_scale(values: &[Option<Option<u32>>]) -> (r: u32)
    ensures
        r >= chart::MIN_SCALE_MS,
        forall|i: int| 0 <= i < values@.len() ==> chart::at_most(#[trigger] values@[i], r),
        r > chart::MIN_SCALE_MS ==> values@.contains(Some(Some(r))),
{
    let mut max: u32 = chart::MIN_SCALE_MS;
    let mut i: usize = 0;
    while i < values.len()
        invariant
            i <= values@.len(),
            max >= chart::MIN_SCALE_MS,
            forall|j: int| 0 <= j < i ==> chart::at_most(#[trigger] values@[j], max),
            max > chart::MIN_SCALE_MS ==> exists|j: int|
                0 <= j < i && #[trigger] values@[j] == Some(Some(max)),
        decreases values@.len() - i,
    {
        match values[i] {
            Some(Some(ms)) => {
                if ms > max {
                    max = ms;
                    assert(values@[i as int] == Some(Some(max)));
                }
            },
            _ => {},
        }
        i += 1;
    }
    max
}

/// The positions that are joined to the one before: both are readings. A drop
/// and a sample without data both break the line.
pub fn spark_lines(values: &[Option<Option<u32>>]) -> (r: Vec<usize>)
    ensures
        chart::ints(r@) == chart::positions(
            values@.len(),
            |i: int| i > 0 && is_reading(values@[i - 1]) && is_reading(values@[i]),
        ),
        forall|i: int| #[trigger]
            chart::ints(r@).contains(i) <==> {
                &&& 0 < i < values@.len()
                &&& values@[i - 1] matches Some(Some(_))
                &&& values@[i] matches Some(Some(_))
            },
{
    let ghost p = |i: int| i > 0 && is_reading(values@[i - 1]) && is_reading(values@[i]);
    let mut out: Vec<usize> = Vec::new();
    let mut joined = false;
    let mut i: usize = 0;
    assert(chart::ints(out@) =~= Seq::<int>::empty());
    while i < values.len()
        invariant
            i <= values@.len(),
            p == (|i: int| i > 0 && is_reading(values@[i - 1]) && is_reading(values@[i])),
            joined == (i > 0 && is_reading(values@[i - 1])),
            chart::ints(out@) == chart::positions(i as nat, p),
        decreases values@.len() - i,
    {
        let here = match values[i] {
            Some(Some(_ms)) => true,
            _ => false,
        };
        if joined && here {
            let ghost before = chart::ints(out@);
            out.push(i);
            assert(chart::ints(out@) =~= before.push(i as int));
        }
        assert(chart::positions((i + 1) as nat, p) == (if p(i as int) {
            chart::positions(i as nat, p).push(i as int)
        } else {
            chart::positions(i as nat, p)
        }));
        joined = here;
        i += 1;
    }
    proof {
        chart::law_positions_are_in_order(values@.len(), p);
    }
    out
}

/// The positions of dropped packets.
pub fn spark_drops(values: &[Option<Option<u32>>]) -> (r: Vec<usize>)
    ensures
        chart::ints(r@) == chart::positions(
            values@.len(),
            |i: int| values@[i] == Some(None::<u32>),
        ),
        forall|i: int| #[trigger]
            chart::ints(r@).contains(i) <==> 0 <= i < values@.len() && values@[i] == Some(
                None::<u32>,
            ),
{
    let ghost p = |i: int| values@[i] == Some(None::<u32>);
    let mut out: Vec<usize> = Vec::new();
    let mut i: usize = 0;
    assert(chart::ints(out@) =~= Seq::<int>::empty());
    while i < values.len()
        invariant
            i <= values@.len(),
            p == (|i: int| values@[i] == Some(None::<u32>)),
            chart::ints(out@) == chart::positions(i as nat, p),
        decreases values@.len() - i,
    {
        match values[i] {
            Some(None) => {
                let ghost before = chart::ints(out@);
                out.push(i);
                assert(chart::ints(out@) =~= before.push(i as int));
            },
            _ => {},
        }
        assert(chart::positions((i + 1) as nat, p) == (if p(i as int) {
            chart::positions(i as nat, p).push(i as int)
        } else {
            chart::positions(i as nat, p)
        }));
        i += 1;
    }
    proof {
        chart::law_positions_are_in_order(values@.len(), p);
    }
    out
}

// ---------------------------------------------------------------------------
// Laws
// ---------------------------------------------------------------------------
/// The sparkline has one value for each sample of the window, whatever the
/// target, so those of all targets line up.
pub proof fn law_sparklines_line_up(
    samples: Seq<SampleView>,
    name: Seq<char>,
    other: Seq<char>,
    cutoff: int,
)
    ensures
        values_since(samples, name, cutoff).len() == values_since(samples, other, cutoff).len(),
    decreases samples.len(),
{
    if samples.len() > 0 {
        law_sparklines_line_up(samples.drop_last(), name, other, cutoff);
    }
}

/// Each sample from the cutoff on adds what it says of the name at the end: nothing where
/// it did not measure it, and otherwise its reading, a drop as well as any latency. Older
/// samples add nothing.
pub proof fn law_sparkline_follows_the_samples(
    samples: Seq<SampleView>,
    sample: SampleView,
    name: Seq<char>,
    cutoff: int,
)
    ensures
        ({
            let before = values_since(samples, name, cutoff);
            let after = values_since(samples.push(sample), name, cutoff);
            &&& values_since(Seq::empty(), name, cutoff).len() == 0
            &&& sample.t < cutoff ==> after == before
            &&& sample.t >= cutoff && sample.v.dom().contains(name) ==> after == before.push(
                Some(sample.v[name]),
            )
            &&& sample.t >= cutoff && !sample.v.dom().contains(name) ==> after == before.push(None)
        }),
{
    assert(samples.push(sample).drop_last() =~= samples);
}

/// A reply of any latency is a reading; a drop is none, and neither is a sample without
/// data.
pub proof fn law_every_reply_is_a_reading(ms: u32)
    ensures
        is_reading(Some(Some(ms))),
        !is_reading(Some(None)),
        !is_reading(None),
{
}

/// A card tells the latency in ms, or that the packet was dropped, and its loss with the
/// number of samples.
pub proof fn law_card_texts(ms: u32, loss_pct: u32, sample_count: usize)
    ensures
        written_latency(Some(ms)) == text::decimal(ms as nat) + " ms"@,
        written_latency(None) == "-- drop"@,
        written_loss(loss_pct, sample_count) == text::decimal(loss_pct as nat) + "% loss ("@
            + text::decimal(sample_count as nat) + " samples)"@,
{
}

} // verus!
