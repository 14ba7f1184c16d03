//! What the latency chart draws: which samples are in view, which points of a
//! series are joined, where packets were dropped, and how the axes are labelled.

use vstd::prelude::*;
use vstd::string::*;
use crate::config;
use crate::config::Target;
use crate::config::TargetView;
use crate::history;
use crate::history::History;
use crate::history::Sample;
use crate::history::SampleView;
use crate::text;

verus! {

/// Fallback size, used before the real layout size is known.
pub const W: i32 = 960;

pub const H: i32 = 320;

/// Series colors, as red, green and blue.
pub const COLORS: [(u8, u8, u8); 5] = [
    (0x58, 0xa6, 0xff),
    (0x3f, 0xb9, 0x50),
    (0xd2, 0x99, 0x22),
    (0xf7, 0x78, 0xba),
    (0xa3, 0x71, 0xf7),
];

/// The latency, in ms, that the vertical scale shows at least.
pub const MIN_SCALE_MS: u32 = 50;

/// What a chart is drawn for. It is drawn again only when one of these changes.
/// `frame` advances on the UI timer, so the plot scrolls even while no new
/// sample has landed.
#[derive(Clone, Copy, PartialEq, Eq, Structural)]
pub struct ChartProps {
    pub frame: u64,
    pub window_mins: i64,
    pub width: i32,
    pub height: i32,
}

/// A size, and the least where it is below that.
pub open spec fn held_size(size: int, least: int) -> int {
    if size < least {
        least
    } else {
        size
    }
}

impl ChartProps {
    /// The size that is drawn: never below what the axes need.
    pub fn drawn_size(&self) -> (r: (i32, i32))
        ensures
            r.0 == held_size(self.width as int, 160),
            r.1 == held_size(self.height as int, 120),
    {
        let w: i32 = if self.width < 160 {
            160
        } else {
            self.width
        };
        let h: i32 = if self.height < 120 {
            120
        } else {
            self.height
        };
        (w, h)
    }
}

/// The color of a series; they repeat.
pub open spec fn color_of(index: int) -> (u8, u8, u8) {
    COLORS@[index % 5]
}

/// The color of a series; they repeat.
pub fn series_color(index: usize) -> (r: (u8, u8, u8))
    ensures
        r == color_of(index as int),
{
    COLORS[index % 5]
}

// ---------------------------------------------------------------------------
// Positions
// ---------------------------------------------------------------------------
/// The positions below `n` with a property, in order.
pub open spec fn positions(n: nat, p: spec_fn(int) -> bool) -> Seq<int>
    decreases n,
{
    if n == 0 {
        Seq::empty()
    } else {
        let before = positions((n - 1) as nat, p);
        if p(n - 1) {
            before.push(n - 1)
        } else {
            before
        }
    }
}

/// A list of positions as integers.
pub open spec fn ints(list: Seq<usize>) -> Seq<int> {
    list.map_values(|i: usize| i as int)
}

// ---------------------------------------------------------------------------
// The samples in view
// ---------------------------------------------------------------------------
/// One sample of the chart. Each value is `None` if the target wasn't measured in
/// that sample (they are pinged in turn, so most samples cover a single target),
/// `Some(None)` for a dropped packet, or `Some(Some(ms))` for a reading.
pub struct ChartSample {
    pub t: i64,
    pub vals: Vec<Option<Option<u32>>>,
}

/// What a sample of the chart says.
pub struct ChartSampleView {
    pub t: int,
    pub vals: Seq<Option<Option<u32>>>,
}

impl View for ChartSample {
    type V = ChartSampleView;

    open spec fn view(&self) -> ChartSampleView {
        ChartSampleView { t: self.t as int, vals: self.vals@ }
    }
}

/// What each sample of a list says.
pub open spec fn sample_views(samples: Seq<ChartSample>) -> Seq<ChartSampleView> {
    samples.map_values(|s: ChartSample| s@)
}

/// What the chart needs. The x axis always spans the whole of
/// `t_start..t_end`, whether or not there is data to fill it, so the plot
/// scrolls rather than stretching.
pub struct ChartData {
    pub names: Vec<String>,
    pub samples: Vec<ChartSample>,
    pub t_start: i64,
    pub t_end: i64,
}

/// The names of a list of targets.
pub open spec fn target_names(targets: Seq<TargetView>) -> Seq<Seq<char>> {
    targets.map_values(|t: TargetView| t.name)
}

/// The number of samples before the first one taken at or after `cutoff`; all of
/// them where there is no such sample.
pub open spec fn leading_before(times: Seq<int>, cutoff: int) -> nat
    decreases times.len(),
{
    if times.len() == 0 || times[0] >= cutoff {
        0
    } else {
        1 + leading_before(times.drop_first(), cutoff)
    }
}

/// The times of a list of samples.
pub open spec fn times(samples: Seq<SampleView>) -> Seq<int> {
    samples.map_values(|s: SampleView| s.t)
}

/// One of the samples from `from` up to `to` measured a name.
pub open spec fn measured(samples: Seq<SampleView>, name: Seq<char>, from: int, to: int) -> bool {
    exists|j: int| from <= j < to && (#[trigger] samples[j]).v.contains_key(name)
}

/// Sample `i` is the last from before position `first` to measure a name.
pub open spec fn last_before(
    samples: Seq<SampleView>,
    name: Seq<char>,
    first: int,
    i: int,
) -> bool {
    &&& 0 <= i < first
    &&& samples[i].v.contains_key(name)
    &&& !measured(samples, name, i + 1, first)
}

/// Sample `i` is carried into the window that begins at position `first`: it is
/// the last from before it to measure one of the series.
pub open spec fn carried_in(
    samples: Seq<SampleView>,
    names: Seq<Seq<char>>,
    first: int,
    i: int,
) -> bool {
    exists|n: int| 0 <= n < names.len() && #[trigger] last_before(samples, names[n], first, i)
}

/// The positions of the samples that are drawn: those that are carried in, and
/// then all from the beginning of the window on.
pub open spec fn drawn(samples: Seq<SampleView>, names: Seq<Seq<char>>, first: nat) -> Seq<int> {
    positions(first, |i: int| carried_in(samples, names, first as int, i)) + Seq::new(
        (samples.len() - first) as nat,
        |i: int| first + i,
    )
}

/// What a sample says of each series.
pub open spec fn chart_sample(sample: SampleView, names: Seq<Seq<char>>) -> ChartSampleView {
    ChartSampleView {
        t: sample.t,
        vals: names.map_values(
            |name: Seq<char>|
                if sample.v.contains_key(name) {
                    Some(sample.v[name])
                } else {
                    None
                },
        ),
    }
}

/// The samples of the chart.
pub open spec fn chart_samples(
    samples: Seq<SampleView>,
    names: Seq<Seq<char>>,
    t_start: int,
) -> Seq<ChartSampleView> {
    let first = leading_before(times(samples), t_start);
    drawn(samples, names, first).map_values(|i: int| chart_sample(samples[i], names))
}

/// What `leading_before` counts: every sample before it is older than the
/// cutoff, and the one it points at is not.
proof fn lemma_leading_before(times: Seq<int>, cutoff: int)
    ensures
        leading_before(times, cutoff) <= times.len(),
        forall|i: int|
            0 <= i < leading_before(times, cutoff) ==> #[trigger] times[i] < cutoff,
        leading_before(times, cutoff) < times.len() ==> times[leading_before(
            times,
            cutoff,
        ) as int] >= cutoff,
    decreases times.len(),
{
    if times.len() > 0 && times[0] < cutoff {
        let rest = times.drop_first();
        lemma_leading_before(rest, cutoff);
        assert forall|i: int| 0 <= i < leading_before(times, cutoff) implies #[trigger] times[i]
            < cutoff by {
            if i > 0 {
                assert(times[i] == rest[i - 1]);
            }
        }
    }
}

/// The first position whose sample is not older than the cutoff is the only one
/// with that property.
proof fn lemma_leading_before_unique(times: Seq<int>, cutoff: int, n: nat)
    requires
        n <= times.len(),
        forall|i: int| 0 <= i < n ==> #[trigger] times[i] < cutoff,
        n < times.len() ==> times[n as int] >= cutoff,
    ensures
        leading_before(times, cutoff) == n,
{
    lemma_leading_before(times, cutoff);
    let m = leading_before(times, cutoff);
    if m < n {
        assert(times[m as int] < cutoff);
    } else if n < m {
        assert(times[n as int] < cutoff);
    }
}

/// One sample further back.
proof fn lemma_measured_step(samples: Seq<SampleView>, name: Seq<char>, k: int, first: int)
    requires
        0 <= k < first,
    ensures
        measured(samples, name, k, first) == (measured(samples, name, k + 1, first)
            || samples[k].v.contains_key(name)),
{
    if measured(samples, name, k, first) {
        let j = choose|j: int| k <= j < first && (#[trigger] samples[j]).v.contains_key(name);
        if j > k {
            assert(k + 1 <= j < first && samples[j].v.contains_key(name));
        }
    }
    if measured(samples, name, k + 1, first) {
        let j = choose|j: int| k + 1 <= j < first && (#[trigger] samples[j]).v.contains_key(name);
        assert(k <= j < first && samples[j].v.contains_key(name));
    }
}

/// Where every series is measured from position `i` on, no sample from before it
/// is carried in.
proof fn lemma_none_carried_in(
    samples: Seq<SampleView>,
    names: Seq<Seq<char>>,
    first: int,
    i: int,
    k: int,
)
    requires
        0 <= k < i <= first,
        forall|n: int| 0 <= n < names.len() ==> measured(samples, #[trigger] names[n], i, first),
    ensures
        !carried_in(samples, names, first, k),
{
    if carried_in(samples, names, first, k) {
        let n = choose|n: int|
            0 <= n < names.len() && #[trigger] last_before(samples, names[n], first, k);
        assert(measured(samples, names[n], i, first));
        let j = choose|j: int|
            i <= j < first && (#[trigger] samples[j]).v.contains_key(names[n]);
        assert(k + 1 <= j < first && samples[j].v.contains_key(names[n]));
    }
}

/// The names of a list of targets, in order.
fn names_of(targets: &[Target]) -> (r: Vec<String>)
    ensures
        text::texts(r@) == target_names(config::views(targets@)),
{
    let ghost all = target_names(config::views(targets@));
    let mut out: Vec<String> = Vec::new();
    let mut i: usize = 0;
    assert(text::texts(out@) =~= all.take(0));
    while i < targets.len()
        invariant
            i <= targets@.len(),
            all == target_names(config::views(targets@)),
            text::texts(out@) == all.take(i as int),
        decreases targets@.len() - i,
    {
        let ghost before = out@;
        let name = targets[i].name.clone();
        out.push(name);
        proof {
            assert(all[i as int] == targets@[i as int].name@);
            assert(text::texts(out@) =~= text::texts(before).push(name@));
            assert(all.take(i + 1) =~= all.take(i as int).push(all[i as int]));
        }
        i += 1;
    }
    assert(all.take(all.len() as int) =~= all);
    out
}

/// What a sample says of each series.
fn chart_sample_of(sample: &Sample, names: &Vec<String>) -> (r: ChartSample)
    ensures
        r@ == chart_sample(sample@, text::texts(names@)),
{
    let ghost all = chart_sample(sample@, text::texts(names@)).vals;
    let mut vals: Vec<Option<Option<u32>>> = Vec::new();
    let mut i: usize = 0;
    assert(vals@ =~= all.take(0));
    while i < names.len()
        invariant
            i <= names@.len(),
            all == chart_sample(sample@, text::texts(names@)).vals,
            vals@ == all.take(i as int),
        decreases names@.len() - i,
    {
        assert(text::texts(names@)[i as int] == names@[i as int]@);
        let value: Option<Option<u32>> = match sample.v.get(names[i].as_str()) {
            Some(reading) => Some(*reading),
            None => None,
        };
        assert(value == all[i as int]);
        vals.push(value);
        assert(all.take(i + 1) =~= all.take(i as int).push(all[i as int]));
        i += 1;
    }
    assert(all.take(all.len() as int) =~= all);
    ChartSample { t: sample.t, vals }
}

/// The positions of the samples from before the window that are carried in, so
/// that each series' line enters at the left edge instead of starting part-way
/// across the plot.
fn carried(history: &History, names: &Vec<String>, first: usize) -> (r: Vec<usize>)
    requires
        first <= history.samples@.len(),
    ensures
        ints(r@) == positions(
            first as nat,
            |i: int| carried_in(history@, text::texts(names@), first as int, i),
        ),
        forall|j: int| 0 <= j < r@.len() ==> (#[trigger] r@[j]) < first,
{
    let ghost all = history@;
    let ghost series = text::texts(names@);
    let ghost p = |i: int| carried_in(all, series, first as int, i);
    let count: usize = names.len();
    let mut met: Vec<bool> = Vec::new();
    while met.len() < count
        invariant
            met@.len() <= count,
            forall|n: int| 0 <= n < met@.len() ==> !#[trigger] met@[n],
        decreases count - met@.len(),
    {
        met.push(false);
    }
    let mut back: Vec<usize> = Vec::new();
    let mut i: usize = first;
    let mut waiting = count > 0;
    proof {
        assert(positions_between(first as nat, first as nat, p) =~= Seq::<int>::empty());
        assert(ints(back@).reverse() =~= Seq::<int>::empty());
        if waiting {
            assert(!met@[0]);
        }
    }
    while i > 0 && waiting
        invariant
            i <= first <= history.samples@.len(),
            all == history@,
            series == text::texts(names@),
            p == (|i: int| carried_in(all, series, first as int, i)),
            count == names@.len(),
            met@.len() == count,
            forall|n: int|
                0 <= n < count ==> (#[trigger] met@[n]) == measured(
                    all,
                    series[n],
                    i as int,
                    first as int,
                ),
            waiting == exists|n: int| 0 <= n < count && !#[trigger] met@[n],
            ints(back@).reverse() == positions_between(i as nat, first as nat, p),
            forall|j: int| 0 <= j < back@.len() ==> (#[trigger] back@[j]) < first,
        decreases i,
    {
        let k: usize = i - 1;
        let sample = &history.samples[k];
        assert(all[k as int] == sample@);
        let mut fresh = false;
        waiting = false;
        let mut n: usize = 0;
        while n < count
            invariant
                n <= count,
                count == names@.len(),
                met@.len() == count,
                k < first <= history.samples@.len(),
                all == history@,
                series == text::texts(names@),
                all[k as int] == sample@,
                forall|m: int|
                    0 <= m < n ==> (#[trigger] met@[m]) == measured(
                        all,
                        series[m],
                        k as int,
                        first as int,
                    ),
                forall|m: int|
                    n <= m < count ==> (#[trigger] met@[m]) == measured(
                        all,
                        series[m],
                        k + 1,
                        first as int,
                    ),
                fresh == exists|m: int|
                    0 <= m < n && #[trigger] last_before(all, series[m], first as int, k as int),
                waiting == exists|m: int| 0 <= m < n && !#[trigger] met@[m],
            decreases count - n,
        {
            let ghost old_met = met@;
            let ghost old_fresh = fresh;
            let ghost old_waiting = waiting;
            proof {
                assert(series[n as int] == names@[n as int]@);
                lemma_measured_step(all, series[n as int], k as int, first as int);
            }
            if !met[n] {
                match sample.v.get(names[n].as_str()) {
                    Some(_reading) => {
                        met.set(n, true);
                        fresh = true;
                        assert(last_before(all, series[n as int], first as int, k as int));
                    },
                    None => {
                        waiting = true;
                        assert(!met@[n as int]);
                    },
                }
            }
            proof {
                assert(forall|m: int| 0 <= m < n ==> #[trigger] met@[m] == old_met[m]);
                if old_waiting {
                    let m = choose|m: int| 0 <= m < n && !#[trigger] old_met[m];
                    assert(!met@[m]);
                }
            }
            n += 1;
        }
        proof {
            lemma_positions_between_step(k as nat, first as nat, p);
            assert(p(k as int) == fresh);
        }
        if fresh {
            let ghost old_back = ints(back@);
            back.push(k);
            assert(ints(back@) =~= old_back.push(k as int));
            assert(ints(back@).reverse() =~= seq![k as int] + old_back.reverse());
        }
        i = k;
    }
    proof {
        if i > 0 {
            assert forall|n: int| 0 <= n < series.len() implies measured(
                all,
                #[trigger] series[n],
                i as int,
                first as int,
            ) by {
                assert(met@[n]);
            }
            assert forall|j: int| 0 <= j < i implies !#[trigger] p(j) by {
                lemma_none_carried_in(all, series, first as int, i as int, j);
            }
        }
        lemma_none_before(i as nat, first as nat, p);
        lemma_positions_between_all(first as nat, p);
    }
    let out = history::reversed(back);
    assert(ints(out@) =~= ints(back@).reverse());
    out
}

/// The positions from `from` up to `to` with a property, in order.
spec fn positions_between(from: nat, to: nat, p: spec_fn(int) -> bool) -> Seq<int>
    decreases to - from,
{
    if from >= to {
        Seq::empty()
    } else if p(from as int) {
        seq![from as int] + positions_between(from + 1, to, p)
    } else {
        positions_between(from + 1, to, p)
    }
}

/// One position further back.
proof fn lemma_positions_between_step(k: nat, to: nat, p: spec_fn(int) -> bool)
    requires
        k < to,
    ensures
        positions_between(k, to, p) == (if p(k as int) {
            seq![k as int] + positions_between(k + 1, to, p)
        } else {
            positions_between(k + 1, to, p)
        }),
{
}

/// Where no earlier position has the property, starting earlier adds none.
proof fn lemma_none_before(i: nat, to: nat, p: spec_fn(int) -> bool)
    requires
        i <= to,
        forall|j: int| 0 <= j < i ==> !#[trigger] p(j),
    ensures
        positions_between(0, to, p) == positions_between(i, to, p),
    decreases i,
{
    if i > 0 {
        assert(!p(i - 1));
        lemma_none_before((i - 1) as nat, to, p);
    }
}

/// One position more at the end.
proof fn lemma_positions_between_push(from: nat, to: nat, p: spec_fn(int) -> bool)
    requires
        from <= to,
    ensures
        positions_between(from, to + 1, p) == (if p(to as int) {
            positions_between(from, to, p).push(to as int)
        } else {
            positions_between(from, to, p)
        }),
    decreases to - from,
{
    if from == to {
        assert(positions_between(to + 1, to + 1, p) =~= Seq::<int>::empty());
        assert(positions_between(to, to, p) =~= Seq::<int>::empty());
        assert(positions_between(to, to + 1, p) =~= (if p(to as int) {
            seq![to as int]
        } else {
            Seq::empty()
        }));
    } else {
        lemma_positions_between_push(from + 1, to, p);
        assert(positions_between(from, to + 1, p) =~= (if p(to as int) {
            positions_between(from, to, p).push(to as int)
        } else {
            positions_between(from, to, p)
        }));
    }
}

/// From the beginning, they are all the positions with the property.
proof fn lemma_positions_between_all(n: nat, p: spec_fn(int) -> bool)
    ensures
        positions_between(0, n, p) == positions(n, p),
    decreases n,
{
    if n > 0 {
        lemma_positions_between_all((n - 1) as nat, p);
        lemma_positions_between_push(0, (n - 1) as nat, p);
    }
}

/// Takes what the chart needs from the history: the window from `t_start` on,
/// and the readings that are carried in from before it.
pub fn snapshot(history: &History, targets: &[Target], t_start: i64, t_end: i64) -> (r: ChartData)
    ensures
        text::texts(r.names@) == target_names(config::views(targets@)),
        sample_views(r.samples@) == chart_samples(
            history@,
            target_names(config::views(targets@)),
            t_start as int,
        ),
        r.t_start == t_start,
        r.t_end == t_end,
{
    let names = names_of(targets);
    let ghost all = history@;
    let ghost series = text::texts(names@);
    let ghost ts = times(all);
    let n: usize = history.samples.len();
    let mut first: usize = 0;
    while first < n && history.samples[first].t < t_start
        invariant
            n == history.samples@.len(),
            first <= n,
            all == history@,
            ts == times(all),
            forall|i: int| 0 <= i < first ==> #[trigger] ts[i] < t_start,
        decreases n - first,
    {
        assert(ts[first as int] == history.samples@[first as int].t);
        first += 1;
    }
    proof {
        if first < n {
            assert(ts[first as int] == history.samples@[first as int].t);
        }
        lemma_leading_before_unique(ts, t_start as int, first as nat);
    }
    let lead = carried(history, &names, first);
    let ghost shown = drawn(all, series, first as nat);
    let ghost result = chart_samples(all, series, t_start as int);
    proof {
        assert(series.len() == names@.len());
        assert(shown.take(lead@.len() as int) =~= ints(lead@));
        assert(result =~= shown.map_values(|i: int| chart_sample(all[i], series)));
    }
    let mut samples: Vec<ChartSample> = Vec::new();
    let mut i: usize = 0;
    assert(sample_views(samples@) =~= result.take(0));
    while i < lead.len()
        invariant
            i <= lead@.len(),
            all == history@,
            series == text::texts(names@),
            first <= history.samples@.len(),
            shown == drawn(all, series, first as nat),
            shown.len() == lead@.len() + (history.samples@.len() - first),
            shown.take(lead@.len() as int) == ints(lead@),
            result == shown.map_values(|i: int| chart_sample(all[i], series)),
            forall|j: int| 0 <= j < lead@.len() ==> (#[trigger] lead@[j]) < first,
            sample_views(samples@) == result.take(i as int),
        decreases lead@.len() - i,
    {
        let k: usize = lead[i];
        let ghost before = samples@;
        let sample = chart_sample_of(&history.samples[k], &names);
        samples.push(sample);
        proof {
            assert(shown.take(lead@.len() as int)[i as int] == k);
            assert(all[k as int] == history.samples@[k as int]@);
            assert(result[i as int] == sample@);
            assert(sample_views(samples@) =~= sample_views(before).push(sample@));
            assert(result.take(i + 1) =~= result.take(i as int).push(result[i as int]));
        }
        i += 1;
    }
    let mut k: usize = first;
    while k < n
        invariant
            first <= k <= n,
            n == history.samples@.len(),
            all == history@,
            series == text::texts(names@),
            shown == drawn(all, series, first as nat),
            shown.len() == lead@.len() + (n - first),
            ints(lead@) == positions(
                first as nat,
                |i: int| carried_in(all, series, first as int, i),
            ),
            result == shown.map_values(|i: int| chart_sample(all[i], series)),
            sample_views(samples@) == result.take(lead@.len() + (k - first)),
        decreases n - k,
    {
        let ghost before = samples@;
        let ghost at = lead@.len() + (k - first);
        let sample = chart_sample_of(&history.samples[k], &names);
        samples.push(sample);
        proof {
            assert(shown[at] == k);
            assert(all[k as int] == history.samples@[k as int]@);
            assert(result[at] == sample@);
            assert(sample_views(samples@) =~= sample_views(before).push(sample@));
            assert(result.take(at + 1) =~= result.take(at).push(result[at]));
        }
        k += 1;
    }
    assert(result.take(result.len() as int) =~= result);
    ChartData { names, samples, t_start, t_end }
}

// ---------------------------------------------------------------------------
// Drawing
// ---------------------------------------------------------------------------
/// Some series dropped a packet in the sample.
pub open spec fn has_drop(s: ChartSampleView) -> bool {
    exists|i: int| 0 <= i < s.vals.len() && #[trigger] s.vals[i] == Some(None::<u32>)
}

/// The positions of the samples from `t_start` on in which a series dropped a packet, in
/// order.
pub open spec fn marks(samples: Seq<ChartSampleView>, t_start: int) -> Seq<int> {
    positions(samples.len(), |i: int| samples[i].t >= t_start && has_drop(samples[i]))
}

/// The reading of a series in a sample, where there is one.
pub open spec fn reading(s: ChartSampleView, series: int) -> Option<Option<u32>> {
    if series < s.vals.len() {
        s.vals[series]
    } else {
        None
    }
}

/// The position, before `n`, of the last sample that measured the series.
pub open spec fn last_measured(samples: Seq<ChartSampleView>, series: int, n: nat) -> Option<int>
    decreases n,
{
    if n == 0 {
        None
    } else if reading(samples[n - 1], series) is Some {
        Some(n - 1)
    } else {
        last_measured(samples, series, (n - 1) as nat)
    }
}

/// A sample has a reading of the series that is not a drop.
pub open spec fn is_point(samples: Seq<ChartSampleView>, series: int, i: int) -> bool {
    reading(samples[i], series) matches Some(Some(_))
}

/// The lines of a series up to sample `n`, as pairs of positions. A reading is
/// joined to the one before it; a dropped packet in between breaks the line, and
/// a sample that simply didn't measure the series does not.
pub open spec fn lines(samples: Seq<ChartSampleView>, series: int, n: nat) -> Seq<(int, int)>
    decreases n,
{
    if n == 0 {
        Seq::empty()
    } else {
        let before = lines(samples, series, (n - 1) as nat);
        match last_measured(samples, series, (n - 1) as nat) {
            Some(p) => if is_point(samples, series, n - 1) && is_point(samples, series, p) {
                before.push((p, n - 1))
            } else {
                before
            },
            None => before,
        }
    }
}

/// A list of pairs of positions as integers.
pub open spec fn int_pairs(list: Seq<(usize, usize)>) -> Seq<(int, int)> {
    list.map_values(|p: (usize, usize)| (p.0 as int, p.1 as int))
}

/// A value is a reading of at most `max`, or none.
pub open spec fn at_most(value: Option<Option<u32>>, max: u32) -> bool {
    value matches Some(Some(ms)) ==> ms <= max
}

impl ChartData {
    /// The positions of the samples in the window that mark a drop. Samples that
    /// predate a target (no data) are left blank, not marked.
    pub fn drop_marks(&self) -> (r: Vec<usize>)
        ensures
            ints(r@) == marks(sample_views(self.samples@), self.t_start as int),
            forall|i: int, k: int|
                0 <= i < self.samples@.len() && 0 <= k < self.samples@[i].vals@.len()
                    && self.samples@[i].t >= self.t_start && #[trigger] self.samples@[i].vals@[k]
                    == Some(None::<u32>) ==> ints(r@).contains(i),
            forall|j: int|
                0 <= j < r@.len() ==> {
                    &&& (#[trigger] r@[j]) < self.samples@.len()
                    &&& self.samples@[r@[j] as int].t >= self.t_start
                    &&& self.samples@[r@[j] as int].vals@.contains(Some(None))
                },
    {
        let ghost all = sample_views(self.samples@);
        let ghost start = self.t_start as int;
        let ghost p = |i: int| all[i].t >= start && has_drop(all[i]);
        let mut out: Vec<usize> = Vec::new();
        let mut i: usize = 0;
        assert(ints(out@) =~= Seq::<int>::empty());
        while i < self.samples.len()
            invariant
                i <= self.samples@.len(),
                all == sample_views(self.samples@),
                start == self.t_start,
                p == (|i: int| all[i].t >= start && has_drop(all[i])),
                ints(out@) == positions(i as nat, p),
            decreases self.samples@.len() - i,
        {
            assert(all[i as int] == self.samples@[i as int]@);
            if self.samples[i].t >= self.t_start && any_drop(&self.samples[i]) {
                let ghost before = ints(out@);
                out.push(i);
                assert(ints(out@) =~= before.push(i as int));
            }
            assert(positions((i + 1) as nat, p) == (if p(i as int) {
                positions(i as nat, p).push(i as int)
            } else {
                positions(i as nat, p)
            }));
            i += 1;
        }
        proof {
            let shown = marks(all, start);
            assert(ints(out@) == shown);
            assert forall|i: int, k: int|
                0 <= i < self.samples@.len() && 0 <= k < self.samples@[i].vals@.len()
                    && self.samples@[i].t >= self.t_start && #[trigger] self.samples@[i].vals@[k]
                    == Some(None::<u32>) implies ints(out@).contains(i) by {
                assert(all[i] == self.samples@[i]@);
                law_drops_are_marked(all, start, i);
                assert(all[i].vals[k] == Some(None::<u32>));
            }
            assert forall|j: int| 0 <= j < out@.len() implies {
                &&& (#[trigger] out@[j]) < self.samples@.len()
                &&& self.samples@[out@[j] as int].t >= self.t_start
                &&& self.samples@[out@[j] as int].vals@.contains(Some(None))
            } by {
                let i = out@[j] as int;
                assert(ints(out@)[j] == i);
                assert(shown.contains(i));
                law_drops_are_marked(all, start, i);
                assert(all[i] == self.samples@[i]@);
                let k = choose|k: int|
                    0 <= k < all[i].vals.len() && #[trigger] all[i].vals[k] == Some(None::<u32>);
                assert(self.samples@[i].vals@[k] == Some(None::<u32>));
            }
        }
        out
    }

    /// The largest reading of any series, and at least the floor of the scale.
    pub fn scale_ms(&self) -> (r: u32)
        ensures
            r >= MIN_SCALE_MS,
            forall|i: int, k: int|
                0 <= i < self.samples@.len() && 0 <= k < self.samples@[i].vals@.len() ==> at_most(
                    #[trigger] self.samples@[i].vals@[k],
                    r,
                ),
            r > MIN_SCALE_MS ==> exists|i: int, k: int|
                0 <= i < self.samples@.len() && 0 <= k < self.samples@[i].vals@.len()
                    && #[trigger] self.samples@[i].vals@[k] == Some(Some(r)),
    {
        let mut max: u32 = MIN_SCALE_MS;
        let mut i: usize = 0;
        while i < self.samples.len()
            invariant
                i <= self.samples@.len(),
                max >= MIN_SCALE_MS,
                forall|j: int, k: int|
                    0 <= j < i && 0 <= k < self.samples@[j].vals@.len() ==> at_most(
                        #[trigger] self.samples@[j].vals@[k],
                        max,
                    ),
                max > MIN_SCALE_MS ==> exists|j: int, k: int|
                    0 <= j < i && 0 <= k < self.samples@[j].vals@.len()
                        && #[trigger] self.samples@[j].vals@[k] == Some(Some(max)),
            decreases self.samples@.len() - i,
        {
            let mut n: usize = 0;
            while n < self.samples[i as usize].vals.len()
                invariant
                    i < self.samples@.len(),
                    n <= self.samples@[i as int].vals@.len(),
                    max >= MIN_SCALE_MS,
                    forall|j: int, k: int|
                        0 <= j < i && 0 <= k < self.samples@[j].vals@.len() ==> at_most(
                            #[trigger] self.samples@[j].vals@[k],
                            max,
                        ),
                    forall|k: int|
                        0 <= k < n ==> at_most(
                            #[trigger] self.samples@[i as int].vals@[k],
                            max,
                        ),
                    max > MIN_SCALE_MS ==> exists|j: int, k: int|
                        0 <= j <= i && 0 <= k < self.samples@[j].vals@.len()
                            && #[trigger] self.samples@[j].vals@[k] == Some(Some(max)),
                decreases self.samples@[i as int].vals@.len() - n,
            {
                match self.samples[i].vals[n] {
                    Some(Some(ms)) => {
                        if ms > max {
                            max = ms;
                            assert(self.samples@[i as int].vals@[n as int] == Some(Some(max)));
                        }
                    },
                    _ => {},
                }
                n += 1;
            }
            i += 1;
        }
        max
    }

    /// The lines of a series, as pairs of sample positions.
    pub fn series_lines(&self, series: usize) -> (r: Vec<(usize, usize)>)
        ensures
            int_pairs(r@) == lines(
                sample_views(self.samples@),
                series as int,
                self.samples@.len(),
            ),
            forall|i: int|
                0 <= i < r@.len() ==> (#[trigger] r@[i]).0 < r@[i].1 < self.samples@.len(),
    {
        let ghost all = sample_views(self.samples@);
        let mut out: Vec<(usize, usize)> = Vec::new();
        let mut last: Option<usize> = None;
        let mut i: usize = 0;
        assert(int_pairs(out@) =~= Seq::<(int, int)>::empty());
        while i < self.samples.len()
            invariant
                i <= self.samples@.len(),
                all == sample_views(self.samples@),
                int_pairs(out@) == lines(all, series as int, i as nat),
                last_measured(all, series as int, i as nat) == (match last {
                    Some(p) => Some(p as int),
                    None => None,
                }),
                last matches Some(p) ==> p < i,
                forall|j: int|
                    0 <= j < out@.len() ==> (#[trigger] out@[j]).0 < out@[j].1
                        < self.samples@.len(),
            decreases self.samples@.len() - i,
        {
            assert(all[i as int] == self.samples@[i as int]@);
            let value = reading_of(&self.samples[i], series);
            match last {
                Some(p) => {
                    assert(all[p as int] == self.samples@[p as int]@);
                    let earlier = reading_of(&self.samples[p], series);
                    match (earlier, value) {
                        (Some(Some(_a)), Some(Some(_b))) => {
                            let ghost before = int_pairs(out@);
                            out.push((p, i));
                            assert(int_pairs(out@) =~= before.push((p as int, i as int)));
                        },
                        _ => {},
                    }
                },
                None => {},
            }
            if value.is_some() {
                last = Some(i);
            }
            i += 1;
        }
        out
    }
}

/// Whether some series dropped a packet in the sample.
fn any_drop(sample: &ChartSample) -> (r: bool)
    ensures
        r == has_drop(sample@),
{
    let mut i: usize = 0;
    while i < sample.vals.len()
        invariant
            i <= sample.vals@.len(),
            forall|j: int| 0 <= j < i ==> #[trigger] sample.vals@[j] != Some(None::<u32>),
        decreases sample.vals@.len() - i,
    {
        match sample.vals[i] {
            Some(None) => {
                assert(sample@.vals[i as int] == Some(None::<u32>));
                return true;
            },
            _ => {},
        }
        i += 1;
    }
    false
}

/// The reading of a series in a sample, where there is one.
fn reading_of(sample: &ChartSample, series: usize) -> (r: Option<Option<u32>>)
    ensures
        r == reading(sample@, series as int),
{
    if series < sample.vals.len() {
        sample.vals[series]
    } else {
        None
    }
}

// ---------------------------------------------------------------------------
// Axes
// ---------------------------------------------------------------------------
/// The time that the x axis spans, in ms.
pub open spec fn span_ms(t_start: int, t_end: int) -> int {
    if t_end - t_start > 1 {
        t_end - t_start
    } else {
        1
    }
}

/// The time of a label of the x axis.
pub open spec fn label_time(t_start: int, t_end: int, g: int) -> int {
    t_start + span_ms(t_start, t_end) * g / 4
}

/// The times of the five labels of the x axis, evenly spaced across the window.
/// `None` where one of them is out of range.
pub fn axis_times(t_start: i64, t_end: i64) -> (r: Option<(i64, Vec<i64>)>)
    ensures
        r is Some <==> span_ms(t_start as int, t_end as int) <= i64::MAX && t_start + span_ms(
            t_start as int,
            t_end as int,
        ) <= i64::MAX,
        r matches Some(axis) ==> {
            let span = span_ms(t_start as int, t_end as int);
            &&& axis.0 == span
            &&& axis.1@.len() == 5
            &&& forall|g: int|
                0 <= g < 5 ==> #[trigger] axis.1@[g] == label_time(t_start as int, t_end as int, g)
        },
{
    let width: i128 = t_end as i128 - t_start as i128;
    let span: i128 = if width > 1 {
        width
    } else {
        1
    };
    if span > i64::MAX as i128 || t_start as i128 + span > i64::MAX as i128 {
        return None;
    }
    let mut times: Vec<i64> = Vec::new();
    let mut g: i128 = 0;
    while g < 5
        invariant
            0 <= g <= 5,
            span == span_ms(t_start as int, t_end as int),
            1 <= span <= i64::MAX,
            t_start + span <= i64::MAX,
            times@.len() == g,
            forall|k: int| 0 <= k < g ==> #[trigger] times@[k] == t_start + span * k / 4,
        decreases 5 - g,
    {
        assert(0 <= span * g <= span * 4) by (nonlinear_arith)
            requires
                0 <= g <= 4,
                span >= 1,
        ;
        let at: i128 = t_start as i128 + span * g / 4;
        times.push(at as i64);
        g += 1;
    }
    Some((span as i64, times))
}

/// A clock time within the day, as hours, minutes and seconds.
pub open spec fn day_time(seconds: int, with_seconds: bool) -> Seq<char> {
    let s = (seconds % 86_400) as nat;
    let head = text::two_digits(s / 3600) + ":"@ + text::two_digits(s % 3600 / 60);
    if with_seconds {
        head + ":"@ + text::two_digits(s % 60)
    } else {
        head
    }
}

/// The label of a time, in local time. Windows of up to ten minutes get seconds
/// too.
pub open spec fn time_text(t_ms: int, offset_ms: int, window_ms: int) -> Seq<char> {
    day_time(
        crate::network_info::toward_zero(t_ms + offset_ms, 1000),
        window_ms <= 600_000,
    )
}

/// The label of a time, given the offset of local time. Short windows get seconds
/// too, otherwise every label on a one-minute chart would read the same.
pub fn time_label(t_ms: i64, offset_ms: i64, window_ms: i64) -> (r: String)
    ensures
        r@ == time_text(t_ms as int, offset_ms as int, window_ms as int),
{
    let local: i128 = t_ms as i128 + offset_ms as i128;
    let seconds: i128 = if local >= 0 {
        local / 1000
    } else {
        -((-local) / 1000)
    };
    let day: u64 = if seconds >= 0 {
        (seconds % 86_400) as u64
    } else {
        let past: i128 = (-seconds) % 86_400;
        if past == 0 {
            0
        } else {
            (86_400 - past) as u64
        }
    };
    assert(day == seconds as int % 86_400);
    let mut out = String::new();
    text::push_two_digits(&mut out, day / 3600);
    out.append(":");
    text::push_two_digits(&mut out, day % 3600 / 60);
    if window_ms <= 600_000 {
        out.append(":");
        text::push_two_digits(&mut out, day % 60);
    }
    assert(out@ =~= time_text(t_ms as int, offset_ms as int, window_ms as int));
    out
}

/// A clock as it stands: the day of the month and the time of day.
#[derive(Clone, Copy)]
pub struct ClockReading {
    pub day: u16,
    pub hour: u16,
    pub minute: u16,
    pub second: u16,
}

/// The seconds into the day that a clock shows.
pub open spec fn day_seconds(c: ClockReading) -> int {
    c.hour * 3600 + c.minute * 60 + c.second
}

/// How many days one clock is ahead of another that shows the same moment: at most
/// one either way. The day of the month starts over at the end of a month, so there
/// the clock that is ahead shows the far lower day.
pub open spec fn days_ahead(local: ClockReading, utc: ClockReading) -> int {
    let apart = local.day - utc.day;
    if apart > 1 {
        -1
    } else if apart < -1 {
        1
    } else {
        apart
    }
}

/// Offset from UTC to local time, in ms, from the two clocks read back to back.
pub fn local_offset_ms(local: ClockReading, utc: ClockReading) -> (r: i64)
    ensures
        r == (days_ahead(local, utc) * 86_400 + day_seconds(local) - day_seconds(utc)) * 1000,
{
    let apart: i64 = local.day as i64 - utc.day as i64;
    let ahead: i64 = if apart > 1 {
        -1
    } else if apart < -1 {
        1
    } else {
        apart
    };
    (ahead * 86_400 + seconds_of(local) - seconds_of(utc)) * 1000
}

/// The seconds into the day that a clock shows.
fn seconds_of(c: ClockReading) -> (r: i64)
    ensures
        r == day_seconds(c),
        0 <= r <= 0xffff * 3661,
{
    c.hour as i64 * 3600 + c.minute as i64 * 60 + c.second as i64
}

// ---------------------------------------------------------------------------
// Laws
// ---------------------------------------------------------------------------
/// What `last_measured` points at: a sample that measured the series, with none
/// after it that did.
proof fn lemma_last_measured(samples: Seq<ChartSampleView>, series: int, n: nat)
    ensures
        match last_measured(samples, series, n) {
            Some(p) => 0 <= p < n && reading(samples[p], series) is Some && forall|j: int|
                p < j < n ==> reading(#[trigger] samples[j], series) is None,
            None => forall|j: int| 0 <= j < n ==> reading(#[trigger] samples[j], series) is None,
        },
    decreases n,
{
    if n > 0 {
        lemma_last_measured(samples, series, (n - 1) as nat);
    }
}

/// A line joins two readings of its series, and between them no sample measured
/// the series: a dropped packet always breaks the line.
pub proof fn law_lines_do_not_cross_drops(samples: Seq<ChartSampleView>, series: int, n: nat)
    requires
        n <= samples.len(),
    ensures
        forall|k: int|
            0 <= k < lines(samples, series, n).len() ==> {
                let line = #[trigger] lines(samples, series, n)[k];
                &&& 0 <= line.0 < line.1 < n
                &&& is_point(samples, series, line.0)
                &&& is_point(samples, series, line.1)
                &&& forall|j: int|
                    line.0 < j < line.1 ==> reading(#[trigger] samples[j], series) is None
            },
    decreases n,
{
    if n > 0 {
        let before = lines(samples, series, (n - 1) as nat);
        let all = lines(samples, series, n);
        law_lines_do_not_cross_drops(samples, series, (n - 1) as nat);
        lemma_last_measured(samples, series, (n - 1) as nat);
        assert forall|k: int| 0 <= k < all.len() implies {
            let line = #[trigger] all[k];
            &&& 0 <= line.0 < line.1 < n
            &&& is_point(samples, series, line.0)
            &&& is_point(samples, series, line.1)
            &&& forall|j: int|
                line.0 < j < line.1 ==> reading(#[trigger] samples[j], series) is None
        } by {
            if k < before.len() {
                assert(all[k] == before[k]);
            }
        }
    }
}

/// Two readings of a series with no measurement of it between them are joined,
/// however many samples of other series lie between.
pub proof fn law_neighbours_are_joined(
    samples: Seq<ChartSampleView>,
    series: int,
    p: int,
    q: int,
    n: nat,
)
    requires
        0 <= p < q < n <= samples.len(),
        is_point(samples, series, p),
        is_point(samples, series, q),
        forall|j: int| p < j < q ==> reading(#[trigger] samples[j], series) is None,
    ensures
        lines(samples, series, n).contains((p, q)),
    decreases n,
{
    let before = lines(samples, series, (n - 1) as nat);
    let all = lines(samples, series, n);
    if n - 1 == q {
        lemma_last_measured(samples, series, q as nat);
        let last = last_measured(samples, series, q as nat);
        assert(reading(samples[p], series) is Some);
        assert(last is Some);
        assert(last->0 == p);
        assert(all[all.len() - 1] == (p, q));
    } else {
        law_neighbours_are_joined(samples, series, p, q, (n - 1) as nat);
        let k = choose|k: int| 0 <= k < before.len() && before[k] == (p, q);
        assert(all[k] == (p, q));
    }
}

/// `positions` lists exactly the positions with the property.
proof fn lemma_positions(n: nat, p: spec_fn(int) -> bool, i: int)
    ensures
        positions(n, p).contains(i) <==> 0 <= i < n && p(i),
    decreases n,
{
    if n > 0 {
        let before = positions((n - 1) as nat, p);
        let all = positions(n, p);
        lemma_positions((n - 1) as nat, p, i);
        if before.contains(i) {
            let k = choose|k: int| 0 <= k < before.len() && before[k] == i;
            assert(all[k] == i);
        }
        if p(n - 1) {
            assert(all[before.len() as int] == n - 1);
        }
        if all.contains(i) {
            let k = choose|k: int| 0 <= k < all.len() && all[k] == i;
            if k < before.len() {
                assert(before[k] == i);
            }
        }
    }
}

/// Every sample of the window is drawn.
pub proof fn law_window_is_drawn(
    samples: Seq<SampleView>,
    names: Seq<Seq<char>>,
    first: nat,
    i: int,
)
    requires
        first <= i < samples.len(),
    ensures
        drawn(samples, names, first).contains(i),
{
    let lead = positions(first, |i: int| carried_in(samples, names, first as int, i));
    assert(drawn(samples, names, first)[lead.len() + (i - first)] == i);
}

/// The line of every series enters at the left edge: the last sample from before
/// the window to measure the series is drawn, whatever else was measured after it.
/// No other sample from before the window is drawn.
pub proof fn law_last_reading_is_carried_in(
    samples: Seq<SampleView>,
    names: Seq<Seq<char>>,
    first: nat,
    i: int,
)
    requires
        0 <= i < first <= samples.len(),
    ensures
        drawn(samples, names, first).contains(i) <==> exists|name: Seq<char>|
            names.contains(name) && #[trigger] last_before(samples, name, first as int, i),
{
    let p = |i: int| carried_in(samples, names, first as int, i);
    let lead = positions(first, p);
    let shown = drawn(samples, names, first);
    lemma_positions(first, p, i);
    if lead.contains(i) {
        let k = choose|k: int| 0 <= k < lead.len() && lead[k] == i;
        assert(shown[k] == i);
    }
    if shown.contains(i) {
        let k = choose|k: int| 0 <= k < shown.len() && shown[k] == i;
        assert(k < lead.len());
        assert(lead[k] == i);
        let n = choose|n: int|
            0 <= n < names.len() && #[trigger] last_before(samples, names[n], first as int, i);
        assert(names.contains(names[n]));
    }
    if exists|name: Seq<char>|
        names.contains(name) && #[trigger] last_before(samples, name, first as int, i) {
        let name = choose|name: Seq<char>|
            names.contains(name) && #[trigger] last_before(samples, name, first as int, i);
        let n = choose|n: int| 0 <= n < names.len() && names[n] == name;
        assert(last_before(samples, names[n], first as int, i));
    }
}

/// The offset does not depend on where in the month the day falls: two clocks a day
/// apart give the same one at the end of a month of any length.
pub proof fn law_offset_holds_at_month_ends(local: ClockReading, utc: ClockReading, last: int)
    requires
        28 <= last <= 31,
    ensures
        local.day == 1 && utc.day == last ==> days_ahead(local, utc) == 1,
        local.day == last && utc.day == 1 ==> days_ahead(local, utc) == -1,
        local.day == utc.day + 1 ==> days_ahead(local, utc) == 1,
        local.day + 1 == utc.day ==> days_ahead(local, utc) == -1,
        local.day == utc.day ==> days_ahead(local, utc) == 0,
{
}

/// The labels of the x axis begin at the start of the window and end at its end.
pub proof fn law_labels_span_the_window(t_start: int, t_end: int)
    requires
        t_start < t_end,
    ensures
        t_start + span_ms(t_start, t_end) * 0 / 4 == t_start,
        t_start + span_ms(t_start, t_end) * 4 / 4 == t_end,
{
}

/// A label always has two digits for each of its parts.
pub proof fn law_labels_have_one_width(t_ms: int, offset_ms: int, window_ms: int)
    ensures
        time_text(t_ms, offset_ms, window_ms).len() == (if window_ms <= 600_000 {
            8nat
        } else {
            5nat
        }),
{
    let seconds = crate::network_info::toward_zero(t_ms + offset_ms, 1000);
    let s = (seconds % 86_400) as nat;
    reveal_strlit(":");
    lemma_two_digits(s / 3600);
    lemma_two_digits(s % 3600 / 60);
    lemma_two_digits(s % 60);
}

/// A number below a hundred takes two digits.
proof fn lemma_two_digits(n: nat)
    requires
        n < 100,
    ensures
        text::two_digits(n).len() == 2,
{
    reveal_with_fuel(text::decimal, 2);
}

/// A sample of the window is marked exactly when some series, wherever it stands among
/// them, dropped a packet in it. Samples from before the window are not marked.
pub proof fn law_drops_are_marked(samples: Seq<ChartSampleView>, t_start: int, i: int)
    ensures
        marks(samples, t_start).contains(i) <==> 0 <= i < samples.len() && samples[i].t >= t_start
            && exists|k: int|
            0 <= k < samples[i].vals.len() && #[trigger] samples[i].vals[k] == Some(None::<u32>),
{
    let p = |i: int| samples[i].t >= t_start && has_drop(samples[i]);
    lemma_positions(samples.len(), p, i);
}

/// Marks come in the order of the samples, each once.
pub proof fn law_marks_are_in_order(samples: Seq<ChartSampleView>, t_start: int)
    ensures
        forall|j: int, k: int|
            0 <= j < k < marks(samples, t_start).len() ==> #[trigger] marks(samples, t_start)[j]
                < #[trigger] marks(samples, t_start)[k],
{
    law_positions_are_in_order(
        samples.len(),
        |i: int| samples[i].t >= t_start && has_drop(samples[i]),
    );
}

/// The positions with a property are all below the number, in order, and each is there
/// once.
pub proof fn law_positions_are_in_order(n: nat, p: spec_fn(int) -> bool)
    ensures
        forall|i: int| #[trigger] positions(n, p).contains(i) <==> 0 <= i < n && p(i),
        forall|j: int| 0 <= j < positions(n, p).len() ==> 0 <= #[trigger] positions(n, p)[j] < n,
        forall|j: int, k: int|
            0 <= j < k < positions(n, p).len() ==> #[trigger] positions(n, p)[j]
                < #[trigger] positions(n, p)[k],
    decreases n,
{
    assert forall|i: int| #[trigger] positions(n, p).contains(i) <==> 0 <= i < n && p(i) by {
        lemma_positions(n, p, i);
    }
    if n > 0 {
        let before = positions((n - 1) as nat, p);
        let all = positions(n, p);
        law_positions_are_in_order((n - 1) as nat, p);
        assert forall|j: int| 0 <= j < all.len() implies 0 <= #[trigger] all[j] < n by {
            if j < before.len() {
                assert(all[j] == before[j]);
            }
        }
        assert forall|j: int, k: int| 0 <= j < k < all.len() implies #[trigger] all[j]
            < #[trigger] all[k] by {
            assert(all[j] == before[j]);
            if k < before.len() {
                assert(all[k] == before[k]);
            }
        }
    }
}

/// Two samples are joined by a line of a series exactly when both have a reading of it
/// that is no drop, and no sample between them measured it, be it a reply or a drop.
pub proof fn law_what_is_joined(
    samples: Seq<ChartSampleView>,
    series: int,
    n: nat,
    p: int,
    q: int,
)
    requires
        n <= samples.len(),
        0 <= series,
        forall|i: int| 0 <= i < n ==> series < (#[trigger] samples[i]).vals.len(),
    ensures
        lines(samples, series, n).contains((p, q)) <==> {
            &&& 0 <= p < q < n
            &&& samples[p].vals[series] matches Some(Some(_))
            &&& samples[q].vals[series] matches Some(Some(_))
            &&& forall|j: int| p < j < q ==> (#[trigger] samples[j]).vals[series] is None
        },
{
    law_lines_do_not_cross_drops(samples, series, n);
    let all = lines(samples, series, n);
    if all.contains((p, q)) {
        let k = choose|k: int| 0 <= k < all.len() && all[k] == (p, q);
        assert(all[k] == (p, q));
        assert forall|j: int| p < j < q implies (#[trigger] samples[j]).vals[series] is None by {
            assert(reading(samples[j], series) is None);
        }
    }
    if 0 <= p < q < n && (samples[p].vals[series] matches Some(Some(_))) && (
    samples[q].vals[series] matches Some(Some(_))) && (forall|j: int|
        p < j < q ==> (#[trigger] samples[j]).vals[series] is None) {
        assert(series < samples[p].vals.len() && series < samples[q].vals.len());
        assert forall|j: int| p < j < q implies reading(#[trigger] samples[j], series) is None by {
            assert(samples[j].vals[series] is None);
        }
        law_neighbours_are_joined(samples, series, p, q, n);
    }
}

/// The lines of a series come in order, and each reading ends at most one of them. A
/// series that the samples do not have has none.
pub proof fn law_lines_are_in_order(samples: Seq<ChartSampleView>, series: int, n: nat)
    requires
        n <= samples.len(),
    ensures
        forall|j: int, k: int|
            0 <= j < k < lines(samples, series, n).len() ==> (#[trigger] lines(
                samples,
                series,
                n,
            )[j]).1 < (#[trigger] lines(samples, series, n)[k]).1,
        (forall|i: int| 0 <= i < n ==> series >= (#[trigger] samples[i]).vals.len()) ==> lines(
            samples,
            series,
            n,
        ).len() == 0,
    decreases n,
{
    if n > 0 {
        law_lines_are_in_order(samples, series, (n - 1) as nat);
        law_lines_do_not_cross_drops(samples, series, (n - 1) as nat);
        let before = lines(samples, series, (n - 1) as nat);
        let all = lines(samples, series, n);
        assert forall|j: int, k: int| 0 <= j < k < all.len() implies (#[trigger] all[j]).1 < (
        #[trigger] all[k]).1 by {
            assert(all[j] == before[j]);
            if k < before.len() {
                assert(all[k] == before[k]);
            }
        }
        if forall|i: int| 0 <= i < n ==> series >= (#[trigger] samples[i]).vals.len() {
            assert(series >= samples[n - 1].vals.len());
        }
    }
}

/// A sample of the chart has the time of the sample it shows, and for each series what
/// that sample says of it: nothing where it did not measure it, and otherwise its
/// reading as it is.
pub proof fn law_chart_shows_each_reading(sample: SampleView, names: Seq<Seq<char>>, k: int)
    requires
        0 <= k < names.len(),
    ensures
        chart_sample(sample, names).t == sample.t,
        chart_sample(sample, names).vals.len() == names.len(),
        sample.v.dom().contains(names[k]) ==> chart_sample(sample, names).vals[k] == Some(
            sample.v[names[k]],
        ),
        !sample.v.dom().contains(names[k]) ==> chart_sample(sample, names).vals[k] is None,
{
}

/// Every sample of the window is on the chart, and they close it in their order, with all
/// that was recorded after them.
pub proof fn law_chart_shows_the_whole_window(
    samples: Seq<SampleView>,
    names: Seq<Seq<char>>,
    t_start: int,
    i: int,
)
    requires
        0 <= i < samples.len(),
        samples[i].t >= t_start,
    ensures
        ({
            let shown = chart_samples(samples, names, t_start);
            &&& shown.len() >= samples.len() - i
            &&& shown[shown.len() - (samples.len() - i)] == chart_sample(samples[i], names)
        }),
{
    let ts = times(samples);
    lemma_leading_before(ts, t_start);
    let first = leading_before(ts, t_start);
    if i < first {
        assert(ts[i] < t_start);
        assert(ts[i] == samples[i].t);
    }
    let lead = positions(first, |i: int| carried_in(samples, names, first as int, i));
    let shown = drawn(samples, names, first);
    assert(shown.len() == lead.len() + (samples.len() - first));
    assert(shown[lead.len() + (i - first)] == i);
}

/// On samples in order, the last one from before the window to measure a series is on the
/// chart, whatever others measured after it, so that the line of the series enters at the
/// left edge.
pub proof fn law_chart_carries_in_each_series(
    samples: Seq<SampleView>,
    names: Seq<Seq<char>>,
    t_start: int,
    i: int,
    k: int,
)
    requires
        history::in_order(samples),
        0 <= i < samples.len(),
        0 <= k < names.len(),
        samples[i].t < t_start,
        samples[i].v.dom().contains(names[k]),
        forall|j: int|
            i < j < samples.len() && (#[trigger] samples[j]).t < t_start
                ==> !samples[j].v.dom().contains(names[k]),
    ensures
        chart_samples(samples, names, t_start).contains(chart_sample(samples[i], names)),
{
    let first = lemma_window_start(samples, t_start);
    assert(i < first);
    assert(last_before(samples, names[k], first as int, i));
    assert(names.contains(names[k]));
    law_last_reading_is_carried_in(samples, names, first, i);
    let shown = drawn(samples, names, first);
    let j = choose|j: int| 0 <= j < shown.len() && shown[j] == i;
    assert(chart_samples(samples, names, t_start)[j] == chart_sample(samples[i], names));
}

/// On samples in order nothing else is on the chart, and what is on it comes in order:
/// each is a sample of the window, or the last from before it to measure some series.
pub proof fn law_chart_shows_nothing_else(
    samples: Seq<SampleView>,
    names: Seq<Seq<char>>,
    t_start: int,
    j: int,
)
    requires
        history::in_order(samples),
        0 <= j < chart_samples(samples, names, t_start).len(),
    ensures
        exists|i: int|
            0 <= i < samples.len() && chart_samples(samples, names, t_start)[j] == chart_sample(
                #[trigger] samples[i],
                names,
            ) && (samples[i].t >= t_start || exists|k: int|
                0 <= k < names.len() && samples[i].v.dom().contains(#[trigger] names[k])
                    && forall|m: int|
                    i < m < samples.len() && (#[trigger] samples[m]).t < t_start
                        ==> !samples[m].v.dom().contains(names[k])),
        j > 0 ==> chart_samples(samples, names, t_start)[j - 1].t <= chart_samples(
            samples,
            names,
            t_start,
        )[j].t,
{
    let first = lemma_window_start(samples, t_start);
    let p = |i: int| carried_in(samples, names, first as int, i);
    let lead = positions(first, p);
    let shown = drawn(samples, names, first);
    law_positions_are_in_order(first, p);
    let i = shown[j];
    if j < lead.len() {
        assert(lead[j] == i);
        assert(lead.contains(i));
        let k = choose|k: int|
            0 <= k < names.len() && #[trigger] last_before(samples, names[k], first as int, i);
        assert(samples[i].v.dom().contains(names[k]));
        assert forall|m: int|
            i < m < samples.len() && (#[trigger] samples[m]).t < t_start implies !samples[m].v.dom().contains(
            names[k],
        ) by {
            assert(m < first);
            assert(!measured(samples, names[k], i + 1, first as int));
        }
    } else {
        assert(i == first + (j - lead.len()));
        assert(samples[i].t >= t_start);
    }
    assert(chart_samples(samples, names, t_start)[j] == chart_sample(samples[i], names));
    if j > 0 {
        let before = shown[j - 1];
        if j - 1 < lead.len() {
            assert(lead[j - 1] == before);
        }
        if j < lead.len() {
            assert(lead[j - 1] < lead[j]);
        }
        assert(before < i);
        assert(samples[before].t <= samples[i].t);
    }
}

/// On samples in order the window begins with the first sample that is in it.
proof fn lemma_window_start(samples: Seq<SampleView>, t_start: int) -> (first: nat)
    requires
        history::in_order(samples),
    ensures
        first == leading_before(times(samples), t_start),
        first <= samples.len(),
        forall|i: int| 0 <= i < samples.len() ==> (i < first <==> (#[trigger] samples[i]).t < t_start),
{
    let ts = times(samples);
    lemma_leading_before(ts, t_start);
    let first = leading_before(ts, t_start);
    assert forall|i: int| 0 <= i < samples.len() implies (i < first <==> (#[trigger] samples[i]).t
        < t_start) by {
        assert(ts[i] == samples[i].t);
        if i >= first {
            assert(ts[first as int] == samples[first as int].t);
            assert(samples[first as int].t <= samples[i].t);
        }
    }
    first
}

/// The chart has one series for each target, in the order of the list, by its name.
pub proof fn law_one_series_per_target(targets: Seq<TargetView>, i: int)
    requires
        0 <= i < targets.len(),
    ensures
        target_names(targets).len() == targets.len(),
        target_names(targets)[i] == targets[i].name,
{
}

/// The vertical scale reaches from 50 ms at least up to every reading. What is no reading
/// does not matter to it.
pub proof fn law_scale_holds_every_reading(ms: u32, max: u32)
    ensures
        MIN_SCALE_MS == 50,
        at_most(Some(Some(ms)), max) <==> ms <= max,
        at_most(Some(None), max),
        at_most(None, max),
{
}

/// The x axis spans the time from the start of the window to its end, and never less than
/// a millisecond.
pub proof fn law_axis_spans_the_window(t_start: int, t_end: int)
    ensures
        t_end > t_start ==> t_start + span_ms(t_start, t_end) == t_end,
        t_end <= t_start ==> span_ms(t_start, t_end) == 1,
{
}

/// A label tells the local time of day in hours and minutes on a 24-hour clock, and in
/// windows of up to ten minutes the seconds too.
pub proof fn law_label_tells_the_time_of_day(
    day: nat,
    hour: nat,
    minute: nat,
    second: nat,
    ms: nat,
    offset_ms: int,
    window_ms: int,
)
    requires
        hour < 24,
        minute < 60,
        second < 60,
        ms < 1_000,
    ensures
        ({
            let local = (((day * 24 + hour) * 60 + minute) * 60 + second) * 1_000 + ms;
            let text = time_text(local - offset_ms, offset_ms, window_ms);
            let short = text::two_digits(hour) + ":"@ + text::two_digits(minute);
            &&& window_ms <= 600_000 ==> text == short + ":"@ + text::two_digits(second)
            &&& window_ms > 600_000 ==> text == short
        }),
{
    let seconds = ((day * 24 + hour) * 60 + minute) * 60 + second;
    let local = seconds * 1_000 + ms;
    assert(local / 1_000 == seconds);
    let s = hour * 3_600 + minute * 60 + second;
    assert(seconds == day * 86_400 + s);
    assert(seconds % 86_400 == s);
    assert(s / 3_600 == hour);
    assert(s % 3_600 / 60 == minute);
    assert(s % 60 == second);
}

/// The offset between two clocks is the difference of the times that they show, and of
/// their days, of which it is never more than one.
pub proof fn law_offset_is_the_difference(local: ClockReading, utc: ClockReading)
    ensures
        day_seconds(local) - day_seconds(utc) == (local.hour - utc.hour) * 3_600 + (local.minute
            - utc.minute) * 60 + (local.second - utc.second),
        local.day == utc.day ==> days_ahead(local, utc) == 0,
        local.day == utc.day + 1 || local.day + 1 < utc.day ==> days_ahead(local, utc) == 1,
        utc.day == local.day + 1 || utc.day + 1 < local.day ==> days_ahead(local, utc) == -1,
{
}

/// The five series colors repeat: a series and the fifth after it have the same one, and
/// the first five have those of the list.
pub proof fn law_colors_repeat(index: int)
    requires
        0 <= index,
    ensures
        color_of(index + 5) == color_of(index),
        index < 5 ==> color_of(index) == COLORS@[index],
{
}

/// The chart is drawn in the size that is given, and not below 160 by 120.
pub proof fn law_size_is_never_below_the_least(given: int)
    ensures
        given >= 160 ==> held_size(given, 160) == given,
        given <= 160 ==> held_size(given, 160) == 160,
        given >= 120 ==> held_size(given, 120) == given,
        given <= 120 ==> held_size(given, 120) == 120,
{
}

/// The labels stand at the quarters of the window, to the millisecond: the first at its
/// start, the last at its end.
pub proof fn law_labels_stand_at_the_quarters(t_start: int, t_end: int, g: int)
    requires
        0 <= g <= 4,
    ensures
        label_time(t_start, t_end, 0) == t_start,
        label_time(t_start, t_end, 4) == t_start + span_ms(t_start, t_end),
        4 * (label_time(t_start, t_end, g) - t_start) <= span_ms(t_start, t_end) * g < 4 * (
        label_time(t_start, t_end, g) - t_start) + 4,
{
}

/// The samples of the chart say each of them, in order, and so do lists of positions.
pub proof fn law_chart_says_what_it_holds(
    samples: Seq<ChartSample>,
    list: Seq<usize>,
    pairs: Seq<(usize, usize)>,
    i: int,
)
    ensures
        sample_views(samples).len() == samples.len(),
        0 <= i < samples.len() ==> sample_views(samples)[i].t == samples[i].t && sample_views(
            samples,
        )[i].vals == samples[i].vals@,
        ints(list).len() == list.len(),
        0 <= i < list.len() ==> ints(list)[i] == list[i],
        int_pairs(pairs).len() == pairs.len(),
        0 <= i < pairs.len() ==> int_pairs(pairs)[i].0 == pairs[i].0 && int_pairs(pairs)[i].1
            == pairs[i].1,
{
}

} // verus!
