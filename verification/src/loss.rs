//! Packet loss of one target over a stretch of the history.

use vstd::prelude::*;
use crate::history::History;
use crate::history::SampleView;

verus! {

/// Cap on the time credit (ms) a single sample can earn, so one long gap (the
/// machine was asleep, or a target was just added) can't swamp the window.
pub const MAX_SAMPLE_WEIGHT_MS: i64 = 60_000;

/// Credit given to a sample with no predecessor to measure a gap against.
pub const DEFAULT_SAMPLE_WEIGHT_MS: i64 = 1_000;

/// `x` held between `low` and `high`.
pub open spec fn held(x: int, low: int, high: int) -> int {
    if x < low {
        low
    } else if x > high {
        high
    } else {
        x
    }
}

/// The time that sample `i` stands for: the gap since the sample before it.
pub open spec fn weight(samples: Seq<SampleView>, i: int) -> int {
    held(
        if i == 0 {
            DEFAULT_SAMPLE_WEIGHT_MS as int
        } else {
            samples[i].t - samples[i - 1].t
        },
        1,
        MAX_SAMPLE_WEIGHT_MS as int,
    )
}

/// Sample `i` was taken at or after `cutoff` and measured the target.
pub open spec fn counts(samples: Seq<SampleView>, name: Seq<char>, cutoff: int, i: int) -> bool {
    samples[i].t >= cutoff && samples[i].v.contains_key(name)
}

/// How many samples measured the target from `cutoff` on.
pub open spec fn measured(samples: Seq<SampleView>, name: Seq<char>, cutoff: int) -> nat
    decreases samples.len(),
{
    if samples.len() == 0 {
        0
    } else {
        let before = measured(samples.drop_last(), name, cutoff);
        if counts(samples, name, cutoff, samples.len() - 1) {
            before + 1
        } else {
            before
        }
    }
}

/// The time for which the target was measured from `cutoff` on.
pub open spec fn measured_ms(samples: Seq<SampleView>, name: Seq<char>, cutoff: int) -> int
    decreases samples.len(),
{
    if samples.len() == 0 {
        0
    } else {
        let last = samples.len() - 1;
        measured_ms(samples.drop_last(), name, cutoff) + if counts(samples, name, cutoff, last) {
            weight(samples, last)
        } else {
            0
        }
    }
}

/// The part of that time that dropped packets stand for.
pub open spec fn dropped_ms(samples: Seq<SampleView>, name: Seq<char>, cutoff: int) -> int
    decreases samples.len(),
{
    if samples.len() == 0 {
        0
    } else {
        let last = samples.len() - 1;
        dropped_ms(samples.drop_last(), name, cutoff) + if counts(samples, name, cutoff, last)
            && samples[last].v[name] is None {
            weight(samples, last)
        } else {
            0
        }
    }
}

/// Packet loss in percent, rounded down; none where nothing was measured.
pub open spec fn loss_percent(samples: Seq<SampleView>, name: Seq<char>, cutoff: int) -> int {
    let total = measured_ms(samples, name, cutoff);
    if total > 0 {
        dropped_ms(samples, name, cutoff) * 100 / total
    } else {
        0
    }
}

/// What is lost is part of what was measured, and each sample has some weight,
/// within the cap.
pub proof fn lemma_sums(samples: Seq<SampleView>, name: Seq<char>, cutoff: int)
    ensures
        0 <= dropped_ms(samples, name, cutoff) <= measured_ms(samples, name, cutoff),
        measured(samples, name, cutoff) <= measured_ms(samples, name, cutoff),
        measured_ms(samples, name, cutoff) <= MAX_SAMPLE_WEIGHT_MS * samples.len(),
        measured(samples, name, cutoff) <= samples.len(),
        measured(samples, name, cutoff) == 0 ==> measured_ms(samples, name, cutoff) == 0,
    decreases samples.len(),
{
    if samples.len() > 0 {
        lemma_sums(samples.drop_last(), name, cutoff);
    }
}

/// Packet loss for one target over the samples taken from `cutoff` on, as
/// `(samples measured, loss %)`.
///
/// Loss is weighted by the time each sample stands for (the gap since the
/// previous sample) rather than by raw sample count. With a variable interval
/// that matters: an outage sampled at 1 s would otherwise contribute ten times
/// as many samples per second as the healthy 10 s stretches around it and
/// wildly overstate the loss.
pub fn target_loss(history: &History, target_name: &str, cutoff: i64) -> (r: (usize, u32))
    ensures
        r.0 == measured(history@, target_name@, cutoff as int),
        r.1 == loss_percent(history@, target_name@, cutoff as int),
{
    loss_since(history, target_name, cutoff as i128)
}

/// Packet loss for one target from a moment that may lie before any that a
/// sample can carry.
pub fn loss_since(history: &History, target_name: &str, cutoff: i128) -> (r: (usize, u32))
    ensures
        r.0 == measured(history@, target_name@, cutoff as int),
        r.1 == loss_percent(history@, target_name@, cutoff as int),
        r.1 <= 100,
{
    let mut count: usize = 0;
    let mut total: i128 = 0;
    let mut dropped: i128 = 0;
    let mut i: usize = 0;
    let ghost all = history@;
    let ghost name = target_name@;
    assert(all.take(0) =~= Seq::<SampleView>::empty());
    while i < history.samples.len()
        invariant
            i <= history.samples@.len(),
            all == history@,
            name == target_name@,
            count == measured(all.take(i as int), name, cutoff as int),
            total == measured_ms(all.take(i as int), name, cutoff as int),
            dropped == dropped_ms(all.take(i as int), name, cutoff as int),
            count <= i,
            0 <= dropped <= total <= MAX_SAMPLE_WEIGHT_MS * i,
        decreases history.samples@.len() - i,
    {
        let ghost upto = all.take(i + 1);
        proof {
            assert(upto.drop_last() =~= all.take(i as int));
            assert(upto[i as int] == history.samples@[i as int]@);
            if i > 0 {
                assert(upto[i - 1] == history.samples@[i - 1]@);
            }
        }
        let sample = &history.samples[i];
        if sample.t as i128 >= cutoff {
            match sample.v.get(target_name) {
                Some(latency) => {
                    let gap: i128 = if i == 0 {
                        DEFAULT_SAMPLE_WEIGHT_MS as i128
                    } else {
                        sample.t as i128 - history.samples[i - 1].t as i128
                    };
                    let w: i128 = if gap < 1 {
                        1
                    } else if gap > MAX_SAMPLE_WEIGHT_MS as i128 {
                        MAX_SAMPLE_WEIGHT_MS as i128
                    } else {
                        gap
                    };
                    count += 1;
                    total += w;
                    if latency.is_none() {
                        dropped += w;
                    }
                },
                None => {},
            }
        }
        i += 1;
    }
    assert(all.take(all.len() as int) =~= all);
    let loss: u32 = if total > 0 {
        assert(0 <= dropped * 100 / (total as int) <= 100) by (nonlinear_arith)
            requires
                0 <= dropped <= total,
                total > 0,
        ;
        (dropped * 100 / total) as u32
    } else {
        0
    };
    (count, loss)
}

// ---------------------------------------------------------------------------
// Laws
// ---------------------------------------------------------------------------
/// Loss is a percentage. It is 0 where no packet was dropped, and 100 exactly
/// where something was measured and all of it was dropped.
pub proof fn law_loss_is_a_percentage(samples: Seq<SampleView>, name: Seq<char>, cutoff: int)
    ensures
        0 <= loss_percent(samples, name, cutoff) <= 100,
        dropped_ms(samples, name, cutoff) == 0 ==> loss_percent(samples, name, cutoff) == 0,
        loss_percent(samples, name, cutoff) == 100 <==> measured(samples, name, cutoff) > 0
            && dropped_ms(samples, name, cutoff) == measured_ms(samples, name, cutoff),
{
    lemma_sums(samples, name, cutoff);
    let d = dropped_ms(samples, name, cutoff);
    let t = measured_ms(samples, name, cutoff);
    if t > 0 {
        assert(0 <= d * 100 / t <= 100) by (nonlinear_arith)
            requires
                0 <= d <= t,
                t > 0,
        ;
        assert(d < t ==> d * 100 / t < 100) by (nonlinear_arith)
            requires
                0 <= d <= t,
                t > 0,
        ;
        assert(d == t ==> d * 100 / t == 100) by (nonlinear_arith)
            requires
                t > 0,
        ;
    }
}

/// A sample that did not measure the target, or that lies before the cutoff,
/// leaves its loss as it was: samples from before a target existed are gaps,
/// not loss.
pub proof fn law_gaps_are_not_loss(
    samples: Seq<SampleView>,
    sample: SampleView,
    name: Seq<char>,
    cutoff: int,
)
    requires
        !sample.v.contains_key(name) || sample.t < cutoff,
    ensures
        measured(samples.push(sample), name, cutoff) == measured(samples, name, cutoff),
        measured_ms(samples.push(sample), name, cutoff) == measured_ms(samples, name, cutoff),
        dropped_ms(samples.push(sample), name, cutoff) == dropped_ms(samples, name, cutoff),
        loss_percent(samples.push(sample), name, cutoff) == loss_percent(samples, name, cutoff),
{
    assert(samples.push(sample).drop_last() =~= samples);
}

/// A target that no sample measured has no loss.
pub proof fn law_unmeasured_has_no_loss(samples: Seq<SampleView>, name: Seq<char>, cutoff: int)
    requires
        forall|i: int| 0 <= i < samples.len() ==> !(#[trigger] samples[i]).v.contains_key(name),
    ensures
        measured(samples, name, cutoff) == 0,
        loss_percent(samples, name, cutoff) == 0,
    decreases samples.len(),
{
    if samples.len() > 0 {
        assert forall|i: int| 0 <= i < samples.drop_last().len() implies !(
        #[trigger] samples.drop_last()[i]).v.contains_key(name) by {
            assert(samples.drop_last()[i] == samples[i]);
        }
        law_unmeasured_has_no_loss(samples.drop_last(), name, cutoff);
    }
    lemma_sums(samples, name, cutoff);
}

/// A new reply never raises the loss, and a new drop never lowers it.
pub proof fn law_loss_follows_the_newest_sample(
    samples: Seq<SampleView>,
    sample: SampleView,
    name: Seq<char>,
    cutoff: int,
)
    requires
        sample.v.contains_key(name),
        sample.t >= cutoff,
    ensures
        sample.v[name] is Some ==> loss_percent(samples.push(sample), name, cutoff)
            <= loss_percent(samples, name, cutoff),
        sample.v[name] is None ==> loss_percent(samples.push(sample), name, cutoff)
            >= loss_percent(samples, name, cutoff),
{
    let longer = samples.push(sample);
    assert(longer.drop_last() =~= samples);
    lemma_sums(samples, name, cutoff);
    let d = dropped_ms(samples, name, cutoff);
    let t = measured_ms(samples, name, cutoff);
    let w = weight(longer, samples.len() as int);
    assert(w >= 1);
    if t > 0 {
        if sample.v[name] is Some {
            assert(d * 100 / (t + w) <= d * 100 / t) by (nonlinear_arith)
                requires
                    d >= 0,
                    t > 0,
                    w >= 1,
            ;
        } else {
            assert((d + w) * 100 / (t + w) >= d * 100 / t) by {
                let q = d * 100 / t;
                assert(q * t <= d * 100 && 0 <= q <= 100) by (nonlinear_arith)
                    requires
                        q == d * 100 / t,
                        0 <= d <= t,
                        t > 0,
                ;
                assert(q * (t + w) <= (d + w) * 100) by (nonlinear_arith)
                    requires
                        q * t <= d * 100,
                        0 <= q <= 100,
                        w >= 1,
                ;
                assert((d + w) * 100 / (t + w) >= q) by (nonlinear_arith)
                    requires
                        q * (t + w) <= (d + w) * 100,
                        t + w > 0,
                ;
            }
        }
    } else {
        assert(d == 0);
        if sample.v[name] is Some {
            assert(0int / w == 0) by (nonlinear_arith)
                requires
                    w >= 1,
            ;
        } else {
            assert(w * 100 / w >= 0) by (nonlinear_arith)
                requires
                    w >= 1,
            ;
        }
    }
}

/// Loss goes by elapsed time, not by sample count: over a stretch in which every
/// sample measured the target and no gap is outside the limits, the measured
/// time is the time that passed, however many samples there are. Where all of
/// them were drops it is all loss, and where none was it adds no loss.
pub proof fn law_loss_goes_by_elapsed_time(
    samples: Seq<SampleView>,
    name: Seq<char>,
    cutoff: int,
    from: int,
)
    requires
        1 <= from <= samples.len(),
        forall|i: int|
            from <= i < samples.len() ==> #[trigger] counts(samples, name, cutoff, i) && 1
                <= samples[i].t - samples[i - 1].t <= MAX_SAMPLE_WEIGHT_MS,
    ensures
        ({
            let elapsed = samples.last().t - samples[from - 1].t;
            let before = samples.take(from);
            &&& measured_ms(samples, name, cutoff) == measured_ms(before, name, cutoff) + elapsed
            &&& (forall|i: int|
                from <= i < samples.len() ==> (#[trigger] samples[i]).v[name] is None)
                ==> dropped_ms(samples, name, cutoff) == dropped_ms(before, name, cutoff) + elapsed
            &&& (forall|i: int|
                from <= i < samples.len() ==> (#[trigger] samples[i]).v[name] is Some)
                ==> dropped_ms(samples, name, cutoff) == dropped_ms(before, name, cutoff)
        }),
    decreases samples.len(),
{
    if from < samples.len() {
        let shorter = samples.drop_last();
        let last = samples.len() - 1;
        assert(counts(samples, name, cutoff, last));
        assert forall|i: int| from <= i < shorter.len() implies #[trigger] counts(
            shorter,
            name,
            cutoff,
            i,
        ) && 1 <= shorter[i].t - shorter[i - 1].t <= MAX_SAMPLE_WEIGHT_MS by {
            assert(counts(samples, name, cutoff, i));
        }
        law_loss_goes_by_elapsed_time(shorter, name, cutoff, from);
        assert(shorter.take(from) =~= samples.take(from));
        assert(shorter.last() == samples[last - 1]);
        assert(weight(samples, last) == samples[last].t - samples[last - 1].t);
        assert forall|i: int| from <= i < shorter.len() implies #[trigger] shorter[i] == samples[i] by {}
    } else {
        assert(samples.take(from) =~= samples);
    }
}

/// A sample counts for a target exactly when it was taken at or after the cutoff and
/// its readings hold the target's name, whatever the reading is. It then adds one
/// sample, and the time since the sample before it: at least 1 ms and at most a
/// minute, and a second where there is none before it. A drop adds that time to what
/// was dropped, and a reply of any latency does not.
pub proof fn law_every_measurement_counts(
    samples: Seq<SampleView>,
    sample: SampleView,
    name: Seq<char>,
    cutoff: int,
)
    ensures
        ({
            let longer = samples.push(sample);
            let gap = sample.t - samples.last().t;
            let stands_for: int = if samples.len() == 0 {
                1_000
            } else if gap < 1 {
                1
            } else if gap > 60_000 {
                60_000
            } else {
                gap
            };
            let counted = sample.t >= cutoff && sample.v.dom().contains(name);
            let lost = counted && sample.v[name] == None::<u32>;
            &&& measured(longer, name, cutoff) == measured(samples, name, cutoff) + if counted {
                1int
            } else {
                0
            }
            &&& measured_ms(longer, name, cutoff) == measured_ms(samples, name, cutoff)
                + if counted {
                stands_for
            } else {
                0
            }
            &&& dropped_ms(longer, name, cutoff) == dropped_ms(samples, name, cutoff) + if lost {
                stands_for
            } else {
                0
            }
        }),
{
    let longer = samples.push(sample);
    assert(longer.drop_last() =~= samples);
    if samples.len() > 0 {
        assert(longer[samples.len() - 1] == samples.last());
    }
}

/// Without samples nothing was measured and nothing dropped.
pub proof fn law_nothing_is_measured_without_samples(name: Seq<char>, cutoff: int)
    ensures
        measured(Seq::empty(), name, cutoff) == 0,
        measured_ms(Seq::empty(), name, cutoff) == 0,
        dropped_ms(Seq::empty(), name, cutoff) == 0,
        loss_percent(Seq::empty(), name, cutoff) == 0,
{
}

/// Loss is the part of the measured time that was dropped, in percent and rounded
/// down: that many hundredths of the measured time were dropped, and not one more.
/// It is 0 where nothing was measured.
pub proof fn law_loss_is_the_dropped_share(samples: Seq<SampleView>, name: Seq<char>, cutoff: int)
    ensures
        ({
            let total = measured_ms(samples, name, cutoff);
            let dropped = dropped_ms(samples, name, cutoff);
            let percent = loss_percent(samples, name, cutoff);
            &&& 0 <= dropped <= total
            &&& total == 0 <==> measured(samples, name, cutoff) == 0
            &&& total > 0 ==> percent * total <= dropped * 100 < (percent + 1) * total
            &&& total == 0 ==> percent == 0
        }),
{
    lemma_sums(samples, name, cutoff);
    let total = measured_ms(samples, name, cutoff);
    let dropped = dropped_ms(samples, name, cutoff);
    let percent = loss_percent(samples, name, cutoff);
    if total > 0 {
        assert(percent * total <= dropped * 100 < (percent + 1) * total) by (nonlinear_arith)
            requires
                percent == dropped * 100 / total,
                dropped >= 0,
                total > 0,
        ;
    }
}

} // verus!
