//! Throughput history for the bandwidth area drawn behind the latency lines,
//! and how two readings of an interface's byte counters become one sample.
//!
//! A rate is a number that this module only carries, so its type is left open.

use vstd::prelude::*;
use crate::history;

verus! {

/// How often the interface counters are read. Also the resolution of the area
/// chart, so it is well under the shortest display window.
pub const SAMPLE_MS: u64 = 1_000;

/// Two readings closer than this, in nanoseconds, give no rate.
pub const MIN_SPAN_NS: u64 = 100_000_000;

/// One throughput reading, in bits per second in each direction.
#[derive(Clone, Copy)]
pub struct BandwidthSample<R> {
    pub t: i64,
    pub rx_bps: R,
    pub tx_bps: R,
}

/// The throughput of the current session, in the order in which it was sampled.
pub struct BandwidthHistory<R> {
    pub samples: Vec<BandwidthSample<R>>,
}

/// The samples taken at or after `cutoff`, in order.
pub open spec fn recent<R>(samples: Seq<BandwidthSample<R>>, cutoff: int) -> Seq<BandwidthSample<R>>
    decreases samples.len(),
{
    if samples.len() == 0 {
        Seq::empty()
    } else {
        let before = recent(samples.drop_last(), cutoff);
        if samples.last().t >= cutoff {
            before.push(samples.last())
        } else {
            before
        }
    }
}

/// What pruning leaves of a throughput history: the samples within the limit on
/// age, and of those the newest, where there are more than the limit on their
/// count.
pub open spec fn pruned<R>(
    samples: Seq<BandwidthSample<R>>,
    now_ms: int,
    max_age_ms: int,
    max_samples: nat,
) -> Seq<BandwidthSample<R>> {
    history::newest(recent(samples, now_ms - max_age_ms), max_samples)
}

impl<R> Default for BandwidthHistory<R> {
    fn default() -> (r: Self)
        ensures
            r.samples@ == Seq::<BandwidthSample<R>>::empty(),
    {
        BandwidthHistory { samples: Vec::new() }
    }
}

impl<R: Copy> BandwidthHistory<R> {
    /// Appends a sample.
    pub fn push(&mut self, sample: BandwidthSample<R>)
        ensures
            final(self).samples@ == old(self).samples@.push(sample),
    {
        self.samples.push(sample);
    }

    /// The most recent reading, if any.
    pub fn latest(&self) -> (r: Option<BandwidthSample<R>>)
        ensures
            r == (if self.samples@.len() == 0 {
                None
            } else {
                Some(self.samples@.last())
            }),
    {
        if self.samples.len() == 0 {
            None
        } else {
            Some(self.samples[self.samples.len() - 1])
        }
    }

    /// Drops the samples older than `max_age_ms`, then the oldest of the rest where
    /// there are more than `max_samples`.
    pub fn prune(&mut self, now_ms: i64, max_age_ms: i64, max_samples: usize)
        ensures
            final(self).samples@ == pruned(
                old(self).samples@,
                now_ms as int,
                max_age_ms as int,
                max_samples as nat,
            ),
    {
        let cutoff: i128 = now_ms as i128 - max_age_ms as i128;
        let ghost all = self.samples@;
        let mut kept: Vec<BandwidthSample<R>> = Vec::new();
        let mut i: usize = 0;
        assert(all.take(0) =~= Seq::<BandwidthSample<R>>::empty());
        while i < self.samples.len()
            invariant
                i <= self.samples@.len(),
                all == self.samples@,
                kept@ == recent(all.take(i as int), cutoff as int),
            decreases self.samples@.len() - i,
        {
            assert(all.take(i + 1).drop_last() =~= all.take(i as int));
            let sample = self.samples[i];
            if sample.t as i128 >= cutoff {
                kept.push(sample);
            }
            i += 1;
        }
        assert(all.take(all.len() as int) =~= all);
        let n: usize = kept.len();
        let drop: usize = if n > max_samples {
            n - max_samples
        } else {
            0
        };
        self.samples = kept.split_off(drop);
        assert(self.samples@ =~= recent(all, cutoff as int).skip(drop as int));
    }

    /// Appends a sample and prunes the history at the sample's own time.
    pub fn record(&mut self, sample: BandwidthSample<R>, max_age_ms: i64, max_samples: usize)
        ensures
            final(self).samples@ == pruned(
                old(self).samples@.push(sample),
                sample.t as int,
                max_age_ms as int,
                max_samples as nat,
            ),
    {
        self.push(sample);
        self.prune(sample.t, max_age_ms, max_samples);
    }
}

/// The byte counters of one interface at one instant, which is counted in
/// nanoseconds from some fixed one.
pub struct Counters {
    pub index: u32,
    pub in_octets: u64,
    pub out_octets: u64,
    pub at_ns: u64,
}

/// What passed through an interface between two readings.
pub struct Traffic {
    pub rx_octets: u64,
    pub tx_octets: u64,
    pub span_ns: u64,
}

/// The difference of two counter values; a counter that went back was reset, and
/// counts as no traffic.
pub open spec fn grown(now: u64, before: u64) -> int {
    if now > before {
        now - before
    } else {
        0
    }
}

/// Two readings can be compared: they are of the same interface, and far enough
/// apart.
pub open spec fn comparable(before: Counters, now: Counters) -> bool {
    before.index == now.index && grown(now.at_ns, before.at_ns) > MIN_SPAN_NS
}

/// What passed between two readings: the octets received and sent, and the time in ns.
pub open spec fn passed_between(
    before: Option<Counters>,
    now: Option<Counters>,
) -> Option<(int, int, int)> {
    match (before, now) {
        (Some(b), Some(n)) => if comparable(b, n) {
            Some(
                (
                    grown(n.in_octets, b.in_octets),
                    grown(n.out_octets, b.out_octets),
                    grown(n.at_ns, b.at_ns),
                ),
            )
        } else {
            None
        },
        _ => None,
    }
}

/// What passed between two readings, where both were made and can be compared. A
/// different interface means the default route moved, so the two readings aren't
/// comparable.
pub fn traffic_between(before: Option<&Counters>, now: Option<&Counters>) -> (r: Option<Traffic>)
    ensures
        passed_between(
            match before {
                Some(b) => Some(*b),
                None => None,
            },
            match now {
                Some(n) => Some(*n),
                None => None,
            },
        ) == (match r {
            Some(t) => Some((t.rx_octets as int, t.tx_octets as int, t.span_ns as int)),
            None => None,
        }),
        r is Some <==> before is Some && now is Some && comparable(*before->0, *now->0),
        r matches Some(t) ==> {
            &&& t.rx_octets == grown(now->0.in_octets, before->0.in_octets)
            &&& t.tx_octets == grown(now->0.out_octets, before->0.out_octets)
            &&& t.span_ns == grown(now->0.at_ns, before->0.at_ns)
        },
{
    match (before, now) {
        (Some(p), Some(c)) => {
            let span: u64 = c.at_ns.saturating_sub(p.at_ns);
            if p.index == c.index && span > MIN_SPAN_NS {
                Some(
                    Traffic {
                        rx_octets: c.in_octets.saturating_sub(p.in_octets),
                        tx_octets: c.out_octets.saturating_sub(p.out_octets),
                        span_ns: span,
                    },
                )
            } else {
                None
            }
        },
        _ => None,
    }
}

// ---------------------------------------------------------------------------
// Laws
// ---------------------------------------------------------------------------
/// The recent samples are those of the list that are recent.
proof fn lemma_recent<R>(samples: Seq<BandwidthSample<R>>, cutoff: int)
    ensures
        forall|i: int|
            0 <= i < recent(samples, cutoff).len() ==> (#[trigger] recent(samples, cutoff)[i]).t
                >= cutoff && samples.contains(recent(samples, cutoff)[i]),
        forall|i: int|
            0 <= i < samples.len() && (#[trigger] samples[i]).t >= cutoff ==> recent(
                samples,
                cutoff,
            ).contains(samples[i]),
    decreases samples.len(),
{
    if samples.len() > 0 {
        let shorter = samples.drop_last();
        let before = recent(shorter, cutoff);
        let kept = recent(samples, cutoff);
        lemma_recent(shorter, cutoff);
        assert forall|i: int| 0 <= i < kept.len() implies (#[trigger] kept[i]).t >= cutoff
            && samples.contains(kept[i]) by {
            if i < before.len() {
                assert(kept[i] == before[i]);
                assert(shorter.contains(before[i]));
                let k = choose|k: int| 0 <= k < shorter.len() && shorter[k] == before[i];
                assert(samples[k] == before[i]);
            } else {
                assert(samples[samples.len() - 1] == kept[i]);
            }
        }
        assert forall|i: int|
            0 <= i < samples.len() && (#[trigger] samples[i]).t >= cutoff implies kept.contains(
            samples[i],
        ) by {
            if i < shorter.len() {
                assert(shorter[i] == samples[i]);
                assert(before.contains(samples[i]));
                let k = choose|k: int| 0 <= k < before.len() && before[k] == samples[i];
                assert(kept[k] == samples[i]);
            } else {
                assert(kept[kept.len() - 1] == samples[i]);
            }
        }
    }
}

/// Pruning keeps no sample that is over the limit on age, and never more than the
/// limit on their count. It drops a sample that is within the limit on age only
/// to meet the limit on the count, and then the newest stay.
pub proof fn law_prune_keeps_what_is_recent<R>(
    samples: Seq<BandwidthSample<R>>,
    now_ms: int,
    max_age_ms: int,
    max_samples: nat,
)
    ensures
        ({
            let cutoff = now_ms - max_age_ms;
            let all = recent(samples, cutoff);
            let kept = pruned(samples, now_ms, max_age_ms, max_samples);
            &&& kept.len() <= max_samples
            &&& forall|i: int|
                0 <= i < kept.len() ==> (#[trigger] kept[i]).t >= cutoff && samples.contains(
                    kept[i],
                )
            &&& all.len() <= max_samples ==> forall|i: int|
                0 <= i < samples.len() && (#[trigger] samples[i]).t >= cutoff ==> kept.contains(
                    samples[i],
                )
            &&& all.len() > max_samples ==> kept.len() == max_samples && kept == all.skip(
                all.len() - max_samples,
            )
        }),
{
    let cutoff = now_ms - max_age_ms;
    let all = recent(samples, cutoff);
    let kept = pruned(samples, now_ms, max_age_ms, max_samples);
    lemma_recent(samples, cutoff);
    assert forall|i: int| 0 <= i < kept.len() implies (#[trigger] kept[i]).t >= cutoff
        && samples.contains(kept[i]) by {
        assert(kept[i] == all[all.len() - kept.len() + i]);
    }
    if all.len() <= max_samples {
        assert(kept =~= all);
    }
}

/// A sample that is recorded is the latest one, where the limits leave room for
/// it.
pub proof fn law_recorded_sample_is_the_latest<R>(
    samples: Seq<BandwidthSample<R>>,
    sample: BandwidthSample<R>,
    max_age_ms: int,
    max_samples: nat,
)
    requires
        max_age_ms >= 0,
        max_samples > 0,
    ensures
        ({
            let kept = pruned(samples.push(sample), sample.t as int, max_age_ms, max_samples);
            kept.len() > 0 && kept.last() == sample
        }),
{
    assert(samples.push(sample).drop_last() =~= samples);
}

/// Pruning looks at each sample by itself: one more at the end is kept with those before
/// it exactly when it is within the limit on age, and without samples nothing is kept.
/// Of those that are within it, as many as the limit on their count stay, from the end.
pub proof fn law_prune_goes_sample_by_sample<R>(
    samples: Seq<BandwidthSample<R>>,
    sample: BandwidthSample<R>,
    now_ms: int,
    max_age_ms: int,
    max_samples: nat,
    i: int,
)
    ensures
        ({
            let cutoff = now_ms - max_age_ms;
            let all = recent(samples, cutoff);
            let kept = pruned(samples, now_ms, max_age_ms, max_samples);
            &&& recent(Seq::<BandwidthSample<R>>::empty(), cutoff).len() == 0
            &&& now_ms - sample.t <= max_age_ms ==> recent(samples.push(sample), cutoff)
                == all.push(sample)
            &&& now_ms - sample.t > max_age_ms ==> recent(samples.push(sample), cutoff) == all
            &&& kept.len() == if all.len() < max_samples {
                all.len()
            } else {
                max_samples
            }
            &&& 0 <= i < kept.len() ==> kept[i] == all[all.len() - kept.len() + i]
        }),
{
    assert(samples.push(sample).drop_last() =~= samples);
}

/// A counter that grew tells by how much, and one that did not, or was reset, tells of no
/// traffic.
pub proof fn law_traffic_is_the_growth(now: u64, before: u64)
    ensures
        now >= before ==> before + grown(now, before) == now,
        now <= before ==> grown(now, before) == 0,
{
}

/// Two readings of one interface are compared exactly when the later one was made more
/// than a tenth of a second after the other, and readings of two interfaces never are.
pub proof fn law_readings_far_enough_apart_are_compared(before: Counters, now: Counters)
    ensures
        comparable(before, now) <==> before.index == now.index && now.at_ns - before.at_ns
            > 100_000_000,
{
}

/// What passed is told exactly where both readings were made, of one interface and more
/// than a tenth of a second apart: the growth of either counter, and the time between them.
pub proof fn law_what_passed_between_readings(before: Counters, now: Counters)
    ensures
        ({
            let passed = passed_between(Some(before), Some(now));
            &&& passed is Some <==> before.index == now.index && now.at_ns - before.at_ns
                > 100_000_000
            &&& passed matches Some(p) ==> {
                &&& p.0 == grown(now.in_octets, before.in_octets)
                &&& p.1 == grown(now.out_octets, before.out_octets)
                &&& p.2 == now.at_ns - before.at_ns
            }
        }),
        passed_between(None, Some(now)) is None,
        passed_between(Some(before), None) is None,
        passed_between(None, None) is None,
{
}

} // verus!
