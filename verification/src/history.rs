//! Rolling latency history: which samples are kept, and for how long.

use vstd::prelude::*;
use crate::names::NameMap;

verus! {

/// The latency in ms of each target that a sample measured, or `None` for a
/// dropped packet.
pub type Readings = NameMap<Option<u32>>;

/// One measurement round: when it was taken, and what it measured.
pub struct Sample {
    pub t: i64,
    pub v: Readings,
}

/// What a sample says: its time, and its readings by target name.
pub struct SampleView {
    pub t: int,
    pub v: Map<Seq<char>, Option<u32>>,
}

impl View for Sample {
    type V = SampleView;

    open spec fn view(&self) -> SampleView {
        SampleView { t: self.t as int, v: self.v@ }
    }
}

/// The samples of the current session, in the order in which they were taken.
pub struct History {
    pub samples: Vec<Sample>,
}

impl View for History {
    type V = Seq<SampleView>;

    open spec fn view(&self) -> Seq<SampleView> {
        self.samples@.map_values(|s: Sample| s@)
    }
}

/// The samples taken at or after `cutoff`, in order.
pub open spec fn recent(samples: Seq<SampleView>, cutoff: int) -> Seq<SampleView>
    decreases samples.len(),
{
    if samples.len() == 0 {
        Seq::empty()
    } else {
        let before = recent(samples.drop_last(), cutoff);
        if samples.last().t >= cutoff {
            before.push(samples.last())
        } else {
            before
        }
    }
}

/// The last items of a list, as many as the limit allows.
pub open spec fn newest<T>(list: Seq<T>, max: nat) -> Seq<T> {
    list.skip(if list.len() > max {
        list.len() - max
    } else {
        0
    })
}

/// What pruning leaves of a history: the samples within the limit on age, and of
/// those the newest, where there are more than the limit on their count.
pub open spec fn pruned(
    samples: Seq<SampleView>,
    now_ms: int,
    max_age_ms: int,
    max_samples: nat,
) -> Seq<SampleView> {
    newest(recent(samples, now_ms - max_age_ms), max_samples)
}

/// A list in reverse order.
pub(crate) fn reversed<T>(list: Vec<T>) -> (r: Vec<T>)
    ensures
        r@ == list@.reverse(),
{
    let ghost all = list@;
    let mut rest = list;
    let mut out: Vec<T> = Vec::new();
    assert(all.take(all.len() as int) =~= all);
    assert(out@ =~= all.reverse().take(0));
    while rest.len() > 0
        invariant
            rest@.len() <= all.len(),
            rest@ == all.take(rest@.len() as int),
            out@ == all.reverse().take(all.len() - rest@.len()),
        decreases rest@.len(),
    {
        let ghost n = rest@.len();
        match rest.pop() {
            Some(item) => {
                out.push(item);
                assert(all.reverse().take(all.len() - n + 1) =~= all.reverse().take(
                    all.len() - n,
                ).push(item));
                assert(rest@ =~= all.take(n - 1));
            },
            None => {},
        }
    }
    assert(all.reverse().take(all.len() as int) =~= all.reverse());
    out
}

impl Default for History {
    fn default() -> (r: Self)
        ensures
            r@ == Seq::<SampleView>::empty(),
    {
        let r = History { samples: Vec::new() };
        assert(r@ =~= Seq::<SampleView>::empty());
        r
    }
}

impl History {
    /// Appends a sample.
    pub fn push(&mut self, sample: Sample)
        ensures
            final(self)@ == old(self)@.push(sample@),
    {
        self.samples.push(sample);
        assert(self@ =~= old(self)@.push(sample@));
    }

    /// Forgets every sample.
    pub fn clear(&mut self)
        ensures
            final(self)@ == Seq::<SampleView>::empty(),
    {
        self.samples.clear();
        assert(self@ =~= Seq::<SampleView>::empty());
    }

    /// Drops the samples older than `max_age_ms`, then the oldest of the rest where
    /// there are more than `max_samples`.
    pub fn prune(&mut self, now_ms: i64, max_age_ms: i64, max_samples: usize)
        ensures
            final(self)@ == pruned(
                old(self)@,
                now_ms as int,
                max_age_ms as int,
                max_samples as nat,
            ),
    {
        let cutoff: i128 = now_ms as i128 - max_age_ms as i128;
        let ghost all = self@;
        let ghost items = self.samples@;
        let mut samples: Vec<Sample> = Vec::new();
        std::mem::swap(&mut samples, &mut self.samples);
        let mut rest = reversed(samples);
        let mut kept = History::default();
        assert(items.reverse().take(items.len() as int) =~= items.reverse());
        assert(all.take(0) =~= Seq::<SampleView>::empty());
        while rest.len() > 0
            invariant
                all == items.map_values(|s: Sample| s@),
                rest@.len() <= items.len(),
                rest@ == items.reverse().take(rest@.len() as int),
                kept@ == recent(all.take(items.len() - rest@.len()), cutoff as int),
            decreases rest@.len(),
        {
            let ghost done = items.len() - rest@.len();
            let ghost left = rest@.len();
            proof {
                assert(rest@[left - 1] == items[done]);
                assert(all.take(done + 1).drop_last() =~= all.take(done));
                assert(all.take(done + 1).last() == items[done]@);
            }
            match rest.pop() {
                Some(sample) => {
                    if sample.t as i128 >= cutoff {
                        kept.push(sample);
                    }
                    assert(rest@ =~= items.reverse().take(left - 1));
                },
                None => {},
            }
        }
        assert(all.take(all.len() as int) =~= all);
        let n: usize = kept.samples.len();
        assert(kept@.len() == n);
        let drop: usize = if n > max_samples {
            n - max_samples
        } else {
            0
        };
        let ghost before = kept.samples@;
        self.samples = kept.samples.split_off(drop);
        assert(self.samples@ =~= before.skip(drop as int));
        assert(self@ =~= recent(all, cutoff as int).skip(drop as int));
    }
}

/// The samples stand in the order in which they were taken.
pub open spec fn in_order(samples: Seq<SampleView>) -> bool {
    forall|i: int, j: int|
        0 <= i <= j < samples.len() ==> (#[trigger] samples[i]).t <= (#[trigger] samples[j]).t
}

// ---------------------------------------------------------------------------
// Laws
// ---------------------------------------------------------------------------
/// The recent samples are those of the list that are recent.
proof fn lemma_recent(samples: Seq<SampleView>, cutoff: int)
    ensures
        recent(samples, cutoff).len() <= samples.len(),
        forall|i: int|
            0 <= i < recent(samples, cutoff).len() ==> (#[trigger] recent(samples, cutoff)[i]).t
                >= cutoff && samples.contains(recent(samples, cutoff)[i]),
        forall|i: int|
            0 <= i < samples.len() && (#[trigger] samples[i]).t >= cutoff ==> recent(
                samples,
                cutoff,
            ).contains(samples[i]),
    decreases samples.len(),
{
    if samples.len() > 0 {
        let shorter = samples.drop_last();
        let before = recent(shorter, cutoff);
        let kept = recent(samples, cutoff);
        lemma_recent(shorter, cutoff);
        assert forall|i: int| 0 <= i < kept.len() implies (#[trigger] kept[i]).t >= cutoff
            && samples.contains(kept[i]) by {
            if i < before.len() {
                assert(kept[i] == before[i]);
                assert(shorter.contains(before[i]));
                let k = choose|k: int| 0 <= k < shorter.len() && shorter[k] == before[i];
                assert(samples[k] == before[i]);
            } else {
                assert(samples[samples.len() - 1] == kept[i]);
            }
        }
        assert forall|i: int|
            0 <= i < samples.len() && (#[trigger] samples[i]).t >= cutoff implies kept.contains(
            samples[i],
        ) by {
            if i < shorter.len() {
                assert(shorter[i] == samples[i]);
                assert(before.contains(samples[i]));
                let k = choose|k: int| 0 <= k < before.len() && before[k] == samples[i];
                assert(kept[k] == samples[i]);
            } else {
                assert(kept[kept.len() - 1] == samples[i]);
            }
        }
    }
}

/// Where every sample is recent, they all are.
proof fn lemma_all_recent(samples: Seq<SampleView>, cutoff: int)
    requires
        forall|i: int| 0 <= i < samples.len() ==> (#[trigger] samples[i]).t >= cutoff,
    ensures
        recent(samples, cutoff) == samples,
    decreases samples.len(),
{
    if samples.len() > 0 {
        let shorter = samples.drop_last();
        assert forall|i: int| 0 <= i < shorter.len() implies (#[trigger] shorter[i]).t
            >= cutoff by {
            assert(shorter[i] == samples[i]);
        }
        lemma_all_recent(shorter, cutoff);
        assert(samples[samples.len() - 1].t >= cutoff);
        assert(shorter.push(samples.last()) =~= samples);
    }
}

/// The recent samples of a history in order are a part at its end.
proof fn lemma_recent_in_order(samples: Seq<SampleView>, cutoff: int)
    requires
        in_order(samples),
    ensures
        recent(samples, cutoff).len() <= samples.len(),
        recent(samples, cutoff) == samples.skip(samples.len() - recent(samples, cutoff).len()),
    decreases samples.len(),
{
    if samples.len() == 0 {
        assert(recent(samples, cutoff) =~= samples.skip(0));
    } else {
        let shorter = samples.drop_last();
        let before = recent(shorter, cutoff);
        assert(in_order(shorter)) by {
            assert forall|i: int, j: int| 0 <= i <= j < shorter.len() implies (
            #[trigger] shorter[i]).t <= (#[trigger] shorter[j]).t by {
                assert(samples[i].t <= samples[j].t);
            }
        }
        lemma_recent_in_order(shorter, cutoff);
        lemma_recent(shorter, cutoff);
        if samples.last().t >= cutoff {
            assert(before.push(samples.last()) =~= samples.skip(
                samples.len() - before.len() - 1,
            ));
        } else {
            if before.len() > 0 {
                assert(before[0].t >= cutoff);
                assert(before[0] == shorter[shorter.len() - before.len()]);
                let k = shorter.len() - before.len();
                assert(samples[k].t <= samples[samples.len() - 1].t);
            }
            assert(before =~= samples.skip(samples.len() as int));
        }
    }
}

/// Pruning keeps no sample that is over the limit on age, and never more than the
/// limit on their count. It drops a sample that is within the limit on age only
/// to meet the limit on the count, and then the newest stay.
pub proof fn law_prune_keeps_what_is_recent(
    samples: Seq<SampleView>,
    now_ms: int,
    max_age_ms: int,
    max_samples: nat,
)
    ensures
        ({
            let cutoff = now_ms - max_age_ms;
            let all = recent(samples, cutoff);
            let kept = pruned(samples, now_ms, max_age_ms, max_samples);
            &&& kept.len() <= max_samples
            &&& forall|i: int|
                0 <= i < kept.len() ==> (#[trigger] kept[i]).t >= cutoff && samples.contains(
                    kept[i],
                )
            &&& all.len() <= max_samples ==> forall|i: int|
                0 <= i < samples.len() && (#[trigger] samples[i]).t >= cutoff ==> kept.contains(
                    samples[i],
                )
            &&& all.len() > max_samples ==> kept.len() == max_samples && kept == all.skip(
                all.len() - max_samples,
            )
        }),
{
    let cutoff = now_ms - max_age_ms;
    let all = recent(samples, cutoff);
    let kept = pruned(samples, now_ms, max_age_ms, max_samples);
    lemma_recent(samples, cutoff);
    assert forall|i: int| 0 <= i < kept.len() implies (#[trigger] kept[i]).t >= cutoff
        && samples.contains(kept[i]) by {
        assert(kept[i] == all[all.len() - kept.len() + i]);
    }
    if all.len() <= max_samples {
        assert(kept =~= all);
    }
}

/// On samples in the order in which they were taken, pruning takes from the front
/// only.
pub proof fn law_prune_takes_from_the_front(
    samples: Seq<SampleView>,
    now_ms: int,
    max_age_ms: int,
    max_samples: nat,
)
    requires
        in_order(samples),
    ensures
        ({
            let kept = pruned(samples, now_ms, max_age_ms, max_samples);
            kept.len() <= samples.len() && kept == samples.skip(samples.len() - kept.len())
        }),
{
    lemma_recent_in_order(samples, now_ms - max_age_ms);
    let kept = pruned(samples, now_ms, max_age_ms, max_samples);
    assert(kept =~= samples.skip(samples.len() - kept.len()));
}

/// Pruning again at the same moment changes nothing.
pub proof fn law_prune_twice_is_once(
    samples: Seq<SampleView>,
    now_ms: int,
    max_age_ms: int,
    max_samples: nat,
)
    ensures
        pruned(
            pruned(samples, now_ms, max_age_ms, max_samples),
            now_ms,
            max_age_ms,
            max_samples,
        ) == pruned(samples, now_ms, max_age_ms, max_samples),
{
    let kept = pruned(samples, now_ms, max_age_ms, max_samples);
    law_prune_keeps_what_is_recent(samples, now_ms, max_age_ms, max_samples);
    lemma_all_recent(kept, now_ms - max_age_ms);
    assert(kept.skip(0) =~= kept);
}

/// Pruning looks at each sample by itself: one more at the end is kept with those before
/// it exactly when it is within the limit on age, and without samples nothing is kept.
/// Of those that are within it, as many as the limit on their count stay, from the end.
pub proof fn law_prune_goes_sample_by_sample(
    samples: Seq<SampleView>,
    sample: SampleView,
    now_ms: int,
    max_age_ms: int,
    max_samples: nat,
    i: int,
)
    ensures
        ({
            let cutoff = now_ms - max_age_ms;
            let all = recent(samples, cutoff);
            let kept = pruned(samples, now_ms, max_age_ms, max_samples);
            &&& recent(Seq::<SampleView>::empty(), cutoff).len() == 0
            &&& now_ms - sample.t <= max_age_ms ==> recent(samples.push(sample), cutoff)
                == all.push(sample)
            &&& now_ms - sample.t > max_age_ms ==> recent(samples.push(sample), cutoff) == all
            &&& kept.len() == if all.len() < max_samples {
                all.len()
            } else {
                max_samples
            }
            &&& 0 <= i < kept.len() ==> kept[i] == all[all.len() - kept.len() + i]
        }),
{
    assert(samples.push(sample).drop_last() =~= samples);
}

/// The end of a list is what its limit leaves of it.
pub proof fn law_newest_is_the_end<T>(list: Seq<T>, max: nat, i: int)
    ensures
        newest(list, max).len() == if list.len() < max {
            list.len()
        } else {
            max
        },
        0 <= i < newest(list, max).len() ==> newest(list, max)[i] == list[list.len() - newest(
            list,
            max,
        ).len() + i],
{
}

/// A history says each of its samples, in order, with their time and their readings.
pub proof fn law_history_says_what_it_holds(history: History, i: int)
    requires
        0 <= i < history.samples@.len(),
    ensures
        history@.len() == history.samples@.len(),
        history@[i].t == history.samples@[i].t,
        history@[i].v == history.samples@[i].v@,
{
}

} // verus!
