//! Which targets alert, and when a target that has alerted may alert again.

use vstd::prelude::*;
use crate::config;
use crate::config::Target;
use crate::config::TargetView;
use crate::history::History;
use crate::history::SampleView;
use crate::loss;
use crate::names::NameSet;

verus! {

/// Samples that a target needs before it can alert.
pub const MIN_ALERT_SAMPLES: usize = 10;

/// The target is over the threshold, on enough samples to say so.
pub open spec fn over_threshold(
    samples: Seq<SampleView>,
    name: Seq<char>,
    cutoff: int,
    threshold: u32,
) -> bool {
    &&& loss::measured(samples, name, cutoff) >= MIN_ALERT_SAMPLES
    &&& loss::loss_percent(samples, name, cutoff) > threshold
}

/// Some target of the list has the name.
pub open spec fn named(targets: Seq<TargetView>, name: Seq<char>) -> bool {
    exists|i: int| 0 <= i < targets.len() && (#[trigger] targets[i]).name == name
}

/// The targets that are over the threshold.
pub open spec fn alerting(
    samples: Seq<SampleView>,
    targets: Seq<TargetView>,
    cutoff: int,
    threshold: u32,
) -> Set<Seq<char>> {
    Set::new(
        |name: Seq<char>|
            named(targets, name) && over_threshold(samples, name, cutoff, threshold),
    )
}

/// The alerts to raise: each target that is over the threshold and had not
/// alerted before, once, in the order of the list, with its loss.
pub open spec fn new_alerts(
    samples: Seq<SampleView>,
    targets: Seq<TargetView>,
    cutoff: int,
    threshold: u32,
    before: Set<Seq<char>>,
) -> Seq<(Seq<char>, int)>
    decreases targets.len(),
{
    if targets.len() == 0 {
        Seq::empty()
    } else {
        let earlier = new_alerts(samples, targets.drop_last(), cutoff, threshold, before);
        let name = targets.last().name;
        if over_threshold(samples, name, cutoff, threshold) && !before.contains(name) && !named(
            targets.drop_last(),
            name,
        ) {
            earlier.push((name, loss::loss_percent(samples, name, cutoff)))
        } else {
            earlier
        }
    }
}

/// What a list of alerts says.
pub open spec fn alert_views(alerts: Seq<(String, u32)>) -> Seq<(Seq<char>, int)> {
    alerts.map_values(|a: (String, u32)| (a.0@, a.1 as int))
}

/// The start of the display window.
pub open spec fn window_cutoff(now: int, window_mins: int) -> int {
    now - window_mins * 60_000
}

/// One more target makes one more name.
proof fn lemma_named_step(targets: Seq<TargetView>, i: int, name: Seq<char>)
    requires
        0 <= i < targets.len(),
    ensures
        named(targets.take(i + 1), name) == (named(targets.take(i), name) || targets[i].name
            == name),
{
    let upto = targets.take(i + 1);
    let before = targets.take(i);
    if named(before, name) {
        let j = choose|j: int| 0 <= j < before.len() && (#[trigger] before[j]).name == name;
        assert(upto[j].name == name);
    }
    if targets[i].name == name {
        assert(upto[i].name == name);
    }
    if named(upto, name) && targets[i].name != name {
        let j = choose|j: int| 0 <= j < upto.len() && (#[trigger] upto[j]).name == name;
        assert(before[j].name == name);
    }
}

/// The names of a list of targets.
fn names_of(targets: &[Target]) -> (r: NameSet)
    ensures
        forall|n: Seq<char>| #[trigger] r@.contains(n) <==> named(config::views(targets@), n),
{
    let mut out = NameSet::new();
    let ghost all = config::views(targets@);
    let mut i: usize = 0;
    while i < targets.len()
        invariant
            i <= targets@.len(),
            all == config::views(targets@),
            forall|n: Seq<char>| #[trigger] out@.contains(n) <==> named(all.take(i as int), n),
        decreases targets@.len() - i,
    {
        assert(all[i as int].name == targets@[i as int].name@);
        let ghost before = out@;
        let _fresh = out.insert(targets[i].name.clone());
        assert forall|n: Seq<char>| #[trigger]
            out@.contains(n) <==> named(all.take(i + 1), n) by {
            lemma_named_step(all, i as int, n);
            assert(before.contains(n) <==> named(all.take(i as int), n));
        }
        i += 1;
    }
    assert(all.take(all.len() as int) =~= all);
    out
}

/// Judges every target over the display window that ends now. Returns the
/// targets that have just gone over the threshold, and updates the set of those
/// that have alerted: a target that is no longer over the threshold, or no
/// longer in the list, may alert again.
pub fn evaluate_alerts(
    history: &History,
    targets: &[Target],
    window_mins: i64,
    threshold: u32,
    alerted_targets: &mut NameSet,
    now: i64,
) -> (r: Vec<(String, u32)>)
    ensures
        final(alerted_targets)@ == alerting(
            history@,
            config::views(targets@),
            window_cutoff(now as int, window_mins as int),
            threshold,
        ),
        alert_views(r@) == new_alerts(
            history@,
            config::views(targets@),
            window_cutoff(now as int, window_mins as int),
            threshold,
            old(alerted_targets)@,
        ),
{
    let current = names_of(targets);
    alerted_targets.retain(&current);
    let cutoff: i128 = now as i128 - window_mins as i128 * 60_000;
    let ghost samples = history@;
    let ghost all = config::views(targets@);
    let ghost before = old(alerted_targets)@;
    let mut newly: Vec<(String, u32)> = Vec::new();
    let mut i: usize = 0;
    proof {
        assert(all.take(0) =~= Seq::<TargetView>::empty());
        assert(alert_views(newly@) =~= new_alerts(
            samples,
            all.take(0),
            cutoff as int,
            threshold,
            before,
        ));
        assert(forall|n: Seq<char>| !named(all.take(0), n));
    }
    while i < targets.len()
        invariant
            i <= targets@.len(),
            all == config::views(targets@),
            samples == history@,
            alert_views(newly@) == new_alerts(
                samples,
                all.take(i as int),
                cutoff as int,
                threshold,
                before,
            ),
            forall|n: Seq<char>| #[trigger]
                alerted_targets@.contains(n) <==> (if named(all.take(i as int), n) {
                    over_threshold(samples, n, cutoff as int, threshold)
                } else {
                    before.contains(n) && named(all, n)
                }),
        decreases targets@.len() - i,
    {
        let ghost held_before = alerted_targets@;
        let ghost upto = all.take(i + 1);
        let ghost name = all[i as int].name;
        let ghost newly_before = newly@;
        proof {
            assert(all[i as int].name == targets@[i as int].name@);
            assert(upto.drop_last() =~= all.take(i as int));
            assert(upto.last() == all[i as int]);
            assert(named(all, name));
        }
        let (count, percent) = loss::loss_since(history, targets[i].name.as_str(), cutoff);
        if count >= MIN_ALERT_SAMPLES && percent > threshold {
            if alerted_targets.insert(targets[i].name.clone()) {
                newly.push((targets[i].name.clone(), percent));
                assert(alert_views(newly@) =~= alert_views(newly_before).push(
                    (name, loss::loss_percent(samples, name, cutoff as int)),
                ));
            }
        } else {
            alerted_targets.remove(targets[i].name.as_str());
        }
        proof {
            assert(held_before.contains(name) <==> (if named(all.take(i as int), name) {
                over_threshold(samples, name, cutoff as int, threshold)
            } else {
                before.contains(name) && named(all, name)
            }));
            assert forall|n: Seq<char>| #[trigger]
                alerted_targets@.contains(n) <==> (if named(upto, n) {
                    over_threshold(samples, n, cutoff as int, threshold)
                } else {
                    before.contains(n) && named(all, n)
                }) by {
                lemma_named_step(all, i as int, n);
                assert(held_before.contains(n) <==> (if named(all.take(i as int), n) {
                    over_threshold(samples, n, cutoff as int, threshold)
                } else {
                    before.contains(n) && named(all, n)
                }));
            }
        }
        i += 1;
    }
    proof {
        assert(all.take(all.len() as int) =~= all);
        assert(alerted_targets@ =~= alerting(samples, all, cutoff as int, threshold));
    }
    newly
}

// ---------------------------------------------------------------------------
// Laws
// ---------------------------------------------------------------------------
/// An alert for the name is raised.
pub open spec fn raised(alerts: Seq<(Seq<char>, int)>, name: Seq<char>) -> bool {
    exists|i: int| 0 <= i < alerts.len() && (#[trigger] alerts[i]).0 == name
}

/// An alert is raised for exactly the targets that are over the threshold now
/// and had not alerted before, and it tells their loss, which is above the
/// threshold.
pub proof fn law_alert_on_crossing(
    samples: Seq<SampleView>,
    targets: Seq<TargetView>,
    cutoff: int,
    threshold: u32,
    before: Set<Seq<char>>,
)
    ensures
        forall|name: Seq<char>|
            #[trigger] raised(
                new_alerts(samples, targets, cutoff, threshold, before),
                name,
            ) <==> named(targets, name) && over_threshold(samples, name, cutoff, threshold)
                && !before.contains(name),
        forall|i: int|
            0 <= i < new_alerts(samples, targets, cutoff, threshold, before).len() ==> {
                let alert = #[trigger] new_alerts(samples, targets, cutoff, threshold, before)[i];
                alert.1 == loss::loss_percent(samples, alert.0, cutoff) && alert.1 > threshold
            },
    decreases targets.len(),
{
    let alerts = new_alerts(samples, targets, cutoff, threshold, before);
    if targets.len() > 0 {
        let shorter = targets.drop_last();
        let last = targets.last().name;
        let earlier = new_alerts(samples, shorter, cutoff, threshold, before);
        law_alert_on_crossing(samples, shorter, cutoff, threshold, before);
        assert forall|name: Seq<char>| #[trigger]
            raised(alerts, name) <==> named(targets, name) && over_threshold(
                samples,
                name,
                cutoff,
                threshold,
            ) && !before.contains(name) by {
            lemma_named_step(targets, targets.len() - 1, name);
            assert(targets.take(targets.len() - 1) =~= shorter);
            assert(targets.take(targets.len() as int) =~= targets);
            assert(raised(earlier, name) <==> named(shorter, name) && over_threshold(
                samples,
                name,
                cutoff,
                threshold,
            ) && !before.contains(name));
            if raised(earlier, name) {
                let i = choose|i: int| 0 <= i < earlier.len() && (#[trigger] earlier[i]).0 == name;
                assert(alerts[i].0 == name);
            }
            if alerts.len() > earlier.len() {
                assert(alerts[earlier.len() as int].0 == last);
            }
            if raised(alerts, name) {
                let i = choose|i: int| 0 <= i < alerts.len() && (#[trigger] alerts[i]).0 == name;
                if i < earlier.len() {
                    assert(earlier[i].0 == name);
                }
            }
        }
    }
}

/// No target alerts twice in one round.
pub proof fn law_one_alert_per_target(
    samples: Seq<SampleView>,
    targets: Seq<TargetView>,
    cutoff: int,
    threshold: u32,
    before: Set<Seq<char>>,
)
    ensures
        forall|i: int, j: int|
            0 <= i < j < new_alerts(samples, targets, cutoff, threshold, before).len()
                ==> (#[trigger] new_alerts(samples, targets, cutoff, threshold, before)[i]).0 != (
            #[trigger] new_alerts(samples, targets, cutoff, threshold, before)[j]).0,
    decreases targets.len(),
{
    if targets.len() > 0 {
        let shorter = targets.drop_last();
        let earlier = new_alerts(samples, shorter, cutoff, threshold, before);
        law_one_alert_per_target(samples, shorter, cutoff, threshold, before);
        law_alert_on_crossing(samples, shorter, cutoff, threshold, before);
        assert forall|i: int| 0 <= i < earlier.len() implies named(
            shorter,
            (#[trigger] earlier[i]).0,
        ) by {
            assert(raised(earlier, earlier[i].0));
        }
    }
}

/// What the targets are judged on, at one time.
pub struct Round {
    pub samples: Seq<SampleView>,
    pub targets: Seq<TargetView>,
    pub cutoff: int,
    pub threshold: u32,
}

/// The targets that are over the threshold in a round.
pub open spec fn alerting_in(round: Round) -> Set<Seq<char>> {
    alerting(round.samples, round.targets, round.cutoff, round.threshold)
}

/// The targets that have alerted after a list of rounds.
pub open spec fn alerted_after(rounds: Seq<Round>) -> Set<Seq<char>> {
    if rounds.len() == 0 {
        Set::empty()
    } else {
        alerting_in(rounds.last())
    }
}

/// The alerts that the last of a list of rounds raises.
pub open spec fn alerts_at_the_end(rounds: Seq<Round>) -> Seq<(Seq<char>, int)> {
    let last = rounds.last();
    new_alerts(
        last.samples,
        last.targets,
        last.cutoff,
        last.threshold,
        alerted_after(rounds.drop_last()),
    )
}

/// Whatever happened before, and whatever changed in the list, the window or the
/// threshold: a target alerts in exactly those rounds in which it is over the
/// threshold and was not in the round before. So it alerts once while it stays
/// over the threshold, and again after a recovery.
pub proof fn law_alerts_exactly_when_crossing(rounds: Seq<Round>, name: Seq<char>)
    requires
        rounds.len() > 0,
    ensures
        raised(alerts_at_the_end(rounds), name) <==> alerting_in(rounds.last()).contains(name) && (
        rounds.len() == 1 || !alerting_in(rounds[rounds.len() - 2]).contains(name)),
{
    let last = rounds.last();
    law_alert_on_crossing(
        last.samples,
        last.targets,
        last.cutoff,
        last.threshold,
        alerted_after(rounds.drop_last()),
    );
    if rounds.len() > 1 {
        assert(rounds.drop_last().last() == rounds[rounds.len() - 2]);
    }
}

/// No alert is raised before enough samples measured the target.
pub proof fn law_waits_for_enough_samples(
    samples: Seq<SampleView>,
    targets: Seq<TargetView>,
    cutoff: int,
    threshold: u32,
    before: Set<Seq<char>>,
    name: Seq<char>,
)
    requires
        loss::measured(samples, name, cutoff) < MIN_ALERT_SAMPLES,
    ensures
        !raised(new_alerts(samples, targets, cutoff, threshold, before), name),
        !alerting(samples, targets, cutoff, threshold).contains(name),
{
    law_alert_on_crossing(samples, targets, cutoff, threshold, before);
}

/// A target of the list that at least ten samples measured, and whose loss is above
/// the threshold, has alerted, whatever the threshold is; every other target of the
/// list may alert again. It alerts now where it had not alerted before, and the alert
/// tells its loss.
pub proof fn law_loss_over_the_threshold_alerts(
    samples: Seq<SampleView>,
    targets: Seq<TargetView>,
    cutoff: int,
    threshold: u32,
    before: Set<Seq<char>>,
    i: int,
)
    requires
        0 <= i < targets.len(),
    ensures
        ({
            let name = targets[i].name;
            let percent = loss::loss_percent(samples, name, cutoff);
            let over = loss::measured(samples, name, cutoff) >= 10 && percent > threshold;
            let alerts = new_alerts(samples, targets, cutoff, threshold, before);
            &&& alerting(samples, targets, cutoff, threshold).contains(name) <==> over
            &&& alerts.contains((name, percent)) <==> over && !before.contains(name)
            &&& forall|k: int|
                0 <= k < alerts.len() && (#[trigger] alerts[k]).0 == name ==> alerts[k].1
                    == percent
        }),
{
    let name = targets[i].name;
    let alerts = new_alerts(samples, targets, cutoff, threshold, before);
    assert(named(targets, name));
    law_alert_on_crossing(samples, targets, cutoff, threshold, before);
    assert(raised(alerts, name) <==> named(targets, name) && over_threshold(
        samples,
        name,
        cutoff,
        threshold,
    ) && !before.contains(name));
    if raised(alerts, name) {
        let k = choose|k: int| 0 <= k < alerts.len() && (#[trigger] alerts[k]).0 == name;
        assert(alerts[k] == (name, loss::loss_percent(samples, name, cutoff)));
    }
    if alerts.contains((name, loss::loss_percent(samples, name, cutoff))) {
        let k = choose|k: int|
            0 <= k < alerts.len() && alerts[k] == (
                name,
                loss::loss_percent(samples, name, cutoff),
            );
        assert(alerts[k].0 == name);
    }
}

/// Only a target of the list alerts, or has alerted: one that was taken out of the
/// list is forgotten.
pub proof fn law_only_listed_targets_alert(
    samples: Seq<SampleView>,
    targets: Seq<TargetView>,
    cutoff: int,
    threshold: u32,
    before: Set<Seq<char>>,
    name: Seq<char>,
)
    requires
        forall|i: int| 0 <= i < targets.len() ==> (#[trigger] targets[i]).name != name,
    ensures
        !alerting(samples, targets, cutoff, threshold).contains(name),
        forall|k: int|
            0 <= k < new_alerts(samples, targets, cutoff, threshold, before).len()
                ==> (#[trigger] new_alerts(samples, targets, cutoff, threshold, before)[k]).0
                != name,
{
    law_alert_on_crossing(samples, targets, cutoff, threshold, before);
    let alerts = new_alerts(samples, targets, cutoff, threshold, before);
    assert(!named(targets, name));
    assert(!raised(alerts, name));
}

/// Alerts come in the order of the list: one more target at its end adds its own
/// alert at the end, where it has one to raise and no target before it has its name,
/// and changes none of the others. An empty list raises none.
pub proof fn law_alerts_follow_the_list(
    samples: Seq<SampleView>,
    targets: Seq<TargetView>,
    target: TargetView,
    cutoff: int,
    threshold: u32,
    before: Set<Seq<char>>,
)
    ensures
        new_alerts(samples, Seq::empty(), cutoff, threshold, before).len() == 0,
        ({
            let earlier = new_alerts(samples, targets, cutoff, threshold, before);
            let percent = loss::loss_percent(samples, target.name, cutoff);
            let first = forall|i: int|
                0 <= i < targets.len() ==> (#[trigger] targets[i]).name != target.name;
            let alerts = new_alerts(samples, targets.push(target), cutoff, threshold, before);
            alerts == if loss::measured(samples, target.name, cutoff) >= 10 && percent > threshold
                && !before.contains(target.name) && first {
                earlier.push((target.name, percent))
            } else {
                earlier
            }
        }),
{
    assert(targets.push(target).drop_last() =~= targets);
}

/// A list of alerts says, for each, the name and the loss that it holds.
pub proof fn law_alerts_say_what_they_hold(list: Seq<(String, u32)>, i: int)
    requires
        0 <= i < list.len(),
    ensures
        alert_views(list).len() == list.len(),
        alert_views(list)[i].0 == list[i].0@,
        alert_views(list)[i].1 == list[i].1,
{
}

/// A moment is in the display window exactly when it lies no more minutes back than
/// the window has.
pub proof fn law_window_reaches_back(now: int, window_mins: int, t: int)
    ensures
        t >= window_cutoff(now, window_mins) <==> now - t <= window_mins * 60_000,
{
}

} // verus!
