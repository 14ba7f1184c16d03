//! The settings panel: what can be chosen, and what its actions do to the list
//! of targets.

use vstd::prelude::*;
use vstd::string::*;
use crate::alerts;
use crate::config;
use crate::config::Target;
use crate::config::TargetView;
use crate::config::WINDOW_MINS;
use crate::monitor;
use crate::monitor::AppState;
use crate::monitor::AppView;
use crate::monitor::Limits;
use crate::monitor::Pacing;
use crate::monitor::PingView;
use crate::monitor::WorkerView;
use crate::text;

verus! {

/// The ping intervals on offer, in ms.
pub const INTERVAL_MS: [u32; 6] = [1000, 2000, 5000, 10000, 30000, 60000];

/// How they are labelled.
pub const INTERVAL_LABELS: [&'static str; 6] = ["1 s", "2 s", "5 s", "10 s", "30 s", "60 s"];

/// How the display windows on offer are labelled.
pub const WINDOW_LABELS: [&'static str; 5] = ["10 min", "30 min", "1 hour", "3 hours", "6 hours"];

/// Which target (if any) the edit form is open for.
#[derive(Clone, Copy, Debug, PartialEq, Eq, Structural)]
pub enum Editing {
    Closed,
    New,
    Row(usize),
}

// ---------------------------------------------------------------------------
// Choices
// ---------------------------------------------------------------------------
/// The position of an interval among those on offer; the first where it is none
/// of them.
pub open spec fn interval_index(ms: u32) -> int {
    if INTERVAL_MS@.contains(ms) {
        INTERVAL_MS@.index_of_first(ms)->0
    } else {
        0
    }
}

/// The position of a window among those on offer; the first where it is none of
/// them.
pub open spec fn window_index(mins: i64) -> int {
    if WINDOW_MINS@.contains(mins) {
        WINDOW_MINS@.index_of_first(mins)->0
    } else {
        0
    }
}

/// An index held within a list of `len`.
pub open spec fn held_index(index: int, len: int) -> int {
    if index < 0 {
        0
    } else if index >= len {
        len - 1
    } else {
        index
    }
}

/// The position of an interval among those on offer.
pub fn interval_to_index(ms: u32) -> (r: i32)
    ensures
        r == interval_index(ms),
        0 <= r < INTERVAL_MS@.len(),
{
    let mut i: usize = 0;
    while i < INTERVAL_MS.len()
        invariant
            i <= INTERVAL_MS@.len(),
            forall|j: int| 0 <= j < i ==> INTERVAL_MS@[j] != ms,
        decreases INTERVAL_MS@.len() - i,
    {
        if INTERVAL_MS[i] == ms {
            proof {
                assert(INTERVAL_MS@[i as int] == ms);
                INTERVAL_MS@.index_of_first_ensures(ms);
            }
            return i as i32;
        }
        i += 1;
    }
    0
}

/// The position of a window among those on offer.
pub fn window_to_index(mins: i64) -> (r: i32)
    ensures
        r == window_index(mins),
        0 <= r < WINDOW_MINS@.len(),
{
    let mut i: usize = 0;
    while i < WINDOW_MINS.len()
        invariant
            i <= WINDOW_MINS@.len(),
            forall|j: int| 0 <= j < i ==> WINDOW_MINS@[j] != mins,
        decreases WINDOW_MINS@.len() - i,
    {
        if WINDOW_MINS[i] == mins {
            proof {
                assert(WINDOW_MINS@[i as int] == mins);
                WINDOW_MINS@.index_of_first_ensures(mins);
            }
            return i as i32;
        }
        i += 1;
    }
    0
}

/// An index held within a list.
fn hold_index(index: i32, len: usize) -> (r: usize)
    requires
        0 < len <= 100,
    ensures
        r == held_index(index as int, len as int),
        r < len,
{
    if index < 0 {
        0
    } else if index as usize >= len {
        len - 1
    } else {
        index as usize
    }
}

/// The interval at an index of the choice.
pub fn selected_interval(index: i32) -> (r: u32)
    ensures
        r == config::clamped_interval(INTERVAL_MS@[held_index(index as int, 6)]),
{
    config::clamp_interval(INTERVAL_MS[hold_index(index, 6)])
}

/// The window at an index of the choice.
pub fn selected_window(index: i32) -> (r: i64)
    ensures
        r == WINDOW_MINS@[held_index(index as int, 5)],
{
    WINDOW_MINS[hold_index(index, 5)]
}

/// The shared state once the interval at an index of the choice is set.
pub open spec fn with_interval(st: AppView, index: int) -> AppView {
    AppView {
        interval_ms: config::clamped_interval(INTERVAL_MS@[held_index(index, 6)]),
        ..st
    }
}

/// The shared state once the window at an index of the choice is set.
pub open spec fn with_window(st: AppView, index: int) -> AppView {
    AppView { window_mins: WINDOW_MINS@[held_index(index, 5)], ..st }
}

/// Sets the ping interval when the choice has moved to an index, and says whether
/// it did; a negative index means that nothing is chosen.
pub fn choose_interval(st: &mut AppState, index: i32) -> (r: bool)
    ensures
        r == (index >= 0),
        final(st)@ == (if index >= 0 {
            with_interval(old(st)@, index as int)
        } else {
            old(st)@
        }),
{
    if index >= 0 {
        st.interval_ms = selected_interval(index);
        true
    } else {
        false
    }
}

/// Sets the display window when the choice has moved to an index, and says whether
/// it did; a negative index means that nothing is chosen.
pub fn choose_window(st: &mut AppState, index: i32) -> (r: bool)
    ensures
        r == (index >= 0),
        final(st)@ == (if index >= 0 {
            with_window(old(st)@, index as int)
        } else {
            old(st)@
        }),
{
    if index >= 0 {
        st.window_mins = selected_window(index);
        true
    } else {
        false
    }
}

// ---------------------------------------------------------------------------
// Rows
// ---------------------------------------------------------------------------
/// A list with the items at two positions swapped.
pub open spec fn swapped(list: Seq<TargetView>, i: int, j: int) -> Seq<TargetView> {
    list.update(i, list[j]).update(j, list[i])
}

/// Whether a row can move up.
pub fn can_move_up(row: usize) -> (r: bool)
    ensures
        r == (row > 0),
{
    row > 0
}

/// Whether a row of a list can move down.
pub fn can_move_down(row: usize, count: usize) -> (r: bool)
    ensures
        r == (row + 1 < count),
{
    count > 0 && row < count - 1
}

/// The list with two targets swapped.
fn swap_targets(targets: &[Target], i: usize, j: usize) -> (r: Vec<Target>)
    requires
        i < j < targets@.len(),
    ensures
        config::views(r@) == swapped(config::views(targets@), i as int, j as int),
{
    let ghost all = config::views(targets@);
    let mut out = config::clone_targets(targets);
    assert(config::views(out@).len() == out@.len());
    let first = targets[i].clone();
    let second = targets[j].clone();
    proof {
        assert(all[i as int] == targets@[i as int]@);
        assert(all[j as int] == targets@[j as int]@);
    }
    let ghost cloned = out@;
    out.set(i, second);
    assert(config::views(out@) =~= config::views(cloned).update(i as int, second@));
    let ghost middle = out@;
    out.set(j, first);
    assert(config::views(out@) =~= config::views(middle).update(j as int, first@));
    out
}

/// The list with a row moved up by one.
pub fn move_up(targets: &[Target], row: usize) -> (r: Vec<Target>)
    requires
        0 < row < targets@.len(),
    ensures
        config::views(r@) == swapped(config::views(targets@), row - 1, row as int),
{
    swap_targets(targets, row - 1, row)
}

/// The list with a row moved down by one.
pub fn move_down(targets: &[Target], row: usize) -> (r: Vec<Target>)
    requires
        row + 1 < targets@.len(),
    ensures
        config::views(r@) == swapped(config::views(targets@), row as int, row + 1),
{
    let n: usize = targets.len();
    assert(row + 1 < n);
    swap_targets(targets, row, row + 1)
}

/// The list without a row.
pub fn remove_target(targets: &[Target], row: usize) -> (r: Vec<Target>)
    requires
        row < targets@.len(),
    ensures
        config::views(r@) == config::views(targets@).remove(row as int),
{
    let mut out = config::clone_targets(targets);
    assert(config::views(out@).len() == out@.len());
    let ghost before = out@;
    let _gone = out.remove(row);
    assert(config::views(out@) =~= config::views(before).remove(row as int));
    out
}

/// A MAC address in writing; a dash where there is none.
pub open spec fn mac_line(mac: Option<Seq<char>>) -> Seq<char> {
    "MAC: "@ + (match mac {
        Some(m) => if m.len() > 0 {
            m
        } else {
            seq!['\u{2014}']
        },
        None => seq!['\u{2014}'],
    })
}

/// The MAC address of a row in writing; a dash where there is none.
pub fn mac_text(target: &Target) -> (r: String)
    ensures
        r@ == mac_line(target@.mac),
{
    let mut out = String::new();
    out.append("MAC: ");
    match &target.mac {
        Some(m) => {
            if m.as_str().is_empty() {
                out.push('\u{2014}');
            } else {
                out.append(m.as_str());
            }
        },
        None => {
            out.push('\u{2014}');
        },
    }
    assert(out@ =~= mac_line(target@.mac));
    out
}

// ---------------------------------------------------------------------------
// The edit form
// ---------------------------------------------------------------------------
/// The fields of the edit form.
pub struct Form {
    pub name: String,
    pub host: String,
    pub mac: String,
}

/// What the fields of the edit form say.
pub struct FormView {
    pub name: Seq<char>,
    pub host: Seq<char>,
    pub mac: Seq<char>,
}

impl View for Form {
    type V = FormView;

    open spec fn view(&self) -> FormView {
        FormView { name: self.name@, host: self.host@, mac: self.mac@ }
    }
}

/// The fields with which the form opens: those of the row that is edited, and
/// otherwise empty ones.
pub open spec fn opened(editing: Editing, targets: Seq<TargetView>) -> FormView {
    match editing {
        Editing::Row(i) => if i < targets.len() {
            FormView {
                name: targets[i as int].name,
                host: targets[i as int].ip,
                mac: match targets[i as int].mac {
                    Some(m) => m,
                    None => Seq::empty(),
                },
            }
        } else {
            FormView { name: Seq::empty(), host: Seq::empty(), mac: Seq::empty() }
        },
        _ => FormView { name: Seq::empty(), host: Seq::empty(), mac: Seq::empty() },
    }
}

/// The target that the fields describe: without white space at their ends, and
/// without a MAC address where that field is blank.
pub open spec fn described(form: FormView) -> TargetView {
    TargetView {
        name: text::trimmed(form.name),
        ip: text::trimmed(form.host),
        mac: if text::trimmed(form.mac).len() == 0 {
            None
        } else {
            Some(text::trimmed(form.mac))
        },
    }
}

/// The list once a target has been saved: in place of the row that was edited,
/// or at the end.
pub open spec fn with_saved(
    targets: Seq<TargetView>,
    editing: Editing,
    target: TargetView,
) -> Seq<TargetView> {
    match editing {
        Editing::Row(i) => if i < targets.len() {
            targets.update(i as int, target)
        } else {
            targets.push(target)
        },
        _ => targets.push(target),
    }
}

/// The fields with which the form opens.
pub fn open_form(editing: Editing, targets: &[Target]) -> (r: Form)
    ensures
        r@ == opened(editing, config::views(targets@)),
{
    match editing {
        Editing::Row(i) => {
            if i < targets.len() {
                assert(config::views(targets@)[i as int] == targets@[i as int]@);
                return Form {
                    name: targets[i].name.clone(),
                    host: targets[i].ip.clone(),
                    mac: match &targets[i].mac {
                        Some(m) => m.clone(),
                        None => String::new(),
                    },
                };
            }
        },
        _ => {},
    }
    Form { name: String::new(), host: String::new(), mac: String::new() }
}

/// The title of the form.
pub fn form_title(editing: Editing) -> (r: String)
    ensures
        r@ == (if editing is New {
            "Add target"@
        } else {
            "Edit target"@
        }),
{
    match editing {
        Editing::New => "Add target".to_owned(),
        _ => "Edit target".to_owned(),
    }
}

/// The target that the fields describe.
pub fn form_target(form: &Form) -> (r: Target)
    ensures
        r@ == described(form@),
{
    let mac = text::trim(form.mac.as_str());
    Target {
        name: text::trim(form.name.as_str()),
        ip: text::trim(form.host.as_str()),
        mac: if mac.as_str().is_empty() {
            None
        } else {
            Some(mac)
        },
    }
}

/// The list once the target that the fields describe has been saved.
pub fn save_form(targets: &[Target], editing: Editing, form: &Form) -> (r: Vec<Target>)
    ensures
        config::views(r@) == with_saved(config::views(targets@), editing, described(form@)),
{
    let target = form_target(form);
    let mut out = config::clone_targets(targets);
    assert(config::views(out@).len() == out@.len());
    assert(config::views(targets@).len() == targets@.len());
    let ghost before = out@;
    match editing {
        Editing::Row(i) => {
            if i < out.len() {
                out.set(i, target);
                assert(config::views(out@) =~= config::views(before).update(i as int, target@));
                return out;
            }
        },
        _ => {},
    }
    out.push(target);
    assert(config::views(out@) =~= config::views(before).push(target@));
    out
}

/// The host that a field names, where it is not blank.
pub open spec fn lookup_host(field: Seq<char>) -> Option<Seq<char>> {
    if text::trimmed(field).len() == 0 {
        None
    } else {
        Some(text::trimmed(field))
    }
}

/// The host whose MAC address to look up; `None` where the field is blank.
pub fn host_to_resolve(host: &str) -> (r: Option<String>)
    ensures
        text::text_option(r) == lookup_host(host@),
{
    let ip = text::trim(host);
    if ip.as_str().is_empty() {
        None
    } else {
        Some(ip)
    }
}

/// What a lookup changes in the form: the MAC address, where one was found, and
/// the line below the fields.
pub struct Resolved {
    pub mac: Option<String>,
    pub status: String,
}

/// The line below the fields, once the MAC address of a host has been looked up.
pub open spec fn lookup_status(host: Option<Seq<char>>, found: bool) -> Seq<char> {
    match host {
        None => "Enter a host/IP first."@,
        Some(ip) => if found {
            Seq::empty()
        } else {
            "No MAC found for "@ + ip + " (must be on your LAN)."@
        },
    }
}

/// What the form shows once the MAC address of a host has been looked up.
pub fn resolved(host: Option<&str>, found: Option<String>) -> (r: Resolved)
    ensures
        text::text_option(r.mac) == (if host is Some {
            text::text_option(found)
        } else {
            None
        }),
        r.status@ == lookup_status(
            match host {
                Some(ip) => Some(ip@),
                None => None,
            },
            found is Some,
        ),
{
    match host {
        None => Resolved { mac: None, status: "Enter a host/IP first.".to_owned() },
        Some(ip) => {
            match found {
                Some(mac) => Resolved { mac: Some(mac), status: String::new() },
                None => {
                    let mut out = String::new();
                    out.append("No MAC found for ");
                    out.append(ip);
                    out.append(" (must be on your LAN).");
                    assert(out@ =~= "No MAC found for "@ + ip@ + " (must be on your LAN)."@);
                    Resolved { mac: None, status: out }
                },
            }
        },
    }
}

// ---------------------------------------------------------------------------
// Laws
// ---------------------------------------------------------------------------
/// Every interval and window on offer is chosen by its own index.
pub proof fn law_choices_round_trip(i: int)
    ensures
        0 <= i < INTERVAL_MS@.len() ==> {
            &&& interval_index(INTERVAL_MS@[i]) == i
            &&& config::clamped_interval(INTERVAL_MS@[held_index(i, 6)]) == INTERVAL_MS@[i]
        },
        0 <= i < WINDOW_MINS@.len() ==> {
            &&& window_index(WINDOW_MINS@[i]) == i
            &&& WINDOW_MINS@[held_index(i, 5)] == WINDOW_MINS@[i]
            &&& config::clamped_window(WINDOW_MINS@[i]) == WINDOW_MINS@[i]
        },
{
    assert(INTERVAL_MS@ =~= seq![1000u32, 2000u32, 5000u32, 10000u32, 30000u32, 60000u32]);
    assert(WINDOW_MINS@ =~= seq![10i64, 30i64, 60i64, 180i64, 360i64]);
    if 0 <= i < INTERVAL_MS@.len() {
        INTERVAL_MS@.index_of_first_ensures(INTERVAL_MS@[i]);
    }
    if 0 <= i < WINDOW_MINS@.len() {
        WINDOW_MINS@.index_of_first_ensures(WINDOW_MINS@[i]);
    }
}

/// Whatever index is given, the interval that comes of it is one on offer.
pub proof fn law_choices_are_on_offer(index: int)
    ensures
        INTERVAL_MS@.contains(config::clamped_interval(INTERVAL_MS@[held_index(index, 6)])),
        WINDOW_MINS@.contains(WINDOW_MINS@[held_index(index, 5)]),
{
    law_choices_round_trip(held_index(index, 6));
}

/// From the next ping on, the targets are judged over the window that was chosen,
/// and the window stays as it was chosen.
pub proof fn law_chosen_window_is_judged(
    w: WorkerView,
    st: AppView,
    index: int,
    pacing: Pacing,
    limits: Limits,
    ping: PingView,
)
    ensures
        ({
            let mins = WINDOW_MINS@[held_index(index, 5)];
            let after = monitor::pinged(w, with_window(st, index), pacing, limits, ping);
            let cutoff = alerts::window_cutoff(ping.judged_at, mins as int);
            let threshold = st.packet_loss_alert_threshold;
            let history = after.state.history;
            &&& after.state.window_mins == mins
            &&& after.alerts == alerts::new_alerts(
                history,
                st.targets,
                cutoff,
                threshold,
                w.alerted,
            )
            &&& after.worker.alerted == alerts::alerting(history, st.targets, cutoff, threshold)
        }),
{
}

/// Without auto mode, the interval that was chosen is the one in force once a ping
/// is made under it.
pub proof fn law_chosen_interval_is_in_force(
    w: WorkerView,
    st: AppView,
    index: int,
    count: usize,
    limits: Limits,
    ping: PingView,
)
    ensures
        ({
            let chosen = with_interval(st, index);
            let pacing = Pacing { auto_enabled: false, interval_ms: chosen.interval_ms, count };
            let after = monitor::pinged(w, chosen, pacing, limits, ping);
            &&& after.round_ms == chosen.interval_ms
            &&& after.state.current_interval_ms == chosen.interval_ms
            &&& after.state.interval_ms == chosen.interval_ms
        }),
{
}

/// Moving a row up and the row above it down again restores the list, and a move
/// keeps every target.
pub proof fn law_moves_undo_each_other(targets: Seq<TargetView>, row: int)
    requires
        0 < row < targets.len(),
    ensures
        swapped(swapped(targets, row - 1, row), row - 1, row) == targets,
        swapped(targets, row - 1, row).to_multiset() == targets.to_multiset(),
{
    let s = swapped(targets, row - 1, row);
    assert(swapped(s, row - 1, row) =~= targets);
    broadcast use vstd::seq_lib::group_to_multiset_ensures;

    let above = targets[row - 1];
    let below = targets[row];
    let middle = targets.update(row - 1, below);
    vstd::seq_lib::to_multiset_update(targets, row - 1, below);
    vstd::seq_lib::to_multiset_update(middle, row, above);
    assert(targets.contains(above) && targets.contains(below));
    assert(targets.to_multiset().count(above) > 0 && targets.to_multiset().count(below) > 0);
    assert(s.to_multiset() =~= targets.to_multiset());
}

/// Saving a form changes the row that it was opened for and no other; a new
/// target goes to the end.
pub proof fn law_save_touches_one_row(
    targets: Seq<TargetView>,
    editing: Editing,
    form: FormView,
    i: int,
)
    requires
        0 <= i < targets.len(),
        editing != Editing::Row(i as usize),
        i <= usize::MAX,
    ensures
        with_saved(targets, editing, described(form))[i] == targets[i],
        editing is New ==> with_saved(targets, editing, described(form)).last() == described(form),
{
}

/// A form that is opened and saved as it is leaves the list as it was, where the
/// row's texts have no white space at their ends and a MAC address, if there is
/// one, is not blank.
pub proof fn law_save_without_edit_changes_nothing(targets: Seq<TargetView>, row: usize)
    requires
        row < targets.len(),
        text::trimmed(targets[row as int].name) == targets[row as int].name,
        text::trimmed(targets[row as int].ip) == targets[row as int].ip,
        targets[row as int].mac matches Some(m) ==> text::trimmed(m) == m && m.len() > 0,
    ensures
        with_saved(
            targets,
            Editing::Row(row),
            described(opened(Editing::Row(row), targets)),
        ) == targets,
{
    let t = targets[row as int];
    assert(text::trimmed(Seq::<char>::empty()).len() == 0);
    assert(described(opened(Editing::Row(row), targets)) == t);
    assert(targets.update(row as int, t) =~= targets);
}

/// What is saved has no white space at the ends of its texts, so opening and
/// saving it again changes nothing.
pub proof fn law_saved_is_trimmed(form: FormView)
    ensures
        ({
            let t = described(form);
            &&& text::trimmed(t.name) == t.name
            &&& text::trimmed(t.ip) == t.ip
            &&& t.mac matches Some(m) ==> text::trimmed(m) == m && m.len() > 0
        }),
{
    text::lemma_trimmed_is_trimmed(form.name);
    text::lemma_trimmed_is_trimmed(form.host);
    text::lemma_trimmed_is_trimmed(form.mac);
}

/// The intervals on offer are one, two, five, ten, thirty and sixty seconds, and the
/// windows ten and thirty minutes and one, three and six hours. Each is found at its
/// place, and what is none of them at the first.
pub proof fn law_what_is_on_offer(ms: u32, mins: i64)
    ensures
        INTERVAL_MS@ == seq![1_000u32, 2_000, 5_000, 10_000, 30_000, 60_000],
        WINDOW_MINS@ == seq![10i64, 30, 60, 180, 360],
        interval_index(ms) == if ms == 2_000 {
            1
        } else if ms == 5_000 {
            2
        } else if ms == 10_000 {
            3
        } else if ms == 30_000 {
            4
        } else if ms == 60_000 {
            5int
        } else {
            0
        },
        window_index(mins) == if mins == 30 {
            1
        } else if mins == 60 {
            2
        } else if mins == 180 {
            3
        } else if mins == 360 {
            4int
        } else {
            0
        },
{
    assert(INTERVAL_MS@ =~= seq![1_000u32, 2_000, 5_000, 10_000, 30_000, 60_000]);
    assert(WINDOW_MINS@ =~= seq![10i64, 30, 60, 180, 360]);
    assert forall|i: int| 0 <= i < 6 && INTERVAL_MS@[i] == ms implies interval_index(ms) == i by {
        law_choices_round_trip(i);
    }
    assert forall|i: int| 0 <= i < 5 && WINDOW_MINS@[i] == mins implies window_index(mins) == i by {
        law_choices_round_trip(i);
    }
    assert(INTERVAL_MS@[0] == 1_000 && INTERVAL_MS@[1] == 2_000 && INTERVAL_MS@[2] == 5_000);
    assert(INTERVAL_MS@[3] == 10_000 && INTERVAL_MS@[4] == 30_000 && INTERVAL_MS@[5] == 60_000);
    assert(WINDOW_MINS@[0] == 10 && WINDOW_MINS@[1] == 30 && WINDOW_MINS@[2] == 60);
    assert(WINDOW_MINS@[3] == 180 && WINDOW_MINS@[4] == 360);
}

/// A choice sets the interval or the window at its place, and the last one where it is
/// past the end, and changes nothing else.
pub proof fn law_a_choice_sets_one_thing(st: AppView, index: int)
    requires
        0 <= index,
    ensures
        ({
            let chosen = with_interval(st, index);
            &&& chosen.interval_ms == if index < 5 {
                INTERVAL_MS@[index]
            } else {
                60_000
            }
            &&& chosen == (AppView { interval_ms: chosen.interval_ms, ..st })
        }),
        ({
            let chosen = with_window(st, index);
            &&& chosen.window_mins == if index < 4 {
                WINDOW_MINS@[index]
            } else {
                360
            }
            &&& chosen == (AppView { window_mins: chosen.window_mins, ..st })
        }),
{
    law_what_is_on_offer(0, 0);
    if index < 6 {
        law_choices_round_trip(index);
    } else {
        law_choices_round_trip(5);
    }
}

/// Swapping two rows puts each in the place of the other and leaves every other row where
/// it is.
pub proof fn law_a_move_swaps_two_rows(targets: Seq<TargetView>, i: int, j: int, k: int)
    requires
        0 <= i < j < targets.len(),
        0 <= k < targets.len(),
    ensures
        swapped(targets, i, j).len() == targets.len(),
        swapped(targets, i, j)[i] == targets[j],
        swapped(targets, i, j)[j] == targets[i],
        k != i && k != j ==> swapped(targets, i, j)[k] == targets[k],
{
}

/// The form opens with what the row says, and with empty fields for a new target.
pub proof fn law_form_opens_with_the_row(targets: Seq<TargetView>, row: usize)
    ensures
        row < targets.len() ==> {
            let form = opened(Editing::Row(row), targets);
            let t = targets[row as int];
            &&& form.name == t.name
            &&& form.host == t.ip
            &&& t.mac is Some ==> form.mac == t.mac->0
            &&& t.mac is None ==> form.mac.len() == 0
        },
        opened(Editing::New, targets).name.len() == 0,
        opened(Editing::New, targets).host.len() == 0,
        opened(Editing::New, targets).mac.len() == 0,
{
}

/// What is saved is what the fields say, without white space at their ends; a blank MAC
/// field pins the target to none. It takes the place of the row that was edited, and goes
/// to the end where none was.
pub proof fn law_save_puts_the_target_in_its_place(
    targets: Seq<TargetView>,
    row: usize,
    form: FormView,
)
    ensures
        ({
            let t = described(form);
            &&& t.name == text::trimmed(form.name)
            &&& t.ip == text::trimmed(form.host)
            &&& text::trimmed(form.mac).len() == 0 ==> t.mac is None
            &&& text::trimmed(form.mac).len() > 0 ==> t.mac == Some(text::trimmed(form.mac))
            &&& row < targets.len() ==> {
                let after = with_saved(targets, Editing::Row(row), t);
                after.len() == targets.len() && after[row as int] == t
            }
            &&& row >= targets.len() ==> with_saved(targets, Editing::Row(row), t) == targets.push(
                t,
            )
            &&& with_saved(targets, Editing::New, t) == targets.push(t)
        }),
{
}

/// A row tells its MAC address, or a dash where it has none or an empty one.
pub proof fn law_row_tells_its_mac(mac: Seq<char>)
    ensures
        mac.len() > 0 ==> mac_line(Some(mac)) == "MAC: "@ + mac,
        mac.len() == 0 ==> mac_line(Some(mac)) == "MAC: "@ + seq!['\u{2014}'],
        mac_line(None) == "MAC: "@ + seq!['\u{2014}'],
{
}

/// The host that is looked up is the one in the field, without white space at its ends, and
/// none where the field is blank.
pub proof fn law_host_is_that_of_the_field(host: Seq<char>)
    ensures
        text::trimmed(host).len() > 0 ==> lookup_host(host) == Some(text::trimmed(host)),
        text::trimmed(host).len() == 0 ==> lookup_host(host) is None,
{
}

/// A MAC address that was found goes to the form, and the line below is empty. Where none was
/// found the line tells the host, and without a host it asks for one.
pub proof fn law_lookup_tells_how_it_ended(host: Seq<char>)
    ensures
        lookup_status(Some(host), true).len() == 0,
        lookup_status(Some(host), false) == "No MAC found for "@ + host
            + " (must be on your LAN)."@,
        lookup_status(None, true) == "Enter a host/IP first."@,
        lookup_status(None, false) == "Enter a host/IP first."@,
{
}

} // verus!
