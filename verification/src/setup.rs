//! What happens when the Windows App Runtime is missing: offer to install it,
//! try the known packages, and fall back to the download page.

use vstd::prelude::*;
use crate::text;

verus! {

/// Where the runtime can be downloaded.
pub const DOWNLOAD_PAGE: &'static str =
    "https://learn.microsoft.com/windows/apps/windows-app-sdk/downloads";

/// Packages to try, most specific first. Names occasionally change across
/// releases, so there is a small list before the download page.
pub const WINGET_IDS: [&'static str; 3] = [
    "Microsoft.WindowsAppRuntime.2",
    "Microsoft.WindowsAppRuntime.1.7",
    "Microsoft.WindowsAppRuntime.1.6",
];

/// What is to be done next.
#[derive(Clone, Copy, Debug, PartialEq, Eq, Structural)]
pub enum Step {
    /// Ask whether to install the runtime.
    Ask,
    /// Install the package at this position of the list.
    Install(usize),
    /// Say that the installation did not complete.
    Tell,
    /// Open the download page.
    OpenPage,
    /// The runtime was (probably) installed: a retry is worth attempting.
    Retry,
    /// Report the error that the start failed with.
    GiveUp,
}

/// What follows a step that ended well (`true`: the user agreed, the package was
/// installed) or not. Steps that only show something are followed by the same
/// step either way.
pub open spec fn following(step: Step, well: bool) -> Step {
    match step {
        Step::Ask => if well {
            Step::Install(0)
        } else {
            Step::OpenPage
        },
        Step::Install(i) => if well {
            Step::Retry
        } else if i + 1 < WINGET_IDS@.len() {
            Step::Install((i + 1) as usize)
        } else {
            Step::Tell
        },
        Step::Tell => Step::OpenPage,
        Step::OpenPage => Step::GiveUp,
        Step::Retry => Step::Retry,
        Step::GiveUp => Step::GiveUp,
    }
}

/// The step after one that ended well or not.
pub fn next_step(step: Step, well: bool) -> (r: Step)
    ensures
        r == following(step, well),
{
    match step {
        Step::Ask => {
            if well {
                Step::Install(0)
            } else {
                Step::OpenPage
            }
        },
        Step::Install(i) => {
            if well {
                Step::Retry
            } else if i < WINGET_IDS.len() - 1 {
                Step::Install(i + 1)
            } else {
                Step::Tell
            }
        },
        Step::Tell => Step::OpenPage,
        Step::OpenPage => Step::GiveUp,
        Step::Retry => Step::Retry,
        Step::GiveUp => Step::GiveUp,
    }
}

/// The arguments with which a package is installed silently.
pub open spec fn install_arguments(id: Seq<char>) -> Seq<Seq<char>> {
    seq![
        "install"@,
        "--id"@,
        id,
        "--silent"@,
        "--accept-source-agreements"@,
        "--accept-package-agreements"@,
    ]
}

/// The arguments with which a package is installed silently.
pub fn install_args(id: &str) -> (r: Vec<String>)
    ensures
        text::texts(r@) == install_arguments(id@),
{
    let mut out: Vec<String> = Vec::new();
    out.push("install".to_owned());
    out.push("--id".to_owned());
    out.push(id.to_owned());
    out.push("--silent".to_owned());
    out.push("--accept-source-agreements".to_owned());
    out.push("--accept-package-agreements".to_owned());
    assert(text::texts(out@) =~= install_arguments(id@));
    out
}

/// The arguments with which a page is opened in the browser.
pub open spec fn open_arguments(page: Seq<char>) -> Seq<Seq<char>> {
    seq!["/c"@, "start"@, ""@, page]
}

/// The arguments with which a page is opened in the browser.
pub fn open_args(page: &str) -> (r: Vec<String>)
    ensures
        text::texts(r@) == open_arguments(page@),
{
    let mut out: Vec<String> = Vec::new();
    out.push("/c".to_owned());
    out.push("start".to_owned());
    out.push("".to_owned());
    out.push(page.to_owned());
    assert(text::texts(out@) =~= open_arguments(page@));
    out
}

// ---------------------------------------------------------------------------
// Laws
// ---------------------------------------------------------------------------
/// The step reached after each of a list of outcomes.
pub open spec fn reached(step: Step, outcomes: Seq<bool>) -> Step
    decreases outcomes.len(),
{
    if outcomes.len() == 0 {
        step
    } else {
        following(reached(step, outcomes.drop_last()), outcomes.last())
    }
}

/// A user who declines gets the download page and the error, and nothing is
/// installed.
pub proof fn law_declining_installs_nothing(outcomes: Seq<bool>)
    requires
        outcomes.len() > 0,
        !outcomes[0],
    ensures
        reached(Step::Ask, outcomes) == (if outcomes.len() == 1 {
            Step::OpenPage
        } else {
            Step::GiveUp
        }),
    decreases outcomes.len(),
{
    if outcomes.len() > 1 {
        assert(outcomes.drop_last()[0] == outcomes[0]);
        law_declining_installs_nothing(outcomes.drop_last());
    } else {
        assert(outcomes.drop_last() =~= Seq::<bool>::empty());
        assert(reached(Step::Ask, outcomes.drop_last()) == Step::Ask);
    }
}

/// The packages are tried in order, one after each failure, and the first that
/// is installed ends the search.
pub proof fn law_packages_are_tried_in_order(failures: nat)
    requires
        failures < WINGET_IDS@.len(),
    ensures
        reached(Step::Install(0), Seq::new(failures, |i: int| false)) == Step::Install(
            failures as usize,
        ),
        reached(Step::Install(0), Seq::new(failures, |i: int| false).push(true)) == Step::Retry,
    decreases failures,
{
    let none = Seq::new(failures, |i: int| false);
    if failures > 0 {
        law_packages_are_tried_in_order((failures - 1) as nat);
        assert(none.drop_last() =~= Seq::new((failures - 1) as nat, |i: int| false));
    }
    assert(none.push(true).drop_last() =~= none);
}

/// Whatever happens, it ends: after as many steps as there are packages and
/// three more, it is either worth a retry or given up.
pub proof fn law_setup_ends(outcomes: Seq<bool>)
    requires
        outcomes.len() >= WINGET_IDS@.len() + 3,
    ensures
        reached(Step::Ask, outcomes) is Retry || reached(Step::Ask, outcomes) is GiveUp,
    decreases outcomes.len(),
{
    let n = WINGET_IDS@.len();
    assert(n == 3);
    if outcomes.len() > n + 3 {
        law_setup_ends(outcomes.drop_last());
    } else {
        reveal_with_fuel(reached, 7);
    }
}

/// A user who agrees has the first package tried. A package that is installed is worth a
/// retry; after one that is not, the next of the three is tried, and after the last the
/// user is told. Then the download page is opened, and the error is reported.
pub proof fn law_what_follows_each_step(i: usize, well: bool)
    ensures
        following(Step::Ask, true) == Step::Install(0),
        following(Step::Ask, false) == Step::OpenPage,
        following(Step::Install(i), true) == Step::Retry,
        i < 2 ==> following(Step::Install(i), false) == Step::Install((i + 1) as usize),
        i >= 2 ==> following(Step::Install(i), false) == Step::Tell,
        following(Step::Tell, well) == Step::OpenPage,
        following(Step::OpenPage, well) == Step::GiveUp,
        following(Step::Retry, well) == Step::Retry,
        following(Step::GiveUp, well) == Step::GiveUp,
{
}

/// A package is installed by its identifier, without questions, and a page is opened by
/// its address.
pub proof fn law_arguments_name_what_is_asked_for(what: Seq<char>)
    ensures
        install_arguments(what).len() == 6,
        install_arguments(what)[0] == "install"@,
        install_arguments(what)[1] == "--id"@,
        install_arguments(what)[2] == what,
        install_arguments(what)[3] == "--silent"@,
        install_arguments(what)[4] == "--accept-source-agreements"@,
        install_arguments(what)[5] == "--accept-package-agreements"@,
        open_arguments(what).len() == 4,
        open_arguments(what)[0] == "/c"@,
        open_arguments(what)[1] == "start"@,
        open_arguments(what)[2] == ""@,
        open_arguments(what)[3] == what,
{
}

} // verus!
