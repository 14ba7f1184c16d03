//! Which window the icon is set on.

use vstd::prelude::*;
use crate::text;

verus! {

/// The icon's resource in the executable.
pub const APP_ICON_ID: u16 = 1;

/// The title of the application's window.
pub const WINDOW_TITLE: &'static str = "Network Monitor";

/// Whether a window is the application's: at top level, with its title.
pub fn is_main_window(has_owner: bool, title: &str) -> (r: bool)
    ensures
        r == (!has_owner && title@ == "Network Monitor"@),
{
    !has_owner && text::same_text(title, WINDOW_TITLE)
}

} // verus!
