//! What a left click on the tray icon does.

use vstd::prelude::*;

verus! {

/// Within this many milliseconds a second left click counts as the same double click and is
/// ignored: the click toggles the window, so a double click would toggle it back.
pub const DOUBLE_CLICK_WINDOW_MS: u128 = 400;

/// Whether the click hides the window (otherwise it brings the window up): only when the
/// window is visible, not minimized and focused. A visible window behind another
/// application is brought up, not hidden.
pub fn should_hide_on_tray_click(visible: bool, minimized: bool, focused: bool) -> (r: bool)
    ensures
        r == (visible && !minimized && focused),
{
    visible && !minimized && focused
}

/// Whether a left click, `elapsed_ms` milliseconds (whole milliseconds, rounded down) after
/// the last one that took effect, is part of the same double click. `None`: there was no
/// earlier click. The window is half-open: exactly 400 ms is a new click.
pub fn is_duplicate_left_click(elapsed_ms: Option<u128>) -> (r: bool)
    ensures
        r == (match elapsed_ms {
            Some(d) => d < DOUBLE_CLICK_WINDOW_MS,
            None => false,
        }),
{
    match elapsed_ms {
        Some(d) => d < DOUBLE_CLICK_WINDOW_MS,
        None => false,
    }
}

} // verus!
