//! How the application starts: whether it was launched by the login item, and what the
//! window does then. The login item always passes `--silent`; whether the window shows is
//! the user's `start_minimized` choice alone, so that the two can be combined freely.

use vstd::prelude::*;
use crate::text::str_eq;

verus! {

/// The flag the login item launches the application with.
pub const AUTOSTART_FLAG: &'static str = "--silent";

/// Some argument is exactly `--silent`.
pub open spec fn spec_is_autostart_launch(args: Seq<Seq<char>>) -> bool {
    exists|i: int| 0 <= i < args.len() && #[trigger] args[i] == "--silent"@
}

pub open spec fn args_view(args: Seq<&str>) -> Seq<Seq<char>> {
    args.map_values(|a: &str| a@)
}

/// Whether the arguments carry the login-item flag, exactly (no prefix, suffix or case
/// variant counts).
pub fn is_autostart_launch(args: &[&str]) -> (r: bool)
    ensures
        r == spec_is_autostart_launch(args_view(args@)),
{
    let mut i: usize = 0;
    while i < args.len()
        invariant
            i <= args@.len(),
            forall|k: int| 0 <= k < i ==> args@[k]@ != "--silent"@,
        decreases args@.len() - i,
    {
        if str_eq(args[i], AUTOSTART_FLAG) {
            assert(args_view(args@)[i as int] == "--silent"@);
            return true;
        }
        i = i + 1;
    }
    assert forall|k: int| 0 <= k < args_view(args@).len() implies #[trigger] args_view(args@)[k]
        != "--silent"@ by {
        assert(args_view(args@)[k] == args@[k]@);
    }
    false
}

/// Whether a cold start shows the main window: only the user's setting decides.
pub fn should_show_on_launch(start_minimized: bool) -> (r: bool)
    ensures
        r == !start_minimized,
{
    !start_minimized
}

/// Whether a second instance brings the window to the front: a user's launch does, the login
/// item's does not.
pub fn should_focus_second_instance(args: &[&str]) -> (r: bool)
    ensures
        r == !spec_is_autostart_launch(args_view(args@)),
{
    !is_autostart_launch(args)
}

} // verus!
