//! Whether the menu-bar icon was actually given a place by the system, and what to do when
//! it was not.

use vstd::prelude::*;

verus! {

/// The autosave name of the status item: the anchor the placement check looks for.
pub const TRAY_AUTOSAVE_NAME: &'static str = "UniDrop";

/// Where the status item ended up.
#[derive(Debug, Clone, Copy, PartialEq, Eq, Structural)]
pub enum TrayPlacement {
    /// The system hosts the item: the icon is visible.
    Placed,
    /// The system hosts no item of ours: the icon is not visible.
    Rejected,
    /// The evidence could not be read. Kept apart from `Rejected`: the user is never warned
    /// on a guess.
    Unknown,
}

pub const CACHE_UNSET: u8 = 0;

pub const CACHE_PLACED: u8 = 1;

pub const CACHE_REJECTED: u8 = 2;

pub const CACHE_UNKNOWN: u8 = 3;

pub open spec fn spec_to_cache(p: TrayPlacement) -> u8 {
    match p {
        TrayPlacement::Placed => CACHE_PLACED,
        TrayPlacement::Rejected => CACHE_REJECTED,
        TrayPlacement::Unknown => CACHE_UNKNOWN,
    }
}

pub open spec fn spec_from_cache(v: u8) -> TrayPlacement {
    if v == CACHE_PLACED {
        TrayPlacement::Placed
    } else if v == CACHE_REJECTED {
        TrayPlacement::Rejected
    } else {
        TrayPlacement::Unknown
    }
}

impl TrayPlacement {
    /// The value stored in the process-wide cache of the last probe.
    pub fn to_cache(self) -> (v: u8)
        ensures
            v == spec_to_cache(self),
    {
        match self {
            TrayPlacement::Placed => CACHE_PLACED,
            TrayPlacement::Rejected => CACHE_REJECTED,
            TrayPlacement::Unknown => CACHE_UNKNOWN,
        }
    }

    /// The placement a cached value stands for; "not probed yet" reads as `Unknown`, never
    /// as an optimistic `Placed`.
    pub fn from_cache(v: u8) -> (p: Self)
        ensures
            p == spec_from_cache(v),
    {
        if v == CACHE_PLACED {
            TrayPlacement::Placed
        } else if v == CACHE_REJECTED {
            TrayPlacement::Rejected
        } else {
            TrayPlacement::Unknown
        }
    }
}

/// Reading back a cached placement gives the placement; an empty cache reads as `Unknown`.
pub proof fn lemma_placement_cache_roundtrip(p: TrayPlacement)
    ensures
        spec_from_cache(spec_to_cache(p)) == p,
        spec_from_cache(CACHE_UNSET) == TrayPlacement::Unknown,
{
}

/// What the banner needs: the placement and the flags that choose its buttons.
#[derive(Debug, Clone, Copy, PartialEq, Eq, Structural)]
pub struct TrayPlacementPayload {
    pub placement: TrayPlacement,
    pub start_minimized: bool,
    pub guidance_shown: bool,
    pub force_reveal_optout: bool,
}

/// Whether the user is told: only on a rejection, never on `Unknown`.
pub fn should_warn_user(placement: TrayPlacement) -> (r: bool)
    ensures
        r == (placement == TrayPlacement::Rejected),
{
    placement == TrayPlacement::Rejected
}

/// Whether the window is shown despite `start_minimized`: rejected and minimized means no
/// entry point at all, unless the user opted out.
pub fn should_force_reveal(placement: TrayPlacement, start_minimized: bool, opted_out: bool) -> (r:
    bool)
    ensures
        r == (placement == TrayPlacement::Rejected && start_minimized && !opted_out),
{
    placement == TrayPlacement::Rejected && start_minimized && !opted_out
}

/// What the list of menu-bar host windows says about our item.
#[derive(Debug, Clone, Copy, PartialEq, Eq, Structural)]
pub enum HostedLookup {
    /// A host window carries our autosave name.
    Found,
    /// Host windows were readable, none is ours.
    NotFound,
    /// No host window name could be read: the evidence is unusable.
    Unreadable,
}

/// The conclusion of one probe. The host list decides; only when it is unreadable does the
/// geometry of the item's shadow window (`Some(parked)`) decide; with neither the answer is
/// `Unknown`, never a rejection.
pub fn conclude(hosted: HostedLookup, shadow_parked: Option<bool>) -> (p: TrayPlacement)
    ensures
        p == (match hosted {
            HostedLookup::Found => TrayPlacement::Placed,
            HostedLookup::NotFound => TrayPlacement::Rejected,
            HostedLookup::Unreadable => match shadow_parked {
                Some(true) => TrayPlacement::Rejected,
                Some(false) => TrayPlacement::Placed,
                None => TrayPlacement::Unknown,
            },
        }),
{
    match hosted {
        HostedLookup::Found => TrayPlacement::Placed,
        HostedLookup::NotFound => TrayPlacement::Rejected,
        HostedLookup::Unreadable => match shadow_parked {
            Some(parked) => if parked {
                TrayPlacement::Rejected
            } else {
                TrayPlacement::Placed
            },
            None => TrayPlacement::Unknown,
        },
    }
}

/// What is done once the item is found not placed, beyond pushing the banner event.
#[derive(Debug, Clone, Copy, PartialEq, Eq, Structural)]
pub struct NotPlacedActions {
    /// Post the system notification, reveal the window and record that guidance was shown.
    pub guide_first_time: bool,
    /// Reveal the window although the user starts minimized.
    pub force_reveal: bool,
}

/// The escalation after a failed placement: nothing unless it is a rejection; the first
/// time, a notification and the window; later, the window only when the user would
/// otherwise have no entry point and has not opted out.
pub fn not_placed_actions(
    placement: TrayPlacement,
    start_minimized: bool,
    guidance_shown: bool,
    force_reveal_optout: bool,
) -> (a: NotPlacedActions)
    ensures
        a.guide_first_time == (placement == TrayPlacement::Rejected && !guidance_shown),
        a.force_reveal == (placement == TrayPlacement::Rejected && guidance_shown && start_minimized
            && !force_reveal_optout),
{
    if !should_warn_user(placement) {
        return NotPlacedActions { guide_first_time: false, force_reveal: false };
    }
    let guide = !guidance_shown;
    let reveal = !guide && should_force_reveal(placement, start_minimized, force_reveal_optout);
    NotPlacedActions { guide_first_time: guide, force_reveal: reveal }
}

} // verus!
