//! The notification permission as the process remembers it between the probe and the
//! front end's query: one byte, zero until the probe has run.
use vstd::prelude::*;

verus! {

/// The stored byte before any probe.
pub const AUTH_UNKNOWN: u8 = 0;

/// The byte stored for a probe result: 1 when notifications are allowed, 2 when not.
pub open spec fn spec_auth_status_code(granted: bool) -> u8 {
    if granted {
        1
    } else {
        2
    }
}

/// The probe result a stored byte stands for; `None` before any probe (and for any other
/// byte), so that the front end shows no banner on a guess.
pub open spec fn spec_cached_auth_status(v: u8) -> Option<bool> {
    if v == 1 {
        Some(true)
    } else if v == 2 {
        Some(false)
    } else {
        None
    }
}

pub fn auth_status_code(granted: bool) -> (v: u8)
    ensures
        v == spec_auth_status_code(granted),
{
    if granted {
        1
    } else {
        2
    }
}

pub fn cached_auth_status(v: u8) -> (r: Option<bool>)
    ensures
        r == spec_cached_auth_status(v),
{
    if v == 1 {
        Some(true)
    } else if v == 2 {
        Some(false)
    } else {
        None
    }
}

/// A stored result reads back as itself, and nothing is known before the first probe.
pub proof fn lemma_auth_status_roundtrip(granted: bool)
    ensures
        spec_cached_auth_status(spec_auth_status_code(granted)) == Some(granted),
        spec_cached_auth_status(AUTH_UNKNOWN) is None,
{
}

} // verus!
