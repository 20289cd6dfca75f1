//! The application's identity as it reports it to peers.

use vstd::prelude::*;

verus! {

/// The application version, reported to peers in the device list; it must match the
/// package version.
pub const APP_VERSION: &'static str = "0.3.0";

} // verus!
