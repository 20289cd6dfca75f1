//! The control connection: its configuration, the authentication signature, the control URL
//! and the reconnect backoff. The connection loop itself runs in the application.

use vstd::prelude::*;
use vstd::string::StringSliceAdditionalSpecFns;
use crate::digest::{hmac_sha256, spec_hmac_sha256, hex_encode, hex_lower};
use crate::engine::tls_trust::TlsTrustConfig;
use crate::settings::{without_whitespace, trim_trailing_slashes};
use crate::text::{
    chars_of, push_str, push_chars, push_signed_dec, signed_dec_string, string_from_chars,
    is_whitespace, sub_chars, strip_prefix, has_prefix, lemma_trail_count_is,
};

verus! {

/// What the connection needs from the settings and the device.
#[derive(Debug, Clone)]
pub struct ConnectionConfig {
    pub server_url: String,
    pub account_id: String,
    pub device_id: String,
    pub psk_secret: String,
    pub hostname: String,
    pub os_type: String,
    pub app_version: String,
    /// The TLS trust policy; only the public root store by default.
    pub tls_trust: TlsTrustConfig,
}

/// The text the signature covers:
/// `UNIDROP_V1\n{account}\n{device}\n{nonce}\n{timestamp_ms}` and, when the server sent a
/// nonce salt, `\n{nonce_salt}`.
pub open spec fn canonical_auth_string(
    account_id: Seq<char>,
    device_id: Seq<char>,
    nonce: Seq<char>,
    timestamp: i64,
    nonce_salt: Seq<char>,
) -> Seq<char> {
    let base = "UNIDROP_V1\n"@ + account_id + "\n"@ + device_id + "\n"@ + nonce + "\n"@
        + signed_dec_string(timestamp as int);
    if nonce_salt.len() == 0 {
        base
    } else {
        base + "\n"@ + nonce_salt
    }
}

/// The authentication signature: the lowercase hex HMAC-SHA256 of the canonical text, keyed
/// with the PSK.
pub open spec fn spec_signature(
    secret: Seq<char>,
    account_id: Seq<char>,
    device_id: Seq<char>,
    nonce: Seq<char>,
    timestamp: i64,
    nonce_salt: Seq<char>,
) -> Seq<char> {
    hex_lower(
        spec_hmac_sha256(
            vstd::utf8::encode_utf8(secret),
            vstd::utf8::encode_utf8(
                canonical_auth_string(account_id, device_id, nonce, timestamp, nonce_salt),
            ),
        ),
    )
}

pub struct ConnectionActor;

impl ConnectionActor {
    /// Signs an authentication request.
    pub fn compute_signature(
        secret: &str,
        account_id: &str,
        device_id: &str,
        nonce: &str,
        timestamp: i64,
        nonce_salt: &str,
    ) -> (s: String)
        ensures
            s@ == spec_signature(secret@, account_id@, device_id@, nonce@, timestamp, nonce_salt@),
    {
        let mut c = chars_of("UNIDROP_V1\n");
        push_str(&mut c, account_id);
        push_str(&mut c, "\n");
        push_str(&mut c, device_id);
        push_str(&mut c, "\n");
        push_str(&mut c, nonce);
        push_str(&mut c, "\n");
        push_signed_dec(&mut c, timestamp);
        if !nonce_salt.is_empty() {
            push_str(&mut c, "\n");
            push_str(&mut c, nonce_salt);
        }
        let canonical = string_from_chars(c);
        match hmac_sha256(secret.as_bytes(), canonical.as_str().as_bytes()) {
            Some(tag) => hex_encode(&tag),
            None => String::new(),
        }
    }
}

/// The control-plane URL of a server address: whitespace removed, trailing slashes dropped,
/// `/ws/control` appended, and `wss://` put in front when no `ws://` or `wss://` scheme is
/// there.
pub open spec fn spec_control_ws_url(server_url: Seq<char>) -> Seq<char> {
    let base = trim_trailing_slashes(without_whitespace(server_url));
    if has_prefix(base, "ws://"@) || has_prefix(base, "wss://"@) {
        base + "/ws/control"@
    } else {
        "wss://"@ + base + "/ws/control"@
    }
}

/// The URL the control connection dials.
pub fn control_ws_url(server_url: &str) -> (r: String)
    ensures
        r@ == spec_control_ws_url(server_url@),
{
    let cs = chars_of(server_url);
    let mut kept: Vec<char> = Vec::new();
    let n = cs.len();
    let mut i: usize = 0;
    while i < n
        invariant
            i <= n,
            n == cs@.len(),
            kept@ == without_whitespace(cs@.take(i as int)),
        decreases n - i,
    {
        assert(cs@.take(i + 1).drop_last() =~= cs@.take(i as int));
        if !is_whitespace(cs[i]) {
            kept.push(cs[i]);
        }
        i = i + 1;
    }
    assert(cs@.take(n as int) =~= cs@);
    let m = kept.len();
    let mut end: usize = m;
    while end > 0 && kept[end - 1] == '/'
        invariant
            end <= m,
            m == kept@.len(),
            forall|k: int| end <= k < m ==> kept@[k] == '/',
        decreases end,
    {
        end = end - 1;
    }
    proof {
        let f = |c: char| c == '/';
        assert(forall|c: char| #[trigger] f(c) == (c == '/'));
        lemma_trail_count_is(kept@, f, m - end);
    }
    let base = sub_chars(&kept, 0, end);
    assert(base@ =~= trim_trailing_slashes(without_whitespace(server_url@)));
    let has_scheme = strip_prefix(&base, &chars_of("ws://")).is_some() || strip_prefix(
        &base,
        &chars_of("wss://"),
    ).is_some();
    let mut out: Vec<char> = if has_scheme {
        Vec::new()
    } else {
        chars_of("wss://")
    };
    push_chars(&mut out, &base);
    push_str(&mut out, "/ws/control");
    assert(out@ =~= spec_control_ws_url(server_url@));
    string_from_chars(out)
}

/// The first reconnect delay, and the delay after every reset.
pub const INITIAL_BACKOFF_MS: u64 = 1000;

/// The longest reconnect delay.
pub const MAX_BACKOFF_MS: u64 = 30000;

/// The delay after another failed attempt: doubled, at most thirty seconds.
pub fn next_backoff_ms(current_ms: u64) -> (next: u64)
    requires
        current_ms <= MAX_BACKOFF_MS,
    ensures
        next == (if 2 * current_ms < MAX_BACKOFF_MS {
            2 * current_ms
        } else {
            MAX_BACKOFF_MS as int
        }),
        next <= MAX_BACKOFF_MS,
{
    if 2 * current_ms < MAX_BACKOFF_MS {
        2 * current_ms
    } else {
        MAX_BACKOFF_MS
    }
}

/// How often the control connection sends a heartbeat, in seconds.
pub const HEARTBEAT_INTERVAL_SECS: u64 = 15;

/// How a control-connection handshake ended.
#[derive(Debug, Clone, Copy, PartialEq, Eq, Structural)]
pub enum HandshakeOutcome {
    /// The server accepted the credentials.
    Authenticated,
    /// The server answered and refused the credentials.
    Rejected,
    /// No usable challenge or answer came (closed, malformed, another message).
    Incomplete,
}

/// The handshake outcome of the server's answer to the authentication request: `None` when
/// no AUTH_RESPONSE with a readable payload came, else its `success` flag.
pub fn handshake_outcome(response_success: Option<bool>) -> (o: HandshakeOutcome)
    ensures
        o == (match response_success {
            Some(true) => HandshakeOutcome::Authenticated,
            Some(false) => HandshakeOutcome::Rejected,
            None => HandshakeOutcome::Incomplete,
        }),
{
    match response_success {
        Some(true) => HandshakeOutcome::Authenticated,
        Some(false) => HandshakeOutcome::Rejected,
        None => HandshakeOutcome::Incomplete,
    }
}

/// How long to wait before dialling again after a handshake that did not authenticate:
/// thirty seconds after refused credentials (they will not work until the settings change),
/// three seconds otherwise; `None` after a successful one.
pub fn retry_wait_after_handshake_ms(o: HandshakeOutcome) -> (ms: Option<u64>)
    ensures
        ms == (match o {
            HandshakeOutcome::Authenticated => None::<u64>,
            HandshakeOutcome::Rejected => Some(30000u64),
            HandshakeOutcome::Incomplete => Some(3000u64),
        }),
{
    match o {
        HandshakeOutcome::Authenticated => None,
        HandshakeOutcome::Rejected => Some(30000),
        HandshakeOutcome::Incomplete => Some(3000),
    }
}

/// The reconnect delay state across failed attempts: it starts at one second, doubles after
/// each wait that runs out, stays at most thirty seconds, and goes back to one second on a
/// successful connection or when the settings change.
pub fn backoff_after(current_ms: u64, waited_out: bool) -> (next: u64)
    requires
        current_ms <= MAX_BACKOFF_MS,
    ensures
        next == (if waited_out {
            if 2 * current_ms < MAX_BACKOFF_MS {
                2 * current_ms
            } else {
                MAX_BACKOFF_MS as int
            }
        } else {
            INITIAL_BACKOFF_MS as int
        }),
        INITIAL_BACKOFF_MS <= current_ms ==> INITIAL_BACKOFF_MS <= next <= MAX_BACKOFF_MS,
{
    if waited_out {
        next_backoff_ms(current_ms)
    } else {
        INITIAL_BACKOFF_MS
    }
}

// ----- the clock -----

#[verifier::external_type_specification]
#[verifier::external_body]
pub struct ExSystemTime(std::time::SystemTime);

/// Calls `std::time::SystemTime::now`; what the clock reads is not stated.
#[verifier::external_body]
fn system_time_now() -> std::time::SystemTime {
    std::time::SystemTime::now()
}

/// Calls `SystemTime::duration_since(UNIX_EPOCH)`; `None` when the clock reads before the
/// epoch.
#[verifier::external_body]
fn since_unix_epoch(t: &std::time::SystemTime) -> Option<std::time::Duration> {
    t.duration_since(std::time::UNIX_EPOCH).ok()
}

/// Calls `Duration::as_millis`.
#[verifier::external_body]
fn duration_as_millis(d: &std::time::Duration) -> u128 {
    d.as_millis()
}

/// Calls `Duration::subsec_nanos`, which is below one second.
#[verifier::external_body]
fn duration_subsec_nanos(d: &std::time::Duration) -> (n: u32)
    ensures
        n < 1000000000,
{
    d.subsec_nanos()
}

/// Milliseconds since the Unix epoch by the system clock; 0 when the clock reads before the
/// epoch.
pub fn current_time_ms() -> i64 {
    let now = system_time_now();
    match since_unix_epoch(&now) {
        Some(d) => duration_as_millis(&d) as i64,
        None => 0,
    }
}

/// The point of `[min, max]` that a reading of `nanos` picks.
pub open spec fn jitter_of(nanos: int, min: u64, max: u64) -> int {
    min + nanos % ((max - min + 1) as int)
}

/// The value picked from `[min, max]` by `nanos`: `min + nanos % (max - min + 1)`.
pub fn jitter_in_range(nanos: u64, min: u64, max: u64) -> (r: u64)
    requires
        min <= max,
        max - min < u64::MAX,
    ensures
        r == min + (nanos as int) % ((max - min + 1) as int),
        min <= r <= max,
{
    min + (nanos % (max - min + 1))
}

/// A cheap pseudo-random number in `[min, max]` from the clock's sub-second nanoseconds,
/// used to spread reconnects. A clock before the epoch gives `min`.
pub fn fastrand_u64(min: u64, max: u64) -> (r: u64)
    requires
        min <= max,
        max - min < u64::MAX,
    ensures
        min <= r <= max,
        exists|nanos: int| 0 <= nanos < 1000000000 && r == #[trigger] jitter_of(nanos, min, max),
{
    let now = system_time_now();
    let nanos: u64 = match since_unix_epoch(&now) {
        Some(d) => duration_subsec_nanos(&d) as u64,
        None => 0,
    };
    let r = jitter_in_range(nanos, min, max);
    assert(0 <= nanos < 1000000000 && r == jitter_of(nanos as int, min, max));
    r
}

} // verus!
