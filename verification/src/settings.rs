//! The user's settings: defaults, the account-id rule, and the clean-up applied on saving.

use vstd::prelude::*;
use vstd::string::StringSliceAdditionalSpecFns;
use crate::engine::retention::{
    DEFAULT_CACHE_TTL_HOURS, DEFAULT_CACHE_MAX_SIZE_MB, DEFAULT_SWEEP_INTERVAL_MINUTES,
    effective_sweep_interval_minutes, spec_effective_sweep_interval_minutes,
};
use crate::text::{
    chars_of, is_whitespace, is_unicode_whitespace, trim_whitespace, trim_ws, trail_count,
    lemma_trail_count_is, sub_chars, has_prefix, strip_prefix, push_chars, string_from_chars,
    str_eq, lead_count, lemma_lead_count_bound, lemma_lead_count_is, lemma_trail_count_bound,
};

verus! {

/// The settings, persisted as one JSON document.
#[derive(Debug, Clone)]
pub struct AppSettings {
    pub server_url: String,
    pub account_id: String,
    pub psk_secret: String,
    pub auto_inject: bool,
    /// Start in the tray without showing the main window.
    pub start_minimized: bool,
    /// How many history entries are kept; `0` keeps them all.
    pub history_max_entries: u32,
    /// How long a completed transfer card stays, in seconds; `0` keeps it.
    pub transfer_card_retain_secs: u32,
    /// How long cached files are kept, in hours; `0` disables time-based clean-up.
    pub cache_ttl_hours: u32,
    /// The cache size limit in MB; `0` means no limit.
    pub cache_max_size_mb: u32,
    /// Skip server certificate verification.
    pub allow_insecure_tls: bool,
    /// Encrypt transfers end to end (peers too old for it fall back to plaintext).
    pub e2ee_enabled: bool,
    /// Minutes between cache clean-ups, at least 1.
    pub cache_sweep_interval_minutes: u32,
}

/// The history limit a settings document without one gets.
pub const DEFAULT_HISTORY_MAX_ENTRIES: u32 = 100;

/// How long a completed card stays when the settings do not say.
pub const DEFAULT_TRANSFER_CARD_RETAIN_SECS: u32 = 30;

/// Encryption is on unless the user turns it off.
pub fn default_e2ee_enabled() -> (b: bool)
    ensures
        b,
{
    true
}

pub fn default_history_max_entries() -> (n: u32)
    ensures
        n == DEFAULT_HISTORY_MAX_ENTRIES,
{
    DEFAULT_HISTORY_MAX_ENTRIES
}

pub fn default_transfer_card_retain_secs() -> (n: u32)
    ensures
        n == DEFAULT_TRANSFER_CARD_RETAIN_SECS,
{
    DEFAULT_TRANSFER_CARD_RETAIN_SECS
}

pub fn default_cache_ttl_hours() -> (n: u32)
    ensures
        n == DEFAULT_CACHE_TTL_HOURS,
{
    DEFAULT_CACHE_TTL_HOURS
}

pub fn default_cache_max_size_mb() -> (n: u32)
    ensures
        n == DEFAULT_CACHE_MAX_SIZE_MB,
{
    DEFAULT_CACHE_MAX_SIZE_MB
}

pub fn default_cache_sweep_interval_minutes() -> (n: u32)
    ensures
        n == DEFAULT_SWEEP_INTERVAL_MINUTES,
{
    DEFAULT_SWEEP_INTERVAL_MINUTES
}

impl AppSettings {
    /// The configuration of a first start, and the fallback when the stored one cannot be
    /// read.
    pub fn default_config() -> (s: Self)
        ensures
            s.server_url@ == "wss://drop.yourdomain.com:58921"@,
            s.account_id@ == "default_user"@,
            s.psk_secret@ == "dev-insecure-psk-secret"@,
            !s.auto_inject,
            !s.start_minimized,
            s.history_max_entries == DEFAULT_HISTORY_MAX_ENTRIES,
            s.transfer_card_retain_secs == DEFAULT_TRANSFER_CARD_RETAIN_SECS,
            s.cache_ttl_hours == DEFAULT_CACHE_TTL_HOURS,
            s.cache_max_size_mb == DEFAULT_CACHE_MAX_SIZE_MB,
            s.cache_sweep_interval_minutes == DEFAULT_SWEEP_INTERVAL_MINUTES,
            !s.allow_insecure_tls,
            s.e2ee_enabled,
    {
        AppSettings {
            server_url: "wss://drop.yourdomain.com:58921".to_owned(),
            account_id: "default_user".to_owned(),
            psk_secret: "dev-insecure-psk-secret".to_owned(),
            auto_inject: false,
            start_minimized: false,
            history_max_entries: DEFAULT_HISTORY_MAX_ENTRIES,
            transfer_card_retain_secs: DEFAULT_TRANSFER_CARD_RETAIN_SECS,
            cache_ttl_hours: DEFAULT_CACHE_TTL_HOURS,
            cache_max_size_mb: DEFAULT_CACHE_MAX_SIZE_MB,
            cache_sweep_interval_minutes: DEFAULT_SWEEP_INTERVAL_MINUTES,
            allow_insecure_tls: false,
            e2ee_enabled: true,
        }
    }
}

/// A byte allowed in an account id: ASCII letters and digits, `_`, `-`, `.`, `@`.
pub open spec fn account_byte_ok(b: u8) -> bool {
    ||| 48 <= b <= 57
    ||| 65 <= b <= 90
    ||| 97 <= b <= 122
    ||| b == 95
    ||| b == 45
    ||| b == 46
    ||| b == 64
}

pub open spec fn account_id_ok(bytes: Seq<u8>) -> bool {
    &&& 1 <= bytes.len() <= 64
    &&& forall|i: int| 0 <= i < bytes.len() ==> #[trigger] account_byte_ok(bytes[i])
}

/// Why an account id of these bytes is refused: its length, or else its characters.
pub open spec fn account_id_error(bytes: Seq<u8>) -> Seq<char> {
    if bytes.len() == 0 || bytes.len() > 64 {
        "账号标识不能为空，长度需在 1-64 之间"@
    } else {
        "账号标识只能包含字母、数字与 . _ @ -"@
    }
}

/// Checks an account id the way the server does: 1 to 64 bytes of `[A-Za-z0-9._@-]`.
pub fn validate_account_id(s: &str) -> (r: Result<(), String>)
    ensures
        r is Ok <==> account_id_ok(s.spec_bytes()),
        (s.spec_bytes().len() == 0 || s.spec_bytes().len() > 64) ==> (r matches Err(e) && e@
            == "账号标识不能为空，长度需在 1-64 之间"@),
        (1 <= s.spec_bytes().len() <= 64 && r is Err) ==> (r matches Err(e) && e@
            == "账号标识只能包含字母、数字与 . _ @ -"@),
{
    let bytes = s.as_bytes();
    if bytes.len() == 0 || bytes.len() > 64 {
        return Err("账号标识不能为空，长度需在 1-64 之间".to_owned());
    }
    let mut i: usize = 0;
    while i < bytes.len()
        invariant
            i <= bytes@.len(),
            1 <= bytes@.len() <= 64,
            bytes@ == s.spec_bytes(),
            forall|k: int| 0 <= k < i ==> #[trigger] account_byte_ok(bytes@[k]),
        decreases bytes@.len() - i,
    {
        let c = bytes[i];
        let ok = (48 <= c && c <= 57) || (65 <= c && c <= 90) || (97 <= c && c <= 122) || c == 95
            || c == 45 || c == 46 || c == 64;
        if !ok {
            assert(!account_byte_ok(bytes@[i as int]));
            return Err("账号标识只能包含字母、数字与 . _ @ -".to_owned());
        }
        i = i + 1;
    }
    Ok(())
}

/// The address early builds stored by default; a stored copy of it is replaced by the
/// current default address when the settings are loaded.
pub const LEGACY_DEV_SERVER_URL: &'static str = "ws://127.0.0.1:8080";

/// Loaded settings with the legacy development address replaced by the default one.
pub fn migrate_loaded_settings(settings: AppSettings) -> (r: AppSettings)
    ensures
        r == (if settings.server_url@ == LEGACY_DEV_SERVER_URL@ {
            AppSettings { server_url: r.server_url, ..settings }
        } else {
            settings
        }),
        settings.server_url@ == LEGACY_DEV_SERVER_URL@ ==> r.server_url@
            == "wss://drop.yourdomain.com:58921"@,
{
    let mut s = settings;
    if str_eq(s.server_url.as_str(), LEGACY_DEV_SERVER_URL) {
        s.server_url = "wss://drop.yourdomain.com:58921".to_owned();
    }
    s
}

/// The history limit to prune to, or `None` when no pruning runs: a limit of `0` keeps
/// everything, and an invalid account id would match no rows.
pub fn history_prune_limit(history_max_entries: u32, account_id: &str) -> (r: Option<u32>)
    ensures
        r == (if history_max_entries > 0 && account_id_ok(account_id.spec_bytes()) {
            Some(history_max_entries)
        } else {
            None::<u32>
        }),
{
    if history_max_entries == 0 {
        return None;
    }
    if validate_account_id(account_id).is_err() {
        return None;
    }
    Some(history_max_entries)
}

/// `s` without whitespace anywhere.
pub open spec fn without_whitespace(s: Seq<char>) -> Seq<char>
    decreases s.len(),
{
    if s.len() == 0 {
        Seq::empty()
    } else {
        let r = without_whitespace(s.drop_last());
        if is_unicode_whitespace(s.last()) {
            r
        } else {
            r.push(s.last())
        }
    }
}

/// `s` without trailing slashes.
pub open spec fn trim_trailing_slashes(s: Seq<char>) -> Seq<char> {
    s.take(s.len() - trail_count(s, |c: char| c == '/'))
}

/// The server address as saved: whitespace removed anywhere, trailing slashes dropped, and
/// `wss://` put in front of an address without a `ws://` or `wss://` scheme.
pub open spec fn spec_clean_server_url(url: Seq<char>) -> Seq<char> {
    let t = trim_trailing_slashes(without_whitespace(url));
    if t.len() > 0 && !has_prefix(t, "ws://"@) && !has_prefix(t, "wss://"@) {
        "wss://"@ + t
    } else {
        t
    }
}

/// Cleans a server address for saving.
pub fn clean_server_url(url: &str) -> (r: String)
    ensures
        r@ == spec_clean_server_url(url@),
{
    let cs = chars_of(url);
    let mut kept: Vec<char> = Vec::new();
    let n = cs.len();
    let mut i: usize = 0;
    while i < n
        invariant
            i <= n,
            n == cs@.len(),
            kept@ == without_whitespace(cs@.take(i as int)),
        decreases n - i,
    {
        assert(cs@.take(i + 1).drop_last() =~= cs@.take(i as int));
        if !is_whitespace(cs[i]) {
            kept.push(cs[i]);
        }
        i = i + 1;
    }
    assert(cs@.take(n as int) =~= cs@);
    let m = kept.len();
    let mut end: usize = m;
    while end > 0 && kept[end - 1] == '/'
        invariant
            end <= m,
            m == kept@.len(),
            forall|k: int| end <= k < m ==> kept@[k] == '/',
        decreases end,
    {
        end = end - 1;
    }
    proof {
        let f = |c: char| c == '/';
        assert(forall|c: char| #[trigger] f(c) == (c == '/'));
        lemma_trail_count_is(kept@, f, m - end);
    }
    let t = sub_chars(&kept, 0, end);
    assert(t@ =~= trim_trailing_slashes(without_whitespace(url@)));
    let ws = chars_of("ws://");
    let wss = chars_of("wss://");
    if t.len() > 0 && strip_prefix(&t, &ws).is_none() && strip_prefix(&t, &wss).is_none() {
        let mut out = wss;
        push_chars(&mut out, &t);
        string_from_chars(out)
    } else {
        string_from_chars(t)
    }
}

/// The settings as they are saved: the account id trimmed and checked (an invalid one is
/// refused with the reason), the server address cleaned, the clean-up interval brought to
/// its minimum. Everything else is kept as given.
pub fn sanitize_for_save(settings: AppSettings) -> (r: Result<AppSettings, String>)
    ensures
        r is Ok <==> account_id_ok(vstd::utf8::encode_utf8(trim_ws(settings.account_id@))),
        r matches Err(e) ==> e@ == account_id_error(
            vstd::utf8::encode_utf8(trim_ws(settings.account_id@)),
        ),
        r matches Ok(s) ==> {
            &&& s.account_id@ == trim_ws(settings.account_id@)
            &&& s.server_url@ == spec_clean_server_url(settings.server_url@)
            &&& s.cache_sweep_interval_minutes == spec_effective_sweep_interval_minutes(
                settings.cache_sweep_interval_minutes,
            )
            &&& s.psk_secret == settings.psk_secret
            &&& s.auto_inject == settings.auto_inject
            &&& s.start_minimized == settings.start_minimized
            &&& s.history_max_entries == settings.history_max_entries
            &&& s.transfer_card_retain_secs == settings.transfer_card_retain_secs
            &&& s.cache_ttl_hours == settings.cache_ttl_hours
            &&& s.cache_max_size_mb == settings.cache_max_size_mb
            &&& s.allow_insecure_tls == settings.allow_insecure_tls
            &&& s.e2ee_enabled == settings.e2ee_enabled
        },
{
    let mut clean = settings;
    let account = string_from_chars(trim_whitespace(&chars_of(clean.account_id.as_str())));
    match validate_account_id(account.as_str()) {
        Ok(()) => {},
        Err(e) => {
            return Err(e);
        },
    }
    clean.account_id = account;
    clean.server_url = clean_server_url(clean.server_url.as_str());
    clean.cache_sweep_interval_minutes = effective_sweep_interval_minutes(&clean);
    Ok(clean)
}

// ----- saving is stable -----

/// No character of `s` is whitespace.
pub open spec fn no_whitespace(s: Seq<char>) -> bool {
    forall|i: int| 0 <= i < s.len() ==> !is_unicode_whitespace(#[trigger] s[i])
}

proof fn lemma_without_whitespace_has_none(s: Seq<char>)
    ensures
        no_whitespace(without_whitespace(s)),
    decreases s.len(),
{
    if s.len() > 0 {
        lemma_without_whitespace_has_none(s.drop_last());
        let r = without_whitespace(s.drop_last());
        if !is_unicode_whitespace(s.last()) {
            assert forall|i: int| 0 <= i < r.push(s.last()).len() implies !is_unicode_whitespace(
                #[trigger] r.push(s.last())[i],
            ) by {
                if i < r.len() {
                    assert(r.push(s.last())[i] == r[i]);
                }
            }
        }
    }
}

proof fn lemma_without_whitespace_keeps_clean(s: Seq<char>)
    requires
        no_whitespace(s),
    ensures
        without_whitespace(s) == s,
    decreases s.len(),
{
    if s.len() > 0 {
        assert(no_whitespace(s.drop_last())) by {
            assert forall|i: int| 0 <= i < s.drop_last().len() implies !is_unicode_whitespace(
                #[trigger] s.drop_last()[i],
            ) by {
                assert(s.drop_last()[i] == s[i]);
            }
        }
        lemma_without_whitespace_keeps_clean(s.drop_last());
        assert(!is_unicode_whitespace(s[s.len() - 1]));
        assert(s.drop_last().push(s.last()) =~= s);
    }
}

/// `trim_trailing_slashes` leaves a text that is empty or does not end with '/', and keeps
/// a text that already is such unchanged.
proof fn lemma_trim_trailing_slashes(s: Seq<char>)
    ensures
        trim_trailing_slashes(s).len() == 0 || trim_trailing_slashes(s).last() != '/',
        trim_trailing_slashes(s).len() <= s.len(),
        trim_trailing_slashes(s) == s.take(trim_trailing_slashes(s).len() as int),
        (s.len() == 0 || s.last() != '/') ==> trim_trailing_slashes(s) == s,
{
    let f = |c: char| c == '/';
    lemma_trail_count_bound(s, f);
    let t = trim_trailing_slashes(s);
    let n = trail_count(s, f);
    assert(t == s.take(s.len() - n));
    if t.len() > 0 {
        assert(t.last() == s[s.len() - 1 - n]);
    }
    if s.len() == 0 || s.last() != '/' {
        lemma_trail_count_is(s, f, 0);
        assert(s.take(s.len() as int) =~= s);
    }
}

/// Cleaning an address that was already cleaned leaves it as it is.
pub proof fn lemma_clean_server_url_is_stable(url: Seq<char>)
    ensures
        spec_clean_server_url(spec_clean_server_url(url)) == spec_clean_server_url(url),
{
    let w = without_whitespace(url);
    lemma_without_whitespace_has_none(url);
    lemma_trim_trailing_slashes(w);
    let t = trim_trailing_slashes(w);
    assert(no_whitespace(t)) by {
        assert forall|i: int| 0 <= i < t.len() implies !is_unicode_whitespace(#[trigger] t[i]) by {
            assert(t[i] == w[i]);
        }
    }
    let c = spec_clean_server_url(url);
    reveal_strlit("wss://");
    assert(no_whitespace(c)) by {
        if c != t {
            assert forall|i: int| 0 <= i < c.len() implies !is_unicode_whitespace(#[trigger] c[i]) by {
                if i >= 6 {
                    assert(c[i] == t[i - 6]);
                }
            }
        }
    }
    lemma_without_whitespace_keeps_clean(c);
    assert(c.len() == 0 || c.last() != '/') by {
        if c != t {
            assert(c.last() == t.last());
        }
    }
    lemma_trim_trailing_slashes(c);
    if c != t {
        assert(c.take(6) =~= "wss://"@);
        assert(has_prefix(c, "wss://"@));
    }
}

/// Trimming text that was already trimmed leaves it as it is.
pub proof fn lemma_trim_is_stable(s: Seq<char>)
    ensures
        trim_ws(trim_ws(s)) == trim_ws(s),
{
    let f = |c: char| is_unicode_whitespace(c);
    let t = trim_ws(s);
    lemma_lead_count_bound(s, f);
    lemma_trail_count_bound(s, f);
    let a = lead_count(s, f);
    if a < s.len() {
        let n = trail_count(s, f);
        assert(a < s.len() - n) by {
            if a >= s.len() - n {
                assert(f(s[a as int]));
            }
        }
        assert(t == s.subrange(a as int, s.len() - n));
        assert(t[0] == s[a as int]);
        assert(t.last() == s[s.len() - 1 - n]);
        lemma_lead_count_is(t, f, 0);
        lemma_trail_count_is(t, f, 0);
        assert(t.subrange(0, t.len() as int) =~= t);
    }
}

/// Saving is stable: settings that were cleaned for saving come out of a second cleaning
/// unchanged (same account id, address and clean-up interval; every other field is copied).
pub proof fn lemma_saving_twice_changes_nothing(account_id: Seq<char>, server_url: Seq<char>, interval: u32)
    ensures
        trim_ws(trim_ws(account_id)) == trim_ws(account_id),
        spec_clean_server_url(spec_clean_server_url(server_url)) == spec_clean_server_url(server_url),
        spec_effective_sweep_interval_minutes(spec_effective_sweep_interval_minutes(interval))
            == spec_effective_sweep_interval_minutes(interval),
{
    lemma_trim_is_stable(account_id);
    lemma_clean_server_url_is_stable(server_url);
}

} // verus!
