//! The cache retention policy: its defaults, the one place where settings are converted to
//! bytes and seconds, and the clean-up interval.

use vstd::prelude::*;
use crate::settings::AppSettings;
use crate::text::str_eq;

verus! {

/// Hours a cached file is kept by default.
pub const DEFAULT_CACHE_TTL_HOURS: u32 = 24;

/// The default cache size limit: 10240 MB.
pub const DEFAULT_CACHE_MAX_SIZE_MB: u32 = 10240;

/// Minutes between clean-ups by default.
pub const DEFAULT_SWEEP_INTERVAL_MINUTES: u32 = 60;

/// The shortest clean-up interval. Zero is not allowed: a zero interval turns the schedule
/// into a busy loop, and "never clean" is already expressed by a zero TTL and a zero limit.
pub const MIN_SWEEP_INTERVAL_MINUTES: u32 = 1;

/// How long files loaded into the clipboard are protected from clean-up, in seconds. Not
/// configurable: deleting a file the clipboard still refers to breaks the paste.
pub const CLIPBOARD_LOCK_SECS: i64 = 7200;

/// The size-based clean-up deletes down to this percentage of the limit, so that the next
/// write does not immediately trigger it again.
pub const LRU_LOW_WATERMARK_PERCENT: u64 = 80;

/// The retention policy of one clean-up.
#[derive(Debug, Clone, Copy, PartialEq, Eq, Structural)]
pub struct RetentionPolicy {
    /// Hours to keep files; `0` disables the time-based pass.
    pub ttl_hours: u32,
    /// The cache size limit in bytes; `0` means no limit.
    pub max_size_bytes: u64,
}

impl RetentionPolicy {
    /// The policy of the settings. The megabyte limit is widened before it is multiplied,
    /// so 4096 MB is 4 GiB and not zero.
    pub fn from_settings(settings: &AppSettings) -> (p: Self)
        ensures
            p.ttl_hours == settings.cache_ttl_hours,
            p.max_size_bytes == settings.cache_max_size_mb * 1048576,
    {
        RetentionPolicy {
            ttl_hours: settings.cache_ttl_hours,
            max_size_bytes: (settings.cache_max_size_mb as u64) * 1024 * 1024,
        }
    }

    /// Where the size-based pass stops deleting: 80 % of the limit, divided first so that
    /// it cannot overflow (at most 99 bytes below the exact value).
    pub fn low_watermark_bytes(&self) -> (w: u64)
        ensures
            w == self.max_size_bytes / 100 * LRU_LOW_WATERMARK_PERCENT,
            w <= self.max_size_bytes,
    {
        self.max_size_bytes / 100 * LRU_LOW_WATERMARK_PERCENT
    }

    /// Whether the time-based pass runs.
    pub fn ttl_enabled(&self) -> (b: bool)
        ensures
            b == (self.ttl_hours > 0),
    {
        self.ttl_hours > 0
    }

    /// Whether the size-based pass runs.
    pub fn quota_enabled(&self) -> (b: bool)
        ensures
            b == (self.max_size_bytes > 0),
    {
        self.max_size_bytes > 0
    }

    /// The TTL in seconds.
    pub fn ttl_seconds(&self) -> (s: i64)
        ensures
            s == self.ttl_hours * 3600,
    {
        self.ttl_hours as i64 * 3600
    }
}

/// The interval in effect: the configured minutes, but at least one.
pub open spec fn spec_effective_sweep_interval_minutes(m: u32) -> u32 {
    if m < MIN_SWEEP_INTERVAL_MINUTES {
        MIN_SWEEP_INTERVAL_MINUTES
    } else {
        m
    }
}

/// The clean-up interval in minutes, at least one. Saving the settings stores this value,
/// and the schedule uses it on every round.
pub fn effective_sweep_interval_minutes(settings: &AppSettings) -> (m: u32)
    ensures
        m == spec_effective_sweep_interval_minutes(settings.cache_sweep_interval_minutes),
        m >= MIN_SWEEP_INTERVAL_MINUTES,
{
    if settings.cache_sweep_interval_minutes < MIN_SWEEP_INTERVAL_MINUTES {
        MIN_SWEEP_INTERVAL_MINUTES
    } else {
        settings.cache_sweep_interval_minutes
    }
}

/// The clean-up interval in seconds; never zero.
pub fn effective_sweep_interval(settings: &AppSettings) -> (secs: u64)
    ensures
        secs == spec_effective_sweep_interval_minutes(settings.cache_sweep_interval_minutes) * 60,
        secs >= 60,
{
    effective_sweep_interval_minutes(settings) as u64 * 60
}

// ----- choosing what a clean-up deletes -----

/// A cached file: its path and size in bytes.
#[derive(Debug, Clone)]
pub struct CacheEntry {
    pub path: String,
    pub size: u64,
}

pub open spec fn entry_paths(es: Seq<CacheEntry>) -> Seq<Seq<char>> {
    es.map_values(|e: CacheEntry| e.path@)
}

/// The total size of some entries.
pub open spec fn entries_size(es: Seq<CacheEntry>) -> nat
    decreases es.len(),
{
    if es.len() == 0 {
        0
    } else {
        entries_size(es.drop_last()) + es.last().size as nat
    }
}

/// `a - b`, or zero when `b` is larger.
pub open spec fn sat_sub(a: int, b: int) -> int {
    if a >= b {
        a - b
    } else {
        0
    }
}

/// The least-recently-used pass: walking the candidates oldest first, while the remaining
/// size is above the low watermark, each candidate not already chosen is chosen and its size
/// no longer counts.
pub open spec fn lru_pick(
    cands: Seq<CacheEntry>,
    chosen: Seq<Seq<char>>,
    remaining: int,
    low: int,
) -> Seq<Seq<char>>
    decreases cands.len(),
{
    if cands.len() == 0 || remaining <= low {
        Seq::empty()
    } else if chosen.contains(cands[0].path@) {
        lru_pick(cands.skip(1), chosen, remaining, low)
    } else {
        seq![cands[0].path@] + lru_pick(
            cands.skip(1),
            chosen.push(cands[0].path@),
            sat_sub(remaining, cands[0].size as int),
            low,
        )
    }
}

/// What one clean-up deletes, in order: with the time limit on, every expired entry; then,
/// with the size limit on, least-recently-used entries until the cache, less what the expired
/// entries free (counted up to `u64::MAX`), is at or below the low watermark.
pub open spec fn spec_sweep_victims(
    policy: RetentionPolicy,
    expired: Seq<CacheEntry>,
    total: u64,
    lru: Seq<CacheEntry>,
) -> Seq<Seq<char>> {
    let ttl_paths = if policy.ttl_hours > 0 {
        entry_paths(expired)
    } else {
        Seq::empty()
    };
    let freed: int = if policy.ttl_hours > 0 {
        if entries_size(expired) > u64::MAX {
            u64::MAX as int
        } else {
            entries_size(expired) as int
        }
    } else {
        0
    };
    let low = (policy.max_size_bytes / 100 * LRU_LOW_WATERMARK_PERCENT) as int;
    ttl_paths + if policy.max_size_bytes > 0 {
        lru_pick(lru, ttl_paths, sat_sub(total as int, freed), low)
    } else {
        Seq::empty()
    }
}

fn contains_path(chosen: &Vec<String>, p: &String) -> (b: bool)
    ensures
        b == entry_strings(chosen@).contains(p@),
{
    let n = chosen.len();
    let mut i: usize = 0;
    while i < n
        invariant
            i <= n,
            n == chosen@.len(),
            forall|k: int| 0 <= k < i ==> chosen@[k]@ != p@,
        decreases n - i,
    {
        if str_eq(chosen[i].as_str(), p.as_str()) {
            assert(entry_strings(chosen@)[i as int] == p@);
            return true;
        }
        i = i + 1;
    }
    false
}

pub open spec fn entry_strings(v: Seq<String>) -> Seq<Seq<char>> {
    v.map_values(|s: String| s@)
}

/// Chooses the files one clean-up deletes. `expired` is what the time-based query found,
/// `total` the size of the whole cache, and `lru` the candidates of the size-based pass,
/// least recently used first (both queries leave out files under the clipboard lock).
pub fn select_sweep_victims(
    policy: &RetentionPolicy,
    expired: &[CacheEntry],
    total: u64,
    lru: &[CacheEntry],
) -> (r: Vec<String>)
    ensures
        entry_strings(r@) == spec_sweep_victims(*policy, expired@, total, lru@),
{
    let mut victims: Vec<String> = Vec::new();
    let mut ttl_freed: u64 = 0;
    let ttl_on = policy.ttl_enabled();
    if ttl_on {
        let n = expired.len();
        let mut i: usize = 0;
        while i < n
            invariant
                i <= n,
                n == expired@.len(),
                entry_strings(victims@) == entry_paths(expired@.take(i as int)),
                ttl_freed == (if entries_size(expired@.take(i as int)) > u64::MAX {
                    u64::MAX as int
                } else {
                    entries_size(expired@.take(i as int)) as int
                }),
            decreases n - i,
        {
            assert(expired@.take(i + 1).drop_last() =~= expired@.take(i as int));
            let ghost before = entry_strings(victims@);
            ttl_freed = ttl_freed.saturating_add(expired[i].size);
            let path = expired[i].path.clone();
            assert(path@ == expired@[i as int].path@);
            victims.push(path);
            assert(entry_strings(victims@) =~= before.push(expired@[i as int].path@));
            assert(entry_paths(expired@.take(i + 1)) =~= entry_paths(expired@.take(i as int)).push(
                expired@[i as int].path@,
            ));
            i = i + 1;
        }
        assert(expired@.take(n as int) =~= expired@);
    }
    let ghost ttl_paths = entry_strings(victims@);
    assert(ttl_paths == (if policy.ttl_hours > 0 {
        entry_paths(expired@)
    } else {
        Seq::<Seq<char>>::empty()
    }));
    if policy.quota_enabled() {
        let mut remaining = total.saturating_sub(ttl_freed);
        let low = policy.low_watermark_bytes();
        let ghost start = sat_sub(total as int, ttl_freed as int);
        assert(remaining == start);
        let n = lru.len();
        let mut i: usize = 0;
        assert(lru@.skip(0) =~= lru@);
        assert(entry_strings(victims@).take(ttl_paths.len() as int) =~= ttl_paths);
        while i < n
            invariant
                n == lru@.len(),
                i <= n,
                low == policy.max_size_bytes / 100 * LRU_LOW_WATERMARK_PERCENT,
                victims@.len() >= ttl_paths.len(),
                entry_strings(victims@).take(ttl_paths.len() as int) == ttl_paths,
                entry_strings(victims@) + lru_pick(lru@.skip(i as int), entry_strings(victims@), remaining as int, low as int)
                    == ttl_paths + lru_pick(lru@, ttl_paths, start, low as int),
            ensures
                entry_strings(victims@) == ttl_paths + lru_pick(lru@, ttl_paths, start, low as int),
            decreases n - i,
        {
            let ghost before = entry_strings(victims@);
            if remaining <= low {
                break;
            }
            assert(lru@.skip(i as int).skip(1) =~= lru@.skip(i + 1));
            assert(lru@.skip(i as int)[0] == lru@[i as int]);
            if !contains_path(&victims, &lru[i].path) {
                remaining = remaining.saturating_sub(lru[i].size);
                let path = lru[i].path.clone();
                assert(path@ == lru@[i as int].path@);
                victims.push(path);
                assert(entry_strings(victims@) =~= before.push(lru@[i as int].path@));
                assert(before + (seq![lru@[i as int].path@] + lru_pick(lru@.skip(i + 1), entry_strings(victims@), remaining as int, low as int))
                    =~= entry_strings(victims@) + lru_pick(lru@.skip(i + 1), entry_strings(victims@), remaining as int, low as int));
                assert(entry_strings(victims@).take(ttl_paths.len() as int) =~= before.take(ttl_paths.len() as int));
            }
            i = i + 1;
        }
        if i == n {
            assert(lru@.skip(n as int) =~= Seq::<CacheEntry>::empty());
        }
    }
    proof {
        if !(policy.max_size_bytes > 0) {
            assert(entry_strings(victims@) =~= ttl_paths + Seq::<Seq<char>>::empty());
        }
    }
    victims
}

// ----- the clock rules of a clean-up -----

/// One row of the cache index as a clean-up reads it; times are Unix seconds.
#[derive(Debug, Clone)]
pub struct CacheRow {
    pub path: String,
    pub size: u64,
    /// When the file entered the cache.
    pub created_at: i64,
    /// When the file was last put on the clipboard, if ever.
    pub injected_at: Option<i64>,
}

/// The clipboard lock: a file put on the clipboard at most `CLIPBOARD_LOCK_SECS` seconds ago
/// is protected from clean-up.
pub open spec fn clipboard_locked(now: i64, injected_at: Option<i64>) -> bool {
    match injected_at {
        Some(t) => now - t <= CLIPBOARD_LOCK_SECS,
        None => false,
    }
}

/// A file is past the time limit when it entered the cache more than `ttl_secs` seconds ago.
pub open spec fn past_ttl(now: i64, created_at: i64, ttl_secs: int) -> bool {
    now - created_at > ttl_secs
}

/// Whether a file put on the clipboard at `injected_at` is still under the clipboard lock at
/// `now`.
pub fn is_clipboard_locked(now: i64, injected_at: Option<i64>) -> (b: bool)
    ensures
        b == clipboard_locked(now, injected_at),
{
    match injected_at {
        Some(t) => (now as i128) - (t as i128) <= (CLIPBOARD_LOCK_SECS as i128),
        None => false,
    }
}

/// The entry of a row.
pub open spec fn row_entry(r: CacheRow) -> CacheEntry {
    CacheEntry { path: r.path, size: r.size }
}

/// The rows the time-based pass deletes, in order: past the time limit and not locked.
pub open spec fn expired_entries(rows: Seq<CacheRow>, now: i64, ttl_secs: int) -> Seq<CacheEntry>
    decreases rows.len(),
{
    if rows.len() == 0 {
        Seq::empty()
    } else {
        let prev = expired_entries(rows.drop_last(), now, ttl_secs);
        let r = rows.last();
        if past_ttl(now, r.created_at, ttl_secs) && !clipboard_locked(now, r.injected_at) {
            prev.push(row_entry(r))
        } else {
            prev
        }
    }
}

/// The rows the size-based pass may delete, in order: those not locked.
pub open spec fn unlocked_entries(rows: Seq<CacheRow>, now: i64) -> Seq<CacheEntry>
    decreases rows.len(),
{
    if rows.len() == 0 {
        Seq::empty()
    } else {
        let prev = unlocked_entries(rows.drop_last(), now);
        let r = rows.last();
        if !clipboard_locked(now, r.injected_at) {
            prev.push(row_entry(r))
        } else {
            prev
        }
    }
}

/// The total size of the rows, all of them, counted up to `u64::MAX`.
pub open spec fn rows_total(rows: Seq<CacheRow>) -> u64 {
    let t = entries_size(rows.map_values(|r: CacheRow| row_entry(r)));
    if t > u64::MAX {
        u64::MAX
    } else {
        t as u64
    }
}

/// What the two passes of a clean-up at `now` work from, out of the whole cache index (given
/// least recently used first): the expired unlocked rows, the size of the whole cache, and
/// the unlocked rows in the same order.
pub fn sweep_inputs(policy: &RetentionPolicy, rows: &[CacheRow], now: i64) -> (r: (
    Vec<CacheEntry>,
    u64,
    Vec<CacheEntry>,
))
    ensures
        r.0@ == expired_entries(rows@, now, policy.ttl_hours * 3600),
        r.1 == rows_total(rows@),
        r.2@ == unlocked_entries(rows@, now),
{
    let ttl = policy.ttl_seconds();
    let mut expired: Vec<CacheEntry> = Vec::new();
    let mut unlocked: Vec<CacheEntry> = Vec::new();
    let mut total: u64 = 0;
    let n = rows.len();
    let mut i: usize = 0;
    while i < n
        invariant
            i <= n,
            n == rows@.len(),
            ttl == policy.ttl_hours * 3600,
            expired@ == expired_entries(rows@.take(i as int), now, ttl as int),
            unlocked@ == unlocked_entries(rows@.take(i as int), now),
            total == rows_total(rows@.take(i as int)),
        decreases n - i,
    {
        let ghost prefix = rows@.take(i as int);
        let ghost next = rows@.take(i + 1);
        assert(next.drop_last() =~= prefix);
        assert(next.last() == rows@[i as int]);
        assert(next.map_values(|r: CacheRow| row_entry(r)).drop_last() =~= prefix.map_values(
            |r: CacheRow| row_entry(r),
        ));
        let row = &rows[i];
        let locked = is_clipboard_locked(now, row.injected_at);
        let old_enough = (now as i128) - (row.created_at as i128) > (ttl as i128);
        if old_enough && !locked {
            expired.push(CacheEntry { path: row.path.clone(), size: row.size });
        }
        if !locked {
            unlocked.push(CacheEntry { path: row.path.clone(), size: row.size });
        }
        total = total.saturating_add(row.size);
        i = i + 1;
    }
    assert(rows@.take(n as int) =~= rows@);
    (expired, total, unlocked)
}

/// Chooses the files a clean-up at `now` deletes, from the whole cache index given least
/// recently used first: the time-based pass takes the expired files not under the clipboard
/// lock, then the size-based pass takes unlocked files down to the low watermark.
pub fn plan_sweep(policy: &RetentionPolicy, rows: &[CacheRow], now: i64) -> (r: Vec<String>)
    ensures
        entry_strings(r@) == spec_sweep_victims(
            *policy,
            expired_entries(rows@, now, policy.ttl_hours * 3600),
            rows_total(rows@),
            unlocked_entries(rows@, now),
        ),
{
    let (expired, total, lru) = sweep_inputs(policy, rows, now);
    select_sweep_victims(policy, &expired, total, &lru)
}

/// Nothing under the clipboard lock is deleted: no path chosen by a clean-up belongs only to
/// locked rows.
pub proof fn lemma_locked_files_are_kept(
    policy: RetentionPolicy,
    rows: Seq<CacheRow>,
    now: i64,
    p: Seq<char>,
)
    requires
        forall|k: int| 0 <= k < rows.len() && #[trigger] rows[k].path@ == p ==> clipboard_locked(
            now,
            rows[k].injected_at,
        ),
    ensures
        !spec_sweep_victims(
            policy,
            expired_entries(rows, now, policy.ttl_hours * 3600),
            rows_total(rows),
            unlocked_entries(rows, now),
        ).contains(p),
{
    let ttl = policy.ttl_hours * 3600;
    lemma_entries_unlocked(rows, now, ttl, p);
    let expired = expired_entries(rows, now, ttl);
    let lru = unlocked_entries(rows, now);
    let ttl_paths = if policy.ttl_hours > 0 {
        entry_paths(expired)
    } else {
        Seq::empty()
    };
    assert(!ttl_paths.contains(p)) by {
        if ttl_paths.contains(p) {
            let k = choose|k: int| 0 <= k < ttl_paths.len() && ttl_paths[k] == p;
            assert(expired[k].path@ == p);
        }
    }
    let freed: int = if policy.ttl_hours > 0 {
        if entries_size(expired) > u64::MAX {
            u64::MAX as int
        } else {
            entries_size(expired) as int
        }
    } else {
        0
    };
    let low = (policy.max_size_bytes / 100 * LRU_LOW_WATERMARK_PERCENT) as int;
    lemma_lru_pick_from(lru, ttl_paths, sat_sub(rows_total(rows) as int, freed), low, p);
    let q = if policy.max_size_bytes > 0 {
        lru_pick(lru, ttl_paths, sat_sub(rows_total(rows) as int, freed), low)
    } else {
        Seq::empty()
    };
    let all = ttl_paths + q;
    if all.contains(p) {
        let k = choose|k: int| 0 <= k < all.len() && all[k] == p;
        if k < ttl_paths.len() {
            assert(ttl_paths[k] == p);
        } else {
            assert(q[k - ttl_paths.len()] == p);
        }
    }
}

/// Every entry of either pass comes from an unlocked row.
proof fn lemma_entries_unlocked(rows: Seq<CacheRow>, now: i64, ttl: int, p: Seq<char>)
    requires
        forall|k: int| 0 <= k < rows.len() && #[trigger] rows[k].path@ == p ==> clipboard_locked(
            now,
            rows[k].injected_at,
        ),
    ensures
        forall|j: int|
            0 <= j < expired_entries(rows, now, ttl).len() ==> (#[trigger] expired_entries(
                rows,
                now,
                ttl,
            )[j]).path@ != p,
        forall|j: int|
            0 <= j < unlocked_entries(rows, now).len() ==> (#[trigger] unlocked_entries(
                rows,
                now,
            )[j]).path@ != p,
    decreases rows.len(),
{
    if rows.len() > 0 {
        let r0 = rows.drop_last();
        assert forall|k: int| 0 <= k < r0.len() && #[trigger] r0[k].path@ == p implies clipboard_locked(
            now,
            r0[k].injected_at,
        ) by {
            assert(rows[k] == r0[k]);
        }
        lemma_entries_unlocked(r0, now, ttl, p);
        let last = rows.last();
        assert(rows[rows.len() - 1] == last);
        assert(!clipboard_locked(now, last.injected_at) ==> last.path@ != p);
        let e0 = expired_entries(r0, now, ttl);
        let e = expired_entries(rows, now, ttl);
        assert forall|j: int| 0 <= j < e.len() implies (#[trigger] e[j]).path@ != p by {
            if j < e0.len() {
                assert(e[j] == e0[j]);
            }
        }
        let u0 = unlocked_entries(r0, now);
        let u = unlocked_entries(rows, now);
        assert forall|j: int| 0 <= j < u.len() implies (#[trigger] u[j]).path@ != p by {
            if j < u0.len() {
                assert(u[j] == u0[j]);
            }
        }
    }
}

/// A path that no candidate carries is never picked by the size pass.
proof fn lemma_lru_pick_from(cands: Seq<CacheEntry>, chosen: Seq<Seq<char>>, remaining: int, low: int, p: Seq<char>)
    requires
        forall|j: int| 0 <= j < cands.len() ==> (#[trigger] cands[j]).path@ != p,
    ensures
        !lru_pick(cands, chosen, remaining, low).contains(p),
    decreases cands.len(),
{
    if cands.len() == 0 || remaining <= low {
    } else {
        let rest = cands.skip(1);
        assert forall|j: int| 0 <= j < rest.len() implies (#[trigger] rest[j]).path@ != p by {
            assert(rest[j] == cands[j + 1]);
        }
        if chosen.contains(cands[0].path@) {
            lemma_lru_pick_from(rest, chosen, remaining, low, p);
        } else {
            let next = sat_sub(remaining, cands[0].size as int);
            lemma_lru_pick_from(rest, chosen.push(cands[0].path@), next, low, p);
            let tail = lru_pick(rest, chosen.push(cands[0].path@), next, low);
            let all = seq![cands[0].path@] + tail;
            if all.contains(p) {
                let k = choose|k: int| 0 <= k < all.len() && all[k] == p;
                if k > 0 {
                    assert(tail[k - 1] == p);
                }
            }
        }
    }
}

/// A policy with both passes off deletes nothing: zero means "off", never "delete all".
pub proof fn lemma_disabled_policy_deletes_nothing(
    policy: RetentionPolicy,
    expired: Seq<CacheEntry>,
    total: u64,
    lru: Seq<CacheEntry>,
)
    requires
        policy.ttl_hours == 0,
        policy.max_size_bytes == 0,
    ensures
        spec_sweep_victims(policy, expired, total, lru) == Seq::<Seq<char>>::empty(),
{
    assert(spec_sweep_victims(policy, expired, total, lru) =~= Seq::<Seq<char>>::empty());
}

/// When the expired files already bring the cache down to the low watermark, the size pass
/// deletes nothing more: only the expired files go.
pub proof fn lemma_no_over_eviction_after_ttl(
    policy: RetentionPolicy,
    expired: Seq<CacheEntry>,
    total: u64,
    lru: Seq<CacheEntry>,
)
    requires
        policy.ttl_hours > 0,
        sat_sub(
            total as int,
            if entries_size(expired) > u64::MAX {
                u64::MAX as int
            } else {
                entries_size(expired) as int
            },
        ) <= (policy.max_size_bytes / 100 * LRU_LOW_WATERMARK_PERCENT) as int,
    ensures
        spec_sweep_victims(policy, expired, total, lru) == entry_paths(expired),
{
    assert(spec_sweep_victims(policy, expired, total, lru) =~= entry_paths(expired));
}

/// The size pass picks each file at most once and never one already chosen.
pub proof fn lemma_lru_pick_is_fresh(
    cands: Seq<CacheEntry>,
    chosen: Seq<Seq<char>>,
    remaining: int,
    low: int,
)
    ensures
        lru_pick(cands, chosen, remaining, low).no_duplicates(),
        forall|x: Seq<char>| #[trigger]
            lru_pick(cands, chosen, remaining, low).contains(x) ==> !chosen.contains(x),
    decreases cands.len(),
{
    if cands.len() == 0 || remaining <= low {
    } else if chosen.contains(cands[0].path@) {
        lemma_lru_pick_is_fresh(cands.skip(1), chosen, remaining, low);
    } else {
        let p = cands[0].path@;
        let rest_chosen = chosen.push(p);
        let rest = lru_pick(cands.skip(1), rest_chosen, sat_sub(remaining, cands[0].size as int), low);
        lemma_lru_pick_is_fresh(cands.skip(1), rest_chosen, sat_sub(remaining, cands[0].size as int), low);
        let all = seq![p] + rest;
        assert(lru_pick(cands, chosen, remaining, low) == all);
        assert(rest_chosen.contains(p)) by {
            assert(rest_chosen[chosen.len() as int] == p);
        }
        assert forall|x: Seq<char>| #[trigger] all.contains(x) implies !chosen.contains(x) by {
            if x != p {
                let k = choose|k: int| 0 <= k < all.len() && all[k] == x;
                assert(rest[k - 1] == x);
                assert(rest.contains(x));
                if chosen.contains(x) {
                    let j = choose|j: int| 0 <= j < chosen.len() && chosen[j] == x;
                    assert(rest_chosen[j] == x);
                }
            }
        }
        assert forall|a: int, b: int| 0 <= a < all.len() && 0 <= b < all.len() && a != b implies all[a]
            != all[b] by {
            if a == 0 {
                assert(rest[b - 1] == all[b]);
                assert(rest.contains(all[b]));
            } else if b == 0 {
                assert(rest[a - 1] == all[a]);
                assert(rest.contains(all[a]));
            }
        }
    }
}

/// No file is deleted twice in one clean-up: the expired files are distinct, and the size
/// pass adds only files that are neither expired nor picked before.
pub proof fn lemma_sweep_victims_are_distinct(
    policy: RetentionPolicy,
    expired: Seq<CacheEntry>,
    total: u64,
    lru: Seq<CacheEntry>,
)
    requires
        entry_paths(expired).no_duplicates(),
    ensures
        spec_sweep_victims(policy, expired, total, lru).no_duplicates(),
{
    let ttl_paths = if policy.ttl_hours > 0 {
        entry_paths(expired)
    } else {
        Seq::empty()
    };
    let freed: int = if policy.ttl_hours > 0 {
        if entries_size(expired) > u64::MAX {
            u64::MAX as int
        } else {
            entries_size(expired) as int
        }
    } else {
        0
    };
    let low = (policy.max_size_bytes / 100 * LRU_LOW_WATERMARK_PERCENT) as int;
    let q = if policy.max_size_bytes > 0 {
        lru_pick(lru, ttl_paths, sat_sub(total as int, freed), low)
    } else {
        Seq::empty()
    };
    lemma_lru_pick_is_fresh(lru, ttl_paths, sat_sub(total as int, freed), low);
    let all = ttl_paths + q;
    assert(spec_sweep_victims(policy, expired, total, lru) == all);
    assert forall|a: int, b: int| 0 <= a < all.len() && 0 <= b < all.len() && a != b implies all[a]
        != all[b] by {
        if a < ttl_paths.len() && b >= ttl_paths.len() {
            assert(q[b - ttl_paths.len()] == all[b]);
            assert(q.contains(all[b]));
            assert(ttl_paths.contains(all[a]));
        } else if b < ttl_paths.len() && a >= ttl_paths.len() {
            assert(q[a - ttl_paths.len()] == all[a]);
            assert(q.contains(all[a]));
            assert(ttl_paths.contains(all[b]));
        } else if a >= ttl_paths.len() && b >= ttl_paths.len() {
            assert(q[a - ttl_paths.len()] == all[a]);
            assert(q[b - ttl_paths.len()] == all[b]);
        }
    }
}

} // verus!
