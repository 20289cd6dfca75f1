use unidrop::engine::retention::{select_sweep_victims, CacheEntry, RetentionPolicy};

fn e(path: &str, size: u64) -> CacheEntry {
    CacheEntry { path: path.to_string(), size }
}

fn policy(ttl_hours: u32, max_size_bytes: u64) -> RetentionPolicy {
    RetentionPolicy { ttl_hours, max_size_bytes }
}

#[test]
fn expired_files_are_deleted_when_the_time_limit_is_on() {
    let v = select_sweep_victims(&policy(24, 0), &[e("/c/a", 10)], 10, &[e("/c/a", 10)]);
    assert_eq!(v, vec!["/c/a".to_string()]);
}

#[test]
fn zero_ttl_deletes_nothing_even_when_rows_are_old() {
    let v = select_sweep_victims(&policy(0, 0), &[e("/c/a", 10)], 10, &[e("/c/a", 10)]);
    assert!(v.is_empty());
}

#[test]
fn size_limit_evicts_oldest_down_to_the_low_watermark() {
    // limit 1000 bytes, low watermark 800; 1200 cached.
    let lru = [e("/c/a", 300), e("/c/b", 300), e("/c/c", 300), e("/c/d", 300)];
    let v = select_sweep_victims(&policy(0, 1000), &[], 1200, &lru);
    assert_eq!(v, vec!["/c/a".to_string(), "/c/b".to_string()]);
}

#[test]
fn expired_files_count_before_the_size_pass() {
    let lru = [e("/c/active", 300), e("/c/old", 500)];
    let v = select_sweep_victims(&policy(24, 1000), &[e("/c/old", 500)], 1200, &lru);
    assert_eq!(v, vec!["/c/old".to_string()]);
}

#[test]
fn size_pass_skips_files_the_time_pass_chose() {
    let lru = [e("/c/old", 100), e("/c/a", 300), e("/c/b", 300)];
    let v = select_sweep_victims(&policy(24, 1000), &[e("/c/old", 100)], 1300, &lru);
    assert_eq!(v, vec!["/c/old".to_string(), "/c/a".to_string(), "/c/b".to_string()]);
}

#[test]
fn zero_quota_skips_the_size_pass() {
    let lru = [e("/c/a", 5000)];
    let v = select_sweep_victims(&policy(24, 0), &[], 5000, &lru);
    assert!(v.is_empty());
}

#[test]
fn cache_under_the_watermark_is_left_alone() {
    let lru = [e("/c/a", 100)];
    assert!(select_sweep_victims(&policy(0, 1000), &[], 800, &lru).is_empty());
}

use unidrop::engine::retention::{is_clipboard_locked, plan_sweep, CacheRow, CLIPBOARD_LOCK_SECS};

const NOW: i64 = 1_700_000_000;

fn row(path: &str, size: u64, age_secs: i64, injected_ago: Option<i64>) -> CacheRow {
    CacheRow {
        path: path.to_string(),
        size,
        created_at: NOW - age_secs,
        injected_at: injected_ago.map(|a| NOW - a),
    }
}

#[test]
fn clipboard_lock_lasts_exactly_its_window() {
    assert!(!is_clipboard_locked(NOW, None));
    assert!(is_clipboard_locked(NOW, Some(NOW - CLIPBOARD_LOCK_SECS)));
    assert!(!is_clipboard_locked(NOW, Some(NOW - CLIPBOARD_LOCK_SECS - 1)));
    assert!(is_clipboard_locked(NOW, Some(NOW)));
}

#[test]
fn planned_sweep_takes_files_past_the_time_limit_only() {
    let rows = [
        row("/c/old", 10, 25 * 3600, None),
        row("/c/edge", 10, 24 * 3600, None),
        row("/c/fresh", 10, 60, None),
    ];
    assert_eq!(plan_sweep(&policy(24, 0), &rows, NOW), vec!["/c/old".to_string()]);
}

#[test]
fn planned_sweep_keeps_files_under_the_clipboard_lock() {
    let rows = [row("/c/locked", 10, 25 * 3600, Some(60)), row("/c/unlocked", 10, 25 * 3600, Some(3 * 3600))];
    assert_eq!(plan_sweep(&policy(24, 0), &rows, NOW), vec!["/c/unlocked".to_string()]);
    // The size pass leaves the locked file alone too, though it counts in the total.
    let rows = [row("/c/locked", 600, 60, Some(60)), row("/c/b", 600, 60, None)];
    assert_eq!(plan_sweep(&policy(0, 1000), &rows, NOW), vec!["/c/b".to_string()]);
}

#[test]
fn planned_sweep_with_both_limits_off_deletes_nothing() {
    let rows = [row("/c/ancient", 10, 100 * 24 * 3600, None)];
    assert!(plan_sweep(&policy(0, 0), &rows, NOW).is_empty());
}
