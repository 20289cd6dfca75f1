use unidrop::engine::history::{deletable_rows, select_prune_candidates, without_locked, HistoryRow};

fn row(account: Option<&str>, sid: &str, status: &str, locked: bool) -> HistoryRow {
    HistoryRow {
        session_id: sid.to_string(),
        account_id: account.map(|a| a.to_string()),
        status: status.to_string(),
        clipboard_locked: locked,
    }
}

/// `n` completed entries s1..sn of "acct", oldest first.
fn seed_completed(n: usize) -> Vec<HistoryRow> {
    (1..=n).map(|i| row(Some("acct"), &format!("s{i}"), "COMPLETED", false)).collect()
}

#[test]
fn prune_keeps_newest_and_drops_oldest() {
    let rows = seed_completed(5);
    assert_eq!(select_prune_candidates(&rows, "acct", 3), vec!["s1", "s2"]);
}

#[test]
fn prune_limit_zero_means_unlimited() {
    let rows = seed_completed(5);
    assert!(select_prune_candidates(&rows, "acct", 0).is_empty());
}

#[test]
fn prune_never_touches_in_flight_tasks() {
    let mut rows = vec![row(Some("acct"), "old-running", "TRANSFERRING", false)];
    rows.extend(seed_completed(4));
    let ids = select_prune_candidates(&rows, "acct", 2);
    assert!(!ids.contains(&"old-running".to_string()));
    assert_eq!(ids, vec!["s1", "s2"]);
}

#[test]
fn prune_respects_clipboard_immunity_lock() {
    let mut rows = seed_completed(5);
    rows[0].clipboard_locked = true;
    assert_eq!(select_prune_candidates(&rows, "acct", 3), vec!["s2"]);
}

#[test]
fn prune_window_is_per_account_when_rows_interleave() {
    // Oldest first: a_old (50 s ago), b_2, a_mid, b_1, a_new (10 s ago).
    let rows = vec![
        row(Some("alice"), "a_old", "COMPLETED", false),
        row(Some("bob"), "b_2", "COMPLETED", false),
        row(Some("alice"), "a_mid", "COMPLETED", false),
        row(Some("bob"), "b_1", "COMPLETED", false),
        row(Some("alice"), "a_new", "COMPLETED", false),
    ];
    assert_eq!(select_prune_candidates(&rows, "alice", 2), vec!["a_old"]);
}

#[test]
fn prune_never_touches_other_account_rows() {
    let rows = vec![
        row(Some("bob"), "b3", "COMPLETED", false),
        row(Some("bob"), "b2", "COMPLETED", false),
        row(Some("bob"), "b1", "COMPLETED", false),
        row(Some("alice"), "a1", "COMPLETED", false),
    ];
    assert!(select_prune_candidates(&rows, "alice", 0).is_empty());
    assert!(select_prune_candidates(&rows, "alice", 1).iter().all(|id| id.starts_with('a')));
}

#[test]
fn prune_candidates_never_overlap_visible_head() {
    let rows = seed_completed(6);
    let visible: Vec<String> = rows.iter().rev().take(4).map(|r| r.session_id.clone()).collect();
    let candidates = select_prune_candidates(&rows, "acct", 4);
    for id in &candidates {
        assert!(!visible.contains(id), "{id}");
    }
    assert_eq!(candidates.len(), 2);
}

#[test]
fn legacy_rows_without_account_are_never_pruned() {
    let mut rows = vec![row(None, "legacy", "COMPLETED", false)];
    rows.extend(seed_completed(2));
    assert!(select_prune_candidates(&rows, "acct", 1) == vec!["s1"]);
}

#[test]
fn filter_recently_injected_drops_freshly_loaded_sessions() {
    let ids = vec!["s1".to_string(), "s2".to_string(), "s3".to_string()];
    assert_eq!(without_locked(&ids, &[true, false, false]), vec!["s2".to_string(), "s3".to_string()]);
}

#[test]
fn filter_recently_injected_on_empty_input_is_empty() {
    assert!(without_locked(&[], &[]).is_empty());
}

#[test]
fn rows_are_deleted_only_when_their_files_are_gone_and_unlocked() {
    let ids: Vec<String> = ["s1", "s2", "s3", "s4"].iter().map(|s| s.to_string()).collect();
    let removed = [true, false, true, true];
    let locked = [false, false, true, false];
    assert_eq!(deletable_rows(&ids, &removed, &locked), vec!["s1".to_string(), "s4".to_string()]);
    assert!(deletable_rows(&[], &[], &[]).is_empty());
}
