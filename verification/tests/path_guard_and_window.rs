use unidrop::engine::path_guard::{PathGuard, PathSecurityError};
use unidrop::engine::sliding_window::{SlidingWindow, MAX_RETRIES, NANOS_PER_MILLI};

const BASE: &str = "/tmp/unidrop_cache";

#[test]
fn test_valid_paths() {
    let p = PathGuard::sanitize_and_resolve(BASE, "docs/report.pdf").unwrap();
    assert_eq!(p, "/tmp/unidrop_cache/docs/report.pdf");

    let p2 = PathGuard::sanitize_and_resolve(BASE, "nested/folder/file.txt").unwrap();
    assert_eq!(p2, "/tmp/unidrop_cache/nested/folder/file.txt");
}

#[test]
fn test_reject_parent_traversal() {
    assert_eq!(
        PathGuard::sanitize_and_resolve(BASE, "../../etc/passwd"),
        Err(PathSecurityError::ParentTraversalForbidden)
    );
    assert_eq!(
        PathGuard::sanitize_and_resolve(BASE, "docs/../../evil.sh"),
        Err(PathSecurityError::ParentTraversalForbidden)
    );
}

#[test]
fn test_reject_absolute_paths() {
    assert_eq!(
        PathGuard::sanitize_and_resolve(BASE, "/etc/shadow"),
        Err(PathSecurityError::AbsolutePathForbidden)
    );
    assert_eq!(
        PathGuard::sanitize_and_resolve(BASE, "C:\\Windows\\System32"),
        Err(PathSecurityError::AbsolutePathForbidden)
    );
}

#[test]
fn test_reject_windows_reserved() {
    assert_eq!(
        PathGuard::sanitize_and_resolve(BASE, "CON.txt"),
        Err(PathSecurityError::ReservedWindowsName)
    );
    assert_eq!(
        PathGuard::sanitize_and_resolve(BASE, "docs/NUL"),
        Err(PathSecurityError::ReservedWindowsName)
    );
    assert_eq!(
        PathGuard::sanitize_and_resolve(BASE, "folder/com1.log"),
        Err(PathSecurityError::ReservedWindowsName)
    );
}

#[test]
fn reserved_names_padded_with_dots_or_spaces_are_refused() {
    for raw in [" CON", "CON.", "..CON", "docs/ nul.", " com3 "] {
        assert_eq!(
            PathGuard::sanitize_and_resolve(BASE, raw),
            Err(PathSecurityError::ReservedWindowsName),
            "{raw:?}"
        );
    }
    // Padding around an ordinary name is still trimmed away.
    assert_eq!(
        PathGuard::sanitize_and_resolve(BASE, " report.txt ").unwrap(),
        "/tmp/unidrop_cache/report.txt"
    );
}

#[test]
fn reserved_names_are_matched_on_the_stem_only() {
    assert!(PathGuard::is_windows_reserved_name("LPT9.txt"));
    assert!(PathGuard::is_windows_reserved_name("aux"));
    assert!(!PathGuard::is_windows_reserved_name("console.txt"));
    assert!(!PathGuard::is_windows_reserved_name("com10"));
}

#[test]
fn error_messages_are_the_documented_ones() {
    assert_eq!(
        PathSecurityError::ParentTraversalForbidden.message(),
        "Parent directory traversal (..) is forbidden"
    );
    assert_eq!(
        PathSecurityError::AbsolutePathForbidden.message(),
        "Absolute paths are strictly forbidden"
    );
}

const SECOND: u64 = 1000 * NANOS_PER_MILLI;

#[test]
fn test_sliding_window_progression() {
    let mut sw = SlidingWindow::new(5, 2);
    let t0 = 10 * SECOND;
    assert!(sw.can_send(0));
    sw.on_chunk_sent(0, t0);

    assert!(sw.can_send(1));
    sw.on_chunk_sent(1, t0);

    assert!(!sw.can_send(2));

    sw.on_ack(0, t0 + 1);
    assert_eq!(sw.base_chunk, 1);
    assert!(sw.can_send(2));
    sw.on_chunk_sent(2, t0 + 2);

    sw.on_ack(2, t0 + 3);
    assert_eq!(sw.base_chunk, 1);

    sw.on_ack(1, t0 + 4);
    assert_eq!(sw.base_chunk, 3);
}

#[test]
fn test_sliding_window_nack_and_timeout() {
    let mut sw = SlidingWindow::new(3, 2);
    let t0 = 10 * SECOND;
    sw.on_chunk_sent(0, t0);

    let nack_ret = sw.on_nack(0, t0);
    assert_eq!(nack_ret, Some(0));

    let future = t0 + 20 * SECOND;
    let timeouts = sw.check_timeouts(future);
    assert_eq!(timeouts, vec![0]);
}

#[test]
fn test_sliding_window_max_retries() {
    let mut sw = SlidingWindow::new(2, 2);
    let t0 = 10 * SECOND;
    sw.on_chunk_sent(0, t0);

    for _ in 0..MAX_RETRIES {
        assert!(!sw.has_exceeded_max_retries());
        sw.on_nack(0, t0);
    }

    assert!(sw.has_exceeded_max_retries());
    assert_eq!(sw.on_nack(0, t0), None);
}

#[test]
fn window_completes_when_every_chunk_is_acked() {
    let mut sw = SlidingWindow::new(2, 4);
    let t0 = 10 * SECOND;
    sw.on_chunk_sent(0, t0);
    sw.on_chunk_sent(1, t0);
    assert!(!sw.is_complete());
    sw.on_ack(1, t0 + 5);
    assert!(!sw.is_complete());
    sw.on_ack(0, t0 + 5);
    assert!(sw.is_complete());
    assert!(!sw.can_send(2));
}

#[test]
fn timeouts_back_off_the_rto() {
    let mut sw = SlidingWindow::new(4, 4);
    let t0 = 10 * SECOND;
    sw.on_chunk_sent(0, t0);
    sw.on_chunk_sent(1, t0);
    let rto_before = sw.rto_ns;
    let mut out = sw.check_timeouts(t0 + rto_before);
    assert!(out.is_empty(), "exactly the RTO is not yet a timeout");
    out = sw.check_timeouts(t0 + rto_before + 1);
    out.sort();
    assert_eq!(out, vec![0, 1]);
    assert_eq!(sw.rto_ns, rto_before * 3 / 2);
}

#[test]
fn an_ack_without_retransmission_updates_the_rtt() {
    let mut sw = SlidingWindow::new(2, 2);
    let t0 = 10 * SECOND;
    sw.on_chunk_sent(0, t0);
    sw.on_ack(0, t0 + 100 * NANOS_PER_MILLI);
    assert_eq!(sw.srtt_ms, 450);
    assert_eq!(sw.rttvar_ms, 287);
}

#[test]
fn window_is_complete_exactly_when_every_chunk_is_acknowledged() {
    let mut w = SlidingWindow::new(3, 3);
    for c in 0..3 {
        w.on_chunk_sent(c, 0);
    }
    w.on_ack(2, 1);
    w.on_ack(1, 1);
    assert!(!w.is_complete(), "chunk 0 is still unacknowledged");
    assert!(!w.is_acked(0));
    w.on_ack(0, 1);
    assert!((0..3).all(|c| w.is_acked(c)));
    assert!(w.is_complete());
}
