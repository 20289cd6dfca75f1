use unidrop::platform::clipboard_windows::{dropfiles_payload, open_retry_delay_ms, DROPFILES_SIZE};

fn wide(s: &str) -> Vec<u16> {
    s.encode_utf16().collect()
}

#[test]
fn dropfiles_header_points_past_itself_and_asks_for_wide_names() {
    let payload = dropfiles_payload(&[wide("C:\\a.txt")]);
    assert_eq!(&payload[..DROPFILES_SIZE], &[20, 0, 0, 0, 0, 0, 0, 0, 0, 0, 0, 0, 0, 0, 0, 0, 1, 0, 0, 0]);
}

#[test]
fn dropfiles_lists_each_path_zero_ended_and_closes_with_a_zero() {
    let paths = vec![wide("C:\\a"), wide("D:\\文件.png")];
    let payload = dropfiles_payload(&paths);
    let mut units: Vec<u16> = Vec::new();
    for p in &paths {
        units.extend(p);
        units.push(0);
    }
    units.push(0);
    let bytes: Vec<u8> = units.iter().flat_map(|u| u.to_le_bytes()).collect();
    assert_eq!(&payload[DROPFILES_SIZE..], &bytes[..]);
    assert_eq!(payload.len(), DROPFILES_SIZE + units.len() * 2);
}

#[test]
fn an_empty_list_is_the_header_and_one_zero() {
    assert_eq!(dropfiles_payload(&[]).len(), DROPFILES_SIZE + 2);
}

#[test]
fn busy_clipboard_retries_wait_longer_each_time() {
    let waits: Vec<u64> = (0..5).map(open_retry_delay_ms).collect();
    assert_eq!(waits, vec![30, 60, 90, 120, 150]);
}
