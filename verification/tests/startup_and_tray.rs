use unidrop::platform::notification_status::{auth_status_code, cached_auth_status, AUTH_UNKNOWN};
use unidrop::engine::startup::{is_autostart_launch, should_focus_second_instance, should_show_on_launch};
use unidrop::engine::tray_click::{is_duplicate_left_click, should_hide_on_tray_click, DOUBLE_CLICK_WINDOW_MS};
use unidrop::platform::tray_placement::{
    conclude, not_placed_actions, should_force_reveal, should_warn_user, HostedLookup, TrayPlacement,
    CACHE_UNSET, TRAY_AUTOSAVE_NAME,
};

fn args<'a>(v: &[&'a str]) -> Vec<&'a str> {
    v.to_vec()
}

#[test]
fn cold_launch_shows_window_when_not_minimized() {
    assert!(should_show_on_launch(false));
}

#[test]
fn cold_launch_hides_window_when_minimized() {
    assert!(!should_show_on_launch(true));
}

#[test]
fn second_instance_from_user_takes_focus() {
    assert!(should_focus_second_instance(&args(&[
        "/Applications/UniDrop.app/Contents/MacOS/UniDrop"
    ])));
}

#[test]
fn second_instance_from_autostart_keeps_window_state() {
    assert!(!should_focus_second_instance(&args(&["UniDrop.exe", "--silent"])));
}

#[test]
fn empty_args_is_not_autostart() {
    let empty: [&str; 0] = [];
    assert!(!is_autostart_launch(&empty));
    assert!(should_focus_second_instance(&empty));
}

#[test]
fn flag_is_detected_anywhere_in_args() {
    assert!(is_autostart_launch(&args(&["exe", "--silent", "--other"])));
    assert!(is_autostart_launch(&args(&["exe", "--other", "--silent"])));
}

#[test]
fn similar_args_are_not_mistaken_for_the_flag() {
    assert!(!is_autostart_launch(&args(&["exe", "--silently"])));
    assert!(!is_autostart_launch(&args(&["exe", "--no-silent"])));
    assert!(!is_autostart_launch(&args(&["exe", "--SILENT"])));
    assert!(!is_autostart_launch(&args(&["exe", "-silent"])));
    assert!(!is_autostart_launch(&args(&["exe", "silent"])));
}

#[test]
fn accepts_str_slices_too() {
    assert!(is_autostart_launch(&["exe", "--silent"]));
}

#[test]
fn hides_only_when_window_is_actually_in_front() {
    assert!(should_hide_on_tray_click(true, false, true));
}

#[test]
fn reveals_when_visible_but_not_focused() {
    assert!(!should_hide_on_tray_click(true, false, false));
}

#[test]
fn reveals_when_minimized() {
    assert!(!should_hide_on_tray_click(true, true, false));
    assert!(!should_hide_on_tray_click(true, true, true));
}

#[test]
fn reveals_when_hidden() {
    assert!(!should_hide_on_tray_click(false, false, false));
    assert!(!should_hide_on_tray_click(false, false, true));
    assert!(!should_hide_on_tray_click(false, true, false));
    assert!(!should_hide_on_tray_click(false, true, true));
}

#[test]
fn first_click_is_never_duplicate() {
    assert!(!is_duplicate_left_click(None));
}

#[test]
fn second_click_within_window_is_duplicate() {
    assert!(is_duplicate_left_click(Some(0)));
    assert!(is_duplicate_left_click(Some(DOUBLE_CLICK_WINDOW_MS - 1)));
}

#[test]
fn click_at_or_after_window_is_not_duplicate() {
    assert!(!is_duplicate_left_click(Some(DOUBLE_CLICK_WINDOW_MS)));
    assert!(!is_duplicate_left_click(Some(DOUBLE_CLICK_WINDOW_MS + 1)));
    assert!(!is_duplicate_left_click(Some(10_000)));
}

#[test]
fn unknown_never_warns_the_user() {
    assert!(!should_warn_user(TrayPlacement::Unknown));
    assert!(!should_warn_user(TrayPlacement::Placed));
    assert!(should_warn_user(TrayPlacement::Rejected));
}

#[test]
fn force_reveal_truth_table() {
    assert!(should_force_reveal(TrayPlacement::Rejected, true, false));
    assert!(!should_force_reveal(TrayPlacement::Rejected, true, true));
    assert!(!should_force_reveal(TrayPlacement::Rejected, false, false));
    assert!(!should_force_reveal(TrayPlacement::Placed, true, false));
    assert!(!should_force_reveal(TrayPlacement::Unknown, true, false));
}

#[test]
fn placement_cache_roundtrips() {
    for p in [TrayPlacement::Placed, TrayPlacement::Rejected, TrayPlacement::Unknown] {
        assert_eq!(TrayPlacement::from_cache(p.to_cache()), p);
    }
    assert_eq!(TrayPlacement::from_cache(CACHE_UNSET), TrayPlacement::Unknown);
}

#[test]
fn autosave_name_is_stable() {
    assert_eq!(TRAY_AUTOSAVE_NAME, "UniDrop");
    assert!(!TRAY_AUTOSAVE_NAME.is_empty());
}

#[test]
fn host_list_decides_before_the_shadow_geometry() {
    assert_eq!(conclude(HostedLookup::Found, Some(true)), TrayPlacement::Placed);
    assert_eq!(conclude(HostedLookup::NotFound, Some(false)), TrayPlacement::Rejected);
    assert_eq!(conclude(HostedLookup::Unreadable, Some(true)), TrayPlacement::Rejected);
    assert_eq!(conclude(HostedLookup::Unreadable, Some(false)), TrayPlacement::Placed);
    assert_eq!(conclude(HostedLookup::Unreadable, None), TrayPlacement::Unknown);
}

#[test]
fn guidance_comes_once_then_only_the_forced_reveal() {
    let first = not_placed_actions(TrayPlacement::Rejected, true, false, false);
    assert!(first.guide_first_time);
    assert!(!first.force_reveal);
    let later = not_placed_actions(TrayPlacement::Rejected, true, true, false);
    assert!(!later.guide_first_time);
    assert!(later.force_reveal);
    let opted_out = not_placed_actions(TrayPlacement::Rejected, true, true, true);
    assert!(!opted_out.force_reveal);
    let unknown = not_placed_actions(TrayPlacement::Unknown, true, false, false);
    assert!(!unknown.guide_first_time && !unknown.force_reveal);
}

#[test]
fn notification_status_reads_back_and_starts_unknown() {
    assert_eq!(cached_auth_status(auth_status_code(true)), Some(true));
    assert_eq!(cached_auth_status(auth_status_code(false)), Some(false));
    assert_eq!(cached_auth_status(AUTH_UNKNOWN), None);
    assert_eq!(cached_auth_status(7), None);
}
