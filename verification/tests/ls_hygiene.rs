use unidrop::platform::ls_hygiene::{
    candidate_paths_in_dump, checked_report, stale_paths, stub_info_plist, Report,
    BUNDLE_IDENTIFIER,
};

/// The whole pipeline of one check on a dump: its candidate records, what the filesystem
/// says of each, and the dead ones sorted and without duplicates.
fn stale_paths_in_dump(dump: &str, bundle_id: &str, exists: impl Fn(&str) -> bool) -> Vec<String> {
    let candidates = candidate_paths_in_dump(dump, bundle_id);
    let flags: Vec<bool> = candidates.iter().map(|p| exists(p)).collect();
    stale_paths(&candidates, &flags)
}

const REALISTIC_DUMP: &str =
    "--------------------------------------------------------------------------------
bundle id:                  UniDrop (0x31fc)
path:                       /Applications/UniDrop.app (0x475c)
name:                       UniDrop
identifier:                 com.unidrop.client
codeInfoID:                 unidrop_client-2cb1438087d4e5b9
executable:                 Contents/MacOS/unidrop-client
--------------------------------------------------------------------------------
bundle id:                  Updater (0x1b00)
Bundle node not found on disk: Error Domain=NSOSStatusErrorDomain Code=-43
container:                  / (0x4)
--------------------------------------------------------------------------------
bundle id:                  SomeOtherApp (0x2a)
path:                       /Applications/Other.app (0x9f)
identifier:                 com.other.app
--------------------------------------------------------------------------------
bundle id:                  UniDrop (0x321c)
path:                       /private/tmp/dead/UniDrop.app (0x1234)
identifier:                 com.unidrop.client
--------------------------------------------------------------------------------
bundle id:                  UniDrop Dead No Path (0x44)
identifier:                 com.unidrop.client
--------------------------------------------------------------------------------
";

#[test]
fn finds_only_dead_records_of_own_bundle_id() {
    let stale = stale_paths_in_dump(REALISTIC_DUMP, "com.unidrop.client", |p| {
        !p.starts_with("/private/tmp/")
    });
    assert_eq!(stale, vec!["/private/tmp/dead/UniDrop.app".to_string()]);
}

#[test]
fn clean_registry_yields_empty() {
    let stale = stale_paths_in_dump(REALISTIC_DUMP, "com.unidrop.client", |_| true);
    assert!(stale.is_empty());
}

#[test]
fn duplicate_dead_paths_are_deduped() {
    let dump = "--------------------------------------------------------------------------------
path:                       /tmp/x/UniDrop.app (0x1)
identifier:                 com.unidrop.client
--------------------------------------------------------------------------------
path:                       /tmp/x/UniDrop.app (0x2)
identifier:                 com.unidrop.client
--------------------------------------------------------------------------------
";
    let stale = stale_paths_in_dump(dump, "com.unidrop.client", |_| false);
    assert_eq!(stale.len(), 1);
    assert_eq!(stale[0], "/tmp/x/UniDrop.app");
}

#[test]
fn path_without_hex_suffix_and_with_parens_in_name_survives() {
    let dump = "--------------------------------------------------------------------------------
path:                       /tmp/My App (1).app
identifier:                 com.unidrop.client
--------------------------------------------------------------------------------
";
    let stale = stale_paths_in_dump(dump, "com.unidrop.client", |_| false);
    assert_eq!(stale, vec!["/tmp/My App (1).app".to_string()]);
}

#[test]
fn short_dash_lines_are_not_separators() {
    let dump = "-----
path:                       /tmp/dead/UniDrop.app (0x1)
identifier:                 com.unidrop.client
-----
path:                       /tmp/other.app (0x2)
identifier:                 com.someone.else
";
    let stale = stale_paths_in_dump(dump, "com.someone.else", |_| false);
    assert_eq!(stale, vec!["/tmp/other.app".to_string()]);
    assert!(stale_paths_in_dump(dump, "com.unidrop.client", |_| false).is_empty());
}

#[test]
fn empty_and_garbage_input_is_safe() {
    assert!(stale_paths_in_dump("", BUNDLE_IDENTIFIER, |_| false).is_empty());
    assert!(stale_paths_in_dump("random\nnot a dump\nat all", BUNDLE_IDENTIFIER, |_| false)
        .is_empty());
}

#[test]
fn stub_plist_carries_matching_bundle_id() {
    let plist = stub_info_plist("com.unidrop.client");
    assert!(plist.contains("<string>com.unidrop.client</string>"));
    assert!(plist.contains("<key>CFBundlePackageType</key>"));
    assert!(plist.contains("<string>APPL</string>"));
}

#[test]
fn dead_paths_come_out_sorted() {
    let dump = "--------------------------------------------------------------------------------
path:                       /tmp/b/UniDrop.app (0x1)
identifier:                 com.unidrop.client
--------------------------------------------------------------------------------
path:                       /tmp/a/UniDrop.app (0x2)
identifier:                 com.unidrop.client
--------------------------------------------------------------------------------
";
    let stale = stale_paths_in_dump(dump, "com.unidrop.client", |_| false);
    assert_eq!(stale, vec!["/tmp/a/UniDrop.app".to_string(), "/tmp/b/UniDrop.app".to_string()]);
}

#[test]
fn report_counts_what_could_not_be_unregistered() {
    let stale = vec!["/a".to_string(), "/b".to_string(), "/c".to_string()];
    match checked_report(&stale, &[true, false, true]) {
        Report::Checked { stale: n, purged, uncleanable } => {
            assert_eq!(n, 3);
            assert_eq!(purged, 2);
            assert_eq!(uncleanable, vec!["/b".to_string()]);
        }
        other => panic!("unexpected report {other:?}"),
    }
}
