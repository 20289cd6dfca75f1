use unidrop::app_state::APP_VERSION;
use unidrop::engine::retention::{
    effective_sweep_interval, effective_sweep_interval_minutes, RetentionPolicy,
    DEFAULT_CACHE_MAX_SIZE_MB,
};
use unidrop::settings::{
    clean_server_url, history_prune_limit, sanitize_for_save, validate_account_id, AppSettings,
};

fn settings_with(ttl: u32, mb: u32, interval: u32) -> AppSettings {
    AppSettings {
        cache_ttl_hours: ttl,
        cache_max_size_mb: mb,
        cache_sweep_interval_minutes: interval,
        ..AppSettings::default_config()
    }
}

#[test]
fn app_version_tracks_cargo_manifest() {
    assert_eq!(APP_VERSION, "0.3.0");
    assert!(!APP_VERSION.is_empty());
    assert_eq!(APP_VERSION.split('.').count(), 3, "版本号应为三段式");
}

#[test]
fn app_version_is_not_a_stale_literal() {
    assert_ne!(APP_VERSION, "0.1.0", "不得退回硬编码的旧版本号");
}

#[test]
fn account_id_empty_is_rejected() {
    assert!(validate_account_id("").is_err(), "空账号标识必须被拒绝");
}

#[test]
fn account_id_whitespace_only_is_rejected() {
    assert!(validate_account_id("   ".trim()).is_err(), "纯空格账号标识必须被拒绝");
}

#[test]
fn account_id_with_newline_is_rejected() {
    assert!(validate_account_id("acct\nUNIDROP_V1").is_err());
}

#[test]
fn account_id_non_ascii_is_rejected() {
    assert!(validate_account_id("团队").is_err());
}

#[test]
fn default_config_account_id_passes_validation() {
    let cfg = AppSettings::default_config();
    assert!(
        validate_account_id(&cfg.account_id).is_ok(),
        "默认账号标识 {} 必须通过校验",
        cfg.account_id
    );
}

#[test]
fn account_id_accepts_documented_shapes() {
    for s in ["default_user", "my_team_sync", "user@example.com", "a.b", "A-1_2"] {
        assert!(validate_account_id(s).is_ok(), "合法账号标识被误拒: {}", s);
    }
}

#[test]
fn account_id_errors_name_the_rule() {
    assert_eq!(
        validate_account_id(&"a".repeat(65)).unwrap_err(),
        "账号标识不能为空，长度需在 1-64 之间"
    );
    assert!(validate_account_id(&"a".repeat(64)).is_ok());
    assert_eq!(
        validate_account_id("a b").unwrap_err(),
        "账号标识只能包含字母、数字与 . _ @ -"
    );
}

#[test]
fn default_config_is_secure() {
    let cfg = AppSettings::default_config();
    assert!(!cfg.allow_insecure_tls);
    assert!(cfg.e2ee_enabled);
    assert_eq!(cfg.server_url, "wss://drop.yourdomain.com:58921");
    assert_eq!(cfg.history_max_entries, 100);
    assert_eq!(cfg.transfer_card_retain_secs, 30);
    assert_eq!(cfg.cache_sweep_interval_minutes, 60);
}

#[test]
fn server_url_is_cleaned_on_save() {
    assert_eq!(clean_server_url(" example.com:58921/ "), "wss://example.com:58921");
    assert_eq!(clean_server_url("ws://1.2.3.4:80//"), "ws://1.2.3.4:80");
    assert_eq!(clean_server_url("wss://h o\tst"), "wss://host");
    assert_eq!(clean_server_url(""), "");
    assert_eq!(clean_server_url("///"), "");
}

#[test]
fn saving_trims_the_account_and_clamps_the_interval() {
    let mut s = AppSettings::default_config();
    s.account_id = "  team@x  ".to_string();
    s.server_url = "host/".to_string();
    s.cache_sweep_interval_minutes = 0;
    let saved = sanitize_for_save(s).unwrap();
    assert_eq!(saved.account_id, "team@x");
    assert_eq!(saved.server_url, "wss://host");
    assert_eq!(saved.cache_sweep_interval_minutes, 1);

    let mut bad = AppSettings::default_config();
    bad.account_id = "   ".to_string();
    assert!(sanitize_for_save(bad).is_err());
}

#[test]
fn saving_refuses_with_the_account_checks_own_reason() {
    let mut empty = AppSettings::default_config();
    empty.account_id = "   ".to_string();
    assert_eq!(sanitize_for_save(empty).err().unwrap(), "账号标识不能为空，长度需在 1-64 之间");
    let mut spaced = AppSettings::default_config();
    spaced.account_id = " a b ".to_string();
    assert_eq!(sanitize_for_save(spaced).err().unwrap(), "账号标识只能包含字母、数字与 . _ @ -");
}

#[test]
fn default_size_exceeds_u32_and_must_not_wrap() {
    let p = RetentionPolicy::from_settings(&settings_with(24, DEFAULT_CACHE_MAX_SIZE_MB, 60));
    assert_eq!(p.max_size_bytes, 10_737_418_240);
    assert!(p.max_size_bytes > u32::MAX as u64, "默认值本就超出 u32 范围");
}

#[test]
fn sizes_that_would_wrap_to_zero_are_preserved() {
    for (mb, expected) in [
        (4096u32, 4_294_967_296u64),
        (8192, 8_589_934_592),
        (1_048_576, 1_099_511_627_776),
    ] {
        let p = RetentionPolicy::from_settings(&settings_with(24, mb, 60));
        assert_eq!(p.max_size_bytes, expected, "{} MB 换算错误", mb);
        assert!(p.quota_enabled(), "{} MB 不该被当成「不限容量」", mb);
    }
}

#[test]
fn zero_size_means_unlimited() {
    let p = RetentionPolicy::from_settings(&settings_with(24, 0, 60));
    assert_eq!(p.max_size_bytes, 0);
    assert!(!p.quota_enabled());
}

#[test]
fn zero_ttl_disables_time_based_cleanup() {
    let p = RetentionPolicy::from_settings(&settings_with(0, 10240, 60));
    assert!(!p.ttl_enabled(), "0 小时表示不按时间清理，而非立即删光");
}

#[test]
fn ttl_seconds_conversion() {
    assert_eq!(RetentionPolicy::from_settings(&settings_with(24, 1, 60)).ttl_seconds(), 86_400);
    assert_eq!(RetentionPolicy::from_settings(&settings_with(1, 1, 60)).ttl_seconds(), 3_600);
}

#[test]
fn low_watermark_is_80_percent() {
    let p = RetentionPolicy::from_settings(&settings_with(24, 100, 60));
    assert_eq!(p.max_size_bytes, 104_857_600);
    assert_eq!(p.low_watermark_bytes(), 83_886_080);
}

#[test]
fn low_watermark_survives_large_values() {
    let p = RetentionPolicy::from_settings(&settings_with(24, 1_048_576, 60));
    assert_eq!(p.low_watermark_bytes(), 879_609_302_160);
}

#[test]
fn interval_zero_is_clamped_to_minimum() {
    assert_eq!(effective_sweep_interval_minutes(&settings_with(24, 10240, 0)), 1);
    assert_eq!(effective_sweep_interval(&settings_with(24, 10240, 0)), 60);
}

#[test]
fn interval_zero_never_yields_zero_duration() {
    assert!(effective_sweep_interval(&settings_with(24, 10240, 0)) != 0);
}

#[test]
fn normal_interval_passes_through() {
    assert_eq!(effective_sweep_interval_minutes(&settings_with(24, 10240, 60)), 60);
    assert_eq!(effective_sweep_interval(&settings_with(24, 10240, 60)), 3600);
}

#[test]
fn interval_one_is_allowed() {
    assert_eq!(effective_sweep_interval_minutes(&settings_with(24, 10240, 1)), 1);
}

#[test]
fn history_pruning_needs_a_limit_and_a_valid_account() {
    assert_eq!(history_prune_limit(100, "default_user"), Some(100));
    assert_eq!(history_prune_limit(0, "default_user"), None);
    assert_eq!(history_prune_limit(100, ""), None);
    assert_eq!(history_prune_limit(100, "has space"), None);
}

#[test]
fn saving_settings_twice_changes_nothing() {
    let mut s = AppSettings::default_config();
    s.account_id = "  alice@example.com \n".to_string();
    s.server_url = " relay.example.com : 8443 // ".to_string();
    s.cache_sweep_interval_minutes = 0;
    let once = sanitize_for_save(s).unwrap();
    let twice = sanitize_for_save(once.clone()).unwrap();
    assert_eq!(once.account_id, "alice@example.com");
    assert_eq!(once.server_url, "wss://relay.example.com:8443");
    assert_eq!(once.cache_sweep_interval_minutes, 1);
    assert_eq!(twice.account_id, once.account_id);
    assert_eq!(twice.server_url, once.server_url);
    assert_eq!(twice.cache_sweep_interval_minutes, once.cache_sweep_interval_minutes);
    assert_eq!(clean_server_url(&once.server_url), once.server_url);
}
