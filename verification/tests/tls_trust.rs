use unidrop::engine::tls_trust::{
    cert_fingerprint_hex, classify, describe, format_presented, humanize_san,
    normalize_fingerprint, pinned_fingerprint_matches, sanitize_raw, CertFailureKind,
    CertificateErrorInfo, RustlsErrorInfo, TlsErrorInfo, TlsTrustConfig, TlsTrustMode,
    MAX_NAME_LEN,
};

/// A certificate error as a failed TLS handshake reports it: the rustls error is recovered,
/// and the display text is the one the websocket layer prints around it.
fn cert_err(ce: CertificateErrorInfo, text: &str) -> TlsErrorInfo {
    TlsErrorInfo {
        text: format!("IO error: invalid peer certificate: {text}"),
        rustls: Some(RustlsErrorInfo::InvalidCertificate(ce)),
    }
}

/// A connection error with no rustls error inside it.
fn plain_err(text: &str) -> TlsErrorInfo {
    TlsErrorInfo { text: text.to_string(), rustls: None }
}

#[test]
fn name_mismatch_carries_both_names() {
    let err = cert_err(
        CertificateErrorInfo::NotValidForNameContext {
            expected: "120.26.54.84".to_string(),
            presented: vec![r#"DnsName("www.leafun.xyz")"#.to_string()],
        },
        "NotValidForNameContext",
    );
    let f = classify(&err).expect("a certificate error");
    assert_eq!(
        f.kind,
        CertFailureKind::NameMismatch {
            expected: "120.26.54.84".to_string(),
            presented: vec!["www.leafun.xyz".to_string()],
        }
    );
    let all = format!("{} {}", f.title, f.detail.join(" "));
    assert!(all.contains("120.26.54.84"), "{all}");
    assert!(all.contains("www.leafun.xyz"), "{all}");
    assert!(!all.contains("允许不安全连接"), "{all}");
}

#[test]
fn name_mismatch_without_context_still_advises_address_change() {
    let err = cert_err(CertificateErrorInfo::NotValidForName, "NotValidForName");
    let f = classify(&err).expect("a certificate error");
    let all = format!("{} {}", f.title, f.detail.join(" "));
    assert!(all.contains("服务器地址"), "{all}");
    assert!(!all.contains("允许不安全连接"));
}

#[test]
fn san_debug_wrapper_is_stripped() {
    assert_eq!(humanize_san(r#"DnsName("www.leafun.xyz")"#), "www.leafun.xyz");
    assert_eq!(humanize_san("IpAddress(1.2.3.4)"), "1.2.3.4");
    assert_eq!(humanize_san(r#"UniformResourceIdentifier("https://x/")"#), "https://x/");
    assert_eq!(humanize_san("Unsupported(0x07)"), "Unsupported(0x07)");
    assert_eq!(humanize_san("DirectoryName"), "DirectoryName");
}

#[test]
fn many_presented_names_are_folded() {
    let names: Vec<String> = (0..9).map(|i| format!(r#"DnsName("h{i}.example.com")"#)).collect();
    let err = cert_err(
        CertificateErrorInfo::NotValidForNameContext {
            expected: "other.example.com".to_string(),
            presented: names,
        },
        "NotValidForNameContext",
    );
    let f = classify(&err).unwrap();
    let joined = f.detail.join(" ");
    assert!(joined.contains("等 9 个"), "{joined}");
}

#[test]
fn unsupported_cert_version_detected_from_other() {
    let err = cert_err(
        CertificateErrorInfo::Other("UnsupportedCertVersion".to_string()),
        "UnsupportedCertVersion",
    );
    let f = classify(&err).expect("a certificate error");
    assert_eq!(f.kind, CertFailureKind::UnsupportedVersion);
    assert!(f.detail.join(" ").contains("无效"));
}

#[test]
fn expired_and_not_yet_valid_are_distinguished() {
    let e = classify(&cert_err(CertificateErrorInfo::Expired, "Expired")).unwrap();
    assert_eq!(e.kind, CertFailureKind::Expired);
    let n = classify(&cert_err(CertificateErrorInfo::NotValidYet, "NotValidYet")).unwrap();
    assert_eq!(n.kind, CertFailureKind::NotYetValid);
    assert!(n.detail.join(" ").contains("系统时间"));
}

#[test]
fn non_cert_errors_are_not_classified() {
    assert!(classify(&plain_err("IO error: connection refused")).is_none());
    assert!(classify(&plain_err(
        "WebSocket protocol error: Handshake not finished"
    ))
    .is_none());
    let handshake = TlsErrorInfo {
        text: "IO error: peer is incompatible".to_string(),
        rustls: Some(RustlsErrorInfo::NotCertificate),
    };
    assert!(classify(&handshake).is_none());
}

#[test]
fn fingerprint_normalization_accepts_openssl_output() {
    let want = [0xABu8; 32];
    let hexed = hex::encode(want);
    assert_eq!(normalize_fingerprint(&hexed).unwrap(), want);
    assert_eq!(normalize_fingerprint(&hexed.to_uppercase()).unwrap(), want);
    let colonized = hexed
        .as_bytes()
        .chunks(2)
        .map(|c| std::str::from_utf8(c).unwrap())
        .collect::<Vec<_>>()
        .join(":");
    assert_eq!(normalize_fingerprint(&colonized).unwrap(), want);
    assert_eq!(normalize_fingerprint(&format!("SHA256 Fingerprint={colonized}")).unwrap(), want);
    let err = normalize_fingerprint("ab:cd").unwrap_err();
    assert!(err.contains("64"), "{err}");
}

#[test]
fn public_ca_mode_ignores_pins() {
    let trust = TlsTrustConfig::new(TlsTrustMode::PublicCa, &[hex::encode([0u8; 32])]).unwrap();
    assert_eq!(trust.mode, TlsTrustMode::PublicCa);
    assert!(!trust.skips_verification());
}

#[test]
fn insecure_mode_still_produces_certificate_errors() {
    let err = cert_err(
        CertificateErrorInfo::Other("UnsupportedCertVersion".to_string()),
        "UnsupportedCertVersion",
    );
    let failure = classify(&err).expect("still a certificate error");
    assert_eq!(failure.kind, CertFailureKind::UnsupportedVersion);
    let insecure = TlsTrustConfig::new(TlsTrustMode::Insecure, &[]).unwrap();
    assert!(insecure.skips_verification());
}

#[test]
fn non_pinned_modes_tolerate_leftover_malformed_fingerprints() {
    let junk = vec!["not-a-fingerprint".to_string(), "还没填完的半截".to_string()];
    for mode in [TlsTrustMode::PublicCa, TlsTrustMode::Insecure] {
        let trust = TlsTrustConfig::new(mode, &junk)
            .unwrap_or_else(|e| panic!("{mode:?} must accept leftover text: {e}"));
        assert_eq!(trust.mode, mode);
        assert!(trust.pins.is_empty());
    }
    assert!(TlsTrustConfig::new(TlsTrustMode::Pinned, &junk).is_err());
}

#[test]
fn untrusted_san_text_is_sanitized() {
    let rlo = humanize_san("DnsName(\"evil\u{202E}moc.kcatta\")");
    assert!(!rlo.contains('\u{202E}'), "{rlo:?}");
    assert!(rlo.contains('\u{FFFD}'), "{rlo:?}");

    let ctrl = humanize_san("DnsName(\"a\rb\nc\t d\")");
    assert!(!ctrl.chars().any(|c| c.is_control()), "{ctrl:?}");

    let long = humanize_san(&format!("DnsName(\"{}\")", "a".repeat(500)));
    assert!(long.chars().count() <= MAX_NAME_LEN + 1, "{}", long.chars().count());
    assert!(long.ends_with('…'));

    assert_eq!(humanize_san("DnsName(\"www.leafun.xyz\")"), "www.leafun.xyz");
    assert_eq!(humanize_san("IpAddress(1.2.3.4)"), "1.2.3.4");
}

#[test]
fn raw_error_string_is_sanitized_but_keeps_detail() {
    let err = plain_err("IO error: invalid peer certificate: \u{202E}spoofed\u{0007}");
    let f = classify(&err).expect("a certificate error");
    assert!(!f.raw.contains('\u{202E}'));
    assert!(!f.raw.contains('\u{0007}'));
    assert!(f.raw.contains("invalid peer certificate"));
}

#[test]
fn name_mismatch_requires_out_of_band_check_before_changing_address() {
    let err = cert_err(
        CertificateErrorInfo::NotValidForNameContext {
            expected: "myserver.example".to_string(),
            presented: vec![r#"DnsName("attacker.example")"#.to_string()],
        },
        "NotValidForNameContext",
    );
    let f = classify(&err).unwrap();
    let all = f.detail.join(" ");
    assert!(all.contains("确认") && all.contains("你自己的服务器"), "{all}");
    assert!(all.contains("中间人"), "{all}");
    assert!(!all.contains("允许不安全连接"));
    let check_at = all.find("确认").expect("a check");
    let change_at = all.find("改为证书上的域名").expect("an address change");
    assert!(check_at < change_at);
}

#[test]
fn unclassifiable_cert_text_falls_back_to_other() {
    let err = plain_err("IO error: invalid peer certificate: something brand new");
    let f = classify(&err).expect("the text fallback recognises it");
    assert_eq!(f.kind, CertFailureKind::Other);
    assert!(f.raw.contains("something brand new"));
}

#[test]
fn revoked_and_unknown_issuer_each_have_their_own_kind() {
    let r = classify(&cert_err(CertificateErrorInfo::Revoked, "Revoked")).unwrap();
    assert_eq!(r.kind, CertFailureKind::Revoked);
    let u = classify(&cert_err(CertificateErrorInfo::UnknownIssuer, "UnknownIssuer")).unwrap();
    assert_eq!(u.kind, CertFailureKind::UnknownIssuer);
    let o = classify(&cert_err(CertificateErrorInfo::Unlisted, "BadEncoding")).unwrap();
    assert_eq!(o.kind, CertFailureKind::Other);
    let (title, _) = describe(&CertFailureKind::Expired);
    assert_eq!(title, e_title());
}

fn e_title() -> String {
    classify(&cert_err(CertificateErrorInfo::ExpiredContext, "Expired")).unwrap().title
}

#[test]
fn presented_names_are_listed_then_folded() {
    assert_eq!(format_presented(&[]), "（证书没有声明任何适用名称）");
    let two = vec!["a.example".to_string(), "b.example".to_string()];
    assert_eq!(format_presented(&two), "a.example、b.example");
}

#[test]
fn raw_text_is_cut_to_its_limit() {
    let long = "x".repeat(1000);
    let cut = sanitize_raw(&long);
    assert!(cut.chars().count() <= 321);
    assert!(cut.ends_with('…'));
}

#[test]
fn pinned_fingerprint_matching_uses_the_leaf_digest() {
    let der = b"not really a certificate";
    let hexed = cert_fingerprint_hex(der);
    assert_eq!(hexed.len(), 64);
    let pin = normalize_fingerprint(&hexed).unwrap();
    assert!(pinned_fingerprint_matches(&[pin], der));
    assert!(!pinned_fingerprint_matches(&[[0u8; 32]], der));
    assert!(!pinned_fingerprint_matches(&[], der));
}
