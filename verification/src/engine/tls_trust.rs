//! TLS trust policy and the classification of certificate failures.
//!
//! Certificate failures come in kinds whose remedies differ; sending every one of them to
//! "turn verification off" is wrong. A name mismatch on a valid certificate is fixed by the
//! address, an expired certificate by renewing it, an X.509 v1 certificate is refused while
//! parsing, before any verification that could be switched off.

use vstd::prelude::*;
use crate::digest::{sha256, spec_sha256, hex_encode, hex_lower};
use crate::text::{
    chars_of, push_str, push_chars, push_dec, string_from_chars, contains_chars, contains_seq,
    is_control, is_unicode_control, is_whitespace, is_unicode_whitespace, trim_char, trim_by,
    trim_ws, trim_whitespace, strip_prefix, has_prefix, join_strings, join_with, dec_string,
    sub_chars,
};

verus! {

// ----- failure kinds -----

/// The kind of a certificate failure. Each kind calls for a different remedy.
#[derive(Debug, Clone, PartialEq)]
pub enum CertFailureKind {
    /// A valid certificate issued for other names; typically an IP address was dialled for a
    /// certificate issued to a domain.
    NameMismatch { expected: String, presented: Vec<String> },
    /// The issuer is not in the public root store: self-signed or an internal CA.
    UnknownIssuer,
    Expired,
    NotYetValid,
    Revoked,
    /// X.509 v1, refused while parsing; skipping verification does not help.
    UnsupportedVersion,
    /// A certificate error that cannot be told apart; the raw text is the only evidence.
    Other,
}

pub enum CertFailureKindView {
    NameMismatch { expected: Seq<char>, presented: Seq<Seq<char>> },
    UnknownIssuer,
    Expired,
    NotYetValid,
    Revoked,
    UnsupportedVersion,
    Other,
}

pub open spec fn strings_view(v: Seq<String>) -> Seq<Seq<char>> {
    v.map_values(|s: String| s@)
}

impl View for CertFailureKind {
    type V = CertFailureKindView;

    open spec fn view(&self) -> CertFailureKindView {
        match self {
            CertFailureKind::NameMismatch { expected, presented } => CertFailureKindView::NameMismatch {
                expected: expected@,
                presented: strings_view(presented@),
            },
            CertFailureKind::UnknownIssuer => CertFailureKindView::UnknownIssuer,
            CertFailureKind::Expired => CertFailureKindView::Expired,
            CertFailureKind::NotYetValid => CertFailureKindView::NotYetValid,
            CertFailureKind::Revoked => CertFailureKindView::Revoked,
            CertFailureKind::UnsupportedVersion => CertFailureKindView::UnsupportedVersion,
            CertFailureKind::Other => CertFailureKindView::Other,
        }
    }
}

pub open spec fn spec_tag(k: CertFailureKindView) -> Seq<char> {
    match k {
        CertFailureKindView::NameMismatch { .. } => "name_mismatch"@,
        CertFailureKindView::UnknownIssuer => "unknown_issuer"@,
        CertFailureKindView::Expired => "expired"@,
        CertFailureKindView::NotYetValid => "not_yet_valid"@,
        CertFailureKindView::Revoked => "revoked"@,
        CertFailureKindView::UnsupportedVersion => "unsupported_version"@,
        CertFailureKindView::Other => "other"@,
    }
}

impl CertFailureKind {
    /// A short label for logs.
    pub fn tag(&self) -> (t: &'static str)
        ensures
            t@ == spec_tag(self@),
    {
        match self {
            CertFailureKind::NameMismatch { .. } => "name_mismatch",
            CertFailureKind::UnknownIssuer => "unknown_issuer",
            CertFailureKind::Expired => "expired",
            CertFailureKind::NotYetValid => "not_yet_valid",
            CertFailureKind::Revoked => "revoked",
            CertFailureKind::UnsupportedVersion => "unsupported_version",
            CertFailureKind::Other => "other",
        }
    }
}

/// What the user is shown about a certificate failure.
#[derive(Debug, Clone, PartialEq)]
pub struct TlsCertFailure {
    pub kind: CertFailureKind,
    /// The one line shown while the banner is folded.
    pub title: String,
    /// The remedy, line by line.
    pub detail: Vec<String>,
    /// The raw error text, sanitized. Always kept: when the classification is wrong it is
    /// the only evidence.
    pub raw: String,
    /// The fingerprint of the leaf certificate seen in the handshake, when it was observed.
    pub observed_cert_sha256: Option<String>,
}

// ----- what a failed handshake reports -----

/// The certificate errors of rustls that the classification tells apart.
#[derive(Debug, Clone)]
pub enum CertificateErrorInfo {
    NotValidForNameContext { expected: String, presented: Vec<String> },
    NotValidForName,
    UnknownIssuer,
    Expired,
    ExpiredContext,
    NotValidYet,
    NotValidYetContext,
    Revoked,
    /// `CertificateError::Other`, by its display text.
    Other(String),
    /// Any other certificate error.
    Unlisted,
}

/// The rustls error found inside a connection error.
#[derive(Debug, Clone)]
pub enum RustlsErrorInfo {
    InvalidCertificate(CertificateErrorInfo),
    /// A rustls error that is not about the certificate (handshake, protocol).
    NotCertificate,
}

/// A failed connection: its display text, and the rustls error inside it when one could be
/// recovered.
#[derive(Debug, Clone)]
pub struct TlsErrorInfo {
    pub text: String,
    pub rustls: Option<RustlsErrorInfo>,
}

// ----- sanitizing peer-controlled text -----

/// The longest name shown; longer ones are cut.
pub const MAX_NAME_LEN: usize = 80;

/// The longest raw error text kept.
pub const MAX_RAW_LEN: usize = 320;

/// How many certificate names are listed before the rest are folded.
pub const MAX_PRESENTED_NAMES: usize = 5;

/// Bidirectional overrides, isolates and marks, which can make text render as something else.
pub open spec fn is_bidi_control(c: char) -> bool {
    ||| '\u{202A}' <= c <= '\u{202E}'
    ||| '\u{2066}' <= c <= '\u{2069}'
    ||| c == '\u{200E}'
    ||| c == '\u{200F}'
}

/// A character as shown: bidi and control characters become U+FFFD, a visible trace;
/// `keep_newline` spares `\n`.
pub open spec fn shown_char(c: char, keep_newline: bool) -> char {
    if is_bidi_control(c) || (is_unicode_control(c) && !(keep_newline && c == '\n')) {
        '\u{FFFD}'
    } else {
        c
    }
}

/// `s` cut to `max` characters (then "…"), each character as shown.
pub open spec fn sanitized(s: Seq<char>, max: nat, keep_newline: bool) -> Seq<char> {
    s.take(if s.len() < max {
        s.len() as int
    } else {
        max as int
    }).map_values(|c: char| shown_char(c, keep_newline)) + (if s.len() > max {
        "…"@
    } else {
        Seq::empty()
    })
}

fn sanitize(s: &Vec<char>, max: usize, keep_newline: bool) -> (out: Vec<char>)
    ensures
        out@ == sanitized(s@, max as nat, keep_newline),
{
    let n = s.len();
    let limit = if n < max {
        n
    } else {
        max
    };
    let mut out: Vec<char> = Vec::new();
    let mut i: usize = 0;
    while i < limit
        invariant
            i <= limit,
            limit <= n,
            n == s@.len(),
            out@ == s@.take(i as int).map_values(|c: char| shown_char(c, keep_newline)),
        decreases limit - i,
    {
        let ch = s[i];
        let dangerous = (('\u{202A}' <= ch && ch <= '\u{202E}') || ('\u{2066}' <= ch && ch
            <= '\u{2069}') || ch == '\u{200E}' || ch == '\u{200F}') || (is_control(ch) && !(
        keep_newline && ch == '\n'));
        out.push(
            if dangerous {
                '\u{FFFD}'
            } else {
                ch
            },
        );
        i = i + 1;
        assert(s@.take(i as int).map_values(|c: char| shown_char(c, keep_newline)) =~= s@.take(
            i - 1,
        ).map_values(|c: char| shown_char(c, keep_newline)).push(shown_char(s@[i - 1], keep_newline)));
    }
    if n > max {
        push_str(&mut out, "…");
    }
    assert(out@ =~= sanitized(s@, max as nat, keep_newline));
    out
}

pub open spec fn spec_sanitize_untrusted(s: Seq<char>) -> Seq<char> {
    sanitized(s, MAX_NAME_LEN as nat, false)
}

pub open spec fn spec_sanitize_raw(s: Seq<char>) -> Seq<char> {
    sanitized(s, MAX_RAW_LEN as nat, true)
}

/// Cleans text that came from the peer (certificate names) for display: bidi and control
/// characters become U+FFFD, and more than 80 characters are cut with "…".
pub fn sanitize_untrusted(s: &str) -> (r: String)
    ensures
        r@ == spec_sanitize_untrusted(s@),
{
    string_from_chars(sanitize(&chars_of(s), MAX_NAME_LEN, false))
}

/// Cleans a raw error text like `sanitize_untrusted`, but keeps line breaks and cuts only
/// after 320 characters: it is the evidence when the classification goes wrong.
pub fn sanitize_raw(s: &str) -> (r: String)
    ensures
        r@ == spec_sanitize_raw(s@),
{
    string_from_chars(sanitize(&chars_of(s), MAX_RAW_LEN, true))
}

/// The name inside a `Prefix(...)` wrapper, quotes trimmed, when `raw` has that form.
pub open spec fn san_inner(raw: Seq<char>, prefix: Seq<char>) -> Option<Seq<char>> {
    if has_prefix(raw, prefix) && raw.len() > prefix.len() && raw.last() == ')' {
        Some(trim_by(raw.subrange(prefix.len() as int, raw.len() - 1), |c: char| c == '"'))
    } else {
        None
    }
}

/// A subject-alternative-name entry as a person reads it: rustls reports them in debug form,
/// `DnsName("host")`, `IpAddress(1.2.3.4)`, `UniformResourceIdentifier("...")`; the wrapper
/// goes, an unknown form stays as it is, and the result is sanitized.
pub open spec fn spec_humanize_san(raw: Seq<char>) -> Seq<char> {
    match san_inner(raw, "DnsName("@) {
        Some(i) => spec_sanitize_untrusted(i),
        None => match san_inner(raw, "IpAddress("@) {
            Some(i) => spec_sanitize_untrusted(i),
            None => match san_inner(raw, "UniformResourceIdentifier("@) {
                Some(i) => spec_sanitize_untrusted(i),
                None => spec_sanitize_untrusted(raw),
            },
        },
    }
}

fn unwrap_san(raw: &Vec<char>, prefix: &str) -> (r: Option<Vec<char>>)
    ensures
        r matches Some(t) ==> san_inner(raw@, prefix@) == Some(t@),
        r is None ==> san_inner(raw@, prefix@) is None,
{
    let p = chars_of(prefix);
    match strip_prefix(raw, &p) {
        Some(rest) => {
            if rest.len() > 0 && rest[rest.len() - 1] == ')' {
                let inner = sub_chars(&rest, 0, rest.len() - 1);
                assert(inner@ =~= raw@.subrange(p@.len() as int, raw@.len() - 1));
                Some(trim_char(&inner, '"'))
            } else {
                None
            }
        },
        None => None,
    }
}

/// Turns a subject-alternative-name entry into the name a person reads.
pub fn humanize_san(raw: &str) -> (r: String)
    ensures
        r@ == spec_humanize_san(raw@),
{
    let cs = chars_of(raw);
    let chosen = match unwrap_san(&cs, "DnsName(") {
        Some(i) => i,
        None => match unwrap_san(&cs, "IpAddress(") {
            Some(i) => i,
            None => match unwrap_san(&cs, "UniformResourceIdentifier(") {
                Some(i) => i,
                None => cs,
            },
        },
    };
    string_from_chars(sanitize(&chosen, MAX_NAME_LEN, false))
}

/// Whether a connection error's text is about a certificate. Only used when the rustls
/// error itself could not be recovered, so it only answers yes or no.
pub open spec fn spec_is_cert_error_by_text(t: Seq<char>) -> bool {
    ||| contains_seq(t, "certificate"@)
    ||| contains_seq(t, "CertificateError"@)
    ||| contains_seq(t, "UnknownIssuer"@)
    ||| contains_seq(t, "NotValidForName"@)
    ||| contains_seq(t, "invalid peer certificate"@)
}

pub fn is_cert_error_by_text(text: &str) -> (r: bool)
    ensures
        r == spec_is_cert_error_by_text(text@),
{
    let t = chars_of(text);
    contains_chars(&t, &chars_of("certificate")) || contains_chars(&t, &chars_of("CertificateError"))
        || contains_chars(&t, &chars_of("UnknownIssuer")) || contains_chars(
        &t,
        &chars_of("NotValidForName"),
    ) || contains_chars(&t, &chars_of("invalid peer certificate"))
}

/// The certificate's names for the banner: joined with "、", the first five and a count
/// when there are more, a note when there are none.
pub open spec fn spec_format_presented(p: Seq<Seq<char>>) -> Seq<char> {
    if p.len() == 0 {
        "（证书没有声明任何适用名称）"@
    } else if p.len() <= MAX_PRESENTED_NAMES {
        join_with(p, "、"@)
    } else {
        join_with(p.take(MAX_PRESENTED_NAMES as int), "、"@) + "…等 "@ + dec_string(p.len()) + " 个"@
    }
}

pub fn format_presented(presented: &[String]) -> (r: String)
    ensures
        r@ == spec_format_presented(strings_view(presented@)),
{
    let n = presented.len();
    if n == 0 {
        return "（证书没有声明任何适用名称）".to_owned();
    }
    if n <= MAX_PRESENTED_NAMES {
        let out = join_strings(presented, n, "、");
        assert(presented@.take(n as int) =~= presented@);
        return string_from_chars(out);
    }
    let mut out = join_strings(presented, MAX_PRESENTED_NAMES, "、");
    assert(presented@.take(MAX_PRESENTED_NAMES as int).map_values(|p: String| p@) =~= strings_view(
        presented@,
    ).take(MAX_PRESENTED_NAMES as int));
    push_str(&mut out, "…等 ");
    push_dec(&mut out, n as u64);
    push_str(&mut out, " 个");
    string_from_chars(out)
}

// ----- remedies -----

pub open spec fn name_mismatch_check_first() -> Seq<char> {
    "先确认上面列出的域名确实是你自己的服务器——证书由公共 CA 签发只说明                 对方拥有那个域名，不说明那台机器是你的。"@
}

pub open spec fn name_mismatch_then_change() -> Seq<char> {
    "确认无误后，把「服务器地址」改为证书上的域名，端口保持不变。"@
}

pub open spec fn name_mismatch_unknown_domain() -> Seq<char> {
    "若这个域名你并不认识，不要改地址，也不要关闭证书校验——那可能意味着                 连接被中间人接管了。"@
}

/// The banner title of each kind.
pub open spec fn describe_title(k: CertFailureKindView) -> Seq<char> {
    match k {
        CertFailureKindView::NameMismatch { expected, .. } => if expected.len() > 0 {
            "服务器证书有效，但不是签发给 "@ + expected + " 的"@
        } else {
            "服务器证书上的名称与你填的地址不匹配"@
        },
        CertFailureKindView::UnknownIssuer => "服务器证书由未知的签发者签发"@,
        CertFailureKindView::Expired => "服务器证书已过期"@,
        CertFailureKindView::NotYetValid => "服务器证书尚未生效"@,
        CertFailureKindView::Revoked => "服务器证书已被吊销"@,
        CertFailureKindView::UnsupportedVersion => "服务器证书是 X.509 v1，客户端无法解析"@,
        CertFailureKindView::Other => "无法验证服务器证书"@,
    }
}

/// The remedy of each kind, line by line. For a name mismatch the out-of-band check comes
/// before the advice to change the address.
pub open spec fn describe_detail(k: CertFailureKindView) -> Seq<Seq<char>> {
    match k {
        CertFailureKindView::NameMismatch { expected, presented } => if expected.len() > 0 {
            seq![
                "证书签发给："@ + spec_format_presented(presented),
                "你连接的是："@ + expected,
                name_mismatch_check_first(),
                name_mismatch_then_change(),
                name_mismatch_unknown_domain(),
            ]
        } else {
            seq![
                "常见成因是用 IP 直连一台只为域名签发证书的服务器。"@,
                "请核对服务器上的证书，确认它确实是你自己的，再把「服务器地址」改成                 证书上的域名。"@,
                "证书本身可能完全有效，不要为此关闭证书校验。"@,
            ]
        },
        CertFailureKindView::UnknownIssuer => seq![
            "公共根证书库里没有这个签发者，因此无法确认对端身份。"@,
            "常见于自签证书或企业内部 CA。"@,
            "若这是你自己的服务器，建议改用受信任 CA 签发的证书（Let's Encrypt 可免费签发）。"@,
        ],
        CertFailureKindView::Expired => seq![
            "请在服务端续期证书；使用 Let's Encrypt 时执行 certbot renew。"@,
            "关闭证书校验也能连上，但那会同时放弃对所有中间人的防护——续期是几分钟的事。"@,
        ],
        CertFailureKindView::NotYetValid => seq![
            "证书的生效时间还没到。"@,
            "先检查本机系统时间是否正确——时间跑偏是这个错误最常见的原因，而不是证书真有问题。"@,
        ],
        CertFailureKindView::Revoked => seq![
            "签发者已声明这张证书作废，通常意味着私钥泄漏。"@,
            "在查清原因之前不要继续连接，更不要关闭证书校验。"@,
        ],
        CertFailureKindView::UnsupportedVersion => seq![
            "rustls 在解析阶段就会拒绝 v1 证书，这一步早于任何校验逻辑——关闭证书校验对它无效。"@,
            "必须重新签发带扩展的 v3 证书。用 openssl 自签时要带上 -addext subjectAltName=...，"@,
            "macOS 自带的 LibreSSL 不加这个参数会默认产出 v1 证书。"@,
        ],
        CertFailureKindView::Other => seq![
            "证书校验没有通过，但客户端无法判断具体原因。"@,
            "下方的原始错误信息可用于排查。"@,
        ],
    }
}

fn owned_lines(lines: &[&str]) -> (out: Vec<String>)
    ensures
        out@.len() == lines@.len(),
        forall|i: int| 0 <= i < lines@.len() ==> #[trigger] out@[i]@ == lines@[i]@,
{
    let mut out: Vec<String> = Vec::new();
    let mut i: usize = 0;
    while i < lines.len()
        invariant
            i <= lines@.len(),
            out@.len() == i,
            forall|k: int| 0 <= k < i ==> #[trigger] out@[k]@ == lines@[k]@,
        decreases lines@.len() - i,
    {
        out.push(lines[i].to_owned());
        i = i + 1;
    }
    out
}

/// The title and remedy lines shown for a failure kind.
pub fn describe(kind: &CertFailureKind) -> (r: (String, Vec<String>))
    ensures
        r.0@ == describe_title(kind@),
        strings_view(r.1@) == describe_detail(kind@),
{
    let (title, lines): (String, Vec<String>) = match kind {
        CertFailureKind::NameMismatch { expected, presented } => {
            if !expected.as_str().is_empty() {
                let mut t = chars_of("服务器证书有效，但不是签发给 ");
                push_str(&mut t, expected.as_str());
                push_str(&mut t, " 的");
                let mut l1 = chars_of("证书签发给：");
                let names = format_presented(presented.as_slice());
                push_str(&mut l1, names.as_str());
                let mut l2 = chars_of("你连接的是：");
                push_str(&mut l2, expected.as_str());
                let mut v: Vec<String> = Vec::new();
                v.push(string_from_chars(l1));
                v.push(string_from_chars(l2));
                v.push("先确认上面列出的域名确实是你自己的服务器——证书由公共 CA 签发只说明                 对方拥有那个域名，不说明那台机器是你的。".to_owned());
                v.push("确认无误后，把「服务器地址」改为证书上的域名，端口保持不变。".to_owned());
                v.push("若这个域名你并不认识，不要改地址，也不要关闭证书校验——那可能意味着                 连接被中间人接管了。".to_owned());
                (string_from_chars(t), v)
            } else {
                (
                    "服务器证书上的名称与你填的地址不匹配".to_owned(),
                    owned_lines(
                        &[
                            "常见成因是用 IP 直连一台只为域名签发证书的服务器。",
                            "请核对服务器上的证书，确认它确实是你自己的，再把「服务器地址」改成                 证书上的域名。",
                            "证书本身可能完全有效，不要为此关闭证书校验。",
                        ],
                    ),
                )
            }
        },
        CertFailureKind::UnknownIssuer => (
            "服务器证书由未知的签发者签发".to_owned(),
            owned_lines(
                &[
                    "公共根证书库里没有这个签发者，因此无法确认对端身份。",
                    "常见于自签证书或企业内部 CA。",
                    "若这是你自己的服务器，建议改用受信任 CA 签发的证书（Let's Encrypt 可免费签发）。",
                ],
            ),
        ),
        CertFailureKind::Expired => (
            "服务器证书已过期".to_owned(),
            owned_lines(
                &[
                    "请在服务端续期证书；使用 Let's Encrypt 时执行 certbot renew。",
                    "关闭证书校验也能连上，但那会同时放弃对所有中间人的防护——续期是几分钟的事。",
                ],
            ),
        ),
        CertFailureKind::NotYetValid => (
            "服务器证书尚未生效".to_owned(),
            owned_lines(
                &[
                    "证书的生效时间还没到。",
                    "先检查本机系统时间是否正确——时间跑偏是这个错误最常见的原因，而不是证书真有问题。",
                ],
            ),
        ),
        CertFailureKind::Revoked => (
            "服务器证书已被吊销".to_owned(),
            owned_lines(
                &[
                    "签发者已声明这张证书作废，通常意味着私钥泄漏。",
                    "在查清原因之前不要继续连接，更不要关闭证书校验。",
                ],
            ),
        ),
        CertFailureKind::UnsupportedVersion => (
            "服务器证书是 X.509 v1，客户端无法解析".to_owned(),
            owned_lines(
                &[
                    "rustls 在解析阶段就会拒绝 v1 证书，这一步早于任何校验逻辑——关闭证书校验对它无效。",
                    "必须重新签发带扩展的 v3 证书。用 openssl 自签时要带上 -addext subjectAltName=...，",
                    "macOS 自带的 LibreSSL 不加这个参数会默认产出 v1 证书。",
                ],
            ),
        ),
        CertFailureKind::Other => (
            "无法验证服务器证书".to_owned(),
            owned_lines(
                &["证书校验没有通过，但客户端无法判断具体原因。", "下方的原始错误信息可用于排查。"],
            ),
        ),
    };
    assert(strings_view(lines@) =~= describe_detail(kind@));
    (title, lines)
}

// ----- classification -----

/// The failure kind of a rustls certificate error.
pub open spec fn spec_classify_certificate_error(ce: CertificateErrorInfo) -> CertFailureKindView {
    match ce {
        CertificateErrorInfo::NotValidForNameContext { expected, presented } => CertFailureKindView::NameMismatch {
            expected: expected@,
            presented: strings_view(presented@).map_values(|p: Seq<char>| spec_humanize_san(p)),
        },
        CertificateErrorInfo::NotValidForName => CertFailureKindView::NameMismatch {
            expected: Seq::empty(),
            presented: Seq::empty(),
        },
        CertificateErrorInfo::UnknownIssuer => CertFailureKindView::UnknownIssuer,
        CertificateErrorInfo::Expired => CertFailureKindView::Expired,
        CertificateErrorInfo::ExpiredContext => CertFailureKindView::Expired,
        CertificateErrorInfo::NotValidYet => CertFailureKindView::NotYetValid,
        CertificateErrorInfo::NotValidYetContext => CertFailureKindView::NotYetValid,
        CertificateErrorInfo::Revoked => CertFailureKindView::Revoked,
        CertificateErrorInfo::Other(text) => if contains_seq(text@, "UnsupportedCertVersion"@) {
            CertFailureKindView::UnsupportedVersion
        } else {
            CertFailureKindView::Other
        },
        CertificateErrorInfo::Unlisted => CertFailureKindView::Other,
    }
}

/// rustls reports a certificate outside its validity period either plainly or with the times
/// as context; both forms are the same failure and get the same remedy. A certificate whose
/// validity has not begun (the client's clock is behind) is "not yet valid", never
/// "expired", and one whose validity has ended is "expired", never "not yet valid".
pub proof fn lemma_validity_errors_keep_their_kind()
    ensures
        spec_classify_certificate_error(CertificateErrorInfo::NotValidYetContext)
            == spec_classify_certificate_error(CertificateErrorInfo::NotValidYet),
        spec_classify_certificate_error(CertificateErrorInfo::ExpiredContext)
            == spec_classify_certificate_error(CertificateErrorInfo::Expired),
        spec_classify_certificate_error(CertificateErrorInfo::NotValidYet) is NotYetValid,
        spec_classify_certificate_error(CertificateErrorInfo::Expired) is Expired,
        describe_title(spec_classify_certificate_error(CertificateErrorInfo::NotValidYetContext))
            != describe_title(spec_classify_certificate_error(CertificateErrorInfo::ExpiredContext)),
{
    reveal_strlit("服务器证书已过期");
    reveal_strlit("服务器证书尚未生效");
    assert("服务器证书已过期"@ != "服务器证书尚未生效"@) by {
        assert("服务器证书已过期"@[6] != "服务器证书尚未生效"@[6]);
    }
}

pub fn classify_certificate_error(ce: &CertificateErrorInfo) -> (k: CertFailureKind)
    ensures
        k@ == spec_classify_certificate_error(*ce),
        (*ce is NotValidYet || *ce is NotValidYetContext) ==> k is NotYetValid,
        (*ce is Expired || *ce is ExpiredContext) ==> k is Expired,
        (*ce is NotValidForName || *ce is NotValidForNameContext) ==> k is NameMismatch,
        *ce is UnknownIssuer ==> k is UnknownIssuer,
        *ce is Revoked ==> k is Revoked,
        *ce is Unlisted ==> k is Other,
{
    match ce {
        CertificateErrorInfo::NotValidForNameContext { expected, presented } => {
            let mut names: Vec<String> = Vec::new();
            let mut i: usize = 0;
            while i < presented.len()
                invariant
                    i <= presented@.len(),
                    names@.len() == i,
                    forall|k: int|
                        0 <= k < i ==> #[trigger] names@[k]@ == spec_humanize_san(presented@[k]@),
                decreases presented@.len() - i,
            {
                names.push(humanize_san(presented[i].as_str()));
                i = i + 1;
            }
            assert(strings_view(names@) =~= strings_view(presented@).map_values(
                |p: Seq<char>| spec_humanize_san(p),
            ));
            CertFailureKind::NameMismatch { expected: expected.clone(), presented: names }
        },
        CertificateErrorInfo::NotValidForName => {
            let k = CertFailureKind::NameMismatch { expected: String::new(), presented: Vec::new() };
            assert(k@ =~= spec_classify_certificate_error(*ce)) by {
                assert(strings_view(Seq::<String>::empty()) =~= Seq::<Seq<char>>::empty());
            }
            k
        },
        CertificateErrorInfo::UnknownIssuer => CertFailureKind::UnknownIssuer,
        CertificateErrorInfo::Expired => CertFailureKind::Expired,
        CertificateErrorInfo::ExpiredContext => CertFailureKind::Expired,
        CertificateErrorInfo::NotValidYet => CertFailureKind::NotYetValid,
        CertificateErrorInfo::NotValidYetContext => CertFailureKind::NotYetValid,
        CertificateErrorInfo::Revoked => CertFailureKind::Revoked,
        CertificateErrorInfo::Other(text) => {
            if contains_chars(&chars_of(text.as_str()), &chars_of("UnsupportedCertVersion")) {
                CertFailureKind::UnsupportedVersion
            } else {
                CertFailureKind::Other
            }
        },
        CertificateErrorInfo::Unlisted => CertFailureKind::Other,
    }
}

/// The failure kind a connection error is classified as, or `None` when it is not about a
/// certificate: a rustls certificate error by its variant; another rustls error is not
/// classified; without a rustls error the (sanitized) text decides, and only between
/// "some certificate failure" and none.
pub open spec fn spec_classified_kind(e: TlsErrorInfo) -> Option<CertFailureKindView> {
    match e.rustls {
        Some(RustlsErrorInfo::InvalidCertificate(ce)) => Some(spec_classify_certificate_error(ce)),
        Some(RustlsErrorInfo::NotCertificate) => None,
        None => if spec_is_cert_error_by_text(spec_sanitize_raw(e.text@)) {
            Some(CertFailureKindView::Other)
        } else {
            None
        },
    }
}

/// Translates a certificate failure into the remedy the user can follow. Errors that are
/// not about a certificate (refused connections, DNS) give `None`.
pub fn classify(err: &TlsErrorInfo) -> (r: Option<TlsCertFailure>)
    ensures
        r is Some <==> spec_classified_kind(*err) is Some,
        r matches Some(f) ==> {
            &&& spec_classified_kind(*err) == Some(f.kind@)
            &&& f.title@ == describe_title(f.kind@)
            &&& strings_view(f.detail@) == describe_detail(f.kind@)
            &&& f.raw@ == spec_sanitize_raw(err.text@)
            &&& f.observed_cert_sha256 is None
        },
{
    let raw = sanitize_raw(err.text.as_str());
    let kind = match &err.rustls {
        Some(RustlsErrorInfo::InvalidCertificate(ce)) => classify_certificate_error(ce),
        Some(RustlsErrorInfo::NotCertificate) => {
            return None;
        },
        None => {
            if !is_cert_error_by_text(raw.as_str()) {
                return None;
            }
            CertFailureKind::Other
        },
    };
    let (title, detail) = describe(&kind);
    Some(TlsCertFailure { kind, title, detail, raw, observed_cert_sha256: None })
}


// ----- trust policy -----

/// The three trust levels.
#[derive(Debug, Clone, Copy, PartialEq, Eq, Structural)]
pub enum TlsTrustMode {
    /// The default: only the public root store is trusted.
    PublicCa,
    /// When the public roots refuse the certificate, compare it with fingerprints the user
    /// gave.
    Pinned,
    /// No verification at all: anyone in the middle can take the connection over.
    Insecure,
}

impl Default for TlsTrustMode {
    fn default() -> (m: Self)
        ensures
            m == TlsTrustMode::PublicCa,
    {
        TlsTrustMode::PublicCa
    }
}

/// The position of the last `c` in `s`, or -1.
pub open spec fn last_index_of(s: Seq<char>, c: char) -> int
    decreases s.len(),
{
    if s.len() == 0 {
        -1
    } else if s.last() == c {
        s.len() - 1
    } else {
        last_index_of(s.drop_last(), c)
    }
}

/// What follows the last `=` (all of `s` when there is none): the part of
/// `SHA256 Fingerprint=AB:CD:...` that holds the digits.
pub open spec fn after_last_equals(s: Seq<char>) -> Seq<char> {
    s.skip(last_index_of(s, '=') + 1)
}

/// `s` without whitespace and colons.
pub open spec fn fingerprint_digits(s: Seq<char>) -> Seq<char>
    decreases s.len(),
{
    if s.len() == 0 {
        Seq::empty()
    } else {
        let r = fingerprint_digits(s.drop_last());
        if is_unicode_whitespace(s.last()) || s.last() == ':' {
            r
        } else {
            r.push(s.last())
        }
    }
}

/// The UTF-8 bytes of the fingerprint text the user entered, reduced to its digits.
pub open spec fn fingerprint_bytes(raw: Seq<char>) -> Seq<u8> {
    vstd::utf8::encode_utf8(fingerprint_digits(after_last_equals(raw)))
}

/// The entered fingerprint is 64 hex digits.
pub open spec fn fingerprint_ok(raw: Seq<char>) -> bool {
    let b = fingerprint_bytes(raw);
    b.len() == 64 && forall|i: int| 0 <= i < b.len() ==> crate::digest::hex_value(#[trigger] b[i])
        >= 0
}

pub open spec fn fingerprint_length_message(raw: Seq<char>) -> Seq<char> {
    "指纹应为 64 个十六进制字符（SHA-256），当前为 "@ + dec_string(fingerprint_bytes(raw).len()) + " 个："@
        + trim_ws(raw)
}

proof fn lemma_last_index_of_is(s: Seq<char>, c: char, k: int)
    requires
        -1 <= k < s.len(),
        forall|j: int| k < j < s.len() ==> s[j] != c,
        k >= 0 ==> s[k] == c,
    ensures
        last_index_of(s, c) == k,
    decreases s.len(),
{
    if s.len() > 0 && k < s.len() - 1 {
        lemma_last_index_of_is(s.drop_last(), c, k);
    }
}

/// Reads a certificate fingerprint the way users paste it: bare hex of either case, with or
/// without colons, or the whole `openssl x509 -fingerprint -sha256` line. Called when the
/// settings are saved, so that a wrong entry is refused there with the precise reason.
pub fn normalize_fingerprint(raw: &str) -> (r: Result<[u8; 32], String>)
    ensures
        r is Ok <==> fingerprint_ok(raw@),
        r matches Ok(fp) ==> fp@ == crate::digest::hex_decoded(fingerprint_bytes(raw@)),
        fingerprint_bytes(raw@).len() != 64 ==> (r matches Err(e) && e@ == fingerprint_length_message(
            raw@,
        )),
{
    let cs = chars_of(raw);
    let n = cs.len();
    let mut k: usize = n;
    while k > 0 && cs[k - 1] != '='
        invariant
            k <= n,
            n == cs@.len(),
            forall|j: int| k <= j < n ==> cs@[j] != '=',
        decreases k,
    {
        k = k - 1;
    }
    proof {
        lemma_last_index_of_is(cs@, '=', k - 1);
    }
    let body = sub_chars(&cs, k, n);
    assert(body@ =~= after_last_equals(raw@));
    let mut cleaned: Vec<char> = Vec::new();
    let m = body.len();
    let mut i: usize = 0;
    while i < m
        invariant
            i <= m,
            m == body@.len(),
            cleaned@ == fingerprint_digits(body@.take(i as int)),
        decreases m - i,
    {
        let c = body[i];
        assert(body@.take(i + 1).drop_last() =~= body@.take(i as int));
        if !(is_whitespace(c) || c == ':') {
            cleaned.push(c);
        }
        i = i + 1;
    }
    assert(body@.take(m as int) =~= body@);
    let text = string_from_chars(cleaned);
    let bytes = text.as_str().as_bytes();
    if bytes.len() != 64 {
        let mut msg = chars_of("指纹应为 64 个十六进制字符（SHA-256），当前为 ");
        push_dec(&mut msg, bytes.len() as u64);
        push_str(&mut msg, " 个：");
        let trimmed = trim_whitespace(&cs);
        push_chars(&mut msg, &trimmed);
        return Err(string_from_chars(msg));
    }
    match crate::digest::hex_decode(bytes) {
        Ok(decoded) => {
            let mut out = [0u8; 32];
            let mut j: usize = 0;
            while j < 32
                invariant
                    j <= 32,
                    decoded@.len() == 32,
                    out@.len() == 32,
                    forall|t: int| 0 <= t < j ==> out@[t] == decoded@[t],
                decreases 32 - j,
            {
                out[j] = decoded[j];
                j = j + 1;
            }
            assert(out@ =~= decoded@);
            Ok(out)
        },
        Err(e) => {
            let mut msg = chars_of("指纹不是合法的十六进制：");
            push_str(&mut msg, e.as_str());
            Err(string_from_chars(msg))
        },
    }
}

/// An entered fingerprint is blank: nothing but whitespace.
pub open spec fn blank(s: Seq<char>) -> bool {
    trim_ws(s).len() == 0
}

/// The fingerprints read from the entries, blank ones skipped; `None` when one does not read.
pub open spec fn parse_pins(raws: Seq<Seq<char>>) -> Option<Seq<Seq<u8>>>
    decreases raws.len(),
{
    if raws.len() == 0 {
        Some(Seq::empty())
    } else {
        match parse_pins(raws.drop_last()) {
            None => None,
            Some(ps) => if blank(raws.last()) {
                Some(ps)
            } else if fingerprint_ok(raws.last()) {
                Some(ps.push(crate::digest::hex_decoded(fingerprint_bytes(raws.last()))))
            } else {
                None
            },
        }
    }
}

proof fn lemma_parse_pins_fails_on(raws: Seq<Seq<char>>, i: int)
    requires
        0 <= i <= raws.len(),
        parse_pins(raws.take(i)) is None,
    ensures
        parse_pins(raws) is None,
    decreases raws.len(),
{
    if i < raws.len() {
        assert(raws.drop_last().take(i) =~= raws.take(i));
        lemma_parse_pins_fails_on(raws.drop_last(), i);
    } else {
        assert(raws.take(i) =~= raws);
    }
}

pub open spec fn pins_view(pins: Seq<[u8; 32]>) -> Seq<Seq<u8>> {
    pins.map_values(|p: [u8; 32]| p@)
}

/// The trust settings the connection layer uses.
#[derive(Debug, Clone)]
pub struct TlsTrustConfig {
    pub mode: TlsTrustMode,
    /// The accepted leaf-certificate fingerprints; only the pinned level has any.
    pub pins: Vec<[u8; 32]>,
}

impl Default for TlsTrustConfig {
    fn default() -> (c: Self)
        ensures
            c.mode == TlsTrustMode::PublicCa,
            c.pins@.len() == 0,
    {
        TlsTrustConfig { mode: TlsTrustMode::PublicCa, pins: Vec::new() }
    }
}

impl TlsTrustConfig {
    /// Builds the configuration from the settings. Only the pinned level reads the
    /// fingerprints: leftovers in another level neither count nor block saving. The pinned
    /// level needs at least one fingerprint, and refuses one that does not read.
    pub fn new(mode: TlsTrustMode, raw_pins: &[String]) -> (r: Result<Self, String>)
        ensures
            mode != TlsTrustMode::Pinned ==> (r matches Ok(c) && c.mode == mode && c.pins@.len()
                == 0),
            mode == TlsTrustMode::Pinned ==> (r is Ok <==> (parse_pins(strings_view(raw_pins@)) matches Some(
                ps,
            ) && ps.len() > 0)),
            mode == TlsTrustMode::Pinned ==> (r matches Ok(c) ==> c.mode == mode && parse_pins(
                strings_view(raw_pins@),
            ) == Some(pins_view(c.pins@))),
            mode == TlsTrustMode::Pinned && parse_pins(strings_view(raw_pins@)) == Some(
                Seq::<Seq<u8>>::empty(),
            ) ==> (r matches Err(e) && e@ == "选择「信任指定证书」时至少要填一条证书指纹"@),
    {
        if mode != TlsTrustMode::Pinned {
            return Ok(TlsTrustConfig { mode, pins: Vec::new() });
        }
        let ghost raws = strings_view(raw_pins@);
        let mut pins: Vec<[u8; 32]> = Vec::new();
        let n = raw_pins.len();
        let mut i: usize = 0;
        assert(raws.take(0) =~= Seq::<Seq<char>>::empty());
        assert(pins_view(pins@) =~= Seq::<Seq<u8>>::empty());
        while i < n
            invariant
                i <= n,
                n == raw_pins@.len(),
                raws == strings_view(raw_pins@),
                mode == TlsTrustMode::Pinned,
                parse_pins(raws.take(i as int)) == Some(pins_view(pins@)),
            decreases n - i,
        {
            let raw = &raw_pins[i];
            assert(raws.take(i + 1).drop_last() =~= raws.take(i as int));
            assert(raws.take(i + 1).last() == raw@);
            let trimmed = trim_whitespace(&chars_of(raw.as_str()));
            if trimmed.len() == 0 {
                i = i + 1;
                continue;
            }
            match normalize_fingerprint(raw.as_str()) {
                Ok(fp) => {
                    let ghost before = pins@;
                    pins.push(fp);
                    assert(pins_view(pins@) =~= pins_view(before).push(fp@));
                },
                Err(e) => {
                    proof {
                        lemma_parse_pins_fails_on(raws, i + 1);
                    }
                    return Err(e);
                },
            }
            i = i + 1;
        }
        assert(raws.take(n as int) =~= raws);
        if pins.len() == 0 {
            return Err("选择「信任指定证书」时至少要填一条证书指纹".to_owned());
        }
        Ok(TlsTrustConfig { mode, pins })
    }

    /// The default level, with no fingerprints.
    pub fn public_ca() -> (c: Self)
        ensures
            c.mode == TlsTrustMode::PublicCa,
            c.pins@.len() == 0,
    {
        TlsTrustConfig::default()
    }

    /// Whether this level verifies nothing at all.
    pub fn skips_verification(&self) -> (r: bool)
        ensures
            r == (self.mode == TlsTrustMode::Insecure),
    {
        self.mode == TlsTrustMode::Insecure
    }
}

/// The lowercase hex SHA-256 of a certificate's DER bytes, as shown for comparison with the
/// certificate on the server.
pub fn cert_fingerprint_hex(der: &[u8]) -> (s: String)
    ensures
        s@ == hex_lower(spec_sha256(der@)),
{
    let d = sha256(der);
    hex_encode(&d)
}

/// The pinned level's fallback: a certificate the public roots refused is accepted when its
/// SHA-256 is one of the pins.
pub fn pinned_fingerprint_matches(pins: &[[u8; 32]], end_entity_der: &[u8]) -> (r: bool)
    ensures
        r == exists|k: int| 0 <= k < pins@.len() && (#[trigger] pins@[k])@ == spec_sha256(end_entity_der@),
{
    let fp = sha256(end_entity_der);
    let mut i: usize = 0;
    while i < pins.len()
        invariant
            i <= pins@.len(),
            fp@ == spec_sha256(end_entity_der@),
            forall|k: int| 0 <= k < i ==> (#[trigger] pins@[k])@ != fp@,
        decreases pins@.len() - i,
    {
        let p = &pins[i];
        let mut same = true;
        let mut j: usize = 0;
        while j < 32
            invariant
                j <= 32,
                same == (forall|t: int| 0 <= t < j ==> p@[t] == fp@[t]),
            decreases 32 - j,
        {
            if p[j] != fp[j] {
                same = false;
            }
            j = j + 1;
        }
        if same {
            assert(p@ =~= fp@);
            return true;
        }
        i = i + 1;
    }
    false
}

} // verus!
