//! Digests and their text forms: SHA-256, HMAC-SHA256, lowercase hex and UUID text.

use vstd::prelude::*;
use hmac::Mac;
use sha2::Digest;
use crate::text::chars_of;

verus! {

/// The SHA-256 digest of `data`.
pub uninterp spec fn spec_sha256(data: Seq<u8>) -> Seq<u8>;

/// The HMAC-SHA256 tag of `message` under `key`.
pub uninterp spec fn spec_hmac_sha256(key: Seq<u8>, message: Seq<u8>) -> Seq<u8>;

/// Calls `sha2::Sha256::digest`: the 32-byte SHA-256 digest of `data`.
#[verifier::external_body]
pub fn sha256(data: &[u8]) -> (d: [u8; 32])
    ensures
        d@ == spec_sha256(data@),
{
    sha2::Sha256::digest(data).into()
}

/// Calls `hmac::Hmac::<sha2::Sha256>::new_from_slice`, `update` and `finalize`: the 32-byte
/// HMAC-SHA256 tag of `message` under `key`. HMAC takes a key of any length, so the
/// constructor does not fail.
#[verifier::external_body]
pub fn hmac_sha256(key: &[u8], message: &[u8]) -> (tag: Option<[u8; 32]>)
    ensures
        tag is Some,
        tag matches Some(t) ==> t@ == spec_hmac_sha256(key@, message@),
{
    let mut mac = hmac::Hmac::<sha2::Sha256>::new_from_slice(key).ok()?;
    mac.update(message);
    Some(mac.finalize().into_bytes().into())
}

/// The lowercase hex digit of `v` (below 16).
pub open spec fn hex_digit(v: nat) -> char {
    if v < 10 {
        ((48 + v) as u8) as char
    } else {
        ((87 + v) as u8) as char
    }
}

/// Two lowercase hex digits per byte, high nibble first.
pub open spec fn hex_lower(bytes: Seq<u8>) -> Seq<char>
    decreases bytes.len(),
{
    if bytes.len() == 0 {
        Seq::empty()
    } else {
        hex_lower(bytes.drop_last()) + seq![
            hex_digit(bytes.last() as nat / 16),
            hex_digit(bytes.last() as nat % 16),
        ]
    }
}

/// Calls `hex::encode`, which writes each byte as two lowercase hex digits.
#[verifier::external_body]
pub fn hex_encode(bytes: &[u8]) -> (s: String)
    ensures
        s@ == hex_lower(bytes@),
{
    hex::encode(bytes)
}

/// The code of `c`, with an ASCII upper-case letter folded to its lower-case one.
pub open spec fn ascii_fold_code(c: char) -> u32 {
    if 65 <= (c as u32) <= 90 {
        ((c as u32) + 32) as u32
    } else {
        c as u32
    }
}

/// Equal up to the case of ASCII letters (as `str::eq_ignore_ascii_case`).
pub open spec fn eq_ignore_ascii_case(a: Seq<char>, b: Seq<char>) -> bool {
    &&& a.len() == b.len()
    &&& forall|i: int| 0 <= i < a.len() ==> ascii_fold_code(#[trigger] a[i]) == ascii_fold_code(b[i])
}

fn fold_code(c: char) -> (r: u32)
    ensures
        r == ascii_fold_code(c),
{
    let x = c as u32;
    if 65 <= x && x <= 90 {
        x + 32
    } else {
        x
    }
}

/// Whether a digest is the one that `expected_hex` writes in hex, the letters' case aside:
/// the check a received file's SHA-256 must pass against the hash its offer declared.
pub fn digest_matches_hex(expected_hex: &str, d: &[u8; 32]) -> (ok: bool)
    ensures
        ok == eq_ignore_ascii_case(expected_hex@, hex_lower(d@)),
{
    let text = hex_encode(d);
    let actual = chars_of(text.as_str());
    let expected = chars_of(expected_hex);
    if expected.len() != actual.len() {
        return false;
    }
    let n = expected.len();
    let mut i: usize = 0;
    while i < n
        invariant
            i <= n,
            n == expected@.len(),
            n == actual@.len(),
            expected@ == expected_hex@,
            actual@ == hex_lower(d@),
            forall|k: int| 0 <= k < i ==> ascii_fold_code(#[trigger] expected@[k]) == ascii_fold_code(actual@[k]),
        decreases n - i,
    {
        if fold_code(expected[i]) != fold_code(actual[i]) {
            return false;
        }
        i = i + 1;
    }
    true
}

/// The value of an ASCII hex digit, either case; -1 for any other byte.
pub open spec fn hex_value(b: u8) -> int {
    if 48 <= b <= 57 {
        b - 48
    } else if 97 <= b <= 102 {
        b - 87
    } else if 65 <= b <= 70 {
        b - 55
    } else {
        -1
    }
}

/// The bytes written by an even run of hex digits, two digits per byte.
pub open spec fn hex_decoded(s: Seq<u8>) -> Seq<u8> {
    Seq::new(s.len() / 2, |i: int| (hex_value(s[2 * i]) * 16 + hex_value(s[2 * i + 1])) as u8)
}

/// Calls `hex::decode`, which accepts an even number of hex digits of either case and
/// refuses anything else; the error is the crate's description of the fault.
#[verifier::external_body]
pub fn hex_decode(s: &[u8]) -> (r: Result<Vec<u8>, String>)
    ensures
        r is Ok <==> (s@.len() % 2 == 0 && forall|i: int| 0 <= i < s@.len() ==> hex_value(#[trigger] s@[i]) >= 0),
        r matches Ok(b) ==> b@ == hex_decoded(s@),
{
    match hex::decode(s) {
        Ok(b) => Ok(b),
        Err(e) => Err(e.to_string()),
    }
}

/// The hyphenated lowercase form of a UUID: 8-4-4-4-12 hex digits.
pub open spec fn uuid_text(b: Seq<u8>) -> Seq<char> {
    hex_lower(b.subrange(0, 4)) + seq!['-'] + hex_lower(b.subrange(4, 6)) + seq!['-'] + hex_lower(
        b.subrange(6, 8),
    ) + seq!['-'] + hex_lower(b.subrange(8, 10)) + seq!['-'] + hex_lower(b.subrange(10, 16))
}

/// Calls `uuid::Uuid::from_bytes` and its `Display`, which writes the hyphenated lowercase
/// form.
#[verifier::external_body]
pub fn uuid_string(b: &[u8; 16]) -> (s: String)
    ensures
        s@ == uuid_text(b@),
{
    uuid::Uuid::from_bytes(*b).to_string()
}

/// Holds a `sha2::Sha256` hasher. Verus cannot be given the hasher's type itself (its generic
/// layers are bounded by traits of `digest` and `typenum` that Verus does not see), so it is
/// kept opaque here and only the methods of `Sha256Stream` touch it.
#[verifier::external_body]
struct Sha256Inner {
    hasher: sha2::Sha256,
}

/// SHA-256 over bytes fed in pieces, such as a file read chunk by chunk. `absorbed()` is
/// everything fed so far, so the digest at the end is that of the whole stream.
pub struct Sha256Stream {
    inner: Sha256Inner,
    absorbed: Ghost<Seq<u8>>,
}

impl Sha256Stream {
    /// The bytes fed to this stream so far, in order.
    pub closed spec fn absorbed(&self) -> Seq<u8> {
        self.absorbed@
    }

    /// Calls `sha2::Sha256::new` (`Digest::new`): a hasher that has absorbed nothing.
    #[verifier::external_body]
    pub fn new() -> (s: Sha256Stream)
        ensures
            s.absorbed() == Seq::<u8>::empty(),
    {
        Sha256Stream {
            inner: Sha256Inner { hasher: sha2::Sha256::new() },
            absorbed: Ghost(Seq::empty()),
        }
    }

    /// Calls `Digest::update`, which appends `chunk` to the bytes being hashed.
    #[verifier::external_body]
    pub fn update(&mut self, chunk: &[u8])
        ensures
            final(self).absorbed() == old(self).absorbed() + chunk@,
    {
        sha2::Digest::update(&mut self.inner.hasher, chunk);
    }

    /// Calls `Digest::finalize`: the SHA-256 digest of everything absorbed, the same as a
    /// one-shot digest of those bytes.
    #[verifier::external_body]
    pub fn finish(self) -> (d: [u8; 32])
        ensures
            d@ == spec_sha256(self.absorbed()),
    {
        sha2::Digest::finalize(self.inner.hasher).into()
    }
}

} // verus!
