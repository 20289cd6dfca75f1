//! End-to-end encryption of transfers: key derivation, the nonce layout, and the AEAD sealing
//! of chunks and of offer metadata.
//!
//! Every convention here must match byte for byte on both ends: the chunk length, the nonce
//! construction and the (empty) associated data are defined once, in this module.

use vstd::prelude::*;
use vstd::string::StringSliceAdditionalSpecFns;
use base64::engine::general_purpose::STANDARD as BASE64_STANDARD;
use base64::Engine;
use ring::aead;
use ring::hkdf;
use crate::protocol::binary_header::{MAX_PAYLOAD_LENGTH, u32_be_bytes, lemma_u32_bytes};
use crate::protocol::envelope::{
    TransferOfferPayload, TransferItemPayload, EncryptedMetadata, EncryptedItemMeta,
    TransferOfferView, TransferItemView, ItemMetaView, MetadataView,
};
use crate::text::{
    chars_of, trim_whitespace, trim_ws, sub_chars, split_chars, split_on, parse_u32,
    spec_parse_u32, push_str, push_dec, dec_string, string_from_chars,
};

verus! {

/// Length of the AES-256-GCM authentication tag: a ciphertext is this much longer than its
/// plaintext.
pub const GCM_TAG_LEN: usize = 16;

/// The end-to-end scheme version written into an encrypted offer.
pub const E2EE_VERSION: u8 = 1;

/// Domain marker in `nonce[8..12]` of a data chunk.
pub const NONCE_DOMAIN_DATA: u32 = 0;

/// Domain marker in `nonce[8..12]` of the offer metadata.
pub const NONCE_DOMAIN_METADATA: u32 = 1;

/// The longest input ring's AES-GCM seals or opens: `((1 << 39) - 256) / 8` bytes.
pub const AES_GCM_MAX_INPUT_LEN: u64 = 68719476704;

/// The oldest peer version that understands encrypted transfers.
pub const E2EE_MIN_MAJOR: u32 = 0;

pub const E2EE_MIN_MINOR: u32 = 3;

pub const E2EE_MIN_PATCH: u32 = 0;

/// The plaintext length of one chunk. Encrypted chunks leave room for the tag, so that a
/// full sealed chunk is exactly `MAX_PAYLOAD_LENGTH` bytes.
pub fn plaintext_chunk_len(encrypted: bool) -> (n: usize)
    ensures
        n == (if encrypted {
            MAX_PAYLOAD_LENGTH - GCM_TAG_LEN
        } else {
            MAX_PAYLOAD_LENGTH as int
        }),
{
    if encrypted {
        MAX_PAYLOAD_LENGTH as usize - GCM_TAG_LEN
    } else {
        MAX_PAYLOAD_LENGTH as usize
    }
}

// ----- the outside primitives -----

/// The 32 bytes of HKDF-SHA256 (RFC 5869) with the given salt, input keying material and info.
pub uninterp spec fn spec_hkdf_sha256_32(salt: Seq<u8>, ikm: Seq<u8>, info: Seq<u8>) -> Seq<u8>;

/// AES-256-GCM encryption with empty associated data: the ciphertext followed by the tag.
pub uninterp spec fn spec_aes256gcm_seal(key: Seq<u8>, nonce: Seq<u8>, plaintext: Seq<u8>) -> Seq<u8>;

/// The character of a 6-bit value in the standard base64 alphabet (RFC 4648): `A`-`Z`,
/// `a`-`z`, `0`-`9`, `+`, `/`.
pub open spec fn base64_digit(v: int) -> char {
    if v < 26 {
        (65 + v) as char
    } else if v < 52 {
        (71 + v) as char
    } else if v < 62 {
        (v - 4) as char
    } else if v == 62 {
        '+'
    } else {
        '/'
    }
}

/// The padded standard-alphabet base64 text of `bytes` (RFC 4648): each group of three bytes
/// becomes four characters, and a final group of one or two bytes is padded with `=`.
pub open spec fn spec_base64_encode(bytes: Seq<u8>) -> Seq<char>
    decreases bytes.len(),
{
    if bytes.len() == 0 {
        Seq::empty()
    } else if bytes.len() == 1 {
        seq![base64_digit(bytes[0] as int / 4), base64_digit((bytes[0] as int % 4) * 16), '=', '=']
    } else if bytes.len() == 2 {
        seq![
            base64_digit(bytes[0] as int / 4),
            base64_digit((bytes[0] as int % 4) * 16 + bytes[1] as int / 16),
            base64_digit((bytes[1] as int % 16) * 4),
            '=',
        ]
    } else {
        seq![
            base64_digit(bytes[0] as int / 4),
            base64_digit((bytes[0] as int % 4) * 16 + bytes[1] as int / 16),
            base64_digit((bytes[1] as int % 16) * 4 + bytes[2] as int / 64),
            base64_digit(bytes[2] as int % 64),
        ] + spec_base64_encode(bytes.skip(3))
    }
}

/// Calls ring's `hkdf::Salt::extract` and `Prk::expand` with `AES_256_GCM` as the output
/// length, then `Okm::fill`. ring refuses an expansion only beyond 255 hash lengths and a
/// fill only into a buffer of another length, so for 32 bytes the result is always there.
#[verifier::external_body]
fn hkdf_sha256_32(salt: &[u8; 16], ikm: &[u8], info: &[u8]) -> (okm: Option<[u8; 32]>)
    ensures
        okm is Some,
        okm matches Some(k) ==> k@ == spec_hkdf_sha256_32(salt@, ikm@, info@),
{
    let prk = hkdf::Salt::new(hkdf::HKDF_SHA256, salt).extract(ikm);
    let parts = [info];
    let expanded = prk.expand(&parts, &aead::AES_256_GCM).ok()?;
    let mut out = [0u8; 32];
    expanded.fill(&mut out).ok()?;
    Some(out)
}

/// Calls ring's `LessSafeKey::seal_in_place_append_tag` for AES-256-GCM with empty
/// associated data. ring refuses only an input longer than `AES_GCM_MAX_INPUT_LEN`; the
/// output is the ciphertext, as long as the input, followed by the 16-byte tag.
#[verifier::external_body]
fn aes256gcm_seal(key: &[u8; 32], nonce: [u8; 12], plaintext: &[u8]) -> (r: Option<Vec<u8>>)
    ensures
        r is Some <==> plaintext@.len() <= AES_GCM_MAX_INPUT_LEN,
        r matches Some(ct) ==> ct@ == spec_aes256gcm_seal(key@, nonce@, plaintext@) && ct@.len()
            == plaintext@.len() + GCM_TAG_LEN,
{
    let k = aead::LessSafeKey::new(aead::UnboundKey::new(&aead::AES_256_GCM, key).ok()?);
    let mut buf = plaintext.to_vec();
    let n = aead::Nonce::assume_unique_for_key(nonce);
    k.seal_in_place_append_tag(n, aead::Aad::empty(), &mut buf).ok()?;
    Some(buf)
}

/// Calls ring's `LessSafeKey::open_in_place` for AES-256-GCM with empty associated data.
/// It succeeds exactly when the input is the sealing of some plaintext under this key and
/// nonce, and then gives that plaintext back; an input shorter than the tag is refused, and
/// so is one whose ciphertext is longer than `AES_GCM_MAX_INPUT_LEN` (ring's GCM context
/// refuses it). The plaintext is the input less its 16-byte tag.
#[verifier::external_body]
fn aes256gcm_open(key: &[u8; 32], nonce: [u8; 12], sealed: &[u8]) -> (r: Option<Vec<u8>>)
    ensures
        sealed@.len() < GCM_TAG_LEN ==> r is None,
        r matches Some(pt) ==> sealed@ == spec_aes256gcm_seal(key@, nonce@, pt@),
        r matches Some(pt) ==> pt@.len() <= AES_GCM_MAX_INPUT_LEN && pt@.len() + GCM_TAG_LEN
            == sealed@.len(),
        forall|p: Seq<u8>|
            p.len() <= AES_GCM_MAX_INPUT_LEN && #[trigger] spec_aes256gcm_seal(key@, nonce@, p)
                == sealed@ ==> r is Some && r.unwrap()@ == p,
{
    let k = aead::LessSafeKey::new(aead::UnboundKey::new(&aead::AES_256_GCM, key).ok()?);
    let mut buf = sealed.to_vec();
    let n = aead::Nonce::assume_unique_for_key(nonce);
    let pt = k.open_in_place(n, aead::Aad::empty(), &mut buf).ok()?;
    Some(pt.to_vec())
}

/// Calls `base64::Engine::encode` on the `STANDARD` engine (padded standard alphabet).
#[verifier::external_body]
fn base64_encode(bytes: &[u8]) -> (s: String)
    ensures
        s@ == spec_base64_encode(bytes@),
{
    BASE64_STANDARD.encode(bytes)
}

/// Calls `base64::Engine::decode` on the `STANDARD` engine, which requires canonical padding
/// and no trailing bits: it accepts exactly the texts that `encode` produces, and gives back
/// the bytes they encode. The error is the crate's own description of the fault.
#[verifier::external_body]
fn base64_decode(s: &str) -> (r: Result<Vec<u8>, String>)
    ensures
        r matches Ok(b) ==> spec_base64_encode(b@) == s@,
        forall|b: Seq<u8>| #[trigger] spec_base64_encode(b) == s@ ==> r is Ok && r.unwrap()@ == b,
{
    match BASE64_STANDARD.decode(s) {
        Ok(b) => Ok(b),
        Err(e) => Err(e.to_string()),
    }
}

// ----- keys -----

/// A session key: the 32 bytes of an AES-256-GCM key.
pub struct SessionKey {
    bytes: [u8; 32],
}

impl View for SessionKey {
    type V = Seq<u8>;

    closed spec fn view(&self) -> Seq<u8> {
        self.bytes@
    }
}

/// "UNIDROP-E2EE-v1|", the domain prefix of the HKDF info.
pub open spec fn hkdf_info_prefix() -> Seq<u8> {
    seq![85u8, 78, 73, 68, 82, 79, 80, 45, 69, 50, 69, 69, 45, 118, 49, 124]
}

/// The HKDF info: the prefix followed by the account id's UTF-8 bytes.
pub open spec fn hkdf_info(account_id: Seq<u8>) -> Seq<u8> {
    hkdf_info_prefix() + account_id
}

fn hkdf_info_bytes(account_id: &str) -> (info: Vec<u8>)
    ensures
        info@ == hkdf_info(account_id.spec_bytes()),
{
    let mut info: Vec<u8> = vec![85u8, 78, 73, 68, 82, 79, 80, 45, 69, 50, 69, 69, 45, 118, 49, 124];
    let acct = account_id.as_bytes();
    let n = acct.len();
    let mut i: usize = 0;
    while i < n
        invariant
            i <= n,
            n == acct@.len(),
            info@ == hkdf_info_prefix() + acct@.take(i as int),
        decreases n - i,
    {
        info.push(acct[i]);
        i = i + 1;
        assert(acct@.take(i as int) =~= acct@.take(i - 1).push(acct@[i - 1]));
    }
    assert(acct@.take(n as int) =~= acct@);
    info
}

/// Derives the key of one session:
/// `HKDF-SHA256(ikm = psk bytes, salt = the 16 session-id bytes, info = prefix ‖ account id)`.
/// An empty PSK is refused.
pub fn derive_session_key(psk: &str, session_id: &[u8; 16], account_id: &str) -> (r: Result<
    SessionKey,
    String,
>)
    ensures
        r is Err <==> psk@.len() == 0,
        r matches Err(e) ==> e@ == "PSK 为空，无法派生会话密钥"@,
        r matches Ok(k) ==> k@ == spec_hkdf_sha256_32(
            session_id@,
            psk.spec_bytes(),
            hkdf_info(account_id.spec_bytes()),
        ),
{
    if psk.is_empty() {
        return Err("PSK 为空，无法派生会话密钥".to_owned());
    }
    let info = hkdf_info_bytes(account_id);
    match hkdf_sha256_32(session_id, psk.as_bytes(), info.as_slice()) {
        Some(bytes) => Ok(SessionKey { bytes }),
        None => Err("HKDF expand 失败".to_owned()),
    }
}

// ----- keys by session id -----

/// The 16 bytes `uuid::Uuid::parse_str` reads from `s`, or `None` when it refuses it.
pub uninterp spec fn spec_uuid_parse(s: Seq<char>) -> Option<Seq<u8>>;

/// Calls `uuid::Uuid::parse_str`. Besides naming its result, the contract states what the
/// crate documents: the hyphenated lowercase text of a UUID reads back as that UUID.
#[verifier::external_body]
fn uuid_parse(s: &str) -> (r: Result<[u8; 16], String>)
    ensures
        r matches Ok(b) ==> spec_uuid_parse(s@) == Some(b@),
        r is Err ==> spec_uuid_parse(s@) is None,
        forall|b: Seq<u8>|
            b.len() == 16 && s@ == #[trigger] crate::digest::uuid_text(b) ==> r is Ok && r.unwrap()@
                == b,
{
    match uuid::Uuid::parse_str(s) {
        Ok(u) => Ok(*u.as_bytes()),
        Err(e) => Err(e.to_string()),
    }
}

/// Derives the key of a session from its id as the offer carries it (a UUID string). An id
/// that is not a UUID is refused rather than replaced: both ends must derive from the same
/// 16 bytes. Since the id is written in the hyphenated form, both ends derive from the bytes
/// the sender minted.
pub fn derive_key_for(session_id: &str, psk: &str, account_id: &str) -> (r: Result<
    SessionKey,
    String,
>)
    ensures
        spec_uuid_parse(session_id@) is None ==> r is Err,
        spec_uuid_parse(session_id@) matches Some(b) ==> {
            &&& r is Err <==> psk@.len() == 0
            &&& r matches Ok(k) ==> k@ == spec_hkdf_sha256_32(
                b,
                psk.spec_bytes(),
                hkdf_info(account_id.spec_bytes()),
            )
        },
        forall|b: Seq<u8>|
            b.len() == 16 && session_id@ == #[trigger] crate::digest::uuid_text(b) ==> {
                &&& r is Err <==> psk@.len() == 0
                &&& r matches Ok(k) ==> k@ == spec_hkdf_sha256_32(
                    b,
                    psk.spec_bytes(),
                    hkdf_info(account_id.spec_bytes()),
                )
            },
{
    match uuid_parse(session_id) {
        Ok(bytes) => derive_session_key(psk, &bytes, account_id),
        Err(e) => {
            let mut msg = chars_of("session_id 不是合法 UUID（");
            push_str(&mut msg, session_id);
            push_str(&mut msg, "）: ");
            push_str(&mut msg, e.as_str());
            Err(string_from_chars(msg))
        },
    }
}

// ----- nonces -----

/// A data chunk's nonce: `item_index ‖ chunk_index ‖ 0x00000000`, all big-endian.
pub open spec fn spec_data_nonce(item_index: u32, chunk_index: u32) -> Seq<u8> {
    u32_be_bytes(item_index) + u32_be_bytes(chunk_index) + u32_be_bytes(NONCE_DOMAIN_DATA)
}

/// The metadata nonce: `0 ‖ 0 ‖ 0x00000001`.
pub open spec fn spec_metadata_nonce() -> Seq<u8> {
    u32_be_bytes(0) + u32_be_bytes(0) + u32_be_bytes(NONCE_DOMAIN_METADATA)
}

fn put_be_u32(n: &mut [u8; 12], at: usize, x: u32)
    requires
        at + 4 <= 12,
    ensures
        final(n)@ == old(n)@.subrange(0, at as int) + u32_be_bytes(x) + old(n)@.subrange(
            at + 4,
            12,
        ),
{
    n[at] = (x >> 24u32) as u8;
    n[at + 1] = (x >> 16u32) as u8;
    n[at + 2] = (x >> 8u32) as u8;
    n[at + 3] = x as u8;
    assert(n@ =~= old(n)@.subrange(0, at as int) + u32_be_bytes(x) + old(n)@.subrange(at + 4, 12));
}

/// The nonce of chunk `chunk_index` of item `item_index`.
pub fn data_nonce(item_index: u32, chunk_index: u32) -> (n: [u8; 12])
    ensures
        n@ == spec_data_nonce(item_index, chunk_index),
{
    let mut n = [0u8; 12];
    put_be_u32(&mut n, 0, item_index);
    put_be_u32(&mut n, 4, chunk_index);
    put_be_u32(&mut n, 8, NONCE_DOMAIN_DATA);
    assert(n@ =~= spec_data_nonce(item_index, chunk_index));
    n
}

/// The nonce of the offer metadata.
pub fn metadata_nonce() -> (n: [u8; 12])
    ensures
        n@ == spec_metadata_nonce(),
{
    let mut n = [0u8; 12];
    put_be_u32(&mut n, 0, 0);
    put_be_u32(&mut n, 4, 0);
    put_be_u32(&mut n, 8, NONCE_DOMAIN_METADATA);
    assert(n@ =~= spec_metadata_nonce());
    n
}

/// Within one session no two chunks share a nonce: equal data nonces come from the same
/// item and chunk.
pub proof fn lemma_data_nonce_injective(i1: u32, c1: u32, i2: u32, c2: u32)
    ensures
        spec_data_nonce(i1, c1) == spec_data_nonce(i2, c2) ==> i1 == i2 && c1 == c2,
{
    if spec_data_nonce(i1, c1) == spec_data_nonce(i2, c2) {
        let a = spec_data_nonce(i1, c1);
        let b = spec_data_nonce(i2, c2);
        assert(a[0] == b[0] && a[1] == b[1] && a[2] == b[2] && a[3] == b[3]);
        assert(a[4] == b[4] && a[5] == b[5] && a[6] == b[6] && a[7] == b[7]);
        lemma_u32_bytes(i1);
        lemma_u32_bytes(i2);
        lemma_u32_bytes(c1);
        lemma_u32_bytes(c2);
    }
}

/// The metadata nonce is never the nonce of a data chunk.
pub proof fn lemma_metadata_nonce_is_not_a_data_nonce(item_index: u32, chunk_index: u32)
    ensures
        spec_metadata_nonce() != spec_data_nonce(item_index, chunk_index),
{
    assert((1u32 as u8) == 1u8 && (0u32 as u8) == 0u8) by (bit_vector);
    assert(spec_metadata_nonce()[11] == 1u8);
    assert(spec_data_nonce(item_index, chunk_index)[11] == 0u8);
}

// ----- sealing -----

/// Encrypts `plaintext` into `ciphertext ‖ tag`, with empty associated data.
pub fn seal(key: &SessionKey, nonce: [u8; 12], plaintext: &[u8]) -> (r: Result<Vec<u8>, String>)
    ensures
        r is Ok <==> plaintext@.len() <= AES_GCM_MAX_INPUT_LEN,
        r matches Ok(ct) ==> ct@ == spec_aes256gcm_seal(key@, nonce@, plaintext@) && ct@.len()
            == plaintext@.len() + GCM_TAG_LEN,
        r matches Err(e) ==> e@ == "AEAD 加密失败"@,
{
    match aes256gcm_seal(&key.bytes, nonce, plaintext) {
        Some(ct) => Ok(ct),
        None => Err("AEAD 加密失败".to_owned()),
    }
}

/// The message for a sealed input shorter than the tag.
pub open spec fn too_short_message(len: nat) -> Seq<char> {
    "密文长度 "@ + dec_string(len) + " 小于 tag 长度 "@ + dec_string(GCM_TAG_LEN as nat)
}

/// Decrypts `ciphertext ‖ tag`. It gives back `p` exactly when the input is the sealing of
/// `p` under this key and nonce; anything else, a tampered or truncated input or another
/// key, is refused.
pub fn open(key: &SessionKey, nonce: [u8; 12], ciphertext_and_tag: &[u8]) -> (r: Result<
    Vec<u8>,
    String,
>)
    ensures
        ciphertext_and_tag@.len() < GCM_TAG_LEN ==> (r matches Err(e) && e@ == too_short_message(
            ciphertext_and_tag@.len(),
        )),
        ciphertext_and_tag@.len() >= GCM_TAG_LEN ==> (r matches Err(e) ==> e@
            == "AEAD 解密失败（tag 校验未通过）"@),
        r matches Ok(pt) ==> ciphertext_and_tag@ == spec_aes256gcm_seal(key@, nonce@, pt@),
        r matches Ok(pt) ==> pt@.len() <= AES_GCM_MAX_INPUT_LEN && pt@.len() + GCM_TAG_LEN
            == ciphertext_and_tag@.len(),
        forall|p: Seq<u8>|
            p.len() <= AES_GCM_MAX_INPUT_LEN && #[trigger] spec_aes256gcm_seal(key@, nonce@, p)
                == ciphertext_and_tag@ ==> (r matches Ok(pt) && pt@ == p),
{
    // ring refuses an input shorter than the tag as well; the length test only picks the
    // message.
    let opened = aes256gcm_open(&key.bytes, nonce, ciphertext_and_tag);
    if ciphertext_and_tag.len() < GCM_TAG_LEN {
        let mut msg: Vec<char> = Vec::new();
        push_str(&mut msg, "密文长度 ");
        push_dec(&mut msg, ciphertext_and_tag.len() as u64);
        push_str(&mut msg, " 小于 tag 长度 ");
        push_dec(&mut msg, GCM_TAG_LEN as u64);
        return Err(string_from_chars(msg));
    }
    match opened {
        Some(pt) => Ok(pt),
        None => Err("AEAD 解密失败（tag 校验未通过）".to_owned()),
    }
}

// ----- offer metadata -----

/// An item with its file name and hash blanked, as it travels in an encrypted offer.
pub open spec fn blank_item(it: TransferItemView) -> TransferItemView {
    TransferItemView { relative_path: Seq::empty(), sha256: Seq::empty(), ..it }
}

/// The copy of an offer that goes on the wire: the metadata is sealed into `sealed_text`,
/// the preview and every item's name and hash are blanked, the rest stays readable.
pub open spec fn wire_view(o: TransferOfferView, sealed_text: Seq<char>) -> TransferOfferView {
    TransferOfferView {
        preview_summary: Seq::empty(),
        encrypted: true,
        e2ee_version: Some(E2EE_VERSION),
        encrypted_metadata: Some(sealed_text),
        items: o.items.map_values(|it: TransferItemView| blank_item(it)),
        ..o
    }
}

pub open spec fn meta_of_item(it: TransferItemView) -> ItemMetaView {
    ItemMetaView {
        item_index: it.item_index,
        relative_path: it.relative_path,
        sha256: it.sha256,
        is_dir: it.is_dir,
    }
}

/// The metadata an encrypted offer seals.
pub open spec fn metadata_of(o: TransferOfferView) -> MetadataView {
    MetadataView {
        preview_summary: o.preview_summary,
        items: o.items.map_values(|it: TransferItemView| meta_of_item(it)),
    }
}

/// Collects the metadata of `offer` that an encrypted offer carries sealed.
pub fn encrypted_metadata_of(offer: &TransferOfferPayload) -> (m: EncryptedMetadata)
    ensures
        m@ == metadata_of(offer@),
{
    let n = offer.items.len();
    let mut items: Vec<EncryptedItemMeta> = Vec::new();
    let mut i: usize = 0;
    while i < n
        invariant
            i <= n,
            n == offer.items@.len(),
            items@.len() == i,
            forall|k: int|
                0 <= k < i ==> #[trigger] items@[k]@ == meta_of_item(offer.items@[k]@),
        decreases n - i,
    {
        let it = &offer.items[i];
        items.push(
            EncryptedItemMeta {
                item_index: it.item_index,
                relative_path: it.relative_path.clone(),
                sha256: it.sha256.clone(),
                is_dir: it.is_dir,
            },
        );
        i = i + 1;
    }
    let m = EncryptedMetadata { preview_summary: offer.preview_summary.clone(), items };
    assert(m@.items =~= metadata_of(offer@).items);
    m
}

/// The copy of `offer` that is sent to the relay: `metadata_json` (the serialised
/// [`encrypted_metadata_of`] the offer) is sealed under the metadata nonce and carried as
/// base64; the preview and every item's name and hash are blanked. `offer` itself is left as
/// it is, so that the sender keeps its plaintext metadata locally.
pub fn sealed_offer_for_wire(
    offer: &TransferOfferPayload,
    key: &SessionKey,
    metadata_json: &[u8],
) -> (r: Result<TransferOfferPayload, String>)
    ensures
        r is Ok <==> metadata_json@.len() <= AES_GCM_MAX_INPUT_LEN,
        r matches Err(e) ==> e@ == "AEAD 加密失败"@,
        r matches Ok(w) ==> w@ == wire_view(
            offer@,
            spec_base64_encode(spec_aes256gcm_seal(key@, spec_metadata_nonce(), metadata_json@)),
        ),
{
    let sealed = match seal(key, metadata_nonce(), metadata_json) {
        Ok(ct) => ct,
        Err(e) => {
            return Err(e);
        },
    };
    let text = base64_encode(sealed.as_slice());
    let n = offer.items.len();
    let mut items: Vec<TransferItemPayload> = Vec::new();
    let mut i: usize = 0;
    while i < n
        invariant
            i <= n,
            n == offer.items@.len(),
            items@.len() == i,
            forall|k: int|
                0 <= k < i ==> #[trigger] items@[k]@ == blank_item(offer.items@[k]@),
        decreases n - i,
    {
        let it = &offer.items[i];
        items.push(
            TransferItemPayload {
                item_index: it.item_index,
                relative_path: String::new(),
                size: it.size,
                is_dir: it.is_dir,
                sha256: String::new(),
                total_chunks: it.total_chunks,
            },
        );
        i = i + 1;
    }
    let wire = TransferOfferPayload {
        session_id: offer.session_id.clone(),
        data_type: offer.data_type.clone(),
        total_size: offer.total_size,
        total_items: offer.total_items,
        preview_summary: String::new(),
        encrypted: true,
        e2ee_version: Some(E2EE_VERSION),
        encrypted_metadata: Some(text),
        items,
    };
    assert(wire@.items =~= wire_view(offer@, text@).items);
    Ok(wire)
}

/// The receiving side: the sealed metadata of an encrypted offer, opened. It gives back `p`
/// exactly when the offer carries the base64 text of `p` sealed under this key and the
/// metadata nonce; it fails when the offer carries none, when the text is not base64, and
/// when the seal does not open (most often: the two ends hold different PSKs).
pub fn open_offer_metadata(offer: &TransferOfferPayload, key: &SessionKey) -> (r: Result<
    Vec<u8>,
    String,
>)
    ensures
        offer.encrypted_metadata is None ==> (r matches Err(e) && e@
            == "OFFER 标记为加密但没有 encrypted_metadata"@),
        r matches Ok(json) ==> offer@.encrypted_metadata == Some(
            spec_base64_encode(spec_aes256gcm_seal(key@, spec_metadata_nonce(), json@)),
        ),
        forall|p: Seq<u8>|
            p.len() <= AES_GCM_MAX_INPUT_LEN && offer@.encrypted_metadata == Some(
                #[trigger] spec_base64_encode(spec_aes256gcm_seal(key@, spec_metadata_nonce(), p)),
            ) ==> (r matches Ok(v) && v@ == p),
{
    let b64 = match &offer.encrypted_metadata {
        Some(s) => s,
        None => {
            return Err("OFFER 标记为加密但没有 encrypted_metadata".to_owned());
        },
    };
    let sealed = match base64_decode(b64.as_str()) {
        Ok(b) => b,
        Err(e) => {
            let mut msg: Vec<char> = Vec::new();
            push_str(&mut msg, "encrypted_metadata 不是合法 base64: ");
            push_str(&mut msg, e.as_str());
            return Err(string_from_chars(msg));
        },
    };
    open(key, metadata_nonce(), sealed.as_slice())
}

/// How an offer that arrived is to be read.
#[derive(Debug, Clone)]
pub enum InboundOffer {
    /// Not encrypted: read it as it is.
    Plain,
    /// Encrypted, and its sealed metadata opened to these JSON bytes.
    Sealed(Vec<u8>),
    /// Encrypted, and the metadata cannot be opened with this side's key: refuse the offer.
    Refused,
}

/// The key both ends derive for a session whose id is the text of `b`.
pub open spec fn session_key_bytes(b: Seq<u8>, psk: Seq<u8>, account_id: Seq<u8>) -> Seq<u8> {
    spec_hkdf_sha256_32(b, psk, hkdf_info(account_id))
}

/// Opens an arriving offer with this side's PSK and account: a plain offer is read as it
/// is; an encrypted one needs the session key (derived from its id) to open its metadata,
/// and is refused otherwise. When the sender sealed plaintext `p` with the key both sides
/// derive from the same PSK and account, the receiver gets exactly `p` back.
pub fn open_inbound_offer(offer: &TransferOfferPayload, psk: &str, account_id: &str) -> (r:
    InboundOffer)
    ensures
        !offer.encrypted ==> r is Plain,
        offer.encrypted ==> (r is Sealed || r is Refused),
        offer.encrypted && (spec_uuid_parse(offer.session_id@) is None || psk@.len() == 0
            || offer.encrypted_metadata is None) ==> r is Refused,
        r matches InboundOffer::Sealed(json) ==> spec_uuid_parse(offer.session_id@) matches Some(b)
            && offer@.encrypted_metadata == Some(
            spec_base64_encode(
                spec_aes256gcm_seal(
                    session_key_bytes(b, psk.spec_bytes(), account_id.spec_bytes()),
                    spec_metadata_nonce(),
                    json@,
                ),
            ),
        ),
        forall|b: Seq<u8>, p: Seq<u8>|
            offer.encrypted && b.len() == 16 && offer.session_id@ == #[trigger] crate::digest::uuid_text(
                b,
            ) && psk@.len() > 0 && p.len() <= AES_GCM_MAX_INPUT_LEN && offer@.encrypted_metadata
                == Some(
                #[trigger] spec_base64_encode(
                    spec_aes256gcm_seal(
                        session_key_bytes(b, psk.spec_bytes(), account_id.spec_bytes()),
                        spec_metadata_nonce(),
                        p,
                    ),
                ),
            ) ==> (r matches InboundOffer::Sealed(v) && v@ == p),
{
    if !offer.encrypted {
        return InboundOffer::Plain;
    }
    let key = match derive_key_for(offer.session_id.as_str(), psk, account_id) {
        Ok(k) => k,
        Err(_) => {
            return InboundOffer::Refused;
        },
    };
    match open_offer_metadata(offer, &key) {
        Ok(json) => InboundOffer::Sealed(json),
        Err(_) => InboundOffer::Refused,
    }
}

/// `i` is the first position in `items` whose item index is `idx`.
pub open spec fn is_first_match(items: Seq<TransferItemView>, idx: u32, i: int) -> bool {
    &&& 0 <= i < items.len()
    &&& items[i].item_index == idx
    &&& forall|k: int| 0 <= k < i ==> #[trigger] items[k].item_index != idx
}

/// `it` with the name, hash and directory flag that `m` carries.
pub open spec fn fill_item(it: TransferItemView, m: ItemMetaView) -> TransferItemView {
    TransferItemView { relative_path: m.relative_path, sha256: m.sha256, is_dir: m.is_dir, ..it }
}

/// Fills the first item whose index is `m`'s from `m`; no item changes when none has it.
pub open spec fn apply_item_meta(items: Seq<TransferItemView>, m: ItemMetaView) -> Seq<
    TransferItemView,
> {
    if exists|i: int| is_first_match(items, m.item_index, i) {
        let i = choose|i: int| is_first_match(items, m.item_index, i);
        items.update(i, fill_item(items[i], m))
    } else {
        items
    }
}

/// Applies the entries of `metas` in order.
pub open spec fn fill_items(items: Seq<TransferItemView>, metas: Seq<ItemMetaView>) -> Seq<
    TransferItemView,
>
    decreases metas.len(),
{
    if metas.len() == 0 {
        items
    } else {
        apply_item_meta(fill_items(items, metas.drop_last()), metas.last())
    }
}

/// The offer after its opened metadata is written back: the preview from the metadata, and
/// each entry matched to the item with the same index (not by position).
pub open spec fn apply_metadata(o: TransferOfferView, m: MetadataView) -> TransferOfferView {
    TransferOfferView { preview_summary: m.preview_summary, items: fill_items(o.items, m.items), ..o }
}

proof fn lemma_first_match_unique(items: Seq<TransferItemView>, idx: u32, i: int, j: int)
    requires
        is_first_match(items, idx, i),
        is_first_match(items, idx, j),
    ensures
        i == j,
{
    if i < j {
        assert(items[i].item_index != idx);
    }
    if j < i {
        assert(items[j].item_index != idx);
    }
}

/// Writes opened metadata back into `offer`: the preview, and for each entry the name, hash
/// and directory flag of the first item with that entry's index.
#[verifier::spinoff_prover]
pub fn apply_offer_metadata(offer: &mut TransferOfferPayload, meta: EncryptedMetadata)
    ensures
        final(offer)@ == apply_metadata(old(offer)@, meta@),
{
    let ghost old_items = old(offer)@.items;
    let ghost metas = meta@.items;
    offer.preview_summary = meta.preview_summary;
    let n = meta.items.len();
    let mut k: usize = 0;
    assert(metas.take(0) =~= Seq::<ItemMetaView>::empty());
    while k < n
        invariant
            k <= n,
            n == meta.items@.len(),
            metas == meta.items@.map_values(|m: EncryptedItemMeta| m@),
            offer@.items == fill_items(old_items, metas.take(k as int)),
            offer@.preview_summary == meta@.preview_summary,
            offer@ == (TransferOfferView { items: offer@.items, preview_summary: offer@.preview_summary, ..old(offer)@ }),
        decreases n - k,
    {
        let m = &meta.items[k];
        let ghost cur = offer@.items;
        let len = offer.items.len();
        let mut i: usize = 0;
        while i < len && offer.items[i].item_index != m.item_index
            invariant
                i <= len,
                len == offer.items@.len(),
                cur == offer@.items,
                forall|j: int| 0 <= j < i ==> #[trigger] cur[j].item_index != m.item_index,
            decreases len - i,
        {
            i = i + 1;
        }
        assert(metas.take(k + 1).drop_last() =~= metas.take(k as int));
        assert(metas.take(k + 1).last() == m@);
        if i < len {
            assert(is_first_match(cur, m.item_index, i as int));
            let ghost j = choose|j: int| is_first_match(cur, m.item_index, j);
            proof {
                lemma_first_match_unique(cur, m.item_index, i as int, j);
            }
            let old_it = &offer.items[i];
            let new_it = TransferItemPayload {
                item_index: old_it.item_index,
                relative_path: m.relative_path.clone(),
                size: old_it.size,
                is_dir: m.is_dir,
                sha256: m.sha256.clone(),
                total_chunks: old_it.total_chunks,
            };
            assert(new_it@ == fill_item(cur[i as int], m@));
            let ghost before = offer.items@;
            offer.items.set(i, new_it);
            assert(offer@.items =~= cur.update(i as int, fill_item(cur[i as int], m@)));
        } else {
            assert(!exists|j: int| is_first_match(cur, m.item_index, j));
        }
        k = k + 1;
    }
    assert(metas.take(n as int) =~= metas);
    assert(final(offer)@ =~= apply_metadata(old(offer)@, meta@));
}

/// Within `items` no two entries share an item index.
pub open spec fn unique_item_indices(items: Seq<TransferItemView>) -> bool {
    forall|i: int, j: int|
        0 <= i < j < items.len() ==> items[i].item_index != items[j].item_index
}

proof fn lemma_fill_prefix(o: TransferOfferView, sealed_text: Seq<char>, k: int)
    requires
        unique_item_indices(o.items),
        0 <= k <= o.items.len(),
    ensures
        fill_items(wire_view(o, sealed_text).items, metadata_of(o).items.take(k)) == o.items.take(k)
            + wire_view(o, sealed_text).items.skip(k),
    decreases k,
{
    let w = wire_view(o, sealed_text).items;
    let metas = metadata_of(o).items;
    let n = o.items.len();
    if k == 0 {
        assert(metas.take(0) =~= Seq::<ItemMetaView>::empty());
        assert(w =~= o.items.take(0) + w.skip(0));
    } else {
        let j = k - 1;
        lemma_fill_prefix(o, sealed_text, j);
        let cur = o.items.take(j) + w.skip(j);
        let m = metas[j];
        assert(metas.take(k).drop_last() =~= metas.take(j));
        assert(metas.take(k).last() == m);
        assert(cur.len() == n);
        assert forall|i: int| 0 <= i < n implies #[trigger] cur[i].item_index
            == o.items[i].item_index by {
            if i >= j {
                assert(cur[i] == w[i - j + j]);
            }
        }
        assert(is_first_match(cur, m.item_index, j));
        let c = choose|i: int| is_first_match(cur, m.item_index, i);
        lemma_first_match_unique(cur, m.item_index, j, c);
        assert(cur[j] == blank_item(o.items[j]));
        assert(fill_item(cur[j], m) =~= o.items[j]);
        assert(cur.update(j, fill_item(cur[j], m)) =~= o.items.take(k) + w.skip(k));
    }
}

/// Writing the sealed metadata of an offer back into its wire copy gives the original
/// preview and items back, when no two items share an index.
pub proof fn lemma_metadata_restores_offer(o: TransferOfferView, sealed_text: Seq<char>)
    requires
        unique_item_indices(o.items),
    ensures
        apply_metadata(wire_view(o, sealed_text), metadata_of(o)).preview_summary
            == o.preview_summary,
        apply_metadata(wire_view(o, sealed_text), metadata_of(o)).items == o.items,
{
    let w = wire_view(o, sealed_text).items;
    let metas = metadata_of(o).items;
    let n = o.items.len();
    lemma_fill_prefix(o, sealed_text, n as int);
    assert(metas.take(n as int) =~= metas);
    assert(o.items.take(n as int) + w.skip(n as int) =~= o.items);
}

// ----- peer capability -----

/// The position of the first `-` or `+` in `s`, or its length.
pub open spec fn first_pre_release_mark(s: Seq<char>) -> int
    decreases s.len(),
{
    if s.len() == 0 {
        0
    } else if s[0] == '-' || s[0] == '+' {
        0
    } else {
        1 + first_pre_release_mark(s.drop_first())
    }
}

proof fn lemma_first_pre_release_mark_is(s: Seq<char>, k: int)
    requires
        0 <= k <= s.len(),
        forall|j: int| 0 <= j < k ==> s[j] != '-' && s[j] != '+',
        k == s.len() || s[k] == '-' || s[k] == '+',
    ensures
        first_pre_release_mark(s) == k,
    decreases s.len(),
{
    if s.len() > 0 && k > 0 {
        lemma_first_pre_release_mark_is(s.drop_first(), k - 1);
    }
}

/// The numeric core of a version string: trimmed, cut before any pre-release or build part.
pub open spec fn version_core(v: Seq<char>) -> Seq<char> {
    let t = trim_ws(v);
    t.take(first_pre_release_mark(t))
}

/// `x.y.z` (or `x.y`, patch 0) read from a version string; anything else is `None`.
pub open spec fn spec_parse_semver(v: Seq<char>) -> Option<(u32, u32, u32)> {
    let f = split_on(version_core(v), '.');
    if f.len() < 2 || f.len() > 3 {
        None
    } else {
        let patch = if f.len() == 3 {
            spec_parse_u32(f[2])
        } else {
            Some(0u32)
        };
        match (spec_parse_u32(f[0]), spec_parse_u32(f[1]), patch) {
            (Some(a), Some(b), Some(c)) => Some((a, b, c)),
            _ => None,
        }
    }
}

/// Lexicographic `a >= b` on version triples.
pub open spec fn version_at_least(a: (u32, u32, u32), b: (u32, u32, u32)) -> bool {
    a.0 > b.0 || (a.0 == b.0 && (a.1 > b.1 || (a.1 == b.1 && a.2 >= b.2)))
}

/// Reads `x.y.z` from a version string, ignoring a pre-release or build suffix.
pub fn parse_semver(v: &str) -> (r: Option<(u32, u32, u32)>)
    ensures
        r == spec_parse_semver(v@),
{
    let t = trim_whitespace(&chars_of(v));
    let n = t.len();
    let mut cut: usize = 0;
    while cut < n && t[cut] != '-' && t[cut] != '+'
        invariant
            cut <= n,
            n == t@.len(),
            forall|j: int| 0 <= j < cut ==> t@[j] != '-' && t@[j] != '+',
        decreases n - cut,
    {
        cut = cut + 1;
    }
    proof {
        lemma_first_pre_release_mark_is(t@, cut as int);
    }
    let core = sub_chars(&t, 0, cut);
    assert(core@ =~= version_core(v@));
    let fields = split_chars(&core, '.');
    let ghost f = split_on(version_core(v@), '.');
    assert(fields@.len() == f.len());
    assert(forall|i: int| 0 <= i < f.len() ==> #[trigger] f[i] == fields@[i]@);
    if fields.len() < 2 || fields.len() > 3 {
        return None;
    }
    let major = parse_u32(&fields[0]);
    let minor = parse_u32(&fields[1]);
    let patch = if fields.len() == 3 {
        parse_u32(&fields[2])
    } else {
        Some(0u32)
    };
    match (major, minor, patch) {
        (Some(a), Some(b), Some(c)) => Some((a, b, c)),
        _ => None,
    }
}

/// The encryption gate is the version order itself: a peer's parsed version is accepted
/// exactly when it is 0.3.0 or later in the lexicographic order of (major, minor, patch) --
/// any later major, or major 0 with minor 3 or more. In particular it is monotone: a version
/// at or after an accepted one is accepted too, whichever part grew.
pub proof fn lemma_e2ee_gate_is_the_version_order(v: (u32, u32, u32), w: (u32, u32, u32))
    ensures
        version_at_least(v, (E2EE_MIN_MAJOR, E2EE_MIN_MINOR, E2EE_MIN_PATCH)) <==> (v.0 > 0 || v.1
            >= 3),
        version_at_least(v, (E2EE_MIN_MAJOR, E2EE_MIN_MINOR, E2EE_MIN_PATCH)) && (w.0 > v.0 || (w.0
            == v.0 && (w.1 > v.1 || (w.1 == v.1 && w.2 >= v.2)))) ==> version_at_least(
            w,
            (E2EE_MIN_MAJOR, E2EE_MIN_MINOR, E2EE_MIN_PATCH),
        ),
{
}

/// Whether a peer reporting `app_version` can receive encrypted transfers: its version must
/// parse and be at least 0.3.0. An unknown or unreadable version counts as unsupported.
pub fn peer_supports_e2ee(app_version: Option<&str>) -> (r: bool)
    ensures
        r == (match app_version {
            None => false,
            Some(v) => match spec_parse_semver(v@) {
                Some(got) => version_at_least(got, (E2EE_MIN_MAJOR, E2EE_MIN_MINOR, E2EE_MIN_PATCH)),
                None => false,
            },
        }),
        app_version matches Some(v) ==> (spec_parse_semver(v@) matches Some(t) ==> (r <==> (t.0
            > 0 || t.1 >= 3))),
{
    let v = match app_version {
        Some(v) => v,
        None => {
            return false;
        },
    };
    match parse_semver(v) {
        Some((a, b, c)) => a > E2EE_MIN_MAJOR || (a == E2EE_MIN_MAJOR && (b > E2EE_MIN_MINOR || (b
            == E2EE_MIN_MINOR && c >= E2EE_MIN_PATCH))),
        None => false,
    }
}

} // verus!
