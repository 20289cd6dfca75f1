//! The data-plane pieces of a transfer that decide bytes: frame building, the AEAD failure
//! breaker, and the redaction of session tokens in logged URLs.

use vstd::prelude::*;
use std::collections::HashMap;
use crate::engine::e2ee::{
    SessionKey, seal, data_nonce, spec_data_nonce, spec_aes256gcm_seal, AES_GCM_MAX_INPUT_LEN,
    GCM_TAG_LEN,
};
use crate::protocol::binary_header::{
    BinaryHeader, ChunkType, HEADER_SIZE, MAGIC_NUMBER, CURRENT_VERSION, FLAG_ENCRYPTED,
    FLAG_LAST_CHUNK, MAX_PAYLOAD_LENGTH, spec_encode, spec_crc32, spec_decode_error,
    header_fields_of, u16_be_bytes, u32_be_bytes, zeros, read_u32, be_u16, lemma_u32_bytes,
};
use crate::text::{chars_of, push_chars, sub_chars, find_from, occurs_at, first_index,
    lemma_first_index_is, string_from_chars};

verus! {

broadcast use vstd::std_specs::hash::group_hash_axioms;

// ----- log redaction -----

/// `i` is the first position where `p` occurs in `s`.
pub open spec fn is_first_occurrence(s: Seq<char>, p: Seq<char>, i: int) -> bool {
    occurs_at(s, p, i) && forall|j: int| 0 <= j < i ==> !occurs_at(s, p, j)
}

/// `url` with the value of its first `token=` parameter replaced by `<redacted>`: the value
/// runs up to the next `&` or to the end. A URL without `token=` is left as it is.
pub open spec fn spec_redact_query_token(url: Seq<char>) -> Seq<char> {
    if exists|i: int| is_first_occurrence(url, "token="@, i) {
        let i = choose|i: int| is_first_occurrence(url, "token="@, i);
        let vs = i + "token="@.len();
        let ve = vs + first_index(url.skip(vs), '&');
        url.take(vs) + "<redacted>"@ + url.skip(ve)
    } else {
        url
    }
}

proof fn lemma_first_occurrence_unique(s: Seq<char>, p: Seq<char>, i: int, j: int)
    requires
        is_first_occurrence(s, p, i),
        is_first_occurrence(s, p, j),
    ensures
        i == j,
{
    if i < j {
        assert(!occurs_at(s, p, i));
    }
    if j < i {
        assert(!occurs_at(s, p, j));
    }
}

/// Masks the session token in a data-plane URL before it is logged. Only `token` is masked:
/// the session and device ids around it are what a diagnosis needs.
pub fn redact_query_token(url: &str) -> (r: String)
    ensures
        r@ == spec_redact_query_token(url@),
{
    let u = chars_of(url);
    let pat = chars_of("token=");
    proof {
        reveal_strlit("token=");
    }
    let found = find_from(&u, &pat, 0);
    let start = match found {
        Some(i) => i,
        None => {
            assert(!exists|i: int| is_first_occurrence(u@, "token="@, i));
            return string_from_chars(u);
        },
    };
    assert(occurs_at(u@, pat@, start as int));
    assert(start + pat@.len() <= u.len());
    assert(is_first_occurrence(u@, "token="@, start as int));
    let ghost c = choose|i: int| is_first_occurrence(u@, "token="@, i);
    proof {
        lemma_first_occurrence_unique(u@, "token="@, start as int, c);
    }
    let vs = start + pat.len();
    let n = u.len();
    let mut ve = vs;
    while ve < n && u[ve] != '&'
        invariant
            vs <= ve <= n,
            n == u@.len(),
            forall|j: int| vs <= j < ve ==> u@[j] != '&',
        decreases n - ve,
    {
        ve = ve + 1;
    }
    proof {
        let t = u@.skip(vs as int);
        lemma_first_index_is(t, '&', ve - vs);
    }
    let mut out = sub_chars(&u, 0, vs);
    let red = chars_of("<redacted>");
    push_chars(&mut out, &red);
    let tail = sub_chars(&u, ve, n);
    push_chars(&mut out, &tail);
    assert(out@ =~= spec_redact_query_token(url@));
    string_from_chars(out)
}

// ----- AEAD failure breaker -----

/// How many AEAD failures end a session, per chunk and in total alike.
pub const TAG_FAIL_LIMIT: u32 = 3;

/// The key of a chunk in the per-chunk failure count.
pub open spec fn chunk_key(item_index: u32, chunk_index: u32) -> u64 {
    (item_index * 4294967296 + chunk_index) as u64
}

/// Two chunks share a key only when they are the same chunk.
pub proof fn lemma_chunk_key_injective(i1: u32, c1: u32, i2: u32, c2: u32)
    ensures
        chunk_key(i1, c1) == chunk_key(i2, c2) ==> i1 == i2 && c1 == c2,
{
    assert(i1 * 4294967296 + c1 <= u64::MAX) by (nonlinear_arith);
    assert(i2 * 4294967296 + c2 <= u64::MAX) by (nonlinear_arith);
    if chunk_key(i1, c1) == chunk_key(i2, c2) {
        assert(i1 * 4294967296 + c1 == i2 * 4294967296 + c2);
        if i1 < i2 {
            assert(i1 * 4294967296 + 4294967296 <= i2 * 4294967296) by (nonlinear_arith)
                requires i1 < i2;
        }
        if i2 < i1 {
            assert(i2 * 4294967296 + 4294967296 <= i1 * 4294967296) by (nonlinear_arith)
                requires i2 < i1;
        }
    }
}

/// The number of failures recorded for a key.
pub open spec fn failures_of(per_chunk: Map<u64, u32>, key: u64) -> nat {
    if per_chunk.contains_key(key) {
        per_chunk[key] as nat
    } else {
        0
    }
}

/// Records one AEAD failure of a chunk and tells whether the session must be aborted: when
/// this chunk, or the session as a whole, has now failed `TAG_FAIL_LIMIT` times. Both counts
/// are needed: with several chunks in flight and mismatched keys, each chunk fails once.
pub fn record_tag_failure(
    per_chunk: &mut HashMap<u64, u32>,
    total: &mut u32,
    item_index: u32,
    chunk_index: u32,
) -> (trip: bool)
    requires
        *old(total) < u32::MAX,
        failures_of(old(per_chunk)@, chunk_key(item_index, chunk_index)) < u32::MAX,
    ensures
        *final(total) == *old(total) + 1,
        final(per_chunk)@ == old(per_chunk)@.insert(
            chunk_key(item_index, chunk_index),
            (failures_of(old(per_chunk)@, chunk_key(item_index, chunk_index)) + 1) as u32,
        ),
        trip == (failures_of(old(per_chunk)@, chunk_key(item_index, chunk_index)) + 1
            >= TAG_FAIL_LIMIT || *final(total) >= TAG_FAIL_LIMIT),
{
    proof {
        assert(item_index * 4294967296 + chunk_index <= u64::MAX) by (nonlinear_arith);
    }
    *total = *total + 1;
    let key: u64 = (item_index as u64) * 4294967296u64 + (chunk_index as u64);
    let prev: u32 = match per_chunk.get(&key) {
        Some(v) => *v,
        None => 0,
    };
    let per = prev + 1;
    per_chunk.insert(key, per);
    per >= TAG_FAIL_LIMIT || *total >= TAG_FAIL_LIMIT
}

// ----- data frames -----

/// The flags of a data frame: `FLAG_LAST_CHUNK` on the last chunk, `FLAG_ENCRYPTED` when the
/// payload is sealed.
pub open spec fn data_frame_flags(chunk_index: u32, total_chunks: u32, encrypted: bool) -> u32 {
    ((if chunk_index + 1 == total_chunks {
        FLAG_LAST_CHUNK
    } else {
        0u32
    }) + (if encrypted {
        FLAG_ENCRYPTED
    } else {
        0u32
    })) as u32
}

/// The payload a frame carries: the sealed chunk under the chunk's own nonce, or the chunk as
/// it is.
pub open spec fn frame_payload(
    key: Option<Seq<u8>>,
    item_index: u32,
    chunk_index: u32,
    plaintext: Seq<u8>,
) -> Seq<u8> {
    match key {
        Some(k) => spec_aes256gcm_seal(k, spec_data_nonce(item_index, chunk_index), plaintext),
        None => plaintext,
    }
}

/// A whole data frame: the 64-byte header (CRC-32 over the payload as sent) and the payload.
pub open spec fn spec_data_frame(
    session_id: Seq<u8>,
    item_index: u32,
    chunk_index: u32,
    total_chunks: u32,
    payload: Seq<u8>,
    nonce: Seq<u8>,
    flags: u32,
) -> Seq<u8> {
    u16_be_bytes(MAGIC_NUMBER) + seq![CURRENT_VERSION, 1u8] + session_id + u32_be_bytes(item_index)
        + u32_be_bytes(chunk_index) + u32_be_bytes(total_chunks) + u32_be_bytes(
        payload.len() as u32,
    ) + u32_be_bytes(spec_crc32(payload)) + nonce + u32_be_bytes(flags) + zeros(8) + payload
}

pub open spec fn opt_key_view(key: Option<&SessionKey>) -> Option<Seq<u8>> {
    match key {
        Some(k) => Some(k@),
        None => None,
    }
}

/// Frames one chunk for sending. With a key the payload is the AEAD ciphertext of the chunk
/// (so the header's CRC-32 is computed over the ciphertext), the chunk's nonce goes into the
/// header and `FLAG_ENCRYPTED` is set; without one the chunk goes as it is, with a zero nonce.
/// Every send path (first send, NACK and timeout retransmission) frames through here.
pub fn build_data_frame(
    session_id: [u8; 16],
    item_index: u32,
    chunk_index: u32,
    total_chunks: u32,
    plaintext: &[u8],
    key: Option<&SessionKey>,
) -> (r: Result<Vec<u8>, String>)
    requires
        chunk_index < u32::MAX,
    ensures
        r is Err <==> (key is Some && plaintext@.len() > AES_GCM_MAX_INPUT_LEN),
        r matches Err(e) ==> e@ == "AEAD 加密失败"@,
        r matches Ok(frame) ==> frame@ == spec_data_frame(
            session_id@,
            item_index,
            chunk_index,
            total_chunks,
            frame_payload(opt_key_view(key), item_index, chunk_index, plaintext@),
            if key is Some {
                spec_data_nonce(item_index, chunk_index)
            } else {
                zeros(12)
            },
            data_frame_flags(chunk_index, total_chunks, key is Some),
        ),
{
    let (payload, nonce) = match key {
        Some(k) => {
            let n = data_nonce(item_index, chunk_index);
            match seal(k, n, plaintext) {
                Ok(ct) => (ct, Some(n)),
                Err(e) => {
                    return Err(e);
                },
            }
        },
        None => (vstd::slice::slice_to_vec(plaintext), None),
    };
    let mut header = BinaryHeader::new_data(
        session_id,
        item_index,
        chunk_index,
        total_chunks,
        payload.as_slice(),
    );
    let ghost flags0 = header.flags;
    if let Some(n) = nonce {
        header.nonce = n;
        header.flags = header.flags | FLAG_ENCRYPTED;
        assert((4u32 | 1u32) == 5u32 && (0u32 | 1u32) == 1u32) by (bit_vector);
    }
    assert(header.flags == data_frame_flags(chunk_index, total_chunks, key is Some));
    let mut frame: Vec<u8> = vec![0u8; HEADER_SIZE];
    let _ = header.encode(frame.as_mut_slice());
    assert(frame@ =~= spec_encode(header));
    let n = payload.len();
    let mut i: usize = 0;
    while i < n
        invariant
            i <= n,
            n == payload@.len(),
            frame@ == spec_encode(header) + payload@.take(i as int),
        decreases n - i,
    {
        frame.push(payload[i]);
        i = i + 1;
        assert(payload@.take(i as int) =~= payload@.take(i - 1).push(payload@[i - 1]));
    }
    assert(payload@.take(n as int) =~= payload@);
    assert(frame@ =~= spec_data_frame(
        session_id@,
        item_index,
        chunk_index,
        total_chunks,
        payload@,
        header.nonce@,
        header.flags,
    ));
    Ok(frame)
}

/// A data frame decodes to the header it was built with: a receiver reads back the item,
/// chunk, payload length, the CRC-32 of the payload as sent, the nonce and the flags.
pub proof fn lemma_data_frame_decodes(
    session_id: Seq<u8>,
    item_index: u32,
    chunk_index: u32,
    total_chunks: u32,
    payload: Seq<u8>,
    nonce: Seq<u8>,
    flags: u32,
)
    requires
        session_id.len() == 16,
        nonce.len() == 12,
        payload.len() <= MAX_PAYLOAD_LENGTH,
    ensures
        spec_decode_error(
            spec_data_frame(session_id, item_index, chunk_index, total_chunks, payload, nonce, flags),
        ) is None,
        forall|h: BinaryHeader|
            header_fields_of(
                h,
                spec_data_frame(session_id, item_index, chunk_index, total_chunks, payload, nonce, flags),
            ) ==> {
                &&& h.chunk_type == ChunkType::Data
                &&& h.session_id@ == session_id
                &&& h.item_index == item_index
                &&& h.chunk_index == chunk_index
                &&& h.total_chunks == total_chunks
                &&& h.payload_len == payload.len()
                &&& h.checksum == spec_crc32(payload)
                &&& h.nonce@ == nonce
                &&& h.flags == flags
            },
{
    let f = spec_data_frame(session_id, item_index, chunk_index, total_chunks, payload, nonce, flags);
    let plen = payload.len() as u32;
    assert(MAGIC_NUMBER == 0x5544u16);
    assert(be_u16((MAGIC_NUMBER >> 8u16) as u8, MAGIC_NUMBER as u8) == MAGIC_NUMBER) by (bit_vector);
    lemma_u32_bytes(item_index);
    lemma_u32_bytes(chunk_index);
    lemma_u32_bytes(total_chunks);
    lemma_u32_bytes(plen);
    lemma_u32_bytes(spec_crc32(payload));
    lemma_u32_bytes(flags);
    assert(f[0] == (MAGIC_NUMBER >> 8u16) as u8);
    assert(f[1] == MAGIC_NUMBER as u8);
    assert(f[2] == CURRENT_VERSION);
    assert(f[3] == 1u8);
    assert(f.subrange(4, 20) =~= session_id);
    assert(f.subrange(40, 52) =~= nonce);
    assert(read_u32(f, 20) == item_index);
    assert(read_u32(f, 24) == chunk_index);
    assert(read_u32(f, 28) == total_chunks);
    assert(read_u32(f, 32) == plen);
    assert(read_u32(f, 36) == spec_crc32(payload));
    assert(read_u32(f, 52) == flags);
    assert forall|h: BinaryHeader| header_fields_of(h, f) implies h.session_id@ == session_id
        && h.nonce@ == nonce by {
        assert(h.session_id@ =~= session_id);
        assert(h.nonce@ =~= nonce);
    }
}

} // verus!
