//! The data connection of one transfer: where it dials, how the sender cuts the offer into
//! chunks and reads the receiver's replies, and how the receiver judges each frame.
use crate::engine::e2ee::{
    data_nonce, open, plaintext_chunk_len, spec_aes256gcm_seal, spec_data_nonce, SessionKey,
    AES_GCM_MAX_INPUT_LEN, GCM_TAG_LEN,
};
use crate::engine::sliding_window::{ack_step, nack_step, SlidingWindow};
use crate::engine::transfer::{
    chunk_key, data_frame_flags, failures_of, frame_payload, lemma_data_frame_decodes,
    record_tag_failure, spec_data_frame, TAG_FAIL_LIMIT,
};
use crate::protocol::binary_header::{
    lemma_u32_bytes, read_u32, spec_crc32, spec_decode_error, u16_be_bytes, u32_be_bytes, zeros,
    BinaryHeader, ChunkType, CURRENT_VERSION, HEADER_SIZE, MAGIC_NUMBER, MAX_PAYLOAD_LENGTH,
};
use crate::digest::{digest_matches_hex, eq_ignore_ascii_case, hex_lower};
use crate::protocol::envelope::TransferItemPayload;
use crate::size_text::{human_size, spec_human_size};
use crate::text::{
    chars_of, dec_string, has_prefix, lemma_trail_count_is, push_chars, push_dec, push_str,
    str_eq, string_from_chars, strip_prefix, sub_chars, trail_count, trim_whitespace, trim_ws,
};
use std::collections::HashMap;
use vstd::prelude::*;

verus! {

// ----- the data connection's address -----

/// Which end of the data connection this client is.
#[derive(Debug, Clone, Copy, PartialEq, Eq, Structural)]
pub enum DataRole {
    Sender,
    Receiver,
}

pub open spec fn role_text(role: DataRole) -> Seq<char> {
    match role {
        DataRole::Sender => "sender"@,
        DataRole::Receiver => "receiver"@,
    }
}

/// The data-plane URL: the server address trimmed of whitespace and trailing slashes,
/// `wss://` in front when it has no `ws://` or `wss://` scheme, then the query that names the
/// session, this end's role, this device, the peer and the token.
pub open spec fn spec_data_ws_url(
    server_url: Seq<char>,
    session_id: Seq<char>,
    role: DataRole,
    device_id: Seq<char>,
    target_device_id: Seq<char>,
    token: Seq<char>,
) -> Seq<char> {
    let t = trim_ws(server_url);
    let base = t.take(t.len() - trail_count(t, |c: char| c == '/'));
    let head = if has_prefix(base, "ws://"@) || has_prefix(base, "wss://"@) {
        base
    } else {
        "wss://"@ + base
    };
    head + "/ws/data?session_id="@ + session_id + "&role="@ + role_text(role) + "&device_id="@
        + device_id + "&target_device_id="@ + target_device_id + "&token="@ + token
}

/// Builds the data-plane URL. The sender names itself and the receiver; the receiver names
/// itself and the sender.
pub fn data_ws_url(
    server_url: &str,
    session_id: &str,
    role: DataRole,
    device_id: &str,
    target_device_id: &str,
    token: &str,
) -> (r: String)
    ensures
        r@ == spec_data_ws_url(server_url@, session_id@, role, device_id@, target_device_id@, token@),
{
    let t = trim_whitespace(&chars_of(server_url));
    let m = t.len();
    let mut end: usize = m;
    while end > 0 && t[end - 1] == '/'
        invariant
            end <= m,
            m == t@.len(),
            forall|k: int| end <= k < m ==> t@[k] == '/',
        decreases end,
    {
        end = end - 1;
    }
    proof {
        let f = |c: char| c == '/';
        assert(forall|c: char| #[trigger] f(c) == (c == '/'));
        lemma_trail_count_is(t@, f, m - end);
    }
    let base = sub_chars(&t, 0, end);
    let has_scheme = strip_prefix(&base, &chars_of("ws://")).is_some() || strip_prefix(
        &base,
        &chars_of("wss://"),
    ).is_some();
    let mut out: Vec<char> = if has_scheme {
        Vec::new()
    } else {
        chars_of("wss://")
    };
    push_chars(&mut out, &base);
    push_str(&mut out, "/ws/data?session_id=");
    push_str(&mut out, session_id);
    push_str(&mut out, "&role=");
    match role {
        DataRole::Sender => push_str(&mut out, "sender"),
        DataRole::Receiver => push_str(&mut out, "receiver"),
    }
    push_str(&mut out, "&device_id=");
    push_str(&mut out, device_id);
    push_str(&mut out, "&target_device_id=");
    push_str(&mut out, target_device_id);
    push_str(&mut out, "&token=");
    push_str(&mut out, token);
    string_from_chars(out)
}

// ----- the sender's chunk plan -----

/// One chunk the sender will send: which item (by its index in the offer and by its position
/// in the item list), which chunk of it, and where its bytes lie in the source.
#[derive(Debug, Clone, Copy, PartialEq, Eq, Structural)]
pub struct PlannedChunk {
    pub item_index: u32,
    pub item_pos: usize,
    pub chunk_index: u32,
    pub total_chunks: u32,
    pub offset: u64,
    pub length: usize,
}

/// Chunk `c` of the item at position `pos`: it starts at `c * chunk_len` and is
/// `chunk_len` long, except the one that reaches the end of the item, which keeps what is
/// left (nothing, when it starts past the end).
pub open spec fn planned_chunk(
    it: TransferItemPayload,
    pos: int,
    chunk_len: nat,
    c: nat,
) -> PlannedChunk {
    let size = it.size as u64;
    let offset = c * chunk_len;
    PlannedChunk {
        item_index: it.item_index,
        item_pos: pos as usize,
        chunk_index: c as u32,
        total_chunks: it.total_chunks,
        offset: offset as u64,
        length: (if offset + chunk_len > size {
            if size >= offset {
                (size - offset) as usize
            } else {
                0usize
            }
        } else {
            chunk_len as usize
        }),
    }
}

/// Every chunk of one item, in order.
pub open spec fn item_plan(it: TransferItemPayload, pos: int, chunk_len: nat) -> Seq<PlannedChunk> {
    Seq::new(it.total_chunks as nat, |c: int| planned_chunk(it, pos, chunk_len, c as nat))
}

/// Whether the item at `pos` has something to read: in memory every item has; with files,
/// those with a path.
pub open spec fn has_source(pos: int, sources: Option<usize>) -> bool {
    match sources {
        None => true,
        Some(n) => pos < n,
    }
}

/// The chunks of every item that has a source, item after item.
pub open spec fn spec_plan(
    items: Seq<TransferItemPayload>,
    chunk_len: nat,
    sources: Option<usize>,
) -> Seq<PlannedChunk>
    decreases items.len(),
{
    if items.len() == 0 {
        Seq::empty()
    } else {
        let prev = spec_plan(items.drop_last(), chunk_len, sources);
        if has_source(items.len() - 1, sources) {
            prev + item_plan(items.last(), items.len() - 1, chunk_len)
        } else {
            prev
        }
    }
}

/// Cuts the offer into the chunks the sender sends. `sources` is `None` when the content is
/// in memory, and the number of paths when it is a list of files (items past the end of the
/// list are not sent).
pub fn plan_chunks(items: &[TransferItemPayload], chunk_len: usize, sources: Option<usize>) -> (r:
    Vec<PlannedChunk>)
    requires
        chunk_len <= u32::MAX,
    ensures
        r@ == spec_plan(items@, chunk_len as nat, sources),
{
    let mut out: Vec<PlannedChunk> = Vec::new();
    let n = items.len();
    let mut i: usize = 0;
    while i < n
        invariant
            i <= n,
            n == items@.len(),
            chunk_len <= u32::MAX,
            out@ == spec_plan(items@.take(i as int), chunk_len as nat, sources),
        decreases n - i,
    {
        let it = &items[i];
        assert(items@.take(i + 1).drop_last() =~= items@.take(i as int));
        assert(items@.take(i + 1).last() == items@[i as int]);
        let has = match sources {
            None => true,
            Some(k) => i < k,
        };
        if has {
            let ghost prev = out@;
            let file_size = it.size as u64;
            let total = it.total_chunks;
            let mut c: u32 = 0;
            while c < total
                invariant
                    c <= total,
                    total == it.total_chunks,
                    file_size == it.size as u64,
                    chunk_len <= u32::MAX,
                    i < n,
                    n == items@.len(),
                    *it == items@[i as int],
                    out@ == prev + item_plan(*it, i as int, chunk_len as nat).take(c as int),
                decreases total - c,
            {
                assert((c as u64) * (chunk_len as u64) <= u32::MAX * u32::MAX) by (nonlinear_arith)
                    requires
                        c <= u32::MAX,
                        chunk_len <= u32::MAX,
                ;
                let offset: u64 = (c as u64) * (chunk_len as u64);
                let length: usize = if offset as u128 + chunk_len as u128 > file_size as u128 {
                    if file_size >= offset {
                        (file_size - offset) as usize
                    } else {
                        0
                    }
                } else {
                    chunk_len
                };
                let pc = PlannedChunk {
                    item_index: it.item_index,
                    item_pos: i,
                    chunk_index: c,
                    total_chunks: total,
                    offset,
                    length,
                };
                assert(pc == planned_chunk(*it, i as int, chunk_len as nat, c as nat));
                out.push(pc);
                assert(item_plan(*it, i as int, chunk_len as nat).take(c + 1) =~= item_plan(
                    *it,
                    i as int,
                    chunk_len as nat,
                ).take(c as int).push(pc));
                c = c + 1;
            }
            assert(item_plan(*it, i as int, chunk_len as nat).take(total as int) =~= item_plan(
                *it,
                i as int,
                chunk_len as nat,
            ));
        }
        i = i + 1;
    }
    assert(items@.take(n as int) =~= items@);
    out
}

/// Whether a planned chunk is chunk `chunk_index` of the item with index `item_index`.
pub open spec fn is_chunk(p: PlannedChunk, item_index: u32, chunk_index: u32) -> bool {
    p.item_index == item_index && p.chunk_index == chunk_index
}

/// The first position at or after `k` holding the given chunk.
pub open spec fn first_chunk_from(
    plan: Seq<PlannedChunk>,
    item_index: u32,
    chunk_index: u32,
    k: int,
) -> Option<int>
    decreases plan.len() - k,
{
    if k < 0 || k >= plan.len() {
        None
    } else if is_chunk(plan[k], item_index, chunk_index) {
        Some(k)
    } else {
        first_chunk_from(plan, item_index, chunk_index, k + 1)
    }
}

/// A position `first_chunk_from` finds lies in the plan, at or after `k`, and holds the chunk.
pub proof fn lemma_first_chunk_from(plan: Seq<PlannedChunk>, item_index: u32, chunk_index: u32, k: int)
    ensures
        first_chunk_from(plan, item_index, chunk_index, k) matches Some(j) ==> {
            &&& 0 <= k <= j < plan.len()
            &&& is_chunk(plan[j], item_index, chunk_index)
        },
    decreases plan.len() - k,
{
    if 0 <= k < plan.len() && !is_chunk(plan[k], item_index, chunk_index) {
        lemma_first_chunk_from(plan, item_index, chunk_index, k + 1);
    }
}

/// Finds the first position of a chunk in the plan.
pub fn find_planned(plan: &[PlannedChunk], item_index: u32, chunk_index: u32) -> (r: Option<usize>)
    ensures
        r == (match first_chunk_from(plan@, item_index, chunk_index, 0) {
            Some(j) => Some(j as usize),
            None => None::<usize>,
        }),
        r matches Some(j) ==> j < plan@.len() && is_chunk(plan@[j as int], item_index, chunk_index),
{
    let n = plan.len();
    let mut i: usize = 0;
    while i < n
        invariant
            i <= n,
            n == plan@.len(),
            first_chunk_from(plan@, item_index, chunk_index, 0) == first_chunk_from(
                plan@,
                item_index,
                chunk_index,
                i as int,
            ),
        decreases n - i,
    {
        if plan[i].item_index == item_index && plan[i].chunk_index == chunk_index {
            return Some(i);
        }
        i = i + 1;
    }
    None
}

/// Item indices are pairwise distinct.
pub open spec fn distinct_item_indices(items: Seq<TransferItemPayload>) -> bool {
    forall|a: int, b: int|
        0 <= a < items.len() && 0 <= b < items.len() && a != b ==> items[a].item_index
            != items[b].item_index
}

/// Every planned chunk lies within an item that has a source: it carries that item's index
/// and chunk count, its chunk index is below the count, and it starts at its chunk's offset.
pub proof fn lemma_plan_chunks_lie_in_items(
    items: Seq<TransferItemPayload>,
    chunk_len: nat,
    sources: Option<usize>,
)
    requires
        items.len() <= usize::MAX,
    ensures
        forall|j: int|
            0 <= j < spec_plan(items, chunk_len, sources).len() ==> {
                let p = #[trigger] spec_plan(items, chunk_len, sources)[j];
                &&& 0 <= p.item_pos < items.len()
                &&& has_source(p.item_pos as int, sources)
                &&& p.item_index == items[p.item_pos as int].item_index
                &&& p.total_chunks == items[p.item_pos as int].total_chunks
                &&& p.chunk_index < p.total_chunks
                &&& p == planned_chunk(items[p.item_pos as int], p.item_pos as int, chunk_len, p.chunk_index as nat)
            },
    decreases items.len(),
{
    if items.len() > 0 {
        let prev_items = items.drop_last();
        lemma_plan_chunks_lie_in_items(prev_items, chunk_len, sources);
        let plan = spec_plan(items, chunk_len, sources);
        let prev = spec_plan(prev_items, chunk_len, sources);
        let last = items.len() - 1;
        if has_source(last, sources) {
            assert(plan == prev + item_plan(items[last], last, chunk_len));
        } else {
            assert(plan == prev);
        }
        assert forall|j: int| 0 <= j < plan.len() implies {
            let p = #[trigger] plan[j];
            &&& 0 <= p.item_pos < items.len()
            &&& has_source(p.item_pos as int, sources)
            &&& p.item_index == items[p.item_pos as int].item_index
            &&& p.total_chunks == items[p.item_pos as int].total_chunks
            &&& p.chunk_index < p.total_chunks
            &&& p == planned_chunk(items[p.item_pos as int], p.item_pos as int, chunk_len, p.chunk_index as nat)
        } by {
            if j < prev.len() {
                assert(plan[j] == prev[j]);
                assert(prev_items[prev[j].item_pos as int] == items[prev[j].item_pos as int]);
            } else {
                let c = j - prev.len();
                assert(plan[j] == item_plan(items[last], last, chunk_len)[c]);
                assert(plan[j] == planned_chunk(items[last], last, chunk_len, c as nat));
            }
        }
    }
}

/// With distinct item indices, no two planned chunks are the same chunk: looking up the
/// chunk an ACK or NACK names finds exactly that chunk's position.
pub proof fn lemma_plan_lookup_finds_each_chunk(
    items: Seq<TransferItemPayload>,
    chunk_len: nat,
    sources: Option<usize>,
)
    requires
        distinct_item_indices(items),
        items.len() <= usize::MAX,
    ensures
        forall|j: int|
            0 <= j < spec_plan(items, chunk_len, sources).len() ==> first_chunk_from(
                spec_plan(items, chunk_len, sources),
                (#[trigger] spec_plan(items, chunk_len, sources)[j]).item_index,
                spec_plan(items, chunk_len, sources)[j].chunk_index,
                0,
            ) == Some(j),
{
    let plan = spec_plan(items, chunk_len, sources);
    lemma_plan_is_distinct(items, chunk_len, sources);
    assert forall|j: int| 0 <= j < plan.len() implies first_chunk_from(
        plan,
        (#[trigger] plan[j]).item_index,
        plan[j].chunk_index,
        0,
    ) == Some(j) by {
        lemma_first_chunk_is(plan, plan[j].item_index, plan[j].chunk_index, 0, j);
    }
}

/// `first_chunk_from` from `k` finds `j` when `j` holds the chunk and nothing between `k`
/// and `j` does.
proof fn lemma_first_chunk_is(plan: Seq<PlannedChunk>, item_index: u32, chunk_index: u32, k: int, j: int)
    requires
        0 <= k <= j < plan.len(),
        is_chunk(plan[j], item_index, chunk_index),
        forall|m: int| k <= m < j ==> !is_chunk(#[trigger] plan[m], item_index, chunk_index),
    ensures
        first_chunk_from(plan, item_index, chunk_index, k) == Some(j),
    decreases j - k,
{
    if k < j {
        lemma_first_chunk_is(plan, item_index, chunk_index, k + 1, j);
    }
}

/// With distinct item indices, the plan holds each chunk at most once.
proof fn lemma_plan_is_distinct(items: Seq<TransferItemPayload>, chunk_len: nat, sources: Option<usize>)
    requires
        distinct_item_indices(items),
        items.len() <= usize::MAX,
    ensures
        forall|a: int, b: int|
            0 <= a < b < spec_plan(items, chunk_len, sources).len() ==> !is_chunk(
                #[trigger] spec_plan(items, chunk_len, sources)[a],
                (#[trigger] spec_plan(items, chunk_len, sources)[b]).item_index,
                spec_plan(items, chunk_len, sources)[b].chunk_index,
            ),
    decreases items.len(),
{
    if items.len() > 0 {
        let prev_items = items.drop_last();
        assert(distinct_item_indices(prev_items)) by {
            assert forall|a: int, b: int|
                0 <= a < prev_items.len() && 0 <= b < prev_items.len() && a != b implies prev_items[a].item_index
                != prev_items[b].item_index by {
                assert(prev_items[a] == items[a]);
                assert(prev_items[b] == items[b]);
            }
        }
        lemma_plan_is_distinct(prev_items, chunk_len, sources);
        lemma_plan_chunks_lie_in_items(prev_items, chunk_len, sources);
        let plan = spec_plan(items, chunk_len, sources);
        let prev = spec_plan(prev_items, chunk_len, sources);
        let last = items.len() - 1;
        if has_source(last, sources) {
            assert(plan == prev + item_plan(items[last], last, chunk_len));
        } else {
            assert(plan == prev);
        }
        assert forall|a: int, b: int| 0 <= a < b < plan.len() implies !is_chunk(
            #[trigger] plan[a],
            (#[trigger] plan[b]).item_index,
            plan[b].chunk_index,
        ) by {
            if b < prev.len() {
                assert(plan[a] == prev[a]);
                assert(plan[b] == prev[b]);
            } else if a < prev.len() {
                let pa = prev[a];
                assert(plan[a] == pa);
                assert(prev_items[pa.item_pos as int] == items[pa.item_pos as int]);
                assert(pa.item_pos < last);
                assert(plan[b] == planned_chunk(items[last], last, chunk_len, (b - prev.len()) as nat));
                assert(plan[b].item_index == items[last].item_index);
            } else {
                let ca = a - prev.len();
                let cb = b - prev.len();
                assert(plan[a] == planned_chunk(items[last], last, chunk_len, ca as nat));
                assert(plan[b] == planned_chunk(items[last], last, chunk_len, cb as nat));
                assert(cb < items[last].total_chunks);
                assert((ca as nat) as u32 == ca);
                assert((cb as nat) as u32 == cb);
            }
        }
    }
}

// ----- the sender reading replies -----

/// The chunk a reply frame acknowledges (`true`) or refuses (`false`), by its position in the
/// plan; `None` when the frame is shorter than a header, does not decode, is neither an ACK
/// nor a NACK, or names no planned chunk.
pub open spec fn reply_target(plan: Seq<PlannedChunk>, frame: Seq<u8>) -> Option<(bool, int)> {
    if frame.len() < HEADER_SIZE || spec_decode_error(frame) is Some {
        None
    } else {
        match first_chunk_from(plan, read_u32(frame, 20), read_u32(frame, 24), 0) {
            None => None,
            Some(pos) => if frame[3] == 2 {
                Some((true, pos))
            } else if frame[3] == 3 {
                Some((false, pos))
            } else {
                None
            },
        }
    }
}

/// What the sender does after a reply.
#[derive(Debug, Clone, Copy, PartialEq, Eq, Structural)]
pub enum SenderReply {
    /// The chunk at this position of the plan is acknowledged; `length` of its bytes count as
    /// transferred.
    Acked { pos: usize, length: usize },
    /// The chunk at this position must be sent again at once.
    Resend(usize),
    /// Nothing to do.
    Ignored,
}

/// Handles one frame received from the receiver: an ACK acknowledges its chunk in the
/// window, a NACK counts a retry and asks for an immediate resend unless the chunk has run
/// out of retries; anything else is ignored and leaves the window as it was.
pub fn sender_on_reply(
    plan: &[PlannedChunk],
    window: &mut SlidingWindow,
    frame: &[u8],
    now: u64,
) -> (r: SenderReply)
    requires
        old(window).wf(),
        plan@.len() == old(window).total_chunks,
        forall|c: u32| #[trigger]
            old(window).in_flight_view().dom().contains(c) ==> old(window).in_flight_view()[c].retries
                < u32::MAX,
    ensures
        final(window).wf(),
        match reply_target(plan@, frame@) {
            Some((true, pos)) => {
                &&& ack_step(*old(window), *final(window), pos as u32, now)
                &&& r == SenderReply::Acked { pos: pos as usize, length: plan@[pos].length }
            },
            Some((false, pos)) => {
                &&& (r == SenderReply::Resend(pos as usize) || r == SenderReply::Ignored)
                &&& nack_step(
                    *old(window),
                    *final(window),
                    pos as u32,
                    now,
                    if r is Resend {
                        Some(pos as u32)
                    } else {
                        None
                    },
                )
            },
            None => *final(window) == *old(window) && r == SenderReply::Ignored,
        },
{
    if frame.len() < HEADER_SIZE {
        return SenderReply::Ignored;
    }
    let hdr = match BinaryHeader::decode(frame) {
        Ok(h) => h,
        Err(_) => {
            return SenderReply::Ignored;
        },
    };
    let is_ack = match hdr.chunk_type {
        ChunkType::Ack => true,
        ChunkType::Nack => false,
        _ => {
            return SenderReply::Ignored;
        },
    };
    proof {
        lemma_first_chunk_from(plan@, hdr.item_index, hdr.chunk_index, 0);
    }
    let pos = match find_planned(plan, hdr.item_index, hdr.chunk_index) {
        Some(p) => p,
        None => {
            return SenderReply::Ignored;
        },
    };
    if is_ack {
        window.on_ack(pos as u32, now);
        SenderReply::Acked { pos, length: plan[pos].length }
    } else {
        match window.on_nack(pos as u32, now) {
            Some(idx) => {
                assert(idx == pos);
                SenderReply::Resend(idx as usize)
            },
            None => SenderReply::Ignored,
        }
    }
}

// ----- the receiver judging frames -----

/// The 64 bytes of an ACK (`ack`) or NACK header for one chunk: no payload, every other
/// field zero.
pub open spec fn control_frame(ack: bool, session_id: Seq<u8>, item_index: u32, chunk_index: u32) -> Seq<
    u8,
> {
    u16_be_bytes(MAGIC_NUMBER) + seq![CURRENT_VERSION, if ack { 2u8 } else { 3u8 }] + session_id
        + u32_be_bytes(item_index) + u32_be_bytes(chunk_index) + u32_be_bytes(0) + u32_be_bytes(0)
        + u32_be_bytes(0) + zeros(12) + u32_be_bytes(0) + zeros(8)
}

/// Encodes the ACK or NACK header for one chunk.
fn control_frame_bytes(ack: bool, session_id: [u8; 16], item_index: u32, chunk_index: u32) -> (r:
    Vec<u8>)
    ensures
        r@ == control_frame(ack, session_id@, item_index, chunk_index),
{
    let h = if ack {
        BinaryHeader::new_ack(session_id, item_index, chunk_index)
    } else {
        BinaryHeader::new_nack(session_id, item_index, chunk_index)
    };
    let mut buf: Vec<u8> = vec![0u8; HEADER_SIZE];
    let res = h.encode(buf.as_mut_slice());
    assert(res is Ok);
    assert(buf@ =~= control_frame(ack, session_id@, item_index, chunk_index));
    buf
}

/// The payload of a frame: everything after the header.
pub open spec fn frame_payload_of(f: Seq<u8>) -> Seq<u8> {
    f.skip(HEADER_SIZE as int)
}

/// The payload does not match the length or checksum its header declares.
pub open spec fn frame_damaged(f: Seq<u8>) -> bool {
    let w = frame_payload_of(f);
    w.len() as u32 != read_u32(f, 32) || spec_crc32(w) != read_u32(f, 36)
}

/// Some plaintext within AES-GCM's limit seals, under `key` and the chunk's own nonce, to the
/// frame's payload.
pub open spec fn frame_opens(key: Seq<u8>, f: Seq<u8>) -> bool {
    exists|p: Seq<u8>|
        p.len() <= AES_GCM_MAX_INPUT_LEN && #[trigger] spec_aes256gcm_seal(
            key,
            spec_data_nonce(read_u32(f, 20), read_u32(f, 24)),
            p,
        ) == frame_payload_of(f)
}

/// What the receiver does with one frame.
#[derive(Debug, Clone)]
pub enum FrameVerdict {
    /// Too short to hold a header, or about an item the offer does not have: ignored.
    Skip,
    /// The header does not decode: the receiver stops.
    Stop,
    /// The payload is damaged, or does not authenticate while the failures are below the
    /// limit: this NACK frame goes back and the chunk is sent again.
    Nack(Vec<u8>),
    /// Authentication failures reached the limit: the transfer is aborted.
    AbortAuth,
    /// Write `payload` (plaintext) at `offset` of the item, then send `ack` back.
    Store { item_index: u32, chunk_index: u32, offset: u64, payload: Vec<u8>, ack: Vec<u8> },
}

/// The receiver's record of one transfer: the chunks written per item, the number of chunks
/// each item has, the session key, and the authentication-failure counts.
pub struct ReceiverSession {
    received: Vec<Vec<u32>>,
    totals: Vec<u32>,
    key: Option<SessionKey>,
    tag_fail_total: u32,
    tag_fail_per_chunk: HashMap<u64, u32>,
    e2ee_aborted: bool,
}

impl ReceiverSession {
    /// The distinct chunk indices written per item, in the order they arrived.
    pub closed spec fn received_view(&self) -> Seq<Seq<u32>> {
        self.received@.map_values(|v: Vec<u32>| v@)
    }

    /// The number of chunks of each item.
    pub closed spec fn totals_view(&self) -> Seq<u32> {
        self.totals@
    }

    /// The session key's bytes, when the transfer is encrypted.
    pub closed spec fn key_view(&self) -> Option<Seq<u8>> {
        match self.key {
            Some(k) => Some(k@),
            None => None,
        }
    }

    /// Authentication failures so far, in all.
    pub closed spec fn fail_total(&self) -> u32 {
        self.tag_fail_total
    }

    /// Authentication failures so far, per chunk key.
    pub closed spec fn failures(&self) -> Map<u64, u32> {
        self.tag_fail_per_chunk@
    }

    /// The transfer was aborted on authentication failures.
    pub closed spec fn aborted(&self) -> bool {
        self.e2ee_aborted
    }

    pub closed spec fn wf(&self) -> bool {
        &&& self.received@.len() == self.totals@.len()
        &&& forall|i: int|
            0 <= i < self.received@.len() ==> (#[trigger] self.received@[i])@.no_duplicates()
        &&& !self.e2ee_aborted ==> self.tag_fail_total < TAG_FAIL_LIMIT
        &&& forall|k: u64| #[trigger]
            self.tag_fail_per_chunk@.contains_key(k) ==> self.tag_fail_per_chunk@[k]
                <= self.tag_fail_total
    }

    /// A fresh record for an offer's items, with the session key when the transfer is
    /// encrypted.
    pub fn new(items: &[TransferItemPayload], key: Option<SessionKey>) -> (s: Self)
        ensures
            s.wf(),
            s.received_view() == Seq::new(items@.len(), |i: int| Seq::<u32>::empty()),
            s.totals_view() == items@.map_values(|it: TransferItemPayload| it.total_chunks),
            s.key_view() == (match key {
                Some(k) => Some(k@),
                None => None::<Seq<u8>>,
            }),
            s.fail_total() == 0,
            s.failures() == Map::<u64, u32>::empty(),
            !s.aborted(),
    {
        let mut received: Vec<Vec<u32>> = Vec::new();
        let mut totals: Vec<u32> = Vec::new();
        let n = items.len();
        let mut i: usize = 0;
        while i < n
            invariant
                i <= n,
                n == items@.len(),
                received@.len() == i,
                totals@ == items@.take(i as int).map_values(|it: TransferItemPayload| it.total_chunks),
                forall|j: int| 0 <= j < i ==> (#[trigger] received@[j])@ == Seq::<u32>::empty(),
            decreases n - i,
        {
            received.push(Vec::new());
            totals.push(items[i].total_chunks);
            assert(items@.take(i + 1).map_values(|it: TransferItemPayload| it.total_chunks)
                =~= items@.take(i as int).map_values(|it: TransferItemPayload| it.total_chunks).push(
                items@[i as int].total_chunks,
            ));
            i = i + 1;
        }
        assert(items@.take(n as int) =~= items@);
        let s = ReceiverSession {
            received,
            totals,
            key,
            tag_fail_total: 0,
            tag_fail_per_chunk: HashMap::new(),
            e2ee_aborted: false,
        };
        assert(s.received_view() =~= Seq::new(items@.len(), |i: int| Seq::<u32>::empty()));
        assert(s.failures() =~= Map::<u64, u32>::empty());
        s
    }
}

/// Two records hold the same authentication-failure counts and abort flag.
pub open spec fn same_failures(a: ReceiverSession, b: ReceiverSession) -> bool {
    &&& a.fail_total() == b.fail_total()
    &&& a.failures() == b.failures()
    &&& a.aborted() == b.aborted()
}

/// The plaintext chunk length of a transfer, by whether it is encrypted.
pub open spec fn chunk_len_for(encrypted: bool) -> nat {
    if encrypted {
        (MAX_PAYLOAD_LENGTH - GCM_TAG_LEN) as nat
    } else {
        MAX_PAYLOAD_LENGTH as nat
    }
}

impl ReceiverSession {
    /// Judges one frame from the sender. In order: a frame shorter than a header is
    /// skipped; a header that does not decode stops the receiver; a payload whose length or
    /// checksum does not match gets a NACK; an encrypted payload that does not authenticate
    /// (under the chunk's own nonce, whatever the header says) counts as an authentication
    /// failure, and gets a NACK until the failures reach the limit, which aborts; a frame
    /// about an item the offer does not have is skipped; anything else is stored at its
    /// chunk's offset and acknowledged.
    pub fn on_frame(&mut self, frame: &[u8]) -> (r: FrameVerdict)
        requires
            old(self).wf(),
            !old(self).aborted(),
        ensures
            final(self).wf(),
            final(self).received_view() == old(self).received_view(),
            final(self).totals_view() == old(self).totals_view(),
            final(self).key_view() == old(self).key_view(),
            ({
                let f = frame@;
                let item = read_u32(f, 20);
                let chunk = read_u32(f, 24);
                let sid = f.subrange(4, 20);
                let w = frame_payload_of(f);
                let n = old(self).totals_view().len();
                let valid = f.len() >= HEADER_SIZE && spec_decode_error(f) is None;
                &&& f.len() < HEADER_SIZE ==> r is Skip && same_failures(*old(self), *final(self))
                &&& f.len() >= HEADER_SIZE && spec_decode_error(f) is Some ==> r is Stop
                    && same_failures(*old(self), *final(self))
                &&& valid && frame_damaged(f) ==> (r matches FrameVerdict::Nack(b) && b@
                    == control_frame(false, sid, item, chunk)) && same_failures(
                    *old(self),
                    *final(self),
                )
                &&& valid && !frame_damaged(f) ==> {
                    &&& r is Store || r is Skip || r is Nack || r is AbortAuth
                    &&& r is Skip ==> item >= n && same_failures(*old(self), *final(self))
                    &&& r matches FrameVerdict::Store { item_index, chunk_index, offset, payload, ack }
                        ==> {
                        &&& item_index == item && chunk_index == chunk && item < n
                        &&& offset == chunk * chunk_len_for(old(self).key_view() is Some)
                        &&& ack@ == control_frame(true, sid, item, chunk)
                        &&& match old(self).key_view() {
                            None => payload@ == w,
                            Some(k) => spec_aes256gcm_seal(k, spec_data_nonce(item, chunk), payload@)
                                == w,
                        }
                        &&& same_failures(*old(self), *final(self))
                    }
                    &&& old(self).key_view() is None ==> !(r is Nack || r is AbortAuth)
                    &&& (old(self).key_view() matches Some(k) && frame_opens(k, f)) ==> !(r is Nack
                        || r is AbortAuth)
                    &&& (old(self).key_view() matches Some(k) && !frame_opens(k, f)) ==> (r is Nack
                        || r is AbortAuth)
                    &&& (r is Nack || r is AbortAuth) ==> {
                        let key = chunk_key(item, chunk);
                        let per = failures_of(old(self).failures(), key) + 1;
                        &&& old(self).key_view() matches Some(k) && !frame_opens(k, f)
                        &&& final(self).fail_total() == old(self).fail_total() + 1
                        &&& final(self).failures() == old(self).failures().insert(key, per as u32)
                        &&& (r is AbortAuth <==> (per >= TAG_FAIL_LIMIT || final(self).fail_total()
                            >= TAG_FAIL_LIMIT))
                        &&& final(self).aborted() == r is AbortAuth
                        &&& r matches FrameVerdict::Nack(b) ==> b@ == control_frame(
                            false,
                            sid,
                            item,
                            chunk,
                        )
                    }
                }
            }),
    {
        if frame.len() < HEADER_SIZE {
            return FrameVerdict::Skip;
        }
        let header = match BinaryHeader::decode(frame) {
            Ok(h) => h,
            Err(_) => {
                return FrameVerdict::Stop;
            },
        };
        let wire = vstd::slice::slice_subrange(frame, HEADER_SIZE, frame.len());
        assert(wire@ =~= frame_payload_of(frame@));
        if header.verify_crc32(wire).is_err() {
            return FrameVerdict::Nack(
                control_frame_bytes(false, header.session_id, header.item_index, header.chunk_index),
            );
        }
        let encrypted = self.key.is_some();
        let payload: Vec<u8> = match &self.key {
            Some(k) => {
                let nonce = data_nonce(header.item_index, header.chunk_index);
                match open(k, nonce, wire) {
                    Ok(pt) => {
                        proof {
                            assert(spec_aes256gcm_seal(
                                k@,
                                spec_data_nonce(read_u32(frame@, 20), read_u32(frame@, 24)),
                                pt@,
                            ) == frame_payload_of(frame@));
                        }
                        pt
                    },
                    Err(_) => {
                        proof {
                            let key = chunk_key(header.item_index, header.chunk_index);
                            if self.tag_fail_per_chunk@.contains_key(key) {
                                assert(self.tag_fail_per_chunk@[key] <= self.tag_fail_total);
                            }
                            if frame_opens(k@, frame@) {
                                let p = choose|p: Seq<u8>|
                                    p.len() <= AES_GCM_MAX_INPUT_LEN && #[trigger] spec_aes256gcm_seal(
                                        k@,
                                        spec_data_nonce(header.item_index, header.chunk_index),
                                        p,
                                    ) == frame_payload_of(frame@);
                                assert(spec_aes256gcm_seal(k@, nonce@, p) == wire@);
                            }
                        }
                        let trip = record_tag_failure(
                            &mut self.tag_fail_per_chunk,
                            &mut self.tag_fail_total,
                            header.item_index,
                            header.chunk_index,
                        );
                        if trip {
                            self.e2ee_aborted = true;
                            return FrameVerdict::AbortAuth;
                        }
                        return FrameVerdict::Nack(
                            control_frame_bytes(
                                false,
                                header.session_id,
                                header.item_index,
                                header.chunk_index,
                            ),
                        );
                    },
                }
            },
            None => vstd::slice::slice_to_vec(wire),
        };
        if header.item_index as usize >= self.totals.len() {
            return FrameVerdict::Skip;
        }
        let chunk_len = plaintext_chunk_len(encrypted);
        assert((header.chunk_index as u64) * (chunk_len as u64) <= u32::MAX * MAX_PAYLOAD_LENGTH)
            by (nonlinear_arith)
            requires
                chunk_len <= MAX_PAYLOAD_LENGTH,
        ;
        let offset: u64 = (header.chunk_index as u64) * (chunk_len as u64);
        let ack = control_frame_bytes(true, header.session_id, header.item_index, header.chunk_index);
        FrameVerdict::Store {
            item_index: header.item_index,
            chunk_index: header.chunk_index,
            offset,
            payload,
            ack,
        }
    }
}

/// Every item has as many distinct chunks written as it has chunks.
pub open spec fn all_items_done(received: Seq<Seq<u32>>, totals: Seq<u32>) -> bool {
    forall|i: int| 0 <= i < received.len() ==> (#[trigger] received[i]).len() == totals[i]
}

/// The record after chunk `chunk_index` of item `item_index` is written: the chunk is added
/// to its item's list unless it is already there.
pub open spec fn stored_after(received: Seq<Seq<u32>>, item_index: u32, chunk_index: u32) -> Seq<
    Seq<u32>,
> {
    if received[item_index as int].contains(chunk_index) {
        received
    } else {
        received.update(item_index as int, received[item_index as int].push(chunk_index))
    }
}

/// The record after every chunk of `plan` is written, in order.
pub open spec fn stored_all(received: Seq<Seq<u32>>, plan: Seq<PlannedChunk>) -> Seq<Seq<u32>>
    decreases plan.len(),
{
    if plan.len() == 0 {
        received
    } else {
        stored_after(stored_all(received, plan.drop_last()), plan.last().item_index, plan.last().chunk_index)
    }
}

/// The chunk indices `0, 1, ..., n - 1`.
pub open spec fn first_chunks(n: nat) -> Seq<u32> {
    Seq::new(n, |c: int| c as u32)
}

proof fn lemma_stored_all_append(received: Seq<Seq<u32>>, a: Seq<PlannedChunk>, b: Seq<PlannedChunk>)
    ensures
        stored_all(received, a + b) == stored_all(stored_all(received, a), b),
    decreases b.len(),
{
    if b.len() == 0 {
        assert(a + b =~= a);
    } else {
        assert((a + b).drop_last() =~= a + b.drop_last());
        assert((a + b).last() == b.last());
        lemma_stored_all_append(received, a, b.drop_last());
    }
}

/// Writing the first `c` chunks of the item at position `k`, into a record whose entry for
/// that item is empty, lists exactly those chunks and changes no other item.
proof fn lemma_store_item_prefix(
    received: Seq<Seq<u32>>,
    it: TransferItemPayload,
    k: int,
    chunk_len: nat,
    c: int,
)
    requires
        0 <= k < received.len(),
        k <= u32::MAX,
        it.item_index == k,
        received[k] == Seq::<u32>::empty(),
        0 <= c <= it.total_chunks,
    ensures
        stored_all(received, item_plan(it, k, chunk_len).take(c)).len() == received.len(),
        stored_all(received, item_plan(it, k, chunk_len).take(c))[k] == first_chunks(c as nat),
        forall|j: int|
            0 <= j < received.len() && j != k ==> #[trigger] stored_all(
                received,
                item_plan(it, k, chunk_len).take(c),
            )[j] == received[j],
    decreases c,
{
    let ip = item_plan(it, k, chunk_len);
    if c == 0 {
        assert(ip.take(0) =~= Seq::<PlannedChunk>::empty());
        assert(first_chunks(0) =~= Seq::<u32>::empty());
    } else {
        lemma_store_item_prefix(received, it, k, chunk_len, c - 1);
        assert(ip.take(c).drop_last() =~= ip.take(c - 1));
        let prev = stored_all(received, ip.take(c - 1));
        let pc = ip.take(c).last();
        assert(pc == planned_chunk(it, k, chunk_len, (c - 1) as nat));
        assert(pc.item_index == k);
        assert(pc.chunk_index == (c - 1) as u32);
        assert(!prev[k].contains((c - 1) as u32)) by {
            if prev[k].contains((c - 1) as u32) {
                let q = choose|q: int| 0 <= q < prev[k].len() && prev[k][q] == (c - 1) as u32;
                assert(prev[k][q] == q as u32);
            }
        }
        assert(prev[k].push((c - 1) as u32) =~= first_chunks(c as nat));
    }
}

/// The record before item `k` of the plan was written: the items before it complete, the
/// rest empty.
proof fn lemma_store_plan_prefix(items: Seq<TransferItemPayload>, chunk_len: nat, k: int)
    requires
        0 <= k <= items.len(),
        items.len() <= u32::MAX + 1,
        forall|i: int| 0 <= i < items.len() ==> (#[trigger] items[i]).item_index == i,
    ensures
        ({
            let r = stored_all(
                Seq::new(items.len(), |i: int| Seq::<u32>::empty()),
                spec_plan(items.take(k), chunk_len, None),
            );
            &&& r.len() == items.len()
            &&& forall|i: int| 0 <= i < k ==> #[trigger] r[i] == first_chunks(items[i].total_chunks as nat)
            &&& forall|i: int| k <= i < items.len() ==> #[trigger] r[i] == Seq::<u32>::empty()
        }),
    decreases k,
{
    let empty = Seq::new(items.len(), |i: int| Seq::<u32>::empty());
    if k == 0 {
        assert(items.take(0) =~= Seq::<TransferItemPayload>::empty());
    } else {
        lemma_store_plan_prefix(items, chunk_len, k - 1);
        let pre = items.take(k);
        assert(pre.drop_last() =~= items.take(k - 1));
        assert(pre.last() == items[k - 1]);
        let before = stored_all(empty, spec_plan(items.take(k - 1), chunk_len, None));
        let ip = item_plan(items[k - 1], k - 1, chunk_len);
        assert(spec_plan(pre, chunk_len, None) == spec_plan(items.take(k - 1), chunk_len, None) + ip);
        lemma_stored_all_append(empty, spec_plan(items.take(k - 1), chunk_len, None), ip);
        lemma_store_item_prefix(before, items[k - 1], k - 1, chunk_len, items[k - 1].total_chunks as int);
        assert(ip.take(items[k - 1].total_chunks as int) =~= ip);
    }
}

/// A receiver that writes every chunk the sender plans (each item numbered by its position,
/// as offers are built) ends with every item complete: a whole transfer completes.
pub proof fn lemma_whole_plan_completes(items: Seq<TransferItemPayload>, chunk_len: nat)
    requires
        items.len() <= u32::MAX + 1,
        forall|i: int| 0 <= i < items.len() ==> (#[trigger] items[i]).item_index == i,
    ensures
        all_items_done(
            stored_all(
                Seq::new(items.len(), |i: int| Seq::<u32>::empty()),
                spec_plan(items, chunk_len, None),
            ),
            items.map_values(|it: TransferItemPayload| it.total_chunks),
        ),
{
    lemma_store_plan_prefix(items, chunk_len, items.len() as int);
    assert(items.take(items.len() as int) =~= items);
    let r = stored_all(Seq::new(items.len(), |i: int| Seq::<u32>::empty()), spec_plan(items, chunk_len, None));
    assert forall|i: int| 0 <= i < r.len() implies (#[trigger] r[i]).len() == items.map_values(
        |it: TransferItemPayload| it.total_chunks,
    )[i] by {
        assert(r[i] == first_chunks(items[i].total_chunks as nat));
    }
}

impl ReceiverSession {
    /// Records that chunk `chunk_index` of the item at `item_index` was written. Tells
    /// whether it is new (its bytes then count as received) and whether every item now has
    /// all its chunks.
    pub fn on_stored(&mut self, item_index: u32, chunk_index: u32) -> (r: (bool, bool))
        requires
            old(self).wf(),
            item_index < old(self).totals_view().len(),
        ensures
            final(self).wf(),
            r.0 == !old(self).received_view()[item_index as int].contains(chunk_index),
            final(self).received_view() == stored_after(old(self).received_view(), item_index, chunk_index),
            r.1 == all_items_done(final(self).received_view(), final(self).totals_view()),
            final(self).totals_view() == old(self).totals_view(),
            final(self).key_view() == old(self).key_view(),
            same_failures(*old(self), *final(self)),
    {
        let i = item_index as usize;
        let ghost old_rv = self.received_view();
        let ghost old_vecs = self.received@;
        let mut seen = false;
        let m = self.received[i].len();
        let mut k: usize = 0;
        while k < m
            invariant
                k <= m,
                i < self.received@.len(),
                self.received@ == old_vecs,
                m == self.received@[i as int]@.len(),
                seen == (exists|j: int| 0 <= j < k && self.received@[i as int]@[j] == chunk_index),
            decreases m - k,
        {
            if self.received[i][k] == chunk_index {
                seen = true;
            }
            k = k + 1;
        }
        assert(old_rv[i as int] == old_vecs[i as int]@);
        assert(seen == old_rv[i as int].contains(chunk_index));
        let new = !seen;
        if new {
            let mut v = self.received.remove(i);
            v.push(chunk_index);
            self.received.insert(i, v);
            proof {
                let pushed = old_rv[i as int].push(chunk_index);
                assert(old_vecs[i as int]@.no_duplicates());
                assert(pushed.no_duplicates()) by {
                    assert forall|a: int, b: int|
                        0 <= a < pushed.len() && 0 <= b < pushed.len() && a != b implies pushed[a]
                        != pushed[b] by {
                        if a == pushed.len() - 1 {
                            assert(old_rv[i as int][b] == pushed[b]);
                        } else if b == pushed.len() - 1 {
                            assert(old_rv[i as int][a] == pushed[a]);
                        }
                    }
                }
                assert(self.received@.len() == old_vecs.len());
                assert forall|j: int| 0 <= j < self.received@.len() implies self.received@[j]
                    == (if j == i as int { v } else { old_vecs[j] }) by {}
                assert(self.received_view() =~= old_rv.update(i as int, pushed));
                assert forall|j: int| 0 <= j < self.received@.len() implies (
                #[trigger] self.received@[j])@.no_duplicates() by {
                    if j != i as int {
                        assert(old_vecs[j]@.no_duplicates());
                    }
                }
            }
        }
        let n = self.totals.len();
        let mut done = true;
        let mut j: usize = 0;
        while j < n
            invariant
                j <= n,
                n == self.totals@.len(),
                self.received@.len() == n,
                done == (forall|q: int| 0 <= q < j ==> (#[trigger] self.received_view()[q]).len()
                    == self.totals_view()[q]),
            decreases n - j,
        {
            assert(self.received_view()[j as int] == self.received@[j as int]@);
            if (self.received[j].len() as u128) != (self.totals[j] as u128) {
                done = false;
            }
            j = j + 1;
        }
        (new, done)
    }

    /// Whether the transfer is complete: every item has all its chunks written, and the
    /// SHA-256 of every written file (`digests`, one per item in offer order) is the hash
    /// its offer declared, the letters' case aside. Only then may the transfer be reported
    /// as completed.
    pub fn completion_verdict(&self, items: &[TransferItemPayload], digests: &[[u8; 32]]) -> (ok: bool)
        requires
            self.wf(),
            digests@.len() == items@.len(),
        ensures
            ok == (all_items_done(self.received_view(), self.totals_view()) && forall|k: int|
                0 <= k < items@.len() ==> eq_ignore_ascii_case(
                    items@[k].sha256@,
                    hex_lower(#[trigger] digests@[k]@),
                )),
    {
        let n = self.totals.len();
        let mut j: usize = 0;
        while j < n
            invariant
                j <= n,
                n == self.totals@.len(),
                self.received@.len() == n,
                forall|q: int| 0 <= q < j ==> (#[trigger] self.received_view()[q]).len()
                    == self.totals_view()[q],
            decreases n - j,
        {
            assert(self.received_view()[j as int] == self.received@[j as int]@);
            if (self.received[j].len() as u128) != (self.totals[j] as u128) {
                return false;
            }
            j = j + 1;
        }
        let m = items.len();
        let mut k: usize = 0;
        while k < m
            invariant
                k <= m,
                m == items@.len(),
                m == digests@.len(),
                forall|q: int|
                    0 <= q < k ==> eq_ignore_ascii_case(
                        items@[q].sha256@,
                        hex_lower(#[trigger] digests@[q]@),
                    ),
            decreases m - k,
        {
            if !digest_matches_hex(items[k].sha256.as_str(), &digests[k]) {
                return false;
            }
            k = k + 1;
        }
        true
    }

    /// The reason recorded when the transfer does not complete, and whether a generic
    /// failure signal must still be sent: after an authentication abort the precise failure
    /// has already been signalled and must not be overwritten.
    pub fn failure_outcome(&self) -> (r: (&'static str, bool))
        ensures
            r.0@ == (if self.aborted() {
                "内容校验失败：两端密钥可能不一致，或数据在传输中被篡改"@
            } else {
                "接收连接中断或校验失败"@
            }),
            r.1 == !self.aborted(),
    {
        if self.e2ee_aborted {
            ("内容校验失败：两端密钥可能不一致，或数据在传输中被篡改", false)
        } else {
            ("接收连接中断或校验失败", true)
        }
    }
}

/// Every frame the sender builds passes the receiver's checks: it is long enough, its header
/// decodes and names the chunk it carries, its payload matches the declared length and
/// checksum, and, when it is sealed with the session key, it authenticates under the
/// chunk's nonce. So the receiver stores it (for an item of the offer), and never answers it
/// with a NACK or an abort.
pub proof fn lemma_receiver_accepts_sent_frames(
    session_id: Seq<u8>,
    item_index: u32,
    chunk_index: u32,
    total_chunks: u32,
    plaintext: Seq<u8>,
    key: Option<Seq<u8>>,
)
    requires
        session_id.len() == 16,
        frame_payload(key, item_index, chunk_index, plaintext).len() <= MAX_PAYLOAD_LENGTH,
        key is Some ==> plaintext.len() <= AES_GCM_MAX_INPUT_LEN,
    ensures
        ({
            let payload = frame_payload(key, item_index, chunk_index, plaintext);
            let f = spec_data_frame(
                session_id,
                item_index,
                chunk_index,
                total_chunks,
                payload,
                if key is Some {
                    spec_data_nonce(item_index, chunk_index)
                } else {
                    zeros(12)
                },
                data_frame_flags(chunk_index, total_chunks, key is Some),
            );
            &&& f.len() >= HEADER_SIZE
            &&& spec_decode_error(f) is None
            &&& read_u32(f, 20) == item_index
            &&& read_u32(f, 24) == chunk_index
            &&& frame_payload_of(f) == payload
            &&& !frame_damaged(f)
            &&& (key matches Some(k) ==> frame_opens(k, f))
        }),
{
    let payload = frame_payload(key, item_index, chunk_index, plaintext);
    let nonce = if key is Some {
        spec_data_nonce(item_index, chunk_index)
    } else {
        zeros(12)
    };
    let flags = data_frame_flags(chunk_index, total_chunks, key is Some);
    let f = spec_data_frame(session_id, item_index, chunk_index, total_chunks, payload, nonce, flags);
    assert(spec_data_nonce(item_index, chunk_index).len() == 12);
    assert(nonce.len() == 12);
    lemma_data_frame_decodes(session_id, item_index, chunk_index, total_chunks, payload, nonce, flags);
    lemma_u32_bytes(item_index);
    lemma_u32_bytes(chunk_index);
    lemma_u32_bytes(payload.len() as u32);
    lemma_u32_bytes(spec_crc32(payload));
    assert(f.skip(HEADER_SIZE as int) =~= payload);
    assert(read_u32(f, 20) == item_index);
    assert(read_u32(f, 24) == chunk_index);
    assert(read_u32(f, 32) == payload.len() as u32);
    assert(read_u32(f, 36) == spec_crc32(payload));
    if let Some(k) = key {
        assert(spec_aes256gcm_seal(k, spec_data_nonce(read_u32(f, 20), read_u32(f, 24)), plaintext)
            == frame_payload_of(f));
    }
}

// ----- what the receiver tells the user -----

/// What goes to the clipboard after a completed transfer.
#[derive(Debug, Clone, Copy, PartialEq, Eq, Structural)]
pub enum ClipboardDelivery {
    /// The received text file's content.
    Text,
    /// The received PNG.
    Image,
    /// The received files, as a file list.
    Files,
    /// Nothing.
    Nothing,
}

/// The notification after a completed transfer and what goes to the clipboard. Text and
/// images go to the clipboard when the session still belongs to the current account;
/// otherwise (and for files) the notification names the items and says where they are, and
/// files go to the clipboard when auto-inject is on, the session is still owned and some file
/// was verified.
pub open spec fn spec_completion_notice(
    data_type: Seq<char>,
    still_owned: bool,
    peer: Option<Seq<char>>,
    total_items: nat,
    total_size: int,
    preview_summary: Seq<char>,
    auto_inject: bool,
    any_completed: bool,
) -> (Seq<char>, Seq<char>, ClipboardDelivery) {
    if data_type == "TEXT"@ && still_owned {
        (
            match peer {
                Some(name) => "来自 "@ + name + " 的文本"@,
                None => "UniDrop 文本已同步"@,
            },
            "已写入系统剪贴板，可直接粘贴"@,
            ClipboardDelivery::Text,
        )
    } else if data_type == "IMAGE"@ && still_owned {
        (
            match peer {
                Some(name) => "来自 "@ + name + " 的图片"@,
                None => "UniDrop 图片已同步"@,
            },
            "已写入系统剪贴板，可直接粘贴"@,
            ClipboardDelivery::Image,
        )
    } else {
        (
            match peer {
                Some(name) => "来自 "@ + name + " 的文件 ("@ + dec_string(total_items) + "项, "@
                    + spec_human_size(total_size) + ")"@,
                None => "UniDrop 文件接收完成 ("@ + dec_string(total_items) + "项)"@,
            },
            preview_summary + if auto_inject {
                " (已自动装载至剪贴板)"@
            } else {
                " (已保存在沙盒，可在面板中点击装载)"@
            },
            if auto_inject && still_owned && any_completed {
                ClipboardDelivery::Files
            } else {
                ClipboardDelivery::Nothing
            },
        )
    }
}

/// Builds the notification after a completed transfer, and what goes to the clipboard.
pub fn completion_notice(
    data_type: &str,
    still_owned: bool,
    peer: Option<&str>,
    total_items: usize,
    total_size: i64,
    preview_summary: &str,
    auto_inject: bool,
    any_completed: bool,
) -> (r: (String, String, ClipboardDelivery))
    ensures
        ({
            let want = spec_completion_notice(
                data_type@,
                still_owned,
                match peer {
                    Some(p) => Some(p@),
                    None => None::<Seq<char>>,
                },
                total_items as nat,
                total_size as int,
                preview_summary@,
                auto_inject,
                any_completed,
            );
            r.0@ == want.0 && r.1@ == want.1 && r.2 == want.2
        }),
{
    let is_text = str_eq(data_type, "TEXT");
    let is_image = str_eq(data_type, "IMAGE");
    if is_text && still_owned {
        let title = match peer {
            Some(name) => {
                let mut t = chars_of("来自 ");
                push_str(&mut t, name);
                push_str(&mut t, " 的文本");
                string_from_chars(t)
            },
            None => "UniDrop 文本已同步".to_owned(),
        };
        return (title, "已写入系统剪贴板，可直接粘贴".to_owned(), ClipboardDelivery::Text);
    }
    if is_image && still_owned {
        let title = match peer {
            Some(name) => {
                let mut t = chars_of("来自 ");
                push_str(&mut t, name);
                push_str(&mut t, " 的图片");
                string_from_chars(t)
            },
            None => "UniDrop 图片已同步".to_owned(),
        };
        return (title, "已写入系统剪贴板，可直接粘贴".to_owned(), ClipboardDelivery::Image);
    }
    let title = match peer {
        Some(name) => {
            let mut t = chars_of("来自 ");
            push_str(&mut t, name);
            push_str(&mut t, " 的文件 (");
            push_dec(&mut t, total_items as u64);
            push_str(&mut t, "项, ");
            let size = human_size(total_size);
            push_str(&mut t, size.as_str());
            push_str(&mut t, ")");
            string_from_chars(t)
        },
        None => {
            let mut t = chars_of("UniDrop 文件接收完成 (");
            push_dec(&mut t, total_items as u64);
            push_str(&mut t, "项)");
            string_from_chars(t)
        },
    };
    let mut body = chars_of(preview_summary);
    if auto_inject {
        push_str(&mut body, " (已自动装载至剪贴板)");
    } else {
        push_str(&mut body, " (已保存在沙盒，可在面板中点击装载)");
    }
    let delivery = if auto_inject && still_owned && any_completed {
        ClipboardDelivery::Files
    } else {
        ClipboardDelivery::Nothing
    };
    (title, string_from_chars(body), delivery)
}

/// How a cached session goes back onto the clipboard, by its data type (an unknown session
/// counts as files), and the message shown afterwards.
pub fn session_injection(data_type: Option<&str>) -> (r: (ClipboardDelivery, &'static str))
    ensures
        match data_type {
            Some(t) if t@ == "TEXT"@ => r.0 == ClipboardDelivery::Text && r.1@ == "文本已写入系统剪贴板"@,
            Some(t) if t@ == "IMAGE"@ => r.0 == ClipboardDelivery::Image && r.1@ == "图片已写入系统剪贴板"@,
            _ => r.0 == ClipboardDelivery::Files && r.1@ == "文件已装载至系统剪贴板，可直接粘贴"@,
        },
{
    match data_type {
        Some(t) => {
            if str_eq(t, "TEXT") {
                (ClipboardDelivery::Text, "文本已写入系统剪贴板")
            } else if str_eq(t, "IMAGE") {
                (ClipboardDelivery::Image, "图片已写入系统剪贴板")
            } else {
                (ClipboardDelivery::Files, "文件已装载至系统剪贴板，可直接粘贴")
            }
        },
        None => (ClipboardDelivery::Files, "文件已装载至系统剪贴板，可直接粘贴"),
    }
}

/// The title of the notification when the receiver cannot reach the data plane.
pub fn receive_failure_title(peer: Option<&str>) -> (r: String)
    ensures
        r@ == (match peer {
            Some(name) => "来自 "@ + name@ + " 的接收失败"@,
            None => "UniDrop 接收失败"@,
        }),
{
    match peer {
        Some(name) => {
            let mut t = chars_of("来自 ");
            push_str(&mut t, name);
            push_str(&mut t, " 的接收失败");
            string_from_chars(t)
        },
        None => "UniDrop 接收失败".to_owned(),
    }
}

} // verus!
