//! Building the TRANSFER_OFFER of a transfer: items, chunk counts, hashes and the preview.
//!
//! The chunk length comes only from `plaintext_chunk_len`, the same place the sender's
//! chunking and the receiver's write offsets take it from.

use vstd::prelude::*;
use crate::digest::{sha256, spec_sha256, hex_encode, hex_lower, uuid_string, uuid_text};
use crate::engine::e2ee::{SessionKey, plaintext_chunk_len, E2EE_VERSION, GCM_TAG_LEN};
use crate::protocol::binary_header::MAX_PAYLOAD_LENGTH;
use crate::protocol::envelope::{
    TransferAnswerPayload, TransferOfferPayload, TransferItemPayload, TransferOfferView,
    TransferItemView,
};
use crate::size_text::{push_scaled, scaled_string, KIB, MIB};
use crate::text::{
    chars_of, push_chars, push_str, push_dec, sub_chars, str_eq, string_from_chars, dec_string,
    utf8_lossy, spec_utf8_lossy,
};

verus! {

/// Where the sender reads chunk payloads from: files (by path) or a buffer in memory
/// (clipboard text or image).
#[derive(Debug, Clone)]
pub enum TransferSource {
    Files(Vec<String>),
    Memory(Vec<u8>),
}

/// What the application found at one path offered for sending.
#[derive(Debug, Clone)]
pub enum PathProbe {
    /// The path could not be read; it is skipped.
    Unreadable,
    /// The path is a directory; directories are not expanded, it is skipped.
    Directory,
    /// A regular file: its name, its size and the SHA-256 digest of its content.
    File { name: String, size: u64, digest: [u8; 32] },
}

pub enum PathProbeView {
    Unreadable,
    Directory,
    File { name: Seq<char>, size: u64, digest: Seq<u8> },
}

impl View for PathProbe {
    type V = PathProbeView;

    open spec fn view(&self) -> PathProbeView {
        match self {
            PathProbe::Unreadable => PathProbeView::Unreadable,
            PathProbe::Directory => PathProbeView::Directory,
            PathProbe::File { name, size, digest } => PathProbeView::File {
                name: name@,
                size: *size,
                digest: digest@,
            },
        }
    }
}

/// The offer builder. The running transfers themselves live with the application.
pub struct TransferEngine;

/// The chunk length of a transfer, encrypted or not.
pub open spec fn spec_chunk_len(encrypted: bool) -> nat {
    if encrypted {
        (MAX_PAYLOAD_LENGTH - GCM_TAG_LEN) as nat
    } else {
        MAX_PAYLOAD_LENGTH as nat
    }
}

/// `ceil(size / chunk_len)`, as the `u32` the header carries.
pub open spec fn chunk_count(size: nat, chunk_len: nat) -> u32 {
    ((size + chunk_len - 1) / (chunk_len as int)) as u32
}

fn chunk_count_of(size: u64, chunk_len: u64) -> (n: u32)
    requires
        chunk_len > 0,
    ensures
        n == chunk_count(size as nat, chunk_len as nat),
{
    let a: u128 = size as u128 + chunk_len as u128 - 1;
    (a / (chunk_len as u128)) as u32
}

/// The preview of clipboard text: its first fifty characters, and "…" when there is more.
pub open spec fn text_preview(t: Seq<char>) -> Seq<char> {
    "文本: "@ + t.take(if t.len() < 50 {
        t.len() as int
    } else {
        50
    }) + (if t.len() > 50 {
        "…"@
    } else {
        Seq::empty()
    })
}

/// The preview of a clipboard image: its size in whole kilobytes, or in megabytes with one
/// decimal from one megabyte on.
pub open spec fn image_preview(n: nat) -> Seq<char> {
    if n >= MIB {
        "图片 ("@ + scaled_string(n, MIB as nat, 1) + " MB)"@
    } else {
        "图片 ("@ + scaled_string(n, KIB as nat, 0) + " KB)"@
    }
}

/// The preview of in-memory content of the given type.
pub open spec fn bytes_preview(data_type: Seq<char>, name: Seq<char>, bytes: Seq<u8>) -> Seq<char> {
    if data_type == "TEXT"@ {
        text_preview(spec_utf8_lossy(bytes))
    } else if data_type == "IMAGE"@ {
        image_preview(bytes.len())
    } else {
        name
    }
}

/// The offer for in-memory content.
pub open spec fn offer_from_bytes(
    session_id: Seq<u8>,
    data_type: Seq<char>,
    name: Seq<char>,
    bytes: Seq<u8>,
    encrypted: bool,
) -> TransferOfferView {
    TransferOfferView {
        session_id: uuid_text(session_id),
        data_type,
        total_size: bytes.len() as i64,
        total_items: 1,
        preview_summary: bytes_preview(data_type, name, bytes),
        encrypted,
        e2ee_version: if encrypted {
            Some(E2EE_VERSION)
        } else {
            None
        },
        encrypted_metadata: None,
        items: seq![
            TransferItemView {
                item_index: 0,
                relative_path: name,
                size: bytes.len() as i64,
                is_dir: false,
                sha256: hex_lower(spec_sha256(bytes)),
                total_chunks: chunk_count(bytes.len(), spec_chunk_len(encrypted)),
            },
        ],
    }
}

/// The item of the `k`-th readable file.
pub open spec fn file_item(p: PathProbeView, k: int, chunk_len: nat) -> TransferItemView {
    match p {
        PathProbeView::File { name, size, digest } => TransferItemView {
            item_index: k as u32,
            relative_path: name,
            size: size as i64,
            is_dir: false,
            sha256: hex_lower(digest),
            total_chunks: if size == 0 {
                1u32
            } else {
                chunk_count(size as nat, chunk_len)
            },
        },
        _ => arbitrary(),
    }
}

/// The positions of the readable files among the probes, in order.
pub open spec fn file_positions(ps: Seq<PathProbeView>) -> Seq<int>
    decreases ps.len(),
{
    if ps.len() == 0 {
        Seq::empty()
    } else {
        let r = file_positions(ps.drop_last());
        if ps.last() is File {
            r.push(ps.len() - 1)
        } else {
            r
        }
    }
}

/// The total size of the readable files.
pub open spec fn files_total(ps: Seq<PathProbeView>) -> int
    decreases ps.len(),
{
    if ps.len() == 0 {
        0
    } else {
        files_total(ps.drop_last()) + match ps.last() {
            PathProbeView::File { size, .. } => size as int,
            _ => 0,
        }
    }
}

/// The items of a files offer: one per readable file, numbered in order.
pub open spec fn files_items(ps: Seq<PathProbeView>, chunk_len: nat) -> Seq<TransferItemView> {
    file_positions(ps).map(|k: int, pos: int| file_item(ps[pos], k, chunk_len))
}

/// The preview of a files offer: the single name, or "first 等 n 个文件".
pub open spec fn files_summary(items: Seq<TransferItemView>) -> Seq<char> {
    if items.len() == 1 {
        items[0].relative_path
    } else {
        items[0].relative_path + " 等 "@ + dec_string(items.len()) + " 个文件"@
    }
}

/// The offer for the readable files among `ps`.
pub open spec fn files_offer(session_id: Seq<u8>, ps: Seq<PathProbeView>, encrypted: bool) -> TransferOfferView {
    let items = files_items(ps, spec_chunk_len(encrypted));
    TransferOfferView {
        session_id: uuid_text(session_id),
        data_type: "FILES"@,
        total_size: files_total(ps) as i64,
        total_items: items.len() as usize,
        preview_summary: files_summary(items),
        encrypted,
        e2ee_version: if encrypted {
            Some(E2EE_VERSION)
        } else {
            None
        },
        encrypted_metadata: None,
        items,
    }
}

pub open spec fn probes_view(ps: Seq<PathProbe>) -> Seq<PathProbeView> {
    ps.map_values(|p: PathProbe| p@)
}

proof fn lemma_file_positions_bounds(ps: Seq<PathProbeView>)
    ensures
        forall|k: int|
            0 <= k < file_positions(ps).len() ==> 0 <= #[trigger] file_positions(ps)[k] < ps.len()
                && ps[file_positions(ps)[k]] is File,
    decreases ps.len(),
{
    if ps.len() > 0 {
        lemma_file_positions_bounds(ps.drop_last());
    }
}

proof fn lemma_files_total_grows(ps: Seq<PathProbeView>, i: int)
    requires
        0 <= i <= ps.len(),
    ensures
        files_total(ps.take(i)) <= files_total(ps),
        0 <= files_total(ps.take(i)),
    decreases ps.len(),
{
    if i < ps.len() {
        lemma_files_total_grows(ps.drop_last(), i);
        assert(ps.drop_last().take(i) =~= ps.take(i));
    } else {
        assert(ps.take(i) =~= ps);
        if ps.len() > 0 {
            lemma_files_total_grows(ps.drop_last(), ps.len() - 1);
            assert(ps.drop_last().take(ps.len() - 1) =~= ps.drop_last());
        }
    }
}

/// `size` bytes cut into pieces of `chunk_len` need exactly `n` chunks: `n` chunks hold every
/// byte, and one chunk fewer would not.
proof fn lemma_ceiling_count(size: int, chunk_len: int)
    requires
        0 < size,
        0 < chunk_len,
        size <= 0xFFFF_FFFF * chunk_len,
    ensures
        chunk_count(size as nat, chunk_len as nat) * chunk_len >= size,
        (chunk_count(size as nat, chunk_len as nat) - 1) * chunk_len < size,
        chunk_count(size as nat, chunk_len as nat) >= 1,
{
    let a = size + chunk_len - 1;
    let q = a / chunk_len;
    let r = a % chunk_len;
    vstd::arithmetic::div_mod::lemma_fundamental_div_mod(a, chunk_len);
    assert(0 <= r < chunk_len) by {
        vstd::arithmetic::div_mod::lemma_mod_bound(a, chunk_len);
    }
    assert(a == chunk_len * q + r);
    assert(q * chunk_len >= size) by (nonlinear_arith)
        requires
            a == chunk_len * q + r,
            r < chunk_len,
            a == size + chunk_len - 1,
    ;
    assert((q - 1) * chunk_len < size) by (nonlinear_arith)
        requires
            a == chunk_len * q + r,
            0 <= r,
            a == size + chunk_len - 1,
    ;
    assert(q <= 0xFFFF_FFFF) by (nonlinear_arith)
        requires
            q * chunk_len <= size + chunk_len - 1,
            size <= 0xFFFF_FFFF * chunk_len,
            0 < chunk_len,
    {
        if q > 0xFFFF_FFFF {
            assert(q * chunk_len >= 0x1_0000_0000 * chunk_len);
        }
    }
    assert(q >= 1) by (nonlinear_arith)
        requires
            q * chunk_len >= size,
            0 < size,
            0 < chunk_len,
    ;
    assert(chunk_count(size as nat, chunk_len as nat) == q);
}

/// Every byte of every offered file is planned: the item of the `k`-th readable file carries
/// the least number of chunks that holds the whole file (`n` chunks of the transfer's chunk
/// length cover its size, `n - 1` do not), and an empty file still takes one chunk. (A file
/// larger than `u32::MAX` chunks cannot be counted in the header's `u32` at all.)
pub proof fn lemma_offered_chunks_cover_each_file(
    session_id: Seq<u8>,
    ps: Seq<PathProbeView>,
    encrypted: bool,
    k: int,
)
    requires
        0 <= k < files_offer(session_id, ps, encrypted).items.len(),
    ensures
        ({
            let it = files_offer(session_id, ps, encrypted).items[k];
            let len: int = if encrypted {
                4194304 - 16
            } else {
                4194304
            };
            let probe = ps[file_positions(ps)[k]];
            &&& probe is File
            &&& probe->size == 0 ==> it.total_chunks == 1
            &&& 0 < probe->size <= 0xFFFF_FFFF * len ==> {
                &&& it.total_chunks * len >= probe->size
                &&& (it.total_chunks - 1) * len < probe->size
            }
        }),
{
    let len = spec_chunk_len(encrypted);
    assert(len == (if encrypted { 4194304 - 16 } else { 4194304 }));
    lemma_file_positions_bounds(ps);
    let pos = file_positions(ps)[k];
    let probe = ps[pos];
    assert(files_offer(session_id, ps, encrypted).items[k] == file_item(probe, k, len));
    if 0 < probe->size <= 0xFFFF_FFFF * len {
        lemma_ceiling_count(probe->size as int, len as int);
    }
}

impl TransferEngine {
    /// The offer for the files of a FILES transfer, from what was found at each path:
    /// unreadable paths and directories are skipped, every readable file becomes an item
    /// numbered in order and carrying the lowercase hex of its file's SHA-256 digest. Besides
    /// the offer it gives the positions of those files among the
    /// probes, one for one with the items. With a key the offer is marked encrypted (the
    /// metadata is sealed later, on a copy) and chunks leave room for the AEAD tag.
    pub fn prepare_offer(
        session_id: &[u8; 16],
        probes: &Vec<PathProbe>,
        e2ee_key: Option<&SessionKey>,
    ) -> (r: Result<(TransferOfferPayload, Vec<usize>), String>)
        requires
            files_total(probes_view(probes@)) <= i64::MAX,
        ensures
            r is Err <==> file_positions(probes_view(probes@)).len() == 0,
            r matches Err(e) ==> e@ == "No valid readable files to send"@,
            r matches Ok((o, valid)) ==> {
                &&& o@ == files_offer(session_id@, probes_view(probes@), e2ee_key is Some)
                &&& valid@.len() == file_positions(probes_view(probes@)).len()
                &&& forall|k: int|
                    0 <= k < valid@.len() ==> valid@[k] == file_positions(probes_view(probes@))[k]
                &&& forall|k: int|
                    0 <= k < valid@.len() ==> (#[trigger] probes@[valid@[k] as int] matches PathProbe::File {
                        digest,
                        ..
                    } && o.items@[k].sha256@ == hex_lower(digest@))
                &&& forall|k: int|
                    0 <= k < valid@.len() ==> (#[trigger] probes@[valid@[k] as int] matches PathProbe::File {
                        size,
                        ..
                    } && (size == 0 ==> o.items@[k].total_chunks == 1) && (0 < size <= 0xFFFF_FFFF * (if e2ee_key is Some {
                        4194304 - 16
                    } else {
                        4194304
                    }) ==> o.items@[k].total_chunks * (if e2ee_key is Some {
                        4194304 - 16
                    } else {
                        4194304
                    }) >= size && (o.items@[k].total_chunks - 1) * (if e2ee_key is Some {
                        4194304 - 16
                    } else {
                        4194304
                    }) < size))
            },
    {
        let ghost ps = probes_view(probes@);
        let encrypted = e2ee_key.is_some();
        let chunk_len = plaintext_chunk_len(encrypted) as u64;
        let mut items: Vec<TransferItemPayload> = Vec::new();
        let mut valid: Vec<usize> = Vec::new();
        let mut total: i64 = 0;
        let n = probes.len();
        let mut i: usize = 0;
        assert(ps.take(0) =~= Seq::<PathProbeView>::empty());
        while i < n
            invariant
                i <= n,
                n == probes@.len(),
                ps == probes_view(probes@),
                chunk_len == spec_chunk_len(encrypted),
                files_total(ps) <= i64::MAX,
                total == files_total(ps.take(i as int)),
                valid@.len() == file_positions(ps.take(i as int)).len(),
                forall|k: int| 0 <= k < valid@.len() ==> valid@[k] == file_positions(ps.take(i as int))[k],
                items@.map_values(|it: TransferItemPayload| it@) == files_items(ps.take(i as int), chunk_len as nat),
            decreases n - i,
        {
            let ghost before = ps.take(i as int);
            let ghost after = ps.take(i + 1);
            assert(after.drop_last() =~= before);
            assert(after.last() == ps[i as int]);
            proof {
                lemma_files_total_grows(ps, i + 1);
                lemma_files_total_grows(ps, i as int);
            }
            let ghost old_items = items@.map_values(|it: TransferItemPayload| it@);
            match &probes[i] {
                PathProbe::File { name, size, digest } => {
                    assert(ps[i as int] == PathProbeView::File {
                        name: name@,
                        size: *size,
                        digest: digest@,
                    });
                    assert(files_total(after) == files_total(before) + *size);
                    assert(files_total(after) <= files_total(ps));
                    assert(0 <= files_total(before));
                    assert(total + *size <= i64::MAX);
                    let k = items.len();
                    let total_chunks: u32 = if *size == 0 {
                        1
                    } else {
                        chunk_count_of(*size, chunk_len)
                    };
                    total = total + (*size as i64);
                    items.push(
                        TransferItemPayload {
                            item_index: k as u32,
                            relative_path: name.clone(),
                            size: *size as i64,
                            is_dir: false,
                            sha256: hex_encode(digest),
                            total_chunks,
                        },
                    );
                    valid.push(i);
                    assert(file_positions(after) == file_positions(before).push(i as int));
                    proof {
                        lemma_file_positions_bounds(before);
                        assert forall|j: int| 0 <= j < old_items.len() implies #[trigger] files_items(
                            after,
                            chunk_len as nat,
                        )[j] == files_items(before, chunk_len as nat)[j] by {
                            let pos = file_positions(before)[j];
                            assert(after[pos] == before[pos]);
                        }
                        assert(files_items(after, chunk_len as nat).len() == old_items.len() + 1);
                        assert(files_items(after, chunk_len as nat)[old_items.len() as int] == file_item(
                            ps[i as int],
                            k as int,
                            chunk_len as nat,
                        ));
                    }
                    assert(items@.map_values(|it: TransferItemPayload| it@) =~= files_items(
                        after,
                        chunk_len as nat,
                    ));
                },
                _ => {
                    assert(file_positions(after) == file_positions(before));
                    proof {
                        lemma_file_positions_bounds(before);
                        assert forall|j: int| 0 <= j < old_items.len() implies #[trigger] files_items(
                            after,
                            chunk_len as nat,
                        )[j] == files_items(before, chunk_len as nat)[j] by {
                            let pos = file_positions(before)[j];
                            assert(after[pos] == before[pos]);
                        }
                    }
                    assert(files_items(after, chunk_len as nat) =~= files_items(before, chunk_len as nat));
                },
            }
            i = i + 1;
        }
        assert(ps.take(n as int) =~= ps);
        if items.len() == 0 {
            return Err("No valid readable files to send".to_owned());
        }
        let count = items.len();
        let summary = if count == 1 {
            items[0].relative_path.clone()
        } else {
            let mut s = chars_of(items[0].relative_path.as_str());
            push_str(&mut s, " 等 ");
            push_dec(&mut s, count as u64);
            push_str(&mut s, " 个文件");
            string_from_chars(s)
        };
        let offer = TransferOfferPayload {
            session_id: uuid_string(session_id),
            data_type: "FILES".to_owned(),
            total_size: total,
            total_items: count,
            preview_summary: summary,
            encrypted,
            e2ee_version: if encrypted {
                Some(E2EE_VERSION)
            } else {
                None
            },
            encrypted_metadata: None,
            items,
        };
        assert(offer@ =~= files_offer(session_id@, ps, encrypted));
        proof {
            lemma_file_positions_bounds(ps);
            assert forall|k: int| 0 <= k < valid@.len() implies (#[trigger] probes@[valid@[k] as int] matches PathProbe::File {
                digest,
                ..
            } && offer.items@[k].sha256@ == hex_lower(digest@)) by {
                let pos = file_positions(ps)[k];
                assert(ps[pos] == probes@[pos]@);
                assert(offer@.items[k] == offer.items@[k]@);
                assert(offer@.items[k] == file_item(ps[pos], k, spec_chunk_len(encrypted)));
            }
            assert forall|k: int| 0 <= k < valid@.len() implies (#[trigger] probes@[valid@[k] as int] matches PathProbe::File {
                size,
                ..
            } && (size == 0 ==> offer.items@[k].total_chunks == 1) && (0 < size <= 0xFFFF_FFFF * (if e2ee_key is Some {
                4194304 - 16
            } else {
                4194304
            }) ==> offer.items@[k].total_chunks * (if e2ee_key is Some {
                4194304 - 16
            } else {
                4194304
            }) >= size && (offer.items@[k].total_chunks - 1) * (if e2ee_key is Some {
                4194304 - 16
            } else {
                4194304
            }) < size)) by {
                let pos = file_positions(ps)[k];
                assert(ps[pos] == probes@[pos]@);
                assert(offer@.items[k] == offer.items@[k]@);
                lemma_offered_chunks_cover_each_file(session_id@, ps, encrypted, k);
            }
        }
        Ok((offer, valid))
    }

    /// The offer for in-memory content (clipboard text or image): one item holding all of
    /// `bytes`, its SHA-256, and a preview that depends on the type. Empty content is refused.
    pub fn prepare_offer_from_bytes(
        session_id: &[u8; 16],
        data_type: &str,
        name: &str,
        bytes: Vec<u8>,
        e2ee_key: Option<&SessionKey>,
    ) -> (r: Result<(TransferOfferPayload, TransferSource), String>)
        ensures
            r is Err <==> bytes@.len() == 0,
            r matches Err(e) ==> e@ == "Empty payload"@,
            r matches Ok((o, src)) ==> {
                &&& o@ == offer_from_bytes(session_id@, data_type@, name@, bytes@, e2ee_key is Some)
                &&& src matches TransferSource::Memory(b) && b@ == bytes@
            },
    {
        if bytes.len() == 0 {
            return Err("Empty payload".to_owned());
        }
        let size: i64 = bytes.len() as i64;
        let digest = sha256(bytes.as_slice());
        let hash = hex_encode(&digest);
        let encrypted = e2ee_key.is_some();
        let chunk_len = plaintext_chunk_len(encrypted) as u64;
        let total_chunks = chunk_count_of(bytes.len() as u64, chunk_len);
        let preview_summary = if str_eq(data_type, "TEXT") {
            let text = utf8_lossy(bytes.as_slice());
            let cs = chars_of(text.as_str());
            let mut out = chars_of("文本: ");
            let k = if cs.len() < 50 {
                cs.len()
            } else {
                50
            };
            let head = sub_chars(&cs, 0, k);
            push_chars(&mut out, &head);
            if cs.len() > 50 {
                push_str(&mut out, "…");
            }
            assert(out@ =~= text_preview(text@));
            string_from_chars(out)
        } else if str_eq(data_type, "IMAGE") {
            let n = bytes.len() as u64;
            let mut out = chars_of("图片 (");
            if n >= MIB {
                push_scaled(&mut out, n, MIB, 1);
                push_str(&mut out, " MB)");
            } else {
                push_scaled(&mut out, n, KIB, 0);
                push_str(&mut out, " KB)");
            }
            string_from_chars(out)
        } else {
            name.to_owned()
        };
        let offer = TransferOfferPayload {
            session_id: uuid_string(session_id),
            data_type: data_type.to_owned(),
            total_size: size,
            total_items: 1,
            preview_summary,
            encrypted,
            e2ee_version: if encrypted {
                Some(E2EE_VERSION)
            } else {
                None
            },
            encrypted_metadata: None,
            items: vec![
                TransferItemPayload {
                    item_index: 0,
                    relative_path: name.to_owned(),
                    size,
                    is_dir: false,
                    sha256: hash,
                    total_chunks,
                },
            ],
        };
        assert(offer@.items =~= offer_from_bytes(session_id@, data_type@, name@, bytes@, encrypted).items);
        Ok((offer, TransferSource::Memory(bytes)))
    }
}

/// The reason sent back with an encrypted offer this side cannot open.
pub const E2EE_KEY_MISMATCH: &'static str = "E2EE_KEY_MISMATCH";

/// The answer to an arriving offer: accepted unless it was refused for want of the right
/// key; no resumed items and no token (the relay assigns the token).
pub fn answer_for_offer(session_id: &str, refused: bool) -> (a: TransferAnswerPayload)
    ensures
        a.session_id@ == session_id@,
        a.accepted == !refused,
        refused ==> (a.reject_reason matches Some(r) && r@ == E2EE_KEY_MISMATCH@),
        !refused ==> a.reject_reason is None,
        a.resumed_items@.len() == 0,
        a.token is None,
{
    TransferAnswerPayload {
        session_id: session_id.to_owned(),
        accepted: !refused,
        reject_reason: if refused {
            Some(E2EE_KEY_MISMATCH.to_owned())
        } else {
            None
        },
        resumed_items: Vec::new(),
        token: None,
    }
}

} // verus!
