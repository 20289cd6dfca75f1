//! The fixed 64-byte frame header of the data plane.
//!
//! Layout (all integers big-endian):
//! `magic:2 | version:1 | chunk_type:1 | session_id:16 | item_index:4 | chunk_index:4 |
//!  total_chunks:4 | payload_len:4 | checksum:4 | nonce:12 | flags:4 | reserved:8`.

use vstd::prelude::*;

verus! {

pub const HEADER_SIZE: usize = 64;

/// "UD"
pub const MAGIC_NUMBER: u16 = 0x5544;

pub const CURRENT_VERSION: u8 = 0x01;

/// 4 MiB: the largest payload a single frame may carry.
pub const MAX_PAYLOAD_LENGTH: u32 = 4194304;

pub const FLAG_ENCRYPTED: u32 = 1;

pub const FLAG_COMPRESSED: u32 = 2;

pub const FLAG_LAST_CHUNK: u32 = 4;

#[derive(Debug, Clone, Copy, PartialEq, Eq)]
pub enum ChunkType {
    Data,
    Ack,
    Nack,
    Probe,
}

/// Why a header could not be encoded, decoded or checked.
#[derive(Debug, Clone, Copy, PartialEq, Eq)]
pub enum HeaderError {
    /// The buffer is shorter than [`HEADER_SIZE`].
    BufferTooSmall,
    InvalidMagic(u16),
    UnsupportedVersion(u8),
    UnknownChunkType(u8),
    PayloadTooLarge(u32),
    PayloadLengthMismatch,
    Crc32Mismatch { declared: u32, actual: u32 },
}

impl ChunkType {
    /// The wire code of the chunk type.
    pub open spec fn spec_code(self) -> u8 {
        match self {
            ChunkType::Data => 1u8,
            ChunkType::Ack => 2u8,
            ChunkType::Nack => 3u8,
            ChunkType::Probe => 4u8,
        }
    }

    /// The chunk type a wire code stands for, if any.
    pub open spec fn spec_from_code(v: u8) -> Option<ChunkType> {
        if v == 1 {
            Some(ChunkType::Data)
        } else if v == 2 {
            Some(ChunkType::Ack)
        } else if v == 3 {
            Some(ChunkType::Nack)
        } else if v == 4 {
            Some(ChunkType::Probe)
        } else {
            None
        }
    }

    pub fn code(&self) -> (c: u8)
        ensures
            c == self.spec_code(),
    {
        match self {
            ChunkType::Data => 1u8,
            ChunkType::Ack => 2u8,
            ChunkType::Nack => 3u8,
            ChunkType::Probe => 4u8,
        }
    }

    /// Reads a wire code; unknown codes are rejected.
    pub fn try_from(v: u8) -> (r: Result<ChunkType, HeaderError>)
        ensures
            r == (match ChunkType::spec_from_code(v) {
                Some(t) => Ok(t),
                None => Err(HeaderError::UnknownChunkType(v)),
            }),
    {
        if v == 1 {
            Ok(ChunkType::Data)
        } else if v == 2 {
            Ok(ChunkType::Ack)
        } else if v == 3 {
            Ok(ChunkType::Nack)
        } else if v == 4 {
            Ok(ChunkType::Probe)
        } else {
            Err(HeaderError::UnknownChunkType(v))
        }
    }
}

/// Every chunk type reads back from its own code.
pub proof fn lemma_chunk_code_roundtrip(t: ChunkType)
    ensures
        ChunkType::spec_from_code(t.spec_code()) == Some(t),
{
}

/// `k` steps of the reflected CRC-32 (IEEE) register: shift right, and where a one bit
/// falls out, fold in the reversed polynomial `0xEDB88320`.
pub open spec fn crc32_shift(reg: u32, k: nat) -> u32
    decreases k,
{
    if k == 0 {
        reg
    } else {
        let r = crc32_shift(reg, (k - 1) as nat);
        if r & 1 == 1 {
            (r >> 1) ^ 0xEDB8_8320u32
        } else {
            r >> 1
        }
    }
}

/// The CRC-32 register after the bytes of `data`, starting from all ones: each byte is
/// folded into the low bits and shifted through eight times.
pub open spec fn crc32_register(data: Seq<u8>) -> u32
    decreases data.len(),
{
    if data.len() == 0 {
        0xFFFF_FFFFu32
    } else {
        crc32_shift(crc32_register(data.drop_last()) ^ (data.last() as u32), 8)
    }
}

/// The CRC-32 (IEEE 802.3, as in zlib and PNG) checksum of some bytes: the final register,
/// complemented.
#[verifier::opaque]
pub open spec fn spec_crc32(data: Seq<u8>) -> u32 {
    crc32_register(data) ^ 0xFFFF_FFFFu32
}

/// Calls `crc32fast::hash`, the CRC-32 (IEEE) of `data`.
#[verifier::external_body]
pub fn compute_crc32(data: &[u8]) -> (crc: u32)
    ensures
        crc == spec_crc32(data@),
{
    crc32fast::hash(data)
}

/// `n` zero bytes.
pub open spec fn zeros(n: nat) -> Seq<u8> {
    Seq::new(n, |i: int| 0u8)
}

pub open spec fn be_u16(b0: u8, b1: u8) -> u16 {
    (((b0 as u16) << 8u16) | (b1 as u16)) as u16
}

pub open spec fn be_u32(b0: u8, b1: u8, b2: u8, b3: u8) -> u32 {
    (((b0 as u32) << 24u32) | ((b1 as u32) << 16u32) | ((b2 as u32) << 8u32) | (b3 as u32)) as u32
}

pub open spec fn u16_be_bytes(x: u16) -> Seq<u8> {
    seq![(x >> 8u16) as u8, x as u8]
}

pub open spec fn u32_be_bytes(x: u32) -> Seq<u8> {
    seq![(x >> 24u32) as u8, (x >> 16u32) as u8, (x >> 8u32) as u8, x as u8]
}

/// The big-endian `u32` stored at `at`.
pub open spec fn read_u32(s: Seq<u8>, at: int) -> u32 {
    be_u32(s[at], s[at + 1], s[at + 2], s[at + 3])
}

/// Reading back the four big-endian bytes of `x` gives `x`.
pub proof fn lemma_u32_bytes(x: u32)
    ensures
        be_u32((x >> 24u32) as u8, (x >> 16u32) as u8, (x >> 8u32) as u8, x as u8) == x,
{
    assert(be_u32((x >> 24u32) as u8, (x >> 16u32) as u8, (x >> 8u32) as u8, x as u8) == x)
        by (bit_vector);
}

proof fn lemma_bytes_u32(b0: u8, b1: u8, b2: u8, b3: u8)
    ensures
        u32_be_bytes(be_u32(b0, b1, b2, b3)) == seq![b0, b1, b2, b3],
{
    let x = be_u32(b0, b1, b2, b3);
    assert((x >> 24u32) as u8 == b0 && (x >> 16u32) as u8 == b1 && (x >> 8u32) as u8 == b2
        && x as u8 == b3) by (bit_vector)
        requires
            x == (((b0 as u32) << 24u32) | ((b1 as u32) << 16u32) | ((b2 as u32) << 8u32) | (
            b3 as u32)) as u32,
    ;
    assert(u32_be_bytes(x) =~= seq![b0, b1, b2, b3]);
}

proof fn lemma_u16_bytes(x: u16)
    ensures
        be_u16((x >> 8u16) as u8, x as u8) == x,
{
    assert(be_u16((x >> 8u16) as u8, x as u8) == x) by (bit_vector);
}

proof fn lemma_bytes_u16(b0: u8, b1: u8)
    ensures
        u16_be_bytes(be_u16(b0, b1)) == seq![b0, b1],
{
    let x = be_u16(b0, b1);
    assert((x >> 8u16) as u8 == b0 && x as u8 == b1) by (bit_vector)
        requires
            x == (((b0 as u16) << 8u16) | (b1 as u16)) as u16,
    ;
    assert(u16_be_bytes(x) =~= seq![b0, b1]);
}

#[derive(Debug, Clone, PartialEq, Eq)]
pub struct BinaryHeader {
    pub magic: u16,
    pub version: u8,
    pub chunk_type: ChunkType,
    pub session_id: [u8; 16],
    pub item_index: u32,
    pub chunk_index: u32,
    pub total_chunks: u32,
    pub payload_len: u32,
    pub checksum: u32,
    pub nonce: [u8; 12],
    pub flags: u32,
    pub reserved: [u8; 8],
}

/// The 64 bytes a header is written as.
pub open spec fn spec_encode(h: BinaryHeader) -> Seq<u8> {
    u16_be_bytes(h.magic) + seq![h.version, h.chunk_type.spec_code()] + h.session_id@
        + u32_be_bytes(h.item_index) + u32_be_bytes(h.chunk_index) + u32_be_bytes(h.total_chunks)
        + u32_be_bytes(h.payload_len) + u32_be_bytes(h.checksum) + h.nonce@ + u32_be_bytes(
        h.flags,
    ) + h.reserved@
}

/// The reason a byte string does not decode, or `None` when it does.
/// The checks come in this order: length, magic, version, chunk type, payload length.
pub open spec fn spec_decode_error(s: Seq<u8>) -> Option<HeaderError> {
    if s.len() < HEADER_SIZE {
        Some(HeaderError::BufferTooSmall)
    } else if be_u16(s[0], s[1]) != MAGIC_NUMBER {
        Some(HeaderError::InvalidMagic(be_u16(s[0], s[1])))
    } else if s[2] != CURRENT_VERSION {
        Some(HeaderError::UnsupportedVersion(s[2]))
    } else if ChunkType::spec_from_code(s[3]) is None {
        Some(HeaderError::UnknownChunkType(s[3]))
    } else if read_u32(s, 32) > MAX_PAYLOAD_LENGTH {
        Some(HeaderError::PayloadTooLarge(read_u32(s, 32)))
    } else {
        None
    }
}

/// `h` holds exactly the fields stored in the first 64 bytes of `s`.
pub open spec fn header_fields_of(h: BinaryHeader, s: Seq<u8>) -> bool {
    &&& s.len() >= HEADER_SIZE
    &&& h.magic == be_u16(s[0], s[1])
    &&& h.version == s[2]
    &&& ChunkType::spec_from_code(s[3]) == Some(h.chunk_type)
    &&& h.session_id@ == s.subrange(4, 20)
    &&& h.item_index == read_u32(s, 20)
    &&& h.chunk_index == read_u32(s, 24)
    &&& h.total_chunks == read_u32(s, 28)
    &&& h.payload_len == read_u32(s, 32)
    &&& h.checksum == read_u32(s, 36)
    &&& h.nonce@ == s.subrange(40, 52)
    &&& h.flags == read_u32(s, 52)
    &&& h.reserved@ == s.subrange(56, 64)
}

/// A header that `decode` accepts: right magic and version, payload within the limit.
pub open spec fn header_is_valid(h: BinaryHeader) -> bool {
    &&& h.magic == MAGIC_NUMBER
    &&& h.version == CURRENT_VERSION
    &&& h.payload_len <= MAX_PAYLOAD_LENGTH
}

fn put_u32(dst: &mut [u8], at: usize, x: u32)
    requires
        at + 4 <= old(dst)@.len(),
    ensures
        final(dst)@ == old(dst)@.subrange(0, at as int) + u32_be_bytes(x) + old(dst)@.subrange(
            at + 4,
            old(dst)@.len() as int,
        ),
{
    dst[at] = (x >> 24u32) as u8;
    dst[at + 1] = (x >> 16u32) as u8;
    dst[at + 2] = (x >> 8u32) as u8;
    dst[at + 3] = x as u8;
    assert(dst@ =~= old(dst)@.subrange(0, at as int) + u32_be_bytes(x) + old(dst)@.subrange(
        at + 4,
        old(dst)@.len() as int,
    ));
}

fn put_bytes(dst: &mut [u8], at: usize, src: &[u8])
    requires
        at + src@.len() <= old(dst)@.len(),
    ensures
        final(dst)@ == old(dst)@.subrange(0, at as int) + src@ + old(dst)@.subrange(
            at + src@.len(),
            old(dst)@.len() as int,
        ),
{
    let n = src.len();
    let mut i: usize = 0;
    while i < n
        invariant
            i <= n,
            n == src@.len(),
            at + n <= old(dst)@.len(),
            dst@.len() == old(dst)@.len(),
            dst@.len() == dst.len(),
            forall|k: int| 0 <= k < at ==> dst@[k] == old(dst)@[k],
            forall|k: int| at + n <= k < dst@.len() ==> dst@[k] == old(dst)@[k],
            forall|k: int| 0 <= k < i ==> dst@[at + k] == src@[k],
        decreases n - i,
    {
        dst[at + i] = src[i];
        i = i + 1;
    }
    assert(dst@ =~= old(dst)@.subrange(0, at as int) + src@ + old(dst)@.subrange(
        at + src@.len(),
        old(dst)@.len() as int,
    ));
}

fn get_u32(src: &[u8], at: usize) -> (x: u32)
    requires
        at + 4 <= src@.len(),
    ensures
        x == read_u32(src@, at as int),
{
    let b0 = src[at];
    let b1 = src[at + 1];
    let b2 = src[at + 2];
    let b3 = src[at + 3];
    (((b0 as u32) << 24u32) | ((b1 as u32) << 16u32) | ((b2 as u32) << 8u32) | (b3 as u32))
}

fn get_array16(src: &[u8], at: usize) -> (a: [u8; 16])
    requires
        at + 16 <= src@.len(),
    ensures
        a@ == src@.subrange(at as int, at + 16),
{
    let mut a = [0u8; 16];
    let mut i: usize = 0;
    while i < 16
        invariant
            i <= 16,
            at + 16 <= src.len(),
            a@.len() == 16,
            forall|k: int| 0 <= k < i ==> a@[k] == src@[at + k],
        decreases 16 - i,
    {
        a[i] = src[at + i];
        i = i + 1;
    }
    assert(a@ =~= src@.subrange(at as int, at + 16));
    a
}

fn get_array12(src: &[u8], at: usize) -> (a: [u8; 12])
    requires
        at + 12 <= src@.len(),
    ensures
        a@ == src@.subrange(at as int, at + 12),
{
    let mut a = [0u8; 12];
    let mut i: usize = 0;
    while i < 12
        invariant
            i <= 12,
            at + 12 <= src.len(),
            a@.len() == 12,
            forall|k: int| 0 <= k < i ==> a@[k] == src@[at + k],
        decreases 12 - i,
    {
        a[i] = src[at + i];
        i = i + 1;
    }
    assert(a@ =~= src@.subrange(at as int, at + 12));
    a
}

fn get_array8(src: &[u8], at: usize) -> (a: [u8; 8])
    requires
        at + 8 <= src@.len(),
    ensures
        a@ == src@.subrange(at as int, at + 8),
{
    let mut a = [0u8; 8];
    let mut i: usize = 0;
    while i < 8
        invariant
            i <= 8,
            at + 8 <= src.len(),
            a@.len() == 8,
            forall|k: int| 0 <= k < i ==> a@[k] == src@[at + k],
        decreases 8 - i,
    {
        a[i] = src[at + i];
        i = i + 1;
    }
    assert(a@ =~= src@.subrange(at as int, at + 8));
    a
}


impl BinaryHeader {
    /// A DATA header for `payload`: checksum over the payload, `FLAG_LAST_CHUNK` on the last
    /// chunk, zero nonce and reserved bytes.
    pub fn new_data(
        session_id: [u8; 16],
        item_index: u32,
        chunk_index: u32,
        total_chunks: u32,
        payload: &[u8],
    ) -> (h: BinaryHeader)
        requires
            chunk_index < u32::MAX,
        ensures
            h.magic == MAGIC_NUMBER,
            h.version == CURRENT_VERSION,
            h.chunk_type == ChunkType::Data,
            h.session_id == session_id,
            h.item_index == item_index,
            h.chunk_index == chunk_index,
            h.total_chunks == total_chunks,
            h.payload_len == payload@.len() as u32,
            h.checksum == spec_crc32(payload@),
            h.nonce@ == zeros(12),
            h.flags == (if chunk_index + 1 == total_chunks { FLAG_LAST_CHUNK } else { 0 }),
            h.reserved@ == zeros(8),
    {
        let checksum = compute_crc32(payload);
        let mut flags = 0u32;
        if chunk_index + 1 == total_chunks {
            flags = flags | FLAG_LAST_CHUNK;
            assert(0u32 | 4u32 == 4u32) by (bit_vector);
        }
        let h = BinaryHeader {
            magic: MAGIC_NUMBER,
            version: CURRENT_VERSION,
            chunk_type: ChunkType::Data,
            session_id,
            item_index,
            chunk_index,
            total_chunks,
            payload_len: payload.len() as u32,
            checksum,
            nonce: [0u8; 12],
            flags,
            reserved: [0u8; 8],
        };
        assert(h.nonce@ =~= zeros(12));
        assert(h.reserved@ =~= zeros(8));
        h
    }

    /// An ACK header for one chunk: no payload, every other field zero.
    pub fn new_ack(session_id: [u8; 16], item_index: u32, chunk_index: u32) -> (h: BinaryHeader)
        ensures
            h.is_control(ChunkType::Ack, session_id, item_index, chunk_index),
    {
        let h = BinaryHeader {
            magic: MAGIC_NUMBER,
            version: CURRENT_VERSION,
            chunk_type: ChunkType::Ack,
            session_id,
            item_index,
            chunk_index,
            total_chunks: 0,
            payload_len: 0,
            checksum: 0,
            nonce: [0u8; 12],
            flags: 0,
            reserved: [0u8; 8],
        };
        assert(h.nonce@ =~= zeros(12));
        assert(h.reserved@ =~= zeros(8));
        h
    }

    /// A NACK header for one chunk: no payload, every other field zero.
    pub fn new_nack(session_id: [u8; 16], item_index: u32, chunk_index: u32) -> (h: BinaryHeader)
        ensures
            h.is_control(ChunkType::Nack, session_id, item_index, chunk_index),
    {
        let h = BinaryHeader {
            magic: MAGIC_NUMBER,
            version: CURRENT_VERSION,
            chunk_type: ChunkType::Nack,
            session_id,
            item_index,
            chunk_index,
            total_chunks: 0,
            payload_len: 0,
            checksum: 0,
            nonce: [0u8; 12],
            flags: 0,
            reserved: [0u8; 8],
        };
        assert(h.nonce@ =~= zeros(12));
        assert(h.reserved@ =~= zeros(8));
        h
    }

    /// `self` is the acknowledgement-style header (ACK or NACK) of the given kind for one
    /// chunk: no payload, every other field zero.
    pub open spec fn is_control(
        self,
        chunk_type: ChunkType,
        session_id: [u8; 16],
        item_index: u32,
        chunk_index: u32,
    ) -> bool {
        &&& self.magic == MAGIC_NUMBER
        &&& self.version == CURRENT_VERSION
        &&& self.chunk_type == chunk_type
        &&& self.session_id == session_id
        &&& self.item_index == item_index
        &&& self.chunk_index == chunk_index
        &&& self.total_chunks == 0
        &&& self.payload_len == 0
        &&& self.checksum == 0
        &&& self.nonce@ == zeros(12)
        &&& self.flags == 0
        &&& self.reserved@ == zeros(8)
    }

    /// Writes the header into the first 64 bytes of `dst`; the rest of `dst` is untouched.
    /// A buffer shorter than 64 bytes is refused and left as it was.
    pub fn encode(&self, dst: &mut [u8]) -> (r: Result<(), HeaderError>)
        ensures
            old(dst)@.len() < HEADER_SIZE ==> r == Err::<(), HeaderError>(
                HeaderError::BufferTooSmall,
            ) && final(dst)@ == old(dst)@,
            old(dst)@.len() >= HEADER_SIZE ==> r is Ok && final(dst)@ == spec_encode(*self)
                + old(dst)@.subrange(HEADER_SIZE as int, old(dst)@.len() as int),
    {
        if dst.len() < HEADER_SIZE {
            return Err(HeaderError::BufferTooSmall);
        }
        let ghost d0 = dst@;
        let ghost tail = d0.subrange(HEADER_SIZE as int, d0.len() as int);
        let ghost p0 = u16_be_bytes(self.magic) + seq![self.version, self.chunk_type.spec_code()];
        let ghost p1 = p0 + self.session_id@;
        let ghost p2 = p1 + u32_be_bytes(self.item_index);
        let ghost p3 = p2 + u32_be_bytes(self.chunk_index);
        let ghost p4 = p3 + u32_be_bytes(self.total_chunks);
        let ghost p5 = p4 + u32_be_bytes(self.payload_len);
        let ghost p6 = p5 + u32_be_bytes(self.checksum);
        let ghost p7 = p6 + self.nonce@;
        let ghost p8 = p7 + u32_be_bytes(self.flags);
        let ghost p9 = p8 + self.reserved@;
        dst[0] = (self.magic >> 8u16) as u8;
        dst[1] = self.magic as u8;
        dst[2] = self.version;
        dst[3] = self.chunk_type.code();
        assert(dst@.subrange(0, 4) =~= p0);
        put_bytes(dst, 4, &self.session_id);
        assert(dst@.subrange(0, 20) =~= p1);
        put_u32(dst, 20, self.item_index);
        assert(dst@.subrange(0, 24) =~= p2);
        put_u32(dst, 24, self.chunk_index);
        assert(dst@.subrange(0, 28) =~= p3);
        put_u32(dst, 28, self.total_chunks);
        assert(dst@.subrange(0, 32) =~= p4);
        put_u32(dst, 32, self.payload_len);
        assert(dst@.subrange(0, 36) =~= p5);
        put_u32(dst, 36, self.checksum);
        assert(dst@.subrange(0, 40) =~= p6);
        put_bytes(dst, 40, &self.nonce);
        assert(dst@.subrange(0, 52) =~= p7);
        put_u32(dst, 52, self.flags);
        assert(dst@.subrange(0, 56) =~= p8);
        put_bytes(dst, 56, &self.reserved);
        assert(dst@.subrange(0, 64) =~= p9);
        assert(dst@.subrange(64, dst@.len() as int) =~= tail);
        assert(p9 == spec_encode(*self));
        assert(dst@ =~= p9 + tail);
        Ok(())
    }

    /// Reads a header from the first 64 bytes of `src`.
    pub fn decode(src: &[u8]) -> (r: Result<BinaryHeader, HeaderError>)
        ensures
            r is Ok <==> spec_decode_error(src@) is None,
            r matches Ok(h) ==> header_fields_of(h, src@),
            r matches Err(e) ==> spec_decode_error(src@) == Some(e),
    {
        if src.len() < HEADER_SIZE {
            return Err(HeaderError::BufferTooSmall);
        }
        let magic: u16 = (((src[0] as u16) << 8u16) | (src[1] as u16));
        if magic != MAGIC_NUMBER {
            return Err(HeaderError::InvalidMagic(magic));
        }
        let version = src[2];
        if version != CURRENT_VERSION {
            return Err(HeaderError::UnsupportedVersion(version));
        }
        let chunk_type = match ChunkType::try_from(src[3]) {
            Ok(t) => t,
            Err(e) => return Err(e),
        };
        let session_id = get_array16(src, 4);
        let item_index = get_u32(src, 20);
        let chunk_index = get_u32(src, 24);
        let total_chunks = get_u32(src, 28);
        let payload_len = get_u32(src, 32);
        let checksum = get_u32(src, 36);
        let nonce = get_array12(src, 40);
        let flags = get_u32(src, 52);
        let reserved = get_array8(src, 56);
        if payload_len > MAX_PAYLOAD_LENGTH {
            return Err(HeaderError::PayloadTooLarge(payload_len));
        }
        Ok(BinaryHeader {
            magic,
            version,
            chunk_type,
            session_id,
            item_index,
            chunk_index,
            total_chunks,
            payload_len,
            checksum,
            nonce,
            flags,
            reserved,
        })
    }

    /// Checks a received payload against the declared length and checksum.
    /// The length is compared as `payload.len() as u32`.
    pub fn verify_crc32(&self, payload: &[u8]) -> (r: Result<(), HeaderError>)
        ensures
            r == (if payload@.len() as u32 != self.payload_len {
                Err(HeaderError::PayloadLengthMismatch)
            } else if spec_crc32(payload@) != self.checksum {
                Err(HeaderError::Crc32Mismatch { declared: self.checksum, actual: spec_crc32(payload@) })
            } else {
                Ok(())
            }),
    {
        if payload.len() as u32 != self.payload_len {
            return Err(HeaderError::PayloadLengthMismatch);
        }
        let actual = compute_crc32(payload);
        if actual != self.checksum {
            return Err(HeaderError::Crc32Mismatch { declared: self.checksum, actual });
        }
        Ok(())
    }
}

/// Decoding what was encoded gives the header back: a valid header's 64 bytes, followed by
/// anything, decode without error to exactly that header.
pub proof fn lemma_decode_encode(h: BinaryHeader, rest: Seq<u8>)
    requires
        header_is_valid(h),
    ensures
        spec_decode_error(spec_encode(h) + rest) is None,
        forall|g: BinaryHeader| header_fields_of(g, spec_encode(h) + rest) ==> g == h,
{
    let s = spec_encode(h) + rest;
    lemma_u16_bytes(h.magic);
    lemma_u32_bytes(h.item_index);
    lemma_u32_bytes(h.chunk_index);
    lemma_u32_bytes(h.total_chunks);
    lemma_u32_bytes(h.payload_len);
    lemma_u32_bytes(h.checksum);
    lemma_u32_bytes(h.flags);
    lemma_chunk_code_roundtrip(h.chunk_type);
    assert(s.len() == HEADER_SIZE + rest.len());
    assert(s[0] == (h.magic >> 8u16) as u8);
    assert(s[1] == h.magic as u8);
    assert(s[2] == h.version);
    assert(s[3] == h.chunk_type.spec_code());
    assert(s.subrange(4, 20) =~= h.session_id@);
    assert(s.subrange(40, 52) =~= h.nonce@);
    assert(s.subrange(56, 64) =~= h.reserved@);
    assert(read_u32(s, 20) == h.item_index);
    assert(read_u32(s, 24) == h.chunk_index);
    assert(read_u32(s, 28) == h.total_chunks);
    assert(read_u32(s, 32) == h.payload_len);
    assert(read_u32(s, 36) == h.checksum);
    assert(read_u32(s, 52) == h.flags);
    assert forall|g: BinaryHeader| header_fields_of(g, s) implies g == h by {
        assert(g.session_id@ =~= h.session_id@);
        assert(g.nonce@ =~= h.nonce@);
        assert(g.reserved@ =~= h.reserved@);
        vstd::array::axiom_array_ext_equal(g.session_id, h.session_id);
        vstd::array::axiom_array_ext_equal(g.nonce, h.nonce);
        vstd::array::axiom_array_ext_equal(g.reserved, h.reserved);
    }
}

/// Encoding what was decoded gives the bytes back: a header read from `s` is written as
/// exactly the first 64 bytes of `s`.
pub proof fn lemma_encode_decode(h: BinaryHeader, s: Seq<u8>)
    requires
        header_fields_of(h, s),
    ensures
        spec_encode(h) == s.subrange(0, HEADER_SIZE as int),
{
    lemma_bytes_u16(s[0], s[1]);
    lemma_bytes_u32(s[20], s[21], s[22], s[23]);
    lemma_bytes_u32(s[24], s[25], s[26], s[27]);
    lemma_bytes_u32(s[28], s[29], s[30], s[31]);
    lemma_bytes_u32(s[32], s[33], s[34], s[35]);
    lemma_bytes_u32(s[36], s[37], s[38], s[39]);
    lemma_bytes_u32(s[52], s[53], s[54], s[55]);
    let t = s[3];
    assert(h.chunk_type.spec_code() == t);
    assert(spec_encode(h) =~= s.subrange(0, HEADER_SIZE as int));
}

} // verus!
