//! The Windows clipboard's file list (`CF_HDROP`): a `DROPFILES` header followed by the
//! paths in UTF-16, each ended by a zero, and a final zero.
use vstd::prelude::*;

verus! {

/// The size of the `DROPFILES` header: `pFiles`, the drop point (x, y), `fNC` and `fWide`,
/// four bytes each.
pub const DROPFILES_SIZE: usize = 20;

/// How many times opening a busy clipboard is tried.
pub const OPEN_CLIPBOARD_ATTEMPTS: u32 = 5;

/// Four little-endian bytes.
pub open spec fn le_u32(x: u32) -> Seq<u8> {
    seq![(x % 256) as u8, ((x / 256) % 256) as u8, ((x / 65536) % 256) as u8, (x / 16777216) as u8]
}

/// The `DROPFILES` header: the file list starts right after it, at no drop point, in client
/// coordinates, with wide (UTF-16) names.
pub open spec fn dropfiles_header() -> Seq<u8> {
    le_u32(DROPFILES_SIZE as u32) + le_u32(0) + le_u32(0) + le_u32(0) + le_u32(1)
}

/// The UTF-16 units of the list: each path followed by a zero.
pub open spec fn wide_paths(paths: Seq<Seq<u16>>) -> Seq<u16>
    decreases paths.len(),
{
    if paths.len() == 0 {
        Seq::empty()
    } else {
        wide_paths(paths.drop_last()) + paths.last().push(0u16)
    }
}

/// Little-endian bytes of UTF-16 units.
pub open spec fn le_units(units: Seq<u16>) -> Seq<u8>
    decreases units.len(),
{
    if units.len() == 0 {
        Seq::empty()
    } else {
        le_units(units.drop_last()) + seq![(units.last() % 256) as u8, (units.last() / 256) as u8]
    }
}

/// The whole `CF_HDROP` payload: the header, then the paths, then the closing zero.
pub open spec fn spec_dropfiles_payload(paths: Seq<Seq<u16>>) -> Seq<u8> {
    dropfiles_header() + le_units(wide_paths(paths).push(0u16))
}

fn push_le_u32(out: &mut Vec<u8>, x: u32)
    ensures
        final(out)@ == old(out)@ + le_u32(x),
{
    out.push((x % 256) as u8);
    out.push(((x / 256) % 256) as u8);
    out.push(((x / 65536) % 256) as u8);
    out.push((x / 16777216) as u8);
    assert(final(out)@ =~= old(out)@ + le_u32(x));
}

fn push_unit(out: &mut Vec<u8>, units: Ghost<Seq<u16>>, u: u16)
    requires
        old(out)@ == le_units(units@),
    ensures
        final(out)@ == le_units(units@.push(u)),
{
    out.push((u % 256) as u8);
    out.push((u / 256) as u8);
    assert(units@.push(u).drop_last() =~= units@);
    assert(final(out)@ =~= le_units(units@) + seq![(u % 256) as u8, (u / 256) as u8]);
}

/// Builds the `CF_HDROP` payload for some paths given as UTF-16 units.
pub fn dropfiles_payload(paths: &[Vec<u16>]) -> (r: Vec<u8>)
    ensures
        r@ == spec_dropfiles_payload(paths@.map_values(|p: Vec<u16>| p@)),
{
    let ghost pv = paths@.map_values(|p: Vec<u16>| p@);
    let mut header: Vec<u8> = Vec::new();
    push_le_u32(&mut header, DROPFILES_SIZE as u32);
    push_le_u32(&mut header, 0);
    push_le_u32(&mut header, 0);
    push_le_u32(&mut header, 0);
    push_le_u32(&mut header, 1);
    assert(header@ =~= dropfiles_header());
    let mut body: Vec<u8> = Vec::new();
    let ghost mut units: Seq<u16> = Seq::empty();
    let n = paths.len();
    let mut i: usize = 0;
    while i < n
        invariant
            i <= n,
            n == paths@.len(),
            pv == paths@.map_values(|p: Vec<u16>| p@),
            units == wide_paths(pv.take(i as int)),
            body@ == le_units(units),
        decreases n - i,
    {
        assert(pv.take(i + 1).drop_last() =~= pv.take(i as int));
        assert(pv.take(i + 1).last() == paths@[i as int]@);
        let p = &paths[i];
        let m = p.len();
        let ghost start = units;
        let mut k: usize = 0;
        while k < m
            invariant
                k <= m,
                m == p@.len(),
                units == start + p@.take(k as int),
                body@ == le_units(units),
            decreases m - k,
        {
            push_unit(&mut body, Ghost(units), p[k]);
            proof {
                assert(start + p@.take(k + 1) =~= (start + p@.take(k as int)).push(p@[k as int]));
                units = units.push(p@[k as int]);
            }
            k = k + 1;
        }
        push_unit(&mut body, Ghost(units), 0u16);
        proof {
            assert(p@.take(m as int) =~= p@);
            assert(start + p@.push(0u16) =~= (start + p@).push(0u16));
            units = units.push(0u16);
        }
        i = i + 1;
    }
    assert(pv.take(n as int) =~= pv);
    push_unit(&mut body, Ghost(units), 0u16);
    let mut out = header;
    let mut j: usize = 0;
    let bl = body.len();
    let ghost h = out@;
    while j < bl
        invariant
            j <= bl,
            bl == body@.len(),
            out@ == h + body@.take(j as int),
        decreases bl - j,
    {
        out.push(body[j]);
        j = j + 1;
        assert(body@.take(j as int) =~= body@.take(j - 1).push(body@[j - 1]));
    }
    assert(body@.take(bl as int) =~= body@);
    out
}

/// The wait before retrying to open a busy clipboard after attempt `attempt` (counted from
/// zero): thirty milliseconds more each time.
pub fn open_retry_delay_ms(attempt: u32) -> (ms: u64)
    requires
        attempt < OPEN_CLIPBOARD_ATTEMPTS,
    ensures
        ms == 30 * (attempt + 1),
{
    30 * (attempt as u64 + 1)
}

} // verus!
