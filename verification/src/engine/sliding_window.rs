//! Selective-repeat sliding window with a Jacobson/Karels retransmission timer.
//!
//! Times are nanoseconds on one monotonic clock chosen by the caller (`now`), durations are
//! nanoseconds too, except the smoothed RTT estimators which are whole milliseconds.

use vstd::prelude::*;

verus! {

pub const MIN_RTO_MS: u64 = 500;

pub const MAX_RTO_MS: u64 = 15000;

pub const INITIAL_RTO_MS: u64 = 1500;

pub const MAX_RETRIES: u32 = 5;

pub const NANOS_PER_MILLI: u64 = 1000000;

/// A chunk that was sent and is not yet acknowledged.
#[derive(Debug, Clone, Copy, PartialEq, Eq)]
pub struct InFlightChunk {
    pub chunk_index: u32,
    /// When it was (last) sent, in nanoseconds.
    pub sent_at: u64,
    pub retries: u32,
}

pub struct SlidingWindow {
    pub window_size: usize,
    /// The lowest chunk index not yet acknowledged (or `total_chunks`).
    pub base_chunk: u32,
    pub total_chunks: u32,
    /// At most one entry per chunk index.
    pub in_flight: Vec<InFlightChunk>,
    /// Acknowledged chunk indices at or above `base_chunk` (every index below it is
    /// acknowledged by construction).
    pub acked_ahead: Vec<u32>,
    /// Smoothed round-trip time, milliseconds.
    pub srtt_ms: u64,
    /// Round-trip time variation, milliseconds.
    pub rttvar_ms: u64,
    /// Current retransmission timeout, nanoseconds.
    pub rto_ns: u64,
}

/// Bound kept on the estimators so that their arithmetic stays exact.
pub open spec fn rtt_bound() -> u64 {
    0x2000_0000_0000u64
}

/// The entry of `v` for chunk `c`, if any (entries are unique per chunk).
pub open spec fn entry_in(v: Seq<InFlightChunk>, c: u32) -> Option<InFlightChunk> {
    if exists|i: int| 0 <= i < v.len() && v[i].chunk_index == c {
        Some(v[choose|i: int| 0 <= i < v.len() && v[i].chunk_index == c])
    } else {
        None
    }
}

pub open spec fn unique_chunks(v: Seq<InFlightChunk>) -> bool {
    forall|i: int, j: int|
        0 <= i < v.len() && 0 <= j < v.len() && i != j ==> v[i].chunk_index != v[j].chunk_index
}

/// Map view of a unique-per-chunk list of in-flight entries.
pub open spec fn flight_map(v: Seq<InFlightChunk>) -> Map<u32, InFlightChunk> {
    Map::new(|c: u32| entry_in(v, c) is Some, |c: u32| entry_in(v, c)->Some_0)
}

proof fn lemma_entry_at(v: Seq<InFlightChunk>, i: int)
    requires
        unique_chunks(v),
        0 <= i < v.len(),
    ensures
        entry_in(v, v[i].chunk_index) == Some(v[i]),
        flight_map(v).dom().contains(v[i].chunk_index),
        flight_map(v)[v[i].chunk_index] == v[i],
{
    let c = v[i].chunk_index;
    assert(exists|k: int| 0 <= k < v.len() && v[k].chunk_index == c);
    let k = choose|k: int| 0 <= k < v.len() && v[k].chunk_index == c;
    assert(k == i);
}

proof fn lemma_entry_absent(v: Seq<InFlightChunk>, c: u32)
    requires
        forall|i: int| 0 <= i < v.len() ==> v[i].chunk_index != c,
    ensures
        entry_in(v, c) is None,
        !flight_map(v).dom().contains(c),
{
}

/// The next base after sliding over acknowledged chunks starting from `base`.
pub open spec fn slid_base(base: u32, total: u32, acked: Set<u32>, next: u32) -> bool {
    &&& base <= next <= total
    &&& forall|i: u32| base <= i < next ==> acked.contains(i)
    &&& (next == total || !acked.contains(next))
}

/// The retransmission timeout that Jacobson/Karels gives after one RTT sample, nanoseconds.
/// (Equal, for every value below 2^50 ms, to the floating-point computation
/// `srtt' = 0.875*srtt + 0.125*sample; rttvar' = 0.75*rttvar + 0.25*|srtt - sample|;
/// rto = clamp(srtt' + 4*rttvar', 500ms, 15s)` truncated to whole milliseconds.)
pub open spec fn rtt_update(srtt: u64, rttvar: u64, sample_ms: u64) -> (u64, u64, u64) {
    let diff: int = if srtt >= sample_ms { srtt - sample_ms } else { sample_ms - srtt };
    let var4: int = 3 * rttvar + diff;
    let srtt8: int = 7 * srtt + sample_ms;
    let new_rttvar: int = var4 / 4;
    let new_srtt: int = srtt8 / 8;
    let raw_rto: int = srtt8 / 8 + var4;
    let rto_ms: int = if raw_rto < MIN_RTO_MS {
        MIN_RTO_MS as int
    } else if raw_rto > MAX_RTO_MS {
        MAX_RTO_MS as int
    } else {
        raw_rto
    };
    (new_srtt as u64, new_rttvar as u64, (rto_ms * NANOS_PER_MILLI) as u64)
}

/// `now - then`, or zero when `then` lies after `now`.
pub open spec fn elapsed(now: u64, then: u64) -> u64 {
    if now >= then {
        (now - then) as u64
    } else {
        0
    }
}

/// The acknowledged indices of `acked` at or above `base`, in their order.
pub open spec fn acked_at_or_above(acked: Seq<u32>, base: u32) -> Seq<u32> {
    acked.filter(|x: u32| x >= base)
}

impl SlidingWindow {
    /// In-flight chunks by index.
    pub open spec fn in_flight_view(&self) -> Map<u32, InFlightChunk> {
        flight_map(self.in_flight@)
    }

    /// Acknowledged chunk indices.
    pub open spec fn acked_view(&self) -> Set<u32> {
        Set::new(|c: u32| c < self.base_chunk || self.acked_ahead@.contains(c))
    }

    pub open spec fn wf(&self) -> bool {
        &&& unique_chunks(self.in_flight@)
        &&& self.base_chunk <= self.total_chunks
        &&& self.srtt_ms <= rtt_bound()
        &&& self.rttvar_ms <= rtt_bound()
        &&& self.rto_ns <= MAX_RTO_MS * NANOS_PER_MILLI
        &&& self.base_at_first_gap()
    }

    /// The base is the first chunk not yet acknowledged (or the end): `new` makes it so and
    /// every operation keeps it, and it is what makes "complete" mean "every chunk
    /// acknowledged".
    pub open spec fn base_at_first_gap(&self) -> bool {
        self.base_chunk < self.total_chunks ==> !self.acked_view().contains(self.base_chunk)
    }

    /// `c` may be sent now: in range, inside the window, neither acknowledged nor in flight.
    pub open spec fn spec_can_send(&self, c: u32) -> bool {
        &&& c < self.total_chunks
        &&& (c as int) < self.base_chunk + self.window_size
        &&& !self.acked_view().contains(c)
        &&& !self.in_flight_view().dom().contains(c)
    }

    /// Every in-flight chunk lies inside the window, is a real chunk and is not acknowledged.
    pub open spec fn window_respected(&self) -> bool {
        forall|c: u32|
            #[trigger] self.in_flight_view().dom().contains(c) ==> {
                &&& self.base_chunk <= c
                &&& (c as int) < self.base_chunk + self.window_size
                &&& c < self.total_chunks
                &&& !self.acked_view().contains(c)
            }
    }

    pub fn new(total_chunks: u32, window_size: usize) -> (w: SlidingWindow)
        ensures
            w.wf(),
            w.window_size == window_size,
            w.total_chunks == total_chunks,
            w.base_chunk == 0,
            w.in_flight_view() == Map::<u32, InFlightChunk>::empty(),
            w.acked_view() == Set::<u32>::empty(),
            w.srtt_ms == 500,
            w.rttvar_ms == 250,
            w.rto_ns == INITIAL_RTO_MS * NANOS_PER_MILLI,
            w.window_respected(),
    {
        let w = SlidingWindow {
            window_size,
            base_chunk: 0,
            total_chunks,
            in_flight: Vec::new(),
            acked_ahead: Vec::new(),
            srtt_ms: 500,
            rttvar_ms: 250,
            rto_ns: INITIAL_RTO_MS * NANOS_PER_MILLI,
        };
        assert(w.in_flight_view() =~= Map::<u32, InFlightChunk>::empty());
        assert(w.acked_view() =~= Set::<u32>::empty());
        w
    }

    /// Some in-flight chunk has been retried `MAX_RETRIES` times or more.
    pub fn has_exceeded_max_retries(&self) -> (b: bool)
        requires
            self.wf(),
        ensures
            b == exists|c: u32| #[trigger]
                self.in_flight_view().dom().contains(c) && self.in_flight_view()[c].retries
                    >= MAX_RETRIES,
    {
        let n = self.in_flight.len();
        let mut i: usize = 0;
        while i < n
            invariant
                self.wf(),
                n == self.in_flight@.len(),
                i <= n,
                forall|k: int| 0 <= k < i ==> self.in_flight@[k].retries < MAX_RETRIES,
            decreases n - i,
        {
            if self.in_flight[i].retries >= MAX_RETRIES {
                proof {
                    lemma_entry_at(self.in_flight@, i as int);
                    let c = self.in_flight@[i as int].chunk_index;
                    assert(self.in_flight_view().dom().contains(c)
                        && self.in_flight_view()[c].retries >= MAX_RETRIES);
                }
                return true;
            }
            i = i + 1;
        }
        proof {
            assert forall|c: u32| #[trigger]
                self.in_flight_view().dom().contains(c) implies self.in_flight_view()[c].retries
                < MAX_RETRIES by {
                let v = self.in_flight@;
                let k = choose|k: int| 0 <= k < v.len() && v[k].chunk_index == c;
                lemma_entry_at(v, k);
            }
        }
        false
    }

    fn position_of(&self, c: u32) -> (r: Option<usize>)
        requires
            self.wf(),
        ensures
            r matches Some(i) ==> i < self.in_flight@.len() && self.in_flight@[i as int].chunk_index
                == c,
            r is None ==> forall|i: int|
                0 <= i < self.in_flight@.len() ==> self.in_flight@[i].chunk_index != c,
    {
        let n = self.in_flight.len();
        let mut i: usize = 0;
        while i < n
            invariant
                n == self.in_flight@.len(),
                i <= n,
                forall|k: int| 0 <= k < i ==> self.in_flight@[k].chunk_index != c,
            decreases n - i,
        {
            if self.in_flight[i].chunk_index == c {
                return Some(i);
            }
            i = i + 1;
        }
        None
    }

    fn ahead_contains(&self, c: u32) -> (b: bool)
        ensures
            b == self.acked_ahead@.contains(c),
    {
        let n = self.acked_ahead.len();
        let mut i: usize = 0;
        while i < n
            invariant
                n == self.acked_ahead@.len(),
                i <= n,
                forall|k: int| 0 <= k < i ==> self.acked_ahead@[k] != c,
            decreases n - i,
        {
            if self.acked_ahead[i] == c {
                return true;
            }
            i = i + 1;
        }
        false
    }

    /// Whether chunk `c` has been acknowledged.
    pub fn is_acked(&self, c: u32) -> (b: bool)
        ensures
            b == self.acked_view().contains(c),
    {
        c < self.base_chunk || self.ahead_contains(c)
    }

    /// Whether chunk `c` is in flight.
    pub fn is_in_flight(&self, c: u32) -> (b: bool)
        requires
            self.wf(),
        ensures
            b == self.in_flight_view().dom().contains(c),
    {
        match self.position_of(c) {
            Some(i) => {
                proof {
                    lemma_entry_at(self.in_flight@, i as int);
                }
                true
            },
            None => {
                proof {
                    lemma_entry_absent(self.in_flight@, c);
                }
                false
            },
        }
    }

    /// Whether chunk `chunk_index` may be sent now.
    pub fn can_send(&self, chunk_index: u32) -> (b: bool)
        requires
            self.wf(),
        ensures
            b == self.spec_can_send(chunk_index),
    {
        chunk_index < self.total_chunks && (chunk_index as u128) < (self.base_chunk as u128)
            + (self.window_size as u128) && !self.is_acked(chunk_index) && !self.is_in_flight(
            chunk_index,
        )
    }

    /// Records chunk `chunk_index` as sent at `now` with no retries (replacing any earlier
    /// entry for it).
    pub fn on_chunk_sent(&mut self, chunk_index: u32, now: u64)
        requires
            old(self).wf(),
        ensures
            final(self).wf(),
            final(self).in_flight_view() == old(self).in_flight_view().insert(
                chunk_index,
                InFlightChunk { chunk_index, sent_at: now, retries: 0 },
            ),
            final(self).acked_view() == old(self).acked_view(),
            final(self).base_chunk == old(self).base_chunk,
            final(self).total_chunks == old(self).total_chunks,
            final(self).window_size == old(self).window_size,
            final(self).srtt_ms == old(self).srtt_ms,
            final(self).rttvar_ms == old(self).rttvar_ms,
            final(self).rto_ns == old(self).rto_ns,
            old(self).window_respected() && old(self).spec_can_send(chunk_index) ==> final(self).window_respected(),
    {
        let entry = InFlightChunk { chunk_index, sent_at: now, retries: 0 };
        let ghost old_v = self.in_flight@;
        match self.position_of(chunk_index) {
            Some(i) => {
                self.in_flight.set(i, entry);
                proof {
                    let v = self.in_flight@;
                    assert(unique_chunks(v));
                    assert(flight_map(v) =~= flight_map(old_v).insert(chunk_index, entry)) by {
                        assert forall|c: u32|
                            flight_map(v).dom().contains(c) <==> flight_map(old_v).insert(
                                chunk_index,
                                entry,
                            ).dom().contains(c) by {
                            if flight_map(v).dom().contains(c) {
                                let k = choose|k: int| 0 <= k < v.len() && v[k].chunk_index == c;
                                if k != i {
                                    lemma_entry_at(old_v, k);
                                }
                            }
                            if flight_map(old_v).dom().contains(c) && c != chunk_index {
                                let k = choose|k: int|
                                    0 <= k < old_v.len() && old_v[k].chunk_index == c;
                                lemma_entry_at(v, k);
                            }
                            lemma_entry_at(v, i as int);
                        }
                        assert forall|c: u32| #[trigger]
                            flight_map(v).dom().contains(c) implies flight_map(v)[c] == flight_map(
                            old_v,
                        ).insert(chunk_index, entry)[c] by {
                            let k = choose|k: int| 0 <= k < v.len() && v[k].chunk_index == c;
                            lemma_entry_at(v, k);
                            if k != i {
                                lemma_entry_at(old_v, k);
                            }
                        }
                    }
                }
            },
            None => {
                self.in_flight.push(entry);
                proof {
                    let v = self.in_flight@;
                    assert(unique_chunks(v));
                    assert(flight_map(v) =~= flight_map(old_v).insert(chunk_index, entry)) by {
                        assert forall|c: u32|
                            flight_map(v).dom().contains(c) <==> flight_map(old_v).insert(
                                chunk_index,
                                entry,
                            ).dom().contains(c) by {
                            if flight_map(v).dom().contains(c) {
                                let k = choose|k: int| 0 <= k < v.len() && v[k].chunk_index == c;
                                if k < old_v.len() {
                                    lemma_entry_at(old_v, k);
                                }
                            }
                            if flight_map(old_v).dom().contains(c) {
                                let k = choose|k: int|
                                    0 <= k < old_v.len() && old_v[k].chunk_index == c;
                                lemma_entry_at(v, k);
                            }
                            lemma_entry_at(v, old_v.len() as int);
                        }
                        assert forall|c: u32| #[trigger]
                            flight_map(v).dom().contains(c) implies flight_map(v)[c] == flight_map(
                            old_v,
                        ).insert(chunk_index, entry)[c] by {
                            let k = choose|k: int| 0 <= k < v.len() && v[k].chunk_index == c;
                            lemma_entry_at(v, k);
                            if k < old_v.len() {
                                lemma_entry_at(old_v, k);
                            }
                        }
                    }
                }
            },
        }
    }
}


/// What an ACK for `chunk_index` at `now` does to a window: the chunk leaves the flight and
/// counts as acknowledged, the base slides over every acknowledged chunk, and a
/// first-transmission round trip updates the timer (Karn's rule); nothing else changes.
pub open spec fn ack_step(w0: SlidingWindow, w1: SlidingWindow, chunk_index: u32, now: u64) -> bool {
    &&& w1.in_flight_view() == w0.in_flight_view().remove(chunk_index)
    &&& w1.acked_view() == w0.acked_view().insert(chunk_index)
    &&& slid_base(w0.base_chunk, w0.total_chunks, w1.acked_view(), w1.base_chunk)
    &&& w1.total_chunks == w0.total_chunks
    &&& w1.window_size == w0.window_size
    &&& ({
        let was = w0.in_flight_view();
        if was.dom().contains(chunk_index) && was[chunk_index].retries == 0 {
            (w1.srtt_ms, w1.rttvar_ms, w1.rto_ns) == rtt_update(
                w0.srtt_ms,
                w0.rttvar_ms,
                elapsed(now, was[chunk_index].sent_at) / NANOS_PER_MILLI,
            )
        } else {
            w1.srtt_ms == w0.srtt_ms && w1.rttvar_ms == w0.rttvar_ms && w1.rto_ns == w0.rto_ns
        }
    })
    &&& (w0.window_respected() ==> w1.window_respected())
}

/// What a NACK for `chunk_index` at `now` does to a window, with `r` the chunk to send again:
/// an in-flight chunk counts one more retry and is stamped as re-sent now, and is returned
/// unless it has now been retried more than `MAX_RETRIES` times; anything else is ignored.
pub open spec fn nack_step(
    w0: SlidingWindow,
    w1: SlidingWindow,
    chunk_index: u32,
    now: u64,
    r: Option<u32>,
) -> bool {
    &&& ({
        let was = w0.in_flight_view();
        if was.dom().contains(chunk_index) {
            let retries = (was[chunk_index].retries + 1) as u32;
            &&& w1.in_flight_view() == was.insert(
                chunk_index,
                InFlightChunk { chunk_index, sent_at: now, retries },
            )
            &&& r == (if retries > MAX_RETRIES {
                None
            } else {
                Some(chunk_index)
            })
        } else {
            &&& w1.in_flight_view() == was
            &&& r is None
        }
    })
    &&& w1.acked_view() == w0.acked_view()
    &&& w1.base_chunk == w0.base_chunk
    &&& w1.total_chunks == w0.total_chunks
    &&& w1.window_size == w0.window_size
    &&& w1.srtt_ms == w0.srtt_ms
    &&& w1.rttvar_ms == w0.rttvar_ms
    &&& w1.rto_ns == w0.rto_ns
    &&& (w0.window_respected() ==> w1.window_respected())
}

impl SlidingWindow {
    /// Handles an ACK for chunk `chunk_index` arriving at `now`: the chunk leaves the flight,
    /// counts as acknowledged, a first-transmission RTT sample updates the timer (Karn), and
    /// the window base slides over every acknowledged chunk.
    pub fn on_ack(&mut self, chunk_index: u32, now: u64)
        requires
            old(self).wf(),
        ensures
            final(self).wf(),
            ack_step(*old(self), *final(self), chunk_index, now),
    {
        let ghost old_v = self.in_flight@;
        let ghost old_map = self.in_flight_view();
        match self.position_of(chunk_index) {
            Some(i) => {
                let entry = self.in_flight.remove(i);
                proof {
                    lemma_entry_at(old_v, i as int);
                    let v = self.in_flight@;
                    assert(v =~= old_v.remove(i as int));
                    assert(unique_chunks(v));
                    assert(flight_map(v) =~= old_map.remove(chunk_index)) by {
                        assert forall|c: u32|
                            flight_map(v).dom().contains(c) <==> old_map.remove(
                                chunk_index,
                            ).dom().contains(c) by {
                            if flight_map(v).dom().contains(c) {
                                let k = choose|k: int| 0 <= k < v.len() && v[k].chunk_index == c;
                                if k < i {
                                    lemma_entry_at(old_v, k);
                                } else {
                                    lemma_entry_at(old_v, k + 1);
                                }
                            }
                            if old_map.dom().contains(c) && c != chunk_index {
                                let k = choose|k: int|
                                    0 <= k < old_v.len() && old_v[k].chunk_index == c;
                                if k < i {
                                    lemma_entry_at(v, k);
                                } else {
                                    lemma_entry_at(v, k - 1);
                                }
                            }
                        }
                        assert forall|c: u32| #[trigger]
                            flight_map(v).dom().contains(c) implies flight_map(v)[c]
                            == old_map.remove(chunk_index)[c] by {
                            let k = choose|k: int| 0 <= k < v.len() && v[k].chunk_index == c;
                            lemma_entry_at(v, k);
                            if k < i {
                                lemma_entry_at(old_v, k);
                            } else {
                                lemma_entry_at(old_v, k + 1);
                            }
                        }
                    }
                }
                if entry.retries == 0 {
                    let sample = if now >= entry.sent_at {
                        now - entry.sent_at
                    } else {
                        0
                    };
                    self.update_rtt(sample);
                }
            },
            None => {
                proof {
                    lemma_entry_absent(old_v, chunk_index);
                    assert(self.in_flight_view() =~= old_map.remove(chunk_index));
                }
            },
        }
        let ghost target = old(self).acked_view().insert(chunk_index);
        assert(self.acked_view() =~= old(self).acked_view());
        let ghost ahead0 = self.acked_ahead@;
        if chunk_index >= self.base_chunk && !self.ahead_contains(chunk_index) {
            self.acked_ahead.push(chunk_index);
            proof {
                assert forall|x: u32| #[trigger]
                    self.acked_ahead@.contains(x) <==> (ahead0.contains(x) || x == chunk_index) by {
                    if self.acked_ahead@.contains(x) && x != chunk_index {
                        let j = choose|j: int|
                            0 <= j < self.acked_ahead@.len() && self.acked_ahead@[j] == x;
                        assert(ahead0[j] == x);
                    }
                    if ahead0.contains(x) {
                        let j = choose|j: int| 0 <= j < ahead0.len() && ahead0[j] == x;
                        assert(self.acked_ahead@[j] == x);
                    }
                    if x == chunk_index {
                        assert(self.acked_ahead@[ahead0.len() as int] == x);
                    }
                }
            }
        }
        assert(self.acked_view() =~= target);
        let ghost base0 = self.base_chunk;
        let ghost srtt1 = self.srtt_ms;
        let ghost rttvar1 = self.rttvar_ms;
        let ghost rto1 = self.rto_ns;
        assert(base0 == old(self).base_chunk);
        while self.base_chunk < self.total_chunks && self.ahead_contains(self.base_chunk)
            invariant
                self.acked_view() == target,
                base0 <= self.base_chunk <= self.total_chunks,
                forall|i: u32| base0 <= i < self.base_chunk ==> target.contains(i),
                self.in_flight_view() == old_map.remove(chunk_index),
                unique_chunks(self.in_flight@),
                self.total_chunks == old(self).total_chunks,
                self.window_size == old(self).window_size,
                self.srtt_ms == srtt1,
                self.rttvar_ms == rttvar1,
                self.rto_ns == rto1,
                srtt1 <= rtt_bound(),
                rttvar1 <= rtt_bound(),
                rto1 <= MAX_RTO_MS * NANOS_PER_MILLI,
            decreases self.total_chunks - self.base_chunk,
        {
            let ghost before = self.acked_view();
            self.base_chunk = self.base_chunk + 1;
            assert(self.acked_view() =~= before);
        }
        self.prune_acked_ahead();
        proof {
            if old(self).window_respected() {
                assert forall|c: u32| #[trigger]
                    self.in_flight_view().dom().contains(c) implies {
                    &&& self.base_chunk <= c
                    &&& (c as int) < self.base_chunk + self.window_size
                    &&& c < self.total_chunks
                    &&& !self.acked_view().contains(c)
                } by {
                    assert(old_map.dom().contains(c));
                    assert(c != chunk_index);
                    assert(!target.contains(c));
                    if c < self.base_chunk {
                        assert(base0 <= c);
                        assert(target.contains(c));
                    }
                }
            }
        }
    }

    /// Drops acknowledged entries below the base (they are implied by the base).
    fn prune_acked_ahead(&mut self)
        ensures
            final(self).acked_ahead@ == acked_at_or_above(old(self).acked_ahead@, old(self).base_chunk),
            final(self).acked_view() == old(self).acked_view(),
            final(self).in_flight@ == old(self).in_flight@,
            final(self).base_chunk == old(self).base_chunk,
            final(self).total_chunks == old(self).total_chunks,
            final(self).window_size == old(self).window_size,
            final(self).srtt_ms == old(self).srtt_ms,
            final(self).rttvar_ms == old(self).rttvar_ms,
            final(self).rto_ns == old(self).rto_ns,
    {
        let mut kept: Vec<u32> = Vec::new();
        let n = self.acked_ahead.len();
        let mut i: usize = 0;
        while i < n
            invariant
                n == self.acked_ahead@.len(),
                i <= n,
                kept@ == acked_at_or_above(self.acked_ahead@.take(i as int), self.base_chunk),
                forall|x: u32|
                    kept@.contains(x) <==> (x >= self.base_chunk && exists|k: int|
                        0 <= k < i && self.acked_ahead@[k] == x),
            decreases n - i,
        {
            let x = self.acked_ahead[i];
            let ghost old_kept = kept@;
            if x >= self.base_chunk {
                kept.push(x);
                assert(kept@ =~= old_kept.push(x));
            }
            proof {
                let next = self.acked_ahead@.take(i + 1);
                assert(next.drop_last() =~= self.acked_ahead@.take(i as int));
                assert(next.last() == x);
                reveal(Seq::filter);
                assert(kept@ == acked_at_or_above(next, self.base_chunk));
                assert forall|y: u32|
                    kept@.contains(y) <==> (y >= self.base_chunk && exists|k: int|
                        0 <= k < i + 1 && self.acked_ahead@[k] == y) by {
                    if x >= self.base_chunk {
                        assert(kept@.contains(y) <==> (old_kept.contains(y) || y == x)) by {
                            if kept@.contains(y) && y != x {
                                let j = choose|j: int| 0 <= j < kept@.len() && kept@[j] == y;
                                assert(old_kept[j] == y);
                            }
                            if old_kept.contains(y) {
                                let j = choose|j: int| 0 <= j < old_kept.len() && old_kept[j] == y;
                                assert(kept@[j] == y);
                            }
                            if y == x {
                                assert(kept@[kept@.len() - 1] == y);
                            }
                        }
                    }
                    if exists|k: int| 0 <= k < i + 1 && self.acked_ahead@[k] == y {
                        let k = choose|k: int| 0 <= k < i + 1 && self.acked_ahead@[k] == y;
                        if k < i {
                            assert(exists|k2: int| 0 <= k2 < i && self.acked_ahead@[k2] == y);
                        }
                    }
                    if exists|k: int| 0 <= k < i && self.acked_ahead@[k] == y {
                        let k = choose|k: int| 0 <= k < i && self.acked_ahead@[k] == y;
                        assert(0 <= k < i + 1 && self.acked_ahead@[k] == y);
                    }
                    if y == x {
                        assert(0 <= i < i + 1 && self.acked_ahead@[i as int] == y);
                    }
                }
            }
            i = i + 1;
        }
        assert(self.acked_ahead@.take(n as int) =~= self.acked_ahead@);
        let ghost before = self.acked_view();
        self.acked_ahead = kept;
        proof {
            assert forall|x: u32| #[trigger] self.acked_view().contains(x) <==> before.contains(x) by {
                if before.contains(x) && x >= self.base_chunk {
                    let k = choose|k: int| 0 <= k < old(self).acked_ahead@.len() && old(self).acked_ahead@[k] == x;
                    assert(0 <= k < n);
                }
            }
            assert(self.acked_view() =~= before);
        }
    }

    /// Jacobson/Karels update from one RTT sample of `sample` nanoseconds.
    fn update_rtt(&mut self, sample: u64)
        requires
            old(self).wf(),
        ensures
            final(self).wf(),
            (final(self).srtt_ms, final(self).rttvar_ms, final(self).rto_ns) == rtt_update(
                old(self).srtt_ms,
                old(self).rttvar_ms,
                sample / NANOS_PER_MILLI,
            ),
            final(self).in_flight@ == old(self).in_flight@,
            final(self).acked_ahead@ == old(self).acked_ahead@,
            final(self).base_chunk == old(self).base_chunk,
            final(self).total_chunks == old(self).total_chunks,
            final(self).window_size == old(self).window_size,
    {
        let sample_ms = sample / NANOS_PER_MILLI;
        assert(sample_ms <= rtt_bound()) by {
            assert(sample / 1000000u64 <= 0x2000_0000_0000u64) by (bit_vector);
        }
        let srtt = self.srtt_ms;
        let rttvar = self.rttvar_ms;
        let diff = if srtt >= sample_ms {
            srtt - sample_ms
        } else {
            sample_ms - srtt
        };
        let var4 = 3 * rttvar + diff;
        let srtt8 = 7 * srtt + sample_ms;
        let raw_rto = srtt8 / 8 + var4;
        let rto_ms = if raw_rto < MIN_RTO_MS {
            MIN_RTO_MS
        } else if raw_rto > MAX_RTO_MS {
            MAX_RTO_MS
        } else {
            raw_rto
        };
        self.srtt_ms = srtt8 / 8;
        self.rttvar_ms = var4 / 4;
        self.rto_ns = rto_ms * NANOS_PER_MILLI;
    }

    /// Handles a NACK for chunk `chunk_index` arriving at `now`: an in-flight chunk counts one
    /// more retry and is stamped as re-sent now; it is returned for immediate retransmission
    /// unless it has now been retried more than `MAX_RETRIES` times.
    pub fn on_nack(&mut self, chunk_index: u32, now: u64) -> (r: Option<u32>)
        requires
            old(self).wf(),
            old(self).in_flight_view().dom().contains(chunk_index) ==> old(
                self,
            ).in_flight_view()[chunk_index].retries < u32::MAX,
        ensures
            final(self).wf(),
            nack_step(*old(self), *final(self), chunk_index, now, r),
    {
        match self.position_of(chunk_index) {
            Some(i) => {
                proof {
                    lemma_entry_at(self.in_flight@, i as int);
                }
                let retries = self.in_flight[i].retries + 1;
                self.on_chunk_resent(i, now, retries);
                if retries > MAX_RETRIES {
                    return None;
                }
                Some(chunk_index)
            },
            None => {
                proof {
                    lemma_entry_absent(self.in_flight@, chunk_index);
                }
                None
            },
        }
    }

    /// Replaces the entry at position `i` by a re-sent one.
    fn on_chunk_resent(&mut self, i: usize, now: u64, retries: u32)
        requires
            old(self).wf(),
            i < old(self).in_flight@.len(),
        ensures
            final(self).wf(),
            final(self).in_flight@ == old(self).in_flight@.update(
                i as int,
                InFlightChunk {
                    chunk_index: old(self).in_flight@[i as int].chunk_index,
                    sent_at: now,
                    retries,
                },
            ),
            final(self).in_flight_view() == old(self).in_flight_view().insert(
                old(self).in_flight@[i as int].chunk_index,
                InFlightChunk {
                    chunk_index: old(self).in_flight@[i as int].chunk_index,
                    sent_at: now,
                    retries,
                },
            ),
            final(self).acked_ahead@ == old(self).acked_ahead@,
            final(self).base_chunk == old(self).base_chunk,
            final(self).total_chunks == old(self).total_chunks,
            final(self).window_size == old(self).window_size,
            final(self).srtt_ms == old(self).srtt_ms,
            final(self).rttvar_ms == old(self).rttvar_ms,
            final(self).rto_ns == old(self).rto_ns,
    {
        let ghost old_v = self.in_flight@;
        let c = self.in_flight[i].chunk_index;
        let entry = InFlightChunk { chunk_index: c, sent_at: now, retries };
        self.in_flight.set(i, entry);
        proof {
            let v = self.in_flight@;
            assert(unique_chunks(v));
            assert(flight_map(v) =~= flight_map(old_v).insert(c, entry)) by {
                assert forall|d: u32|
                    flight_map(v).dom().contains(d) <==> flight_map(old_v).insert(
                        c,
                        entry,
                    ).dom().contains(d) by {
                    if flight_map(v).dom().contains(d) {
                        let k = choose|k: int| 0 <= k < v.len() && v[k].chunk_index == d;
                        if k != i {
                            lemma_entry_at(old_v, k);
                        }
                    }
                    if flight_map(old_v).dom().contains(d) && d != c {
                        let k = choose|k: int| 0 <= k < old_v.len() && old_v[k].chunk_index == d;
                        lemma_entry_at(v, k);
                    }
                    lemma_entry_at(v, i as int);
                }
                assert forall|d: u32| #[trigger]
                    flight_map(v).dom().contains(d) implies flight_map(v)[d] == flight_map(
                    old_v,
                ).insert(c, entry)[d] by {
                    let k = choose|k: int| 0 <= k < v.len() && v[k].chunk_index == d;
                    lemma_entry_at(v, k);
                    if k != i {
                        lemma_entry_at(old_v, k);
                    }
                }
            }
        }
    }

    /// The timeout rule: an in-flight chunk not (re)sent for longer than the current RTO.
    pub open spec fn timed_out(&self, c: u32, now: u64) -> bool {
        elapsed(now, self.in_flight_view()[c].sent_at) > self.rto_ns
    }

    /// Collects every in-flight chunk that has timed out at `now`: each one counts one more
    /// retry and is stamped as re-sent now; those still within `MAX_RETRIES` are returned for
    /// retransmission. If any is returned, the RTO backs off by half, up to the maximum.
    pub fn check_timeouts(&mut self, now: u64) -> (out: Vec<u32>)
        requires
            old(self).wf(),
            forall|c: u32| #[trigger]
                old(self).in_flight_view().dom().contains(c) ==> old(
                    self,
                ).in_flight_view()[c].retries < u32::MAX,
        ensures
            final(self).wf(),
            final(self).in_flight_view().dom() == old(self).in_flight_view().dom(),
            forall|c: u32| #[trigger]
                old(self).in_flight_view().dom().contains(c) ==> final(self).in_flight_view()[c]
                    == (if old(self).timed_out(c, now) {
                    InFlightChunk {
                        chunk_index: c,
                        sent_at: now,
                        retries: (old(self).in_flight_view()[c].retries + 1) as u32,
                    }
                } else {
                    old(self).in_flight_view()[c]
                }),
            out@.no_duplicates(),
            forall|c: u32|
                out@.contains(c) <==> (old(self).in_flight_view().dom().contains(c) && old(
                    self,
                ).timed_out(c, now) && old(self).in_flight_view()[c].retries + 1 <= MAX_RETRIES),
            final(self).rto_ns == (if out@.len() > 0 {
                if old(self).rto_ns * 3 / 2 < MAX_RTO_MS * NANOS_PER_MILLI {
                    (old(self).rto_ns * 3 / 2) as u64
                } else {
                    (MAX_RTO_MS * NANOS_PER_MILLI) as u64
                }
            } else {
                old(self).rto_ns
            }),
            final(self).acked_view() == old(self).acked_view(),
            final(self).base_chunk == old(self).base_chunk,
            final(self).total_chunks == old(self).total_chunks,
            final(self).window_size == old(self).window_size,
            final(self).srtt_ms == old(self).srtt_ms,
            final(self).rttvar_ms == old(self).rttvar_ms,
            old(self).window_respected() ==> final(self).window_respected(),
    {
        let ghost v0 = self.in_flight@;
        let ghost m0 = self.in_flight_view();
        let mut out: Vec<u32> = Vec::new();
        let n = self.in_flight.len();
        let rto = self.rto_ns;
        let mut i: usize = 0;
        while i < n
            invariant
                self.wf(),
                n == self.in_flight@.len(),
                n == v0.len(),
                i <= n,
                rto == self.rto_ns,
                rto == old(self).rto_ns,
                unique_chunks(v0),
                m0 == flight_map(v0),
                forall|c: u32| #[trigger] m0.dom().contains(c) ==> m0[c].retries < u32::MAX,
                forall|k: int|
                    0 <= k < n ==> #[trigger] self.in_flight@[k].chunk_index == v0[k].chunk_index,
                forall|k: int|
                    i <= k < n ==> #[trigger] self.in_flight@[k] == v0[k],
                forall|k: int|
                    0 <= k < i ==> #[trigger] self.in_flight@[k] == (if elapsed(now, v0[k].sent_at)
                        > rto {
                        InFlightChunk {
                            chunk_index: v0[k].chunk_index,
                            sent_at: now,
                            retries: (v0[k].retries + 1) as u32,
                        }
                    } else {
                        v0[k]
                    }),
                out@.no_duplicates(),
                forall|c: u32|
                    out@.contains(c) <==> exists|k: int|
                        0 <= k < i && #[trigger] v0[k].chunk_index == c && elapsed(now, v0[k].sent_at)
                            > rto && v0[k].retries + 1 <= MAX_RETRIES,
                self.acked_ahead@ == old(self).acked_ahead@,
                self.base_chunk == old(self).base_chunk,
                self.total_chunks == old(self).total_chunks,
                self.window_size == old(self).window_size,
                self.srtt_ms == old(self).srtt_ms,
                self.rttvar_ms == old(self).rttvar_ms,
            decreases n - i,
        {
            let e = self.in_flight[i];
            let age = if now >= e.sent_at {
                now - e.sent_at
            } else {
                0
            };
            let ghost out0 = out@;
            if age > rto {
                proof {
                    lemma_entry_at(v0, i as int);
                }
                let retries = e.retries + 1;
                let ghost before = self.in_flight@;
                self.on_chunk_resent(i, now, retries);
                if retries <= MAX_RETRIES {
                    out.push(e.chunk_index);
                    proof {
                        assert forall|k: int| 0 <= k < out0.len() implies out0[k] != e.chunk_index by {
                            let c = out0[k];
                            assert(out0.contains(c));
                            let kk = choose|kk: int|
                                0 <= kk < i && #[trigger] v0[kk].chunk_index == c && elapsed(
                                    now,
                                    v0[kk].sent_at,
                                ) > rto && v0[kk].retries + 1 <= MAX_RETRIES;
                            assert(kk != i);
                        }
                    }
                }
            }
            proof {
                assert forall|c: u32|
                    out@.contains(c) <==> exists|k: int|
                        0 <= k < i + 1 && #[trigger] v0[k].chunk_index == c && elapsed(
                            now,
                            v0[k].sent_at,
                        ) > rto && v0[k].retries + 1 <= MAX_RETRIES by {
                    if out@.contains(c) {
                        if out0.contains(c) {
                            let kk = choose|kk: int|
                                0 <= kk < i && #[trigger] v0[kk].chunk_index == c && elapsed(
                                    now,
                                    v0[kk].sent_at,
                                ) > rto && v0[kk].retries + 1 <= MAX_RETRIES;
                            assert(0 <= kk < i + 1);
                        } else {
                            let j = choose|j: int| 0 <= j < out@.len() && out@[j] == c;
                            if j < out0.len() {
                                assert(out0[j] == c);
                            }
                            assert(v0[i as int].chunk_index == c);
                        }
                    }
                    if exists|k: int|
                        0 <= k < i + 1 && #[trigger] v0[k].chunk_index == c && elapsed(
                            now,
                            v0[k].sent_at,
                        ) > rto && v0[k].retries + 1 <= MAX_RETRIES {
                        let k = choose|k: int|
                            0 <= k < i + 1 && #[trigger] v0[k].chunk_index == c && elapsed(
                                now,
                                v0[k].sent_at,
                            ) > rto && v0[k].retries + 1 <= MAX_RETRIES;
                        if k < i {
                            assert(out0.contains(c));
                            let j = choose|j: int| 0 <= j < out0.len() && out0[j] == c;
                            assert(out@[j] == c);
                        } else {
                            assert(out@[out@.len() - 1] == c);
                        }
                    }
                }
            }
            i = i + 1;
        }
        if out.len() > 0 {
            let backed = rto * 3 / 2;
            self.rto_ns = if backed < MAX_RTO_MS * NANOS_PER_MILLI {
                backed
            } else {
                MAX_RTO_MS * NANOS_PER_MILLI
            };
        }
        proof {
            let v = self.in_flight@;
            assert(forall|k: int| 0 <= k < n ==> #[trigger] v[k].chunk_index == v0[k].chunk_index);
            assert(self.in_flight_view().dom() =~= m0.dom()) by {
                assert forall|c: u32| self.in_flight_view().dom().contains(c) <==> m0.dom().contains(c) by {
                    if self.in_flight_view().dom().contains(c) {
                        let k = choose|k: int| 0 <= k < v.len() && v[k].chunk_index == c;
                        lemma_entry_at(v0, k);
                    }
                    if m0.dom().contains(c) {
                        let k = choose|k: int| 0 <= k < v0.len() && v0[k].chunk_index == c;
                        lemma_entry_at(v, k);
                    }
                }
            }
            assert forall|c: u32| #[trigger] m0.dom().contains(c) implies self.in_flight_view()[c]
                == (if old(self).timed_out(c, now) {
                InFlightChunk {
                    chunk_index: c,
                    sent_at: now,
                    retries: (old(self).in_flight_view()[c].retries + 1) as u32,
                }
            } else {
                old(self).in_flight_view()[c]
            }) by {
                let k = choose|k: int| 0 <= k < v0.len() && v0[k].chunk_index == c;
                lemma_entry_at(v0, k);
                lemma_entry_at(v, k);
            }
            assert forall|c: u32|
                out@.contains(c) <==> (m0.dom().contains(c) && old(self).timed_out(c, now)
                    && m0[c].retries + 1 <= MAX_RETRIES) by {
                if out@.contains(c) {
                    let k = choose|k: int|
                        0 <= k < n && #[trigger] v0[k].chunk_index == c && elapsed(
                            now,
                            v0[k].sent_at,
                        ) > rto && v0[k].retries + 1 <= MAX_RETRIES;
                    lemma_entry_at(v0, k);
                }
                if m0.dom().contains(c) && old(self).timed_out(c, now) && m0[c].retries + 1
                    <= MAX_RETRIES {
                    let k = choose|k: int| 0 <= k < v0.len() && v0[k].chunk_index == c;
                    lemma_entry_at(v0, k);
                    assert(0 <= k < n && v0[k].chunk_index == c && elapsed(now, v0[k].sent_at)
                        > rto && v0[k].retries + 1 <= MAX_RETRIES);
                }
            }
        }
        out
    }

    /// All chunks have been acknowledged: the base has reached the end, which for a window
    /// built by `new` and changed only by its operations (all of which keep `wf`) is the same
    /// as every chunk below the total being acknowledged.
    pub fn is_complete(&self) -> (b: bool)
        ensures
            b == (self.base_chunk >= self.total_chunks),
            self.wf() ==> (b <==> forall|c: u32|
                c < self.total_chunks ==> #[trigger] self.acked_view().contains(c)),
    {
        proof {
            if self.wf() && self.base_chunk < self.total_chunks {
                assert(!self.acked_view().contains(self.base_chunk));
            }
        }
        self.base_chunk >= self.total_chunks
    }
}


/// A window never has more chunks in flight than its size: when every in-flight chunk lies in
/// the window, their number is at most `window_size`.
pub proof fn lemma_in_flight_within_window_size(w: &SlidingWindow)
    requires
        w.wf(),
        w.window_respected(),
    ensures
        w.in_flight_view().dom().finite(),
        w.in_flight_view().dom().len() <= w.window_size,
{
    let v = w.in_flight@;
    let t = v.map_values(|e: InFlightChunk| e.chunk_index);
    let s = v.map_values(|e: InFlightChunk| e.chunk_index as int);
    assert(t.no_duplicates());
    assert(s.no_duplicates());
    t.unique_seq_to_set();
    s.unique_seq_to_set();
    assert(t.to_set() =~= w.in_flight_view().dom()) by {
        assert forall|c: u32| t.to_set().contains(c) <==> w.in_flight_view().dom().contains(c) by {
            if t.to_set().contains(c) {
                let k = choose|k: int| 0 <= k < t.len() && t[k] == c;
                lemma_entry_at(v, k);
            }
            if w.in_flight_view().dom().contains(c) {
                let k = choose|k: int| 0 <= k < v.len() && v[k].chunk_index == c;
                assert(t[k] == c);
            }
        }
    }
    let lo = w.base_chunk as int;
    let hi = w.base_chunk + w.window_size;
    vstd::set_lib::lemma_int_range(lo, hi);
    assert(s.to_set().subset_of(vstd::set_lib::set_int_range(lo, hi))) by {
        assert forall|x: int| s.to_set().contains(x) implies vstd::set_lib::set_int_range(
            lo,
            hi,
        ).contains(x) by {
            let k = choose|k: int| 0 <= k < s.len() && s[k] == x;
            lemma_entry_at(v, k);
            assert(w.in_flight_view().dom().contains(v[k].chunk_index));
        }
    }
    vstd::set_lib::lemma_len_subset(s.to_set(), vstd::set_lib::set_int_range(lo, hi));
}

/// A complete window has every chunk acknowledged.
pub proof fn lemma_complete_means_all_acked(w: &SlidingWindow, c: u32)
    requires
        w.base_chunk >= w.total_chunks,
        c < w.total_chunks,
    ensures
        w.acked_view().contains(c),
{
}

/// Completion means exactly that every chunk is acknowledged: for a well-formed window (as
/// `new` makes it and every operation keeps it, whatever the sequence), the base has reached
/// the total if and only if every chunk below the total is acknowledged.
pub proof fn lemma_complete_iff_all_acked(w: &SlidingWindow)
    requires
        w.wf(),
    ensures
        (w.base_chunk >= w.total_chunks) <==> (forall|c: u32|
            c < w.total_chunks ==> #[trigger] w.acked_view().contains(c)),
{
    if w.base_chunk < w.total_chunks {
        assert(!w.acked_view().contains(w.base_chunk));
    }
}

} // verus!
