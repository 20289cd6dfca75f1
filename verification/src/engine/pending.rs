//! The offers waiting for their answer. A device keeps the offers it sent until the receiver
//! accepts (then it starts sending) and the offers it accepted until the relay echoes the
//! transfer token (then it starts receiving). A refusal or a failure of the session ends
//! both waits, whichever side this device is on.

use vstd::prelude::*;
use crate::engine::offer::TransferSource;
use crate::protocol::envelope::TransferOfferPayload;
use crate::text::str_eq;

verus! {

/// Some entry of `v` has key `k`.
pub open spec fn has_key<V>(v: Seq<(String, V)>, k: Seq<char>) -> bool {
    exists|i: int| 0 <= i < v.len() && v[i].0@ == k
}

/// No two entries of `v` share a key.
pub open spec fn unique_keys<V>(v: Seq<(String, V)>) -> bool {
    forall|i: int, j: int| 0 <= i < v.len() && 0 <= j < v.len() && i != j ==> v[i].0@ != v[j].0@
}

/// The map a list of keyed entries stands for.
pub open spec fn keyed_map<V>(v: Seq<(String, V)>) -> Map<Seq<char>, V> {
    Map::new(
        |k: Seq<char>| has_key(v, k),
        |k: Seq<char>| v[choose|i: int| 0 <= i < v.len() && v[i].0@ == k].1,
    )
}

proof fn lemma_keyed_at<V>(v: Seq<(String, V)>, i: int)
    requires
        unique_keys(v),
        0 <= i < v.len(),
    ensures
        keyed_map(v).dom().contains(v[i].0@),
        keyed_map(v)[v[i].0@] == v[i].1,
{
    let k = v[i].0@;
    assert(has_key(v, k));
    let j = choose|j: int| 0 <= j < v.len() && v[j].0@ == k;
    assert(j == i);
}

/// Values by string key, at most one per key (as a `HashMap` keyed by the session id).
pub struct Keyed<V> {
    entries: Vec<(String, V)>,
}

impl<V> View for Keyed<V> {
    type V = Map<Seq<char>, V>;

    closed spec fn view(&self) -> Map<Seq<char>, V> {
        keyed_map(self.entries@)
    }
}

impl<V> Keyed<V> {
    pub closed spec fn wf(&self) -> bool {
        unique_keys(self.entries@)
    }

    /// Nothing stored.
    pub fn new() -> (s: Self)
        ensures
            s.wf(),
            s@ == Map::<Seq<char>, V>::empty(),
    {
        let s = Keyed { entries: Vec::new() };
        assert(s@ =~= Map::<Seq<char>, V>::empty());
        s
    }

    fn position(&self, key: &str) -> (r: Option<usize>)
        ensures
            match r {
                Some(i) => i < self.entries@.len() && self.entries@[i as int].0@ == key@,
                None => !has_key(self.entries@, key@),
            },
    {
        let n = self.entries.len();
        let mut i: usize = 0;
        while i < n
            invariant
                i <= n,
                n == self.entries@.len(),
                forall|j: int| 0 <= j < i ==> self.entries@[j].0@ != key@,
            decreases n - i,
        {
            if str_eq(self.entries[i].0.as_str(), key) {
                return Some(i);
            }
            i = i + 1;
        }
        None
    }

    /// Stores `value` under `key`, replacing what was there.
    pub fn insert(&mut self, key: String, value: V)
        requires
            old(self).wf(),
        ensures
            final(self).wf(),
            final(self)@ == old(self)@.insert(key@, value),
    {
        let ghost old_v = self.entries@;
        let ghost k0 = key@;
        match self.position(key.as_str()) {
            Some(i) => {
                self.entries.set(i, (key, value));
                proof {
                    let v = self.entries@;
                    assert(v == old_v.update(i as int, v[i as int]));
                    assert(unique_keys(v)) by {
                        assert forall|a: int, b: int|
                            0 <= a < v.len() && 0 <= b < v.len() && a != b implies v[a].0@ != v[b].0@ by {
                            if a != i as int && b != i as int {
                                assert(v[a] == old_v[a] && v[b] == old_v[b]);
                            } else if a == i as int {
                                assert(v[b] == old_v[b]);
                            } else {
                                assert(v[a] == old_v[a]);
                            }
                        }
                    }
                    lemma_keyed_at(v, i as int);
                    assert forall|k: Seq<char>| #[trigger] keyed_map(v).dom().contains(k) <==> keyed_map(
                        old_v,
                    ).insert(k0, value).dom().contains(k) by {
                        if has_key(v, k) {
                            let j = choose|j: int| 0 <= j < v.len() && v[j].0@ == k;
                            if j != i as int {
                                assert(old_v[j] == v[j]);
                            }
                        }
                        if has_key(old_v, k) {
                            let j = choose|j: int| 0 <= j < old_v.len() && old_v[j].0@ == k;
                            if j != i as int {
                                assert(old_v[j] == v[j]);
                            } else {
                                assert(v[j].0@ == k);
                            }
                        }
                    }
                    assert forall|k: Seq<char>| #[trigger] keyed_map(v).dom().contains(k) implies keyed_map(
                        v,
                    )[k] == keyed_map(old_v).insert(k0, value)[k] by {
                        if k != k0 {
                            let j = choose|j: int| 0 <= j < v.len() && v[j].0@ == k;
                            assert(j != i as int);
                            assert(old_v[j] == v[j]);
                            lemma_keyed_at(v, j);
                            lemma_keyed_at(old_v, j);
                        }
                    }
                    assert(keyed_map(v) =~= keyed_map(old_v).insert(k0, value));
                }
            },
            None => {
                self.entries.push((key, value));
                proof {
                    let v = self.entries@;
                    let last = old_v.len() as int;
                    assert(v == old_v.push(v[last]));
                    assert(unique_keys(v)) by {
                        assert forall|a: int, b: int|
                            0 <= a < v.len() && 0 <= b < v.len() && a != b implies v[a].0@ != v[b].0@ by {
                            if a != last && b != last {
                                assert(v[a] == old_v[a] && v[b] == old_v[b]);
                            } else if a == last {
                                assert(v[b] == old_v[b]);
                            } else {
                                assert(v[a] == old_v[a]);
                            }
                        }
                    }
                    lemma_keyed_at(v, last);
                    assert forall|k: Seq<char>| #[trigger] keyed_map(v).dom().contains(k) <==> keyed_map(
                        old_v,
                    ).insert(k0, value).dom().contains(k) by {
                        if has_key(v, k) {
                            let j = choose|j: int| 0 <= j < v.len() && v[j].0@ == k;
                            if j != last {
                                assert(old_v[j] == v[j]);
                            }
                        }
                        if has_key(old_v, k) {
                            let j = choose|j: int| 0 <= j < old_v.len() && old_v[j].0@ == k;
                            assert(old_v[j] == v[j]);
                        }
                    }
                    assert forall|k: Seq<char>| #[trigger] keyed_map(v).dom().contains(k) implies keyed_map(
                        v,
                    )[k] == keyed_map(old_v).insert(k0, value)[k] by {
                        if k != k0 {
                            let j = choose|j: int| 0 <= j < v.len() && v[j].0@ == k;
                            assert(j != last);
                            assert(old_v[j] == v[j]);
                            lemma_keyed_at(v, j);
                            lemma_keyed_at(old_v, j);
                        }
                    }
                    assert(keyed_map(v) =~= keyed_map(old_v).insert(k0, value));
                }
            },
        }
    }

    /// Takes out what is stored under `key`, if anything.
    pub fn remove(&mut self, key: &str) -> (r: Option<V>)
        requires
            old(self).wf(),
        ensures
            final(self).wf(),
            final(self)@ == old(self)@.remove(key@),
            r == (if old(self)@.dom().contains(key@) {
                Some(old(self)@[key@])
            } else {
                None::<V>
            }),
    {
        let ghost old_v = self.entries@;
        match self.position(key) {
            Some(i) => {
                proof {
                    lemma_keyed_at(old_v, i as int);
                }
                let (_, value) = self.entries.remove(i);
                proof {
                    let v = self.entries@;
                    assert(v == old_v.remove(i as int));
                    assert forall|j: int| 0 <= j < v.len() implies #[trigger] v[j] == old_v[if j < i {
                        j
                    } else {
                        j + 1
                    }] by {}
                    assert(unique_keys(v)) by {
                        assert forall|a: int, b: int|
                            0 <= a < v.len() && 0 <= b < v.len() && a != b implies v[a].0@ != v[b].0@ by {
                            let a1 = if a < i { a } else { a + 1 };
                            let b1 = if b < i { b } else { b + 1 };
                            assert(v[a] == old_v[a1] && v[b] == old_v[b1]);
                        }
                    }
                    assert forall|k: Seq<char>| #[trigger] keyed_map(v).dom().contains(k) <==> keyed_map(
                        old_v,
                    ).remove(key@).dom().contains(k) by {
                        if has_key(v, k) {
                            let j = choose|j: int| 0 <= j < v.len() && v[j].0@ == k;
                            let j1 = if j < i { j } else { j + 1 };
                            assert(v[j] == old_v[j1]);
                            assert(j1 != i as int);
                        }
                        if has_key(old_v, k) && k != key@ {
                            let j = choose|j: int| 0 <= j < old_v.len() && old_v[j].0@ == k;
                            assert(j != i as int);
                            let j0 = if j < i { j } else { j - 1 };
                            assert(v[j0] == old_v[j]);
                        }
                    }
                    assert forall|k: Seq<char>| #[trigger] keyed_map(v).dom().contains(k) implies keyed_map(
                        v,
                    )[k] == keyed_map(old_v).remove(key@)[k] by {
                        let j = choose|j: int| 0 <= j < v.len() && v[j].0@ == k;
                        let j1 = if j < i { j } else { j + 1 };
                        assert(v[j] == old_v[j1]);
                        lemma_keyed_at(v, j);
                        lemma_keyed_at(old_v, j1);
                    }
                    assert(keyed_map(v) =~= keyed_map(old_v).remove(key@));
                }
                Some(value)
            },
            None => {
                assert(keyed_map(old_v) =~= keyed_map(old_v).remove(key@));
                None
            },
        }
    }
}

/// What an answer to an offer leads to.
pub enum AnswerAction {
    /// This device offered the transfer and the receiver accepted: send it.
    StartSender { offer: TransferOfferPayload, source: TransferSource, token: String },
    /// This device accepted the transfer and the relay echoed the token: receive it.
    StartReceiver { offer: TransferOfferPayload, sender_device: String, token: String },
    /// The transfer was refused: both waits for it are over.
    Refused,
    /// Nothing to do: no token, or no offer of this session is waiting.
    Ignored,
}

/// The offers waiting for an answer, on both sides, by session id.
pub struct PendingOffers {
    outbound: Keyed<(TransferOfferPayload, TransferSource)>,
    inbound: Keyed<(TransferOfferPayload, String)>,
}

impl PendingOffers {
    /// The offers this device sent, with what they send.
    pub closed spec fn outbound_view(&self) -> Map<Seq<char>, (TransferOfferPayload, TransferSource)> {
        self.outbound@
    }

    /// The offers this device accepted, with the device that sends them.
    pub closed spec fn inbound_view(&self) -> Map<Seq<char>, (TransferOfferPayload, String)> {
        self.inbound@
    }

    pub closed spec fn wf(&self) -> bool {
        self.outbound.wf() && self.inbound.wf()
    }

    /// No offer waiting.
    pub fn new() -> (p: Self)
        ensures
            p.wf(),
            p.outbound_view() == Map::<Seq<char>, (TransferOfferPayload, TransferSource)>::empty(),
            p.inbound_view() == Map::<Seq<char>, (TransferOfferPayload, String)>::empty(),
    {
        PendingOffers { outbound: Keyed::new(), inbound: Keyed::new() }
    }

    /// An offer was sent: it waits, with its source, under its session id.
    pub fn offer_sent(&mut self, offer: TransferOfferPayload, source: TransferSource)
        requires
            old(self).wf(),
        ensures
            final(self).wf(),
            final(self).outbound_view() == old(self).outbound_view().insert(
                offer.session_id@,
                (offer, source),
            ),
            final(self).inbound_view() == old(self).inbound_view(),
    {
        let key = offer.session_id.clone();
        self.outbound.insert(key, (offer, source));
    }

    /// An offer was accepted: it waits, with its sender, under its session id.
    pub fn offer_accepted(&mut self, offer: TransferOfferPayload, sender_device: String)
        requires
            old(self).wf(),
        ensures
            final(self).wf(),
            final(self).inbound_view() == old(self).inbound_view().insert(
                offer.session_id@,
                (offer, sender_device),
            ),
            final(self).outbound_view() == old(self).outbound_view(),
    {
        let key = offer.session_id.clone();
        self.inbound.insert(key, (offer, sender_device));
    }

    /// Handles an answer for `session_id`. A refusal ends both waits. An acceptance with a
    /// token starts the transfer this device waits for: its own offer is sent; otherwise an
    /// offer it accepted is received. An acceptance without a token does nothing.
    pub fn on_answer(&mut self, session_id: &str, accepted: bool, token: Option<String>) -> (a: AnswerAction)
        requires
            old(self).wf(),
        ensures
            final(self).wf(),
            !accepted ==> {
                &&& a is Refused
                &&& final(self).outbound_view() == old(self).outbound_view().remove(session_id@)
                &&& final(self).inbound_view() == old(self).inbound_view().remove(session_id@)
            },
            accepted && token is None ==> {
                &&& a is Ignored
                &&& final(self).outbound_view() == old(self).outbound_view()
                &&& final(self).inbound_view() == old(self).inbound_view()
            },
            accepted && token is Some && old(self).outbound_view().dom().contains(session_id@) ==> {
                &&& a == AnswerAction::StartSender {
                    offer: old(self).outbound_view()[session_id@].0,
                    source: old(self).outbound_view()[session_id@].1,
                    token: token->Some_0,
                }
                &&& final(self).outbound_view() == old(self).outbound_view().remove(session_id@)
                &&& final(self).inbound_view() == old(self).inbound_view()
            },
            accepted && token is Some && !old(self).outbound_view().dom().contains(session_id@) ==> {
                &&& final(self).outbound_view() == old(self).outbound_view()
                &&& final(self).inbound_view() == old(self).inbound_view().remove(session_id@)
                &&& a == (if old(self).inbound_view().dom().contains(session_id@) {
                    AnswerAction::StartReceiver {
                        offer: old(self).inbound_view()[session_id@].0,
                        sender_device: old(self).inbound_view()[session_id@].1,
                        token: token->Some_0,
                    }
                } else {
                    AnswerAction::Ignored
                })
            },
    {
        if !accepted {
            self.on_failure(session_id);
            return AnswerAction::Refused;
        }
        let token = match token {
            Some(t) => t,
            None => return AnswerAction::Ignored,
        };
        match self.outbound.remove(session_id) {
            Some((offer, source)) => AnswerAction::StartSender { offer, source, token },
            None => {
                assert(self.outbound@ == old(self).outbound@);
                match self.inbound.remove(session_id) {
                    Some((offer, sender_device)) => AnswerAction::StartReceiver { offer, sender_device, token },
                    None => AnswerAction::Ignored,
                }
            },
        }
    }

    /// The session failed or was refused: neither side waits for it any longer.
    pub fn on_failure(&mut self, session_id: &str)
        requires
            old(self).wf(),
        ensures
            final(self).wf(),
            final(self).outbound_view() == old(self).outbound_view().remove(session_id@),
            final(self).inbound_view() == old(self).inbound_view().remove(session_id@),
    {
        let _ = self.outbound.remove(session_id);
        let _ = self.inbound.remove(session_id);
    }
}

} // verus!
