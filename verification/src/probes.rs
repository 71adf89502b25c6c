//! Bounded request matching shared by all transport adapters.
use vstd::prelude::*;

use crate::clock::{Exchange, MAX_EXCHANGE_NS};
use crate::wire::{encode_probe_spec, Probe};
use crate::{decode_probe, decode_probe_result, encode, Error};

verus! {

/// Outstanding probe requests, remembered in 128 slots by sequence number.
#[derive(Clone)]
pub struct Probes {
    outstanding: [(u64, u64); 128],
    sequence: u64,
    publication: [Option<u64>; 128],
    last_publication: Option<u64>,
}

/// The state of `Probes`: per slot the sequence number and send time of the request it
/// waits for ((0, 0) when none), the last sequence number used, per slot the time its
/// publication took, and the publication time of the last accepted reply.
pub struct ProbesModel {
    pub outstanding: Seq<(u64, u64)>,
    pub sequence: u64,
    pub publication: Seq<Option<u64>>,
    pub last_publication: Option<u64>,
}

impl View for Probes {
    type V = ProbesModel;

    closed spec fn view(&self) -> ProbesModel {
        ProbesModel {
            outstanding: self.outstanding@,
            sequence: self.sequence,
            publication: self.publication@,
            last_publication: self.last_publication,
        }
    }
}

/// The slot of a sequence number.
pub open spec fn slot(sequence: u64) -> int {
    (sequence % 128) as int
}

/// A fresh request's probe.
pub open spec fn request_probe(sequence: u64, now: u64) -> Probe {
    Probe { version: 1, sequence, t1: now, t2: 0, t3: 0 }
}

/// What `request` does to the state and returns.
pub open spec fn request_spec(m: ProbesModel, now: u64) -> (ProbesModel, Result<Seq<u8>, Error>) {
    if now > i64::MAX {
        (m, Err(Error::Invalid("timestamp")))
    } else if m.sequence == u64::MAX {
        (m, Err(Error::Invalid("probe sequence exhausted")))
    } else {
        let seq = (m.sequence + 1) as u64;
        (
            ProbesModel {
                outstanding: m.outstanding.update(slot(seq), (seq, now)),
                sequence: seq,
                publication: m.publication.update(slot(seq), None),
                last_publication: m.last_publication,
            },
            Ok(encode_probe_spec(request_probe(seq, now))),
        )
    }
}

/// What `publication_finished` does to the state.
pub open spec fn publication_spec(m: ProbesModel, now: u64) -> ProbesModel {
    let i = slot(m.sequence);
    if m.outstanding[i].0 == m.sequence && m.sequence != 0 {
        ProbesModel {
            publication: m.publication.update(
                i,
                if now >= m.outstanding[i].1 {
                    Some((now - m.outstanding[i].1) as u64)
                } else {
                    None
                },
            ),
            ..m
        }
    } else {
        m
    }
}

/// What `reply` does to the state and returns.
pub open spec fn reply_spec(m: ProbesModel, bytes: Seq<u8>, now: u64) -> (
    ProbesModel,
    Result<Option<Exchange>, Error>,
) {
    let cleared = ProbesModel { last_publication: None, ..m };
    match decode_probe_result(bytes) {
        Err(e) => (cleared, Err(e)),
        Ok(p) => {
            let i = slot(p.sequence);
            if p.sequence == 0 || m.outstanding[i] != (p.sequence, p.t1) || p.t2 == 0 {
                (cleared, Ok(None))
            } else if now < p.t1 || p.t3 - p.t2 > now - p.t1 {
                (cleared, Ok(None))
            } else if now - p.t1 > MAX_EXCHANGE_NS {
                (ProbesModel { outstanding: m.outstanding.update(i, (0, 0)), ..cleared }, Ok(None))
            } else {
                (
                    ProbesModel {
                        outstanding: m.outstanding.update(i, (0, 0)),
                        last_publication: m.publication[i],
                        ..m
                    },
                    Ok(Some(Exchange { t1: p.t1, t2: p.t2, t3: p.t3, t4: now })),
                )
            }
        },
    }
}

/// The state of a new `Probes`.
pub open spec fn initial_probes() -> ProbesModel {
    ProbesModel {
        outstanding: Seq::new(128, |i: int| (0u64, 0u64)),
        sequence: 0,
        publication: Seq::new(128, |i: int| None::<u64>),
        last_publication: None,
    }
}

impl Default for Probes {
    fn default() -> (r: Self)
        ensures
            r@ == initial_probes(),
    {
        let r = Probes {
            outstanding: [(0u64, 0u64); 128],
            sequence: 0,
            publication: [None; 128],
            last_publication: None,
        };
        assert(r@.outstanding =~= initial_probes().outstanding);
        assert(r@.publication =~= initial_probes().publication);
        r
    }
}

pub(crate) proof fn lemma_probe_size(p: Probe)
    ensures
        encode_probe_spec(p).len() <= 55,
{
    crate::codec::lemma_varint_cap();
    assert forall|tag: nat, v: u64| 1 <= tag <= 5 implies #[trigger] crate::codec::varint_field(
        tag,
        v,
    ).len() <= 11 by {
        if v != 0 {
            crate::codec::lemma_varint_roundtrip(tag * 8, Seq::empty(), 0);
            crate::codec::lemma_varint_roundtrip(v as nat, Seq::empty(), 0);
        }
    }
}

impl Probes {
    /// Starts a new probe at local time `now`: returns the request bytes and remembers it.
    pub fn request(&mut self, now: u64) -> (r: Result<Vec<u8>, Error>)
        ensures
            ({
                let (m, res) = request_spec(old(self)@, now);
                &&& final(self)@ == m
                &&& match r {
                    Ok(bytes) => res == Ok::<Seq<u8>, Error>(bytes@),
                    Err(e) => res == Err::<Seq<u8>, Error>(e),
                }
            }),
    {
        if now > i64::MAX as u64 {
            return Err(Error::Invalid("timestamp"));
        }
        let sequence = match self.sequence.checked_add(1) {
            Some(s) => s,
            None => return Err(Error::Invalid("probe sequence exhausted")),
        };
        let p = Probe { version: 1, sequence, t1: now, t2: 0, t3: 0 };
        proof {
            lemma_probe_size(p);
        }
        let bytes = match encode(&p) {
            Ok(b) => b,
            Err(e) => return Err(e),
        };
        self.sequence = sequence;
        let i = (sequence % 128) as usize;
        self.publication[i] = None;
        self.outstanding[i] = (sequence, now);
        Ok(bytes)
    }

    /// Call immediately after synchronous publication returns, in the same clock domain.
    pub fn publication_finished(&mut self, now: u64)
        ensures
            final(self)@ == publication_spec(old(self)@, now),
    {
        let i = (self.sequence % 128) as usize;
        if self.outstanding[i].0 == self.sequence && self.sequence != 0 {
            self.publication[i] = now.checked_sub(self.outstanding[i].1);
        }
    }

    /// Publication time of the request that the last accepted reply answered.
    pub fn last_publication_ns(&self) -> (r: Option<u64>)
        ensures
            r == self@.last_publication,
    {
        self.last_publication
    }

    /// Matches a reply received at local time `now` against the outstanding requests.
    /// A reply is accepted once, only for the request its sequence number and send time
    /// name, and only if the leader's residence time fits within the round trip and the
    /// round trip within `MAX_EXCHANGE_NS`.
    pub fn reply(&mut self, bytes: &[u8], now: u64) -> (r: Result<Option<Exchange>, Error>)
        ensures
            ({
                let (m, res) = reply_spec(old(self)@, bytes@, now);
                final(self)@ == m && r == res
            }),
    {
        self.last_publication = None;
        let p = match decode_probe(bytes) {
            Ok(p) => p,
            Err(e) => return Err(e),
        };
        let i = (p.sequence % 128) as usize;
        let entry = self.outstanding[i];
        if p.sequence == 0 || entry.0 != p.sequence || entry.1 != p.t1 || p.t2 == 0 {
            return Ok(None);
        }
        if now < p.t1 || p.t3 - p.t2 > now - p.t1 {
            return Ok(None);
        }
        if now - p.t1 > MAX_EXCHANGE_NS {
            self.outstanding[i] = (0, 0);
            return Ok(None);
        }
        self.outstanding[i] = (0, 0);
        self.last_publication = self.publication[i];
        Ok(Some(Exchange { t1: p.t1, t2: p.t2, t3: p.t3, t4: now }))
    }
}

/// Slot tables of a `Probes` always have 128 entries.
pub open spec fn probes_wf(m: ProbesModel) -> bool {
    m.outstanding.len() == 128 && m.publication.len() == 128
}

pub proof fn lemma_probes_wf(p: Probes)
    ensures
        probes_wf(p@),
{
}

/// A reply to the latest request, with leader timestamps `t2 <= t3` and received within
/// the exchange limit, is matched to that request and yields its exchange.
pub proof fn lemma_request_reply(m: ProbesModel, now: u64, t2: u64, t3: u64, later: u64)
    requires
        probes_wf(m),
        request_spec(m, now).1 is Ok,
        0 < t2 <= t3 <= i64::MAX,
        now <= later,
        t3 - t2 <= later - now,
        later - now <= MAX_EXCHANGE_NS,
    ensures
        ({
            let m1 = request_spec(m, now).0;
            let reply = encode_probe_spec(
                Probe { version: 1, sequence: m1.sequence, t1: now, t2, t3 },
            );
            reply_spec(m1, reply, later).1 == Ok::<Option<Exchange>, Error>(
                Some(Exchange { t1: now, t2, t3, t4: later }),
            )
        }),
{
    let m1 = request_spec(m, now).0;
    let p = Probe { version: 1, sequence: m1.sequence, t1: now, t2, t3 };
    crate::wire::lemma_probe_roundtrip(p);
    lemma_probe_size(p);
    assert(m1.outstanding[slot(m1.sequence)] == (m1.sequence, now));
}

/// A reply is accepted at most once: the same bytes again are ignored.
pub proof fn lemma_reply_once(m: ProbesModel, bytes: Seq<u8>, now: u64, again: u64)
    requires
        probes_wf(m),
        reply_spec(m, bytes, now).1 matches Ok(Some(_)),
    ensures
        reply_spec(reply_spec(m, bytes, now).0, bytes, again).1 == Ok::<Option<Exchange>, Error>(
            None,
        ),
{
    let p = decode_probe_result(bytes)->Ok_0;
    let m1 = reply_spec(m, bytes, now).0;
    assert(m1.outstanding[slot(p.sequence)] == (0u64, 0u64));
}

/// Recording the end of publication changes nothing a caller sees at once: the requests
/// waiting for replies, the sequence and the last reported publication time stay. When
/// the latest request is no longer waiting (or none was made) the call changes nothing at
/// all. When it is waiting, a later reply accepted for it reports the time from its
/// sending to the end of publication, or none when the clock read earlier than the
/// sending.
pub proof fn lemma_publication_then_reply(m: ProbesModel, now: u64, bytes: Seq<u8>, later: u64)
    requires
        probes_wf(m),
    ensures
        publication_spec(m, now).outstanding == m.outstanding,
        publication_spec(m, now).sequence == m.sequence,
        publication_spec(m, now).last_publication == m.last_publication,
        !(m.sequence != 0 && m.outstanding[slot(m.sequence)].0 == m.sequence) ==> publication_spec(
            m,
            now,
        ) == m,
        ({
            let sent = m.outstanding[slot(m.sequence)].1;
            let (m2, r) = reply_spec(publication_spec(m, now), bytes, later);
            (m.sequence != 0 && m.outstanding[slot(m.sequence)].0 == m.sequence && decode_probe_result(
                bytes,
            ) is Ok && decode_probe_result(bytes)->Ok_0.sequence == m.sequence && r is Ok
                && r->Ok_0 is Some) ==> {
                &&& r->Ok_0->Some_0.t1 == sent
                &&& m2.last_publication == (if now >= sent {
                    Some((now - sent) as u64)
                } else {
                    None
                })
            }
        }),
{
}

/// The state after the requests sent at `times`, in order.
pub open spec fn requests(m: ProbesModel, times: Seq<u64>) -> ProbesModel
    decreases times.len(),
{
    if times.len() == 0 {
        m
    } else {
        request_spec(requests(m, times.drop_last()), times.last()).0
    }
}

proof fn lemma_requests_sequence(m: ProbesModel, times: Seq<u64>)
    requires
        probes_wf(m),
        forall|i: int| 0 <= i < times.len() ==> #[trigger] times[i] <= i64::MAX,
        m.sequence + times.len() <= u64::MAX,
    ensures
        requests(m, times).sequence == m.sequence + times.len(),
        probes_wf(requests(m, times)),
    decreases times.len(),
{
    if times.len() > 0 {
        let init = times.drop_last();
        assert forall|i: int| 0 <= i < init.len() implies #[trigger] init[i] <= i64::MAX by {
            assert(init[i] == times[i]);
        }
        lemma_requests_sequence(m, init);
        assert(times.last() == times[times.len() - 1]);
    }
}

/// Only the 128 most recent requests can be answered: once 128 more requests have been
/// sent, a reply to an earlier one is ignored.
pub proof fn lemma_evicted_ignored(m: ProbesModel, now: u64, times: Seq<u64>, bytes: Seq<u8>, later: u64)
    requires
        probes_wf(m),
        request_spec(m, now).1 is Ok,
        times.len() == 128,
        forall|i: int| 0 <= i < times.len() ==> #[trigger] times[i] <= i64::MAX,
        m.sequence + 129 <= u64::MAX,
        decode_probe_result(bytes) matches Ok(p) && p.sequence == m.sequence + 1,
    ensures
        reply_spec(requests(request_spec(m, now).0, times), bytes, later).1 == Ok::<
            Option<Exchange>,
            Error,
        >(None),
{
    let m1 = request_spec(m, now).0;
    let init = times.drop_last();
    assert forall|i: int| 0 <= i < init.len() implies #[trigger] init[i] <= i64::MAX by {
        assert(init[i] == times[i]);
    }
    lemma_requests_sequence(m1, init);
    assert(times.last() == times[127]);
    let s = m1.sequence;
    assert(slot((s + 128) as u64) == slot(s));
    let last = requests(m1, times);
    assert(last.outstanding[slot(s)].0 == s + 128);
}

} // verus!