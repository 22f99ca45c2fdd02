use vstd::prelude::*;

use crate::digest::{blake3_digest, blake3_of};

verus! {

/// What happened to which intent.
pub enum EventKind {
    IntentCreated { id: String },
    Captured { id: String, amount: u128 },
    Released { id: String, total: u128 },
    Refunded { id: String, amount: u128 },
    Expired { id: String },
}

/// A domain event and the host time at which it was recorded.
pub struct Event {
    pub ts: u64,
    pub kind: EventKind,
}

impl EventKind {
    pub open spec fn tag(&self) -> u8 {
        match self {
            EventKind::IntentCreated { .. } => 0,
            EventKind::Captured { .. } => 1,
            EventKind::Released { .. } => 2,
            EventKind::Refunded { .. } => 3,
            EventKind::Expired { .. } => 4,
        }
    }

    pub open spec fn spec_id(&self) -> Seq<char> {
        match self {
            EventKind::IntentCreated { id } => id@,
            EventKind::Captured { id, .. } => id@,
            EventKind::Released { id, .. } => id@,
            EventKind::Refunded { id, .. } => id@,
            EventKind::Expired { id } => id@,
        }
    }

    /// The amount an event carries; zero for those that carry none.
    pub open spec fn spec_amount(&self) -> u128 {
        match self {
            EventKind::Captured { amount, .. } => *amount,
            EventKind::Released { total, .. } => *total,
            EventKind::Refunded { amount, .. } => *amount,
            _ => 0,
        }
    }

    pub fn copy(&self) -> (r: EventKind)
        ensures
            r == *self,
    {
        match self {
            EventKind::IntentCreated { id } => EventKind::IntentCreated { id: id.clone() },
            EventKind::Captured { id, amount } => EventKind::Captured { id: id.clone(), amount: *amount },
            EventKind::Released { id, total } => EventKind::Released { id: id.clone(), total: *total },
            EventKind::Refunded { id, amount } => EventKind::Refunded { id: id.clone(), amount: *amount },
            EventKind::Expired { id } => EventKind::Expired { id: id.clone() },
        }
    }

    fn parts(&self) -> (r: (u8, &str, u128))
        ensures
            r.0 == self.tag(),
            r.1@ == self.spec_id(),
            r.2 == self.spec_amount(),
    {
        match self {
            EventKind::IntentCreated { id } => (0, id.as_str(), 0),
            EventKind::Captured { id, amount } => (1, id.as_str(), *amount),
            EventKind::Released { id, total } => (2, id.as_str(), *total),
            EventKind::Refunded { id, amount } => (3, id.as_str(), *amount),
            EventKind::Expired { id } => (4, id.as_str(), 0),
        }
    }
}

impl Event {
    pub fn copy(&self) -> (r: Event)
        ensures
            r == *self,
    {
        Event { ts: self.ts, kind: self.kind.copy() }
    }
}

/// The Candid encoding of an event's time, kind tag, intent id and amount.
pub uninterp spec fn event_encoding_of(ts: u64, tag: u8, id: Seq<char>, amount: u128) -> Seq<u8>;

/// Relies on `candid::encode_one`: the Candid encoding of the tuple
/// `(ts, tag, id, amount)`, which depends on these values alone. The encoding
/// of these plain types does not fail; were it to, the bytes are empty.
#[verifier::external_body]
fn encode_event_fields(ts: u64, tag: u8, id: &str, amount: u128) -> (r: Vec<u8>)
    ensures
        r@ == event_encoding_of(ts, tag, id@, amount),
{
    candid::encode_one((ts, tag, id, amount)).unwrap_or_default()
}

/// The bytes that identify an event's content.
pub open spec fn event_bytes(e: Event) -> Seq<u8> {
    event_encoding_of(e.ts, e.kind.tag(), e.kind.spec_id(), e.kind.spec_amount())
}

/// The content hash of an event.
pub open spec fn event_digest(e: Event) -> Seq<u8> {
    blake3_of(event_bytes(e))
}

/// The tip that precedes every event.
pub open spec fn zero_tip() -> Seq<u8> {
    Seq::new(32, |i: int| 0u8)
}

/// The tip reached by chaining `events`, in order, onto `start`: each step
/// hashes the previous tip followed by the event's content hash.
pub open spec fn chain(start: Seq<u8>, events: Seq<Event>) -> Seq<u8>
    decreases events.len(),
{
    if events.len() == 0 {
        start
    } else {
        blake3_of(chain(start, events.drop_last()) + event_digest(events.last()))
    }
}

/// Chaining two runs of events one after the other is chaining their
/// concatenation.
pub proof fn lemma_chain_concat(start: Seq<u8>, a: Seq<Event>, b: Seq<Event>)
    ensures
        chain(chain(start, a), b) == chain(start, a + b),
    decreases b.len(),
{
    if b.len() == 0 {
        assert(a + b =~= a);
    } else {
        lemma_chain_concat(start, a, b.drop_last());
        assert((a + b).drop_last() =~= a + b.drop_last());
        assert((a + b).last() == b.last());
    }
}

/// The append-only, hash-chained record of domain events.
pub struct EventLog {
    pub events: Vec<Event>,
    pub hashes: Vec<[u8; 32]>,
    pub tips: Vec<[u8; 32]>,
}

/// A slice of the log with what an outside party needs to check it: the tip
/// before the slice (none when it starts at the first event), the current tip
/// (none while the log is empty) and the host's certificate of that tip.
pub struct CertifiedEvents {
    pub events: Vec<Event>,
    pub prev_prefix: Option<Vec<u8>>,
    pub tip_prefix: Option<Vec<u8>>,
    pub certificate: Option<Vec<u8>>,
}

fn concat32(a: &[u8; 32], b: &[u8; 32]) -> (r: Vec<u8>)
    ensures
        r@ == a@ + b@,
{
    let mut r: Vec<u8> = Vec::new();
    let mut i: usize = 0;
    while i < 32
        invariant
            i <= 32,
            r@ == a@.subrange(0, i as int),
        decreases 32 - i,
    {
        r.push(a[i]);
        i = i + 1;
        assert(r@ =~= a@.subrange(0, i as int));
    }
    let mut j: usize = 0;
    while j < 32
        invariant
            j <= 32,
            r@ == a@ + b@.subrange(0, j as int),
        decreases 32 - j,
    {
        r.push(b[j]);
        j = j + 1;
        assert(r@ =~= a@ + b@.subrange(0, j as int));
    }
    assert(a@.subrange(0, 32) =~= a@);
    assert(b@.subrange(0, 32) =~= b@);
    r
}

fn to_vec32(a: &[u8; 32]) -> (r: Vec<u8>)
    ensures
        r@ == a@,
{
    let mut r: Vec<u8> = Vec::new();
    let mut i: usize = 0;
    while i < 32
        invariant
            i <= 32,
            r@ == a@.subrange(0, i as int),
        decreases 32 - i,
    {
        r.push(a[i]);
        i = i + 1;
        assert(r@ =~= a@.subrange(0, i as int));
    }
    assert(a@.subrange(0, 32) =~= a@);
    r
}

impl EventLog {
    /// The three sequences run in parallel; each hash is its event's content
    /// hash, and each tip is the chain over the events up to and including it,
    /// from the zero tip.
    pub open spec fn wf(&self) -> bool {
        &&& self.hashes@.len() == self.events@.len()
        &&& self.tips@.len() == self.events@.len()
        &&& forall|i: int| 0 <= i < self.events@.len() ==> (#[trigger] self.hashes@[i])@ == event_digest(self.events@[i])
        &&& forall|i: int| 0 <= i < self.events@.len()
            ==> (#[trigger] self.tips@[i])@ == chain(zero_tip(), self.events@.subrange(0, i + 1))
    }

    /// The tip over the whole log: the zero tip while it is empty.
    pub open spec fn current_tip(&self) -> Seq<u8> {
        chain(zero_tip(), self.events@)
    }

    pub fn new() -> (r: EventLog)
        ensures
            r.wf(),
            r.events@.len() == 0,
    {
        EventLog { events: Vec::new(), hashes: Vec::new(), tips: Vec::new() }
    }

    /// The current tip: the last one recorded, or the zero tip.
    pub fn tip(&self) -> (r: [u8; 32])
        requires
            self.wf(),
        ensures
            r@ == self.current_tip(),
    {
        let n = self.tips.len();
        if n == 0 {
            let z = [0u8; 32];
            assert(z@ =~= zero_tip());
            z
        } else {
            assert(self.events@.subrange(0, n as int) =~= self.events@);
            self.tips[n - 1]
        }
    }

    /// Records an event of `kind` at time `ts` and chains it onto the log.
    /// Returns the new tip, which the host is to certify.
    pub fn append_event(&mut self, ts: u64, kind: EventKind) -> (tip: [u8; 32])
        requires
            old(self).wf(),
        ensures
            final(self).wf(),
            final(self).events@ == old(self).events@.push(Event { ts, kind }),
            tip@ == final(self).current_tip(),
    {
        let prev = self.tip();
        let e = Event { ts, kind };
        let (tag, id, amount) = e.kind.parts();
        let bytes = encode_event_fields(ts, tag, id, amount);
        let eh = blake3_digest(bytes.as_slice());
        let input = concat32(&prev, &eh);
        let next = blake3_digest(input.as_slice());
        let ghost old_events = self.events@;
        self.events.push(e);
        self.hashes.push(eh);
        self.tips.push(next);
        proof {
            let evs = self.events@;
            assert(evs.drop_last() =~= old_events);
            assert forall|i: int| 0 <= i < evs.len() implies
                (#[trigger] self.tips@[i])@ == chain(zero_tip(), evs.subrange(0, i + 1)) by {
                if i < old_events.len() {
                    assert(evs.subrange(0, i + 1) =~= old_events.subrange(0, i + 1));
                } else {
                    assert(evs.subrange(0, i + 1) =~= evs);
                }
            }
            assert(evs.subrange(0, evs.len() as int) =~= evs);
        }
        next
    }

    /// The events from `offset` for at most `limit` events, both clamped to
    /// the log's length.
    pub fn list_events(&self, offset: u64, limit: u32) -> (r: Vec<Event>)
        ensures
            r@ == self.events@.subrange(
                clamp(offset as int, self.events@.len() as int),
                clamp(offset as int + limit as int, self.events@.len() as int),
            ),
    {
        let len = self.events.len();
        let start: usize = if (offset as u128) < (len as u128) { offset as usize } else { len };
        let end: usize = if (start as u128) + (limit as u128) < (len as u128) {
            start + limit as usize
        } else {
            len
        };
        let mut r: Vec<Event> = Vec::new();
        let mut i: usize = start;
        while i < end
            invariant
                start <= i <= end <= len == self.events@.len(),
                r@ == self.events@.subrange(start as int, i as int),
            decreases end - i,
        {
            r.push(self.events[i].copy());
            i = i + 1;
            assert(r@ =~= self.events@.subrange(start as int, i as int));
        }
        r
    }

    /// The same slice as `list_events`, with the tip before it, the current
    /// tip, and `certificate`, which the host issued for the current tip.
    pub fn list_events_certified_from(&self, offset: u64, limit: u32, certificate: Option<Vec<u8>>) -> (r: CertifiedEvents)
        requires
            self.wf(),
        ensures
            ({
                let len = self.events@.len() as int;
                let start = clamp(offset as int, len);
                &&& r.events@ == self.events@.subrange(start, clamp(offset as int + limit as int, len))
                &&& start == 0 ==> r.prev_prefix is None
                &&& start > 0 ==> (r.prev_prefix matches Some(p)
                    && p@ == chain(zero_tip(), self.events@.subrange(0, start)))
                &&& len == 0 ==> r.tip_prefix is None
                &&& len > 0 ==> (r.tip_prefix matches Some(t) && t@ == self.current_tip())
                &&& r.certificate == certificate
            }),
    {
        let events = self.list_events(offset, limit);
        let len = self.events.len();
        let start: usize = if (offset as u128) < (len as u128) { offset as usize } else { len };
        let prev_prefix = if start == 0 {
            None
        } else {
            Some(to_vec32(&self.tips[start - 1]))
        };
        let tip_prefix = if len == 0 {
            None
        } else {
            let t = self.tip();
            Some(to_vec32(&t))
        };
        CertifiedEvents { events, prev_prefix, tip_prefix, certificate }
    }
}

/// `x` held to the range `0..=len`.
pub open spec fn clamp(x: int, len: int) -> int {
    if x < 0 { 0 } else if x > len { len } else { x }
}

/// Recomputing the chain over the first `n` recorded events from the zero tip
/// gives the tip recorded after the `n`-th event.
pub proof fn lemma_prefix_recomputes_tip(log: &EventLog, n: int)
    requires
        log.wf(),
        1 <= n <= log.events@.len(),
    ensures
        chain(zero_tip(), log.events@.subrange(0, n)) == log.tips@[n - 1]@,
{
}

/// What a verifier does with a certified listing that runs to the end of the
/// log: chaining the listed events onto the preceding tip (the zero tip when
/// the listing starts at the first event) gives the current tip.
pub proof fn lemma_certified_slice_verifies(log: &EventLog, start: int)
    requires
        log.wf(),
        0 <= start <= log.events@.len(),
    ensures
        chain(
            if start == 0 { zero_tip() } else { log.tips@[start - 1]@ },
            log.events@.subrange(start, log.events@.len() as int),
        ) == log.current_tip(),
{
    let evs = log.events@;
    lemma_chain_concat(zero_tip(), evs.subrange(0, start), evs.subrange(start, evs.len() as int));
    assert(evs.subrange(0, start) + evs.subrange(start, evs.len() as int) =~= evs);
    if start == 0 {
        assert(evs.subrange(0, 0) =~= Seq::<Event>::empty());
    }
}

} // verus!
