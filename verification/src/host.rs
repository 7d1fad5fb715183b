//! The host correlator: issues requests under fresh sequence ids, matches
//! inbound frames to outstanding callers or topic subscribers, and fails
//! every outstanding request when the transport closes.

use vstd::prelude::*;
use crate::codec::Frame;
use crate::codec::FrameModel;
use crate::codec::decode_frame;
use crate::codec::encode_frame;
use crate::codec::spec_decode_frame;
use crate::codec::spec_encode_frame;
use crate::keys::KeyCollision;
use crate::keys::KeyTable;
use crate::keys::distinct_at;
use crate::payload::FailureKind;
use crate::payload::dec_failure;
use crate::payload::spec_dec_failure;
use crate::registry::TopicDescriptor;
use crate::registry::registry_entries;
use crate::registry::spec_workbook_entries;
use crate::registry::lemma_entries_len;
use crate::registry::workbook_endpoints;

verus! {

/// The sequence-id space: ids wrap at this modulus, matching a two-byte
/// wire sequence.
pub const SEQ_MODULUS: u64 = 0x1_0000;

/// How one outstanding request ends.
#[derive(Debug, PartialEq, Eq)]
pub enum ResponseOutcome {
    /// The typed response payload, still encoded.
    Payload(Vec<u8>),
    /// A protocol failure reported on the reserved error path.
    Failure(FailureKind),
    /// The transport closed before a response arrived.
    TransportClosed,
}

/// The single-slot result state of one outstanding request.
#[derive(Debug, PartialEq, Eq)]
pub enum PendingState {
    Waiting,
    Resolved(ResponseOutcome),
}

/// One outstanding request: its sequence id, the response key it expects,
/// and its result slot. Resolved exactly once, then removed when taken.
#[derive(Debug, PartialEq, Eq)]
pub struct PendingEntry {
    pub seq: u64,
    pub resp_key: u64,
    pub state: PendingState,
}

/// Interest in one topic: a bounded queue that drops its oldest entry on
/// overflow; best-effort by design.
#[derive(Debug, PartialEq, Eq)]
pub struct Subscription {
    pub topic_key: u64,
    pub capacity: usize,
    pub queue: Vec<Vec<u8>>,
    pub closed: bool,
}

/// Why a request could not be issued.
#[derive(Clone, Copy, Debug, PartialEq, Eq, Structural)]
pub enum HostError {
    /// The transport is closed; reconnect first.
    Disconnected,
    /// The next sequence id still names an outstanding request.
    SequenceInUse,
}

/// What processing one inbound frame did.
#[derive(Clone, Copy, Debug, PartialEq, Eq, Structural)]
pub enum InboundOutcome {
    /// The outstanding request with this sequence id was resolved.
    ResolvedRequest(u64),
    /// A message was delivered to the subscription at this index.
    TopicDelivered(usize),
    /// A stale or foreign frame, dropped by design.
    Discarded,
}

/// The host correlator.
pub struct Correlator {
    pub table: KeyTable,
    pub next_seq: u64,
    pub pending: Vec<PendingEntry>,
    pub subs: Vec<Subscription>,
    pub connected: bool,
}

impl Correlator {
    /// Well-formedness: the table is this deployment's, the next sequence
    /// id is inside the wrap space, outstanding sequence ids are unique,
    /// and every subscription queue respects its bound.
    pub open spec fn wf(self) -> bool {
        &&& self.table.wf()
        &&& self.table.entries@ == spec_workbook_entries()
        &&& self.next_seq < SEQ_MODULUS
        &&& forall|i: int, j: int|
            0 <= i < j < self.pending@.len() ==> self.pending@[i].seq != self.pending@[j].seq
        &&& forall|i: int|
            0 <= i < self.pending@.len() ==> self.pending@[i].seq < SEQ_MODULUS
        &&& forall|i: int|
            0 <= i < self.subs@.len() ==> #[trigger] self.subs@[i].queue@.len()
                <= self.subs@[i].capacity && self.subs@[i].capacity >= 1
    }

    /// The negotiated key width.
    pub open spec fn width(self) -> nat {
        self.table.width as nat
    }

    /// The reserved error-path key, the last registry entry.
    pub open spec fn error_key_of(self) -> u64 {
        self.table.entries@[self.table.entries@.len() - 1].key
    }

    /// The wire bytes of a request frame this correlator sends.
    pub open spec fn wire(self, key: u64, seq: nat, payload: Seq<u8>) -> Seq<u8> {
        spec_encode_frame((FrameModel { key, seq, payload }), self.width())
    }

    /// Builds a fresh correlator from the shared registry; both sides
    /// derive the same table, so the same `KeyCollision` verdict.
    pub fn new() -> (r: Result<Correlator, KeyCollision>)
        ensures
            match r {
                Ok(c) => c.wf() && c.next_seq == 0 && c.pending@.len() == 0 && c.subs@.len() == 0
                    && c.connected,
                Err(_) => !distinct_at(spec_workbook_entries(), 8),
            },
    {
        let endpoints = workbook_endpoints();
        let topics: Vec<TopicDescriptor> = Vec::new();
        let entries = registry_entries(&endpoints, &topics);
        proof {
            assert(topics@ =~= Seq::<TopicDescriptor>::empty());
        }
        match KeyTable::build(entries) {
            Ok(table) => Ok(
                Correlator {
                    table,
                    next_seq: 0,
                    pending: Vec::new(),
                    subs: Vec::new(),
                    connected: true,
                },
            ),
            Err(e) => Err(e),
        }
    }

    /// Issues a request: allocates the next sequence id, registers the
    /// pending entry, and hands back the encoded request frame to write.
    /// Fails when the transport is closed, or when the next id still names
    /// an outstanding request (so an id is never reused while pending).
    pub fn start_request(&mut self, req_key: u64, resp_key: u64, payload: &Vec<u8>) -> (r: Result<
        (u64, Vec<u8>),
        HostError,
    >)
        requires
            old(self).wf(),
        ensures
            final(self).wf(),
            final(self).table == old(self).table,
            final(self).subs == old(self).subs,
            final(self).connected == old(self).connected,
            match r {
                Ok(p) => {
                    &&& old(self).connected
                    &&& forall|i: int|
                        0 <= i < old(self).pending@.len() ==> old(self).pending@[i].seq != old(
                            self,
                        ).next_seq
                    &&& p.0 == old(self).next_seq
                    &&& p.1@ == old(self).wire(req_key, p.0 as nat, payload@)
                    &&& final(self).pending@ == old(self).pending@.push(
                        (PendingEntry { seq: p.0, resp_key, state: PendingState::Waiting }),
                    )
                    &&& final(self).next_seq == (old(self).next_seq + 1) % (SEQ_MODULUS as int)
                },
                Err(HostError::Disconnected) => !old(self).connected && *final(self) == *old(
                    self,
                ),
                Err(HostError::SequenceInUse) => {
                    &&& old(self).connected
                    &&& exists|i: int|
                        0 <= i < old(self).pending@.len() && old(self).pending@[i].seq == old(
                            self,
                        ).next_seq
                    &&& *final(self) == *old(self)
                },
            },
    {
        if !self.connected {
            return Err(HostError::Disconnected);
        }
        let seq = self.next_seq;
        if self.seq_outstanding(seq) {
            return Err(HostError::SequenceInUse);
        }
        let frame = Frame { key: req_key, seq, payload: clone_bytes(payload) };
        let bytes = encode_frame(&frame, self.table.width);
        self.pending.push(PendingEntry { seq, resp_key, state: PendingState::Waiting });
        self.next_seq = (seq + 1) % SEQ_MODULUS;
        Ok((seq, bytes))
    }

    /// Whether some outstanding request already holds this sequence id.
    fn seq_outstanding(&self, seq: u64) -> (r: bool)
        ensures
            r <==> exists|i: int|
                0 <= i < self.pending@.len() && self.pending@[i].seq == seq,
    {
        let n = self.pending.len();
        let mut i: usize = 0;
        while i < n
            invariant
                i <= n,
                n == self.pending@.len(),
                forall|k: int| 0 <= k < i ==> self.pending@[k].seq != seq,
            decreases n - i,
        {
            if self.pending[i].seq == seq {
                return true;
            }
            i = i + 1;
        }
        false
    }
}

impl Correlator {
    /// A waiting entry for `seq` stands at index `i`.
    pub open spec fn waiting_at(self, i: int, seq: u64) -> bool {
        &&& 0 <= i < self.pending@.len()
        &&& self.pending@[i].seq == seq
        &&& self.pending@[i].state is Waiting
    }

    /// The subscription at `j` is the first one interested in `key`.
    pub open spec fn first_topic_match(self, j: int, key: u64) -> bool {
        &&& 0 <= j < self.subs@.len()
        &&& self.subs@[j].topic_key == key
        &&& forall|k: int| 0 <= k < j ==> self.subs@[k].topic_key != key
    }
}

/// The entry after a transport-closed event: a waiting slot takes the
/// transport-closed outcome; a resolved slot keeps its result.
pub open spec fn closed_entry(e: PendingEntry) -> PendingEntry {
    PendingEntry {
        seq: e.seq,
        resp_key: e.resp_key,
        state: if e.state is Waiting {
            PendingState::Resolved(ResponseOutcome::TransportClosed)
        } else {
            e.state
        },
    }
}

/// A subscription after a transport-closed event: notified closed, queue
/// and interest kept.
pub open spec fn closed_sub(s: Subscription) -> Subscription {
    Subscription { topic_key: s.topic_key, capacity: s.capacity, queue: s.queue, closed: true }
}

/// Resolving one outstanding request: the unique waiting entry for `seq`
/// takes the outcome; every other entry, and everything else, is
/// untouched. With no waiting entry the frame is a stale or foreign one
/// and is dropped.
pub open spec fn spec_resolve(
    pre: Correlator,
    post: Correlator,
    seq: u64,
    outcome_ok: spec_fn(ResponseOutcome) -> bool,
    r: InboundOutcome,
) -> bool {
    if exists|i: int| pre.waiting_at(i, seq) {
        let i = choose|i: int| pre.waiting_at(i, seq);
        &&& post.pending@.len() == pre.pending@.len()
        &&& forall|k: int|
            0 <= k < pre.pending@.len() && k != i ==> post.pending@[k] == pre.pending@[k]
        &&& post.pending@[i].seq == seq
        &&& post.pending@[i].resp_key == pre.pending@[i].resp_key
        &&& (post.pending@[i].state matches PendingState::Resolved(o) && outcome_ok(o))
        &&& post.subs == pre.subs
        &&& r == InboundOutcome::ResolvedRequest(seq)
    } else {
        post.pending == pre.pending && post.subs == pre.subs && r
            == InboundOutcome::Discarded
    }
}

/// The outcome is the carried failure.
pub open spec fn outcome_is_failure(k: FailureKind) -> spec_fn(ResponseOutcome) -> bool {
    |o: ResponseOutcome| o matches ResponseOutcome::Failure(k2) && k2 == k
}

/// The outcome is the decoded response payload.
pub open spec fn outcome_is_payload(msg: Seq<u8>) -> spec_fn(ResponseOutcome) -> bool {
    |o: ResponseOutcome| o matches ResponseOutcome::Payload(v) && v@ == msg
}

/// The outcome is a transport-closed failure.
pub open spec fn outcome_is_closed() -> spec_fn(ResponseOutcome) -> bool {
    |o: ResponseOutcome| o is TransportClosed
}

/// A bounded delivery: the new queue is the old one plus the message,
/// with the oldest entry dropped when the queue was full.
pub open spec fn spec_queue_push(preq: Seq<Vec<u8>>, postq: Seq<Vec<u8>>, cap: int, msg: Seq<u8>) -> bool {
    if preq.len() < cap {
        &&& postq.len() == preq.len() + 1
        &&& forall|k: int| 0 <= k < preq.len() ==> postq[k] == preq[k]
        &&& postq[postq.len() - 1]@ == msg
    } else {
        &&& postq.len() == preq.len()
        &&& forall|k: int| 0 <= k < preq.len() - 1 ==> postq[k] == preq[k + 1]
        &&& postq[postq.len() - 1]@ == msg
    }
}

/// Delivering a topic message to the first interested subscription.
pub open spec fn spec_topic_delivery(
    pre: Correlator,
    post: Correlator,
    key: u64,
    msg: Seq<u8>,
    r: InboundOutcome,
) -> bool {
    if exists|j: int| pre.first_topic_match(j, key) {
        let j = choose|j: int| pre.first_topic_match(j, key);
        &&& post.pending == pre.pending
        &&& post.subs@.len() == pre.subs@.len()
        &&& forall|k: int| 0 <= k < pre.subs@.len() && k != j ==> post.subs@[k] == pre.subs@[k]
        &&& post.subs@[j].topic_key == pre.subs@[j].topic_key
        &&& post.subs@[j].capacity == pre.subs@[j].capacity
        &&& post.subs@[j].closed == pre.subs@[j].closed
        &&& spec_queue_push(
            pre.subs@[j].queue@,
            post.subs@[j].queue@,
            pre.subs@[j].capacity as int,
            msg,
        )
        &&& r == InboundOutcome::TopicDelivered(j as usize)
    } else {
        post.pending == pre.pending && post.subs == pre.subs && r
            == InboundOutcome::Discarded
    }
}

/// No cross-delivery: resolving a frame for one sequence id leaves every
/// entry with a different id untouched, so each response reaches exactly
/// its originating caller.
pub proof fn lemma_no_cross_delivery(
    pre: Correlator,
    post: Correlator,
    seq: u64,
    outcome_ok: spec_fn(ResponseOutcome) -> bool,
    r: InboundOutcome,
    j: int,
)
    requires
        spec_resolve(pre, post, seq, outcome_ok, r),
        0 <= j < pre.pending@.len(),
        pre.pending@[j].seq != seq,
    ensures
        post.pending@[j] == pre.pending@[j],
{
    if exists|i: int| pre.waiting_at(i, seq) {
        let i = choose|i: int| pre.waiting_at(i, seq);
        assert(i != j);
    }
}

/// A late response for an abandoned request is a no-op: with no waiting
/// entry left under its sequence id, processing it changes nothing, so an
/// abandoned request leaks no routing-table entry.
pub proof fn lemma_late_response_is_noop(
    pre: Correlator,
    post: Correlator,
    seq: u64,
    outcome_ok: spec_fn(ResponseOutcome) -> bool,
    r: InboundOutcome,
)
    requires
        spec_resolve(pre, post, seq, outcome_ok, r),
        forall|i: int| !pre.waiting_at(i, seq),
    ensures
        post.pending == pre.pending,
        post.subs == pre.subs,
        r == InboundOutcome::Discarded,
{
}

/// What processing one inbound frame does: error-path frames resolve the
/// named request with the carried failure, response frames resolve the
/// caller expecting that key and sequence, topic messages go to the first
/// interested subscription, and every other frame is silently discarded.
pub open spec fn spec_inbound(
    pre: Correlator,
    post: Correlator,
    bytes: Seq<u8>,
    r: InboundOutcome,
) -> bool {
    &&& post.table == pre.table
    &&& post.next_seq == pre.next_seq
    &&& post.connected == pre.connected
    &&& post.pending@.len() == pre.pending@.len()
    &&& match spec_decode_frame(bytes, pre.table.entries@, pre.width()) {
        Err(_) => post.pending == pre.pending && post.subs == pre.subs && r
            == InboundOutcome::Discarded,
        Ok(f) => if f.key == pre.error_key_of() {
            match spec_dec_failure(f.payload) {
                Some(k) => spec_resolve(pre, post, f.seq as u64, outcome_is_failure(k), r),
                None => post.pending == pre.pending && post.subs == pre.subs && r
                    == InboundOutcome::Discarded,
            }
        } else if exists|i: int|
            pre.waiting_at(i, f.seq as u64) && pre.pending@[i].resp_key == f.key {
            spec_resolve(pre, post, f.seq as u64, outcome_is_payload(f.payload), r)
        } else {
            spec_topic_delivery(pre, post, f.key, f.payload, r)
        },
    }
}

impl Correlator {
    /// The receive-loop body: decode one inbound frame and route it to
    /// the outstanding caller, the error path's named request, or a topic
    /// subscription; anything else is a stale or foreign frame and is
    /// silently discarded.
    pub fn process_inbound(&mut self, bytes: &Vec<u8>) -> (r: InboundOutcome)
        requires
            old(self).wf(),
        ensures
            final(self).wf(),
            spec_inbound(*old(self), *final(self), bytes@, r),
    {
        proof {
            lemma_entries_len();
        }
        let frame = match decode_frame(bytes, &self.table) {
            Err(_) => {
                return InboundOutcome::Discarded;
            },
            Ok(f) => f,
        };
        let err_key = self.table.entries[self.table.entries.len() - 1].key;
        if frame.key == err_key {
            match dec_failure(&frame.payload) {
                Some(k) => self.resolve_waiting(frame.seq, ResponseOutcome::Failure(k)),
                None => InboundOutcome::Discarded,
            }
        } else {
            let matched = self.find_waiting_response(frame.seq, frame.key);
            if matched {
                self.resolve_waiting(frame.seq, ResponseOutcome::Payload(frame.payload))
            } else {
                match self.find_topic(frame.key) {
                    Some(j) => {
                        self.push_topic(j, frame.payload);
                        InboundOutcome::TopicDelivered(j)
                    },
                    None => InboundOutcome::Discarded,
                }
            }
        }
    }

    /// Resolves the waiting entry for `seq` with `o`, if one exists.
    fn resolve_waiting(&mut self, seq: u64, o: ResponseOutcome) -> (r: InboundOutcome)
        requires
            old(self).wf(),
        ensures
            final(self).wf(),
            final(self).table == old(self).table,
            final(self).next_seq == old(self).next_seq,
            final(self).connected == old(self).connected,
            final(self).pending@.len() == old(self).pending@.len(),
            spec_resolve(*old(self), *final(self), seq, (|o2: ResponseOutcome| o2 == o), r),
    {
        let n = self.pending.len();
        let mut i: usize = 0;
        while i < n
            invariant
                i <= n,
                *self == *old(self),
                old(self).wf(),
                n == self.pending@.len(),
                forall|k: int| 0 <= k < i ==> !old(self).waiting_at(k, seq),
            decreases n - i,
        {
            if self.pending[i].seq == seq && entry_is_waiting(&self.pending[i]) {
                proof {
                    assert(old(self).waiting_at(i as int, seq));
                }
                let resp_key = self.pending[i].resp_key;
                let mut e = self.pending.remove(i);
                e.state = PendingState::Resolved(o);
                self.pending.insert(i, e);
                proof {
                    let pre = *old(self);
                    let w = choose|w: int| pre.waiting_at(w, seq);
                    if w < i as int {
                        assert(pre.pending@[w].seq != pre.pending@[i as int].seq);
                    } else if w > i as int {
                        assert(pre.pending@[i as int].seq != pre.pending@[w].seq);
                    }
                    assert(w == i as int);
                    assert(self.pending@ =~= pre.pending@.update(
                        i as int,
                        (PendingEntry {
                            seq,
                            resp_key: pre.pending@[i as int].resp_key,
                            state: PendingState::Resolved(o),
                        }),
                    ));
                }
                return InboundOutcome::ResolvedRequest(seq);
            }
            i = i + 1;
        }
        InboundOutcome::Discarded
    }

    /// Whether a waiting entry expects this sequence and response key.
    fn find_waiting_response(&self, seq: u64, key: u64) -> (r: bool)
        ensures
            r <==> exists|i: int|
                self.waiting_at(i, seq) && self.pending@[i].resp_key == key,
    {
        let n = self.pending.len();
        let mut i: usize = 0;
        while i < n
            invariant
                i <= n,
                n == self.pending@.len(),
                forall|k: int|
                    0 <= k < i ==> !(self.waiting_at(k, seq) && self.pending@[k].resp_key
                        == key),
            decreases n - i,
        {
            if self.pending[i].seq == seq && self.pending[i].resp_key == key
                && entry_is_waiting(&self.pending[i]) {
                proof {
                    assert(self.waiting_at(i as int, seq));
                }
                return true;
            }
            i = i + 1;
        }
        false
    }

    /// Finds the first subscription interested in `key`.
    fn find_topic(&self, key: u64) -> (r: Option<usize>)
        ensures
            match r {
                Some(j) => self.first_topic_match(j as int, key),
                None => forall|j: int|
                    0 <= j < self.subs@.len() ==> self.subs@[j].topic_key != key,
            },
    {
        let n = self.subs.len();
        let mut j: usize = 0;
        while j < n
            invariant
                j <= n,
                n == self.subs@.len(),
                forall|k: int| 0 <= k < j ==> self.subs@[k].topic_key != key,
            decreases n - j,
        {
            if self.subs[j].topic_key == key {
                return Some(j);
            }
            j = j + 1;
        }
        None
    }

    /// Pushes a message onto a subscription's bounded queue, dropping the
    /// oldest entry when full.
    fn push_topic(&mut self, j: usize, msg: Vec<u8>)
        requires
            old(self).wf(),
            j < old(self).subs@.len(),
        ensures
            final(self).wf(),
            final(self).table == old(self).table,
            final(self).next_seq == old(self).next_seq,
            final(self).connected == old(self).connected,
            final(self).pending == old(self).pending,
            final(self).subs@.len() == old(self).subs@.len(),
            forall|k: int|
                0 <= k < old(self).subs@.len() && k != j ==> final(self).subs@[k] == old(
                    self,
                ).subs@[k],
            final(self).subs@[j as int].topic_key == old(self).subs@[j as int].topic_key,
            final(self).subs@[j as int].capacity == old(self).subs@[j as int].capacity,
            final(self).subs@[j as int].closed == old(self).subs@[j as int].closed,
            spec_queue_push(
                old(self).subs@[j as int].queue@,
                final(self).subs@[j as int].queue@,
                old(self).subs@[j as int].capacity as int,
                msg@,
            ),
    {
        let mut s = self.subs.remove(j);
        if s.queue.len() == s.capacity {
            s.queue.remove(0);
        }
        s.queue.push(msg);
        let ghost s_new = s;
        self.subs.insert(j, s);
        proof {
            let pre = *old(self);
            assert(self.subs@ =~= pre.subs@.update(j as int, s_new));
        }
    }
}

impl Correlator {
    /// Takes the resolved outcome of the request with sequence id `seq`,
    /// removing its entry. A still-waiting request, or an unknown id,
    /// yields `None` and changes nothing: a caller may poll until its
    /// response arrives.
    pub fn take_response(&mut self, seq: u64) -> (r: Option<ResponseOutcome>)
        requires
            old(self).wf(),
        ensures
            final(self).wf(),
            final(self).table == old(self).table,
            final(self).next_seq == old(self).next_seq,
            final(self).connected == old(self).connected,
            final(self).subs == old(self).subs,
            match r {
                Some(o) => {
                    &&& exists|i: int| old(self).resolved_at(i, seq)
                    &&& {
                        let i = choose|i: int| old(self).resolved_at(i, seq);
                        &&& old(self).pending@[i].state == PendingState::Resolved(o)
                        &&& final(self).pending@ == old(self).pending@.remove(i)
                    }
                },
                None => (forall|i: int| !old(self).resolved_at(i, seq)) && final(self).pending
                    == old(self).pending,
            },
    {
        let n = self.pending.len();
        let mut i: usize = 0;
        while i < n
            invariant
                i <= n,
                *self == *old(self),
                old(self).wf(),
                n == self.pending@.len(),
                forall|k: int| 0 <= k < i ==> self.pending@[k].seq != seq,
            decreases n - i,
        {
            if self.pending[i].seq == seq {
                if entry_is_waiting(&self.pending[i]) {
                    proof {
                        assert forall|k: int| !old(self).resolved_at(k, seq) by {
                            if (i as int) < k && k < n {
                                assert(old(self).pending@[i as int].seq != old(
                                    self,
                                ).pending@[k].seq);
                            }
                        }
                    }
                    return None;
                }
                proof {
                    assert(old(self).resolved_at(i as int, seq));
                }
                let e = self.pending.remove(i);
                proof {
                    let pre = *old(self);
                    let w = choose|w: int| pre.resolved_at(w, seq);
                    if w < i as int {
                        assert(pre.pending@[w].seq != pre.pending@[i as int].seq);
                    } else if w > i as int {
                        assert(pre.pending@[i as int].seq != pre.pending@[w].seq);
                    }
                    assert(w == i as int);
                    pre.pending@.remove_ensures(i as int);
                    assert forall|a: int, b: int|
                        0 <= a < b < self.pending@.len() implies self.pending@[a].seq
                        != self.pending@[b].seq by {
                        lemma_pending_remove_index(pre.pending@, i as int, a);
                        lemma_pending_remove_index(pre.pending@, i as int, b);
                    }
                    assert forall|a: int|
                        0 <= a < self.pending@.len() implies self.pending@[a].seq
                        < SEQ_MODULUS by {
                        lemma_pending_remove_index(pre.pending@, i as int, a);
                    }
                }
                match e.state {
                    PendingState::Resolved(o) => {
                        return Some(o);
                    },
                    PendingState::Waiting => {
                        proof {
                            assert(false);
                        }
                        return None;
                    },
                }
            }
            i = i + 1;
        }
        proof {
            assert forall|k: int| !old(self).resolved_at(k, seq) by {}
        }
        None
    }

    /// A resolved entry for `seq` stands at index `i`.
    pub open spec fn resolved_at(self, i: int, seq: u64) -> bool {
        &&& 0 <= i < self.pending@.len()
        &&& self.pending@[i].seq == seq
        &&& self.pending@[i].state is Resolved
    }

    /// Abandons the request with sequence id `seq`: its entry is removed
    /// whatever its state, so a late response for it is a no-op and the
    /// id may be reused. Unknown ids change nothing.
    pub fn cancel(&mut self, seq: u64) -> (r: bool)
        requires
            old(self).wf(),
        ensures
            final(self).wf(),
            final(self).table == old(self).table,
            final(self).next_seq == old(self).next_seq,
            final(self).connected == old(self).connected,
            final(self).subs == old(self).subs,
            if exists|i: int|
                0 <= i < old(self).pending@.len() && old(self).pending@[i].seq == seq {
                let i = choose|i: int|
                    0 <= i < old(self).pending@.len() && old(self).pending@[i].seq == seq;
                r && final(self).pending@ == old(self).pending@.remove(i)
            } else {
                !r && final(self).pending == old(self).pending
            },
    {
        let n = self.pending.len();
        let mut i: usize = 0;
        while i < n
            invariant
                i <= n,
                *self == *old(self),
                old(self).wf(),
                n == self.pending@.len(),
                forall|k: int| 0 <= k < i ==> self.pending@[k].seq != seq,
            decreases n - i,
        {
            if self.pending[i].seq == seq {
                let _ = self.pending.remove(i);
                proof {
                    let pre = *old(self);
                    let w = choose|w: int|
                        0 <= w < pre.pending@.len() && pre.pending@[w].seq == seq;
                    if w < i as int {
                        assert(pre.pending@[w].seq != pre.pending@[i as int].seq);
                    } else if w > i as int {
                        assert(pre.pending@[i as int].seq != pre.pending@[w].seq);
                    }
                    assert(w == i as int);
                    pre.pending@.remove_ensures(i as int);
                    assert forall|a: int, b: int|
                        0 <= a < b < self.pending@.len() implies self.pending@[a].seq
                        != self.pending@[b].seq by {
                        lemma_pending_remove_index(pre.pending@, i as int, a);
                        lemma_pending_remove_index(pre.pending@, i as int, b);
                    }
                    assert forall|a: int|
                        0 <= a < self.pending@.len() implies self.pending@[a].seq
                        < SEQ_MODULUS by {
                        lemma_pending_remove_index(pre.pending@, i as int, a);
                    }
                }
                return true;
            }
            i = i + 1;
        }
        false
    }

    /// The transport closed: every outstanding request resolves with a
    /// transport-closed outcome, exactly once each; already-resolved slots
    /// keep their results. Subscriptions are notified closed but kept, so
    /// a caller may resume listening after reconnecting.
    pub fn disconnect(&mut self)
        requires
            old(self).wf(),
        ensures
            final(self).wf(),
            final(self).table == old(self).table,
            final(self).next_seq == old(self).next_seq,
            !final(self).connected,
            final(self).pending@.len() == old(self).pending@.len(),
            forall|i: int|
                0 <= i < old(self).pending@.len() ==> final(self).pending@[i] == closed_entry(
                    #[trigger] old(self).pending@[i],
                ),
            final(self).subs@.len() == old(self).subs@.len(),
            forall|j: int|
                0 <= j < old(self).subs@.len() ==> final(self).subs@[j] == closed_sub(
                    #[trigger] old(self).subs@[j],
                ),
    {
        let n = self.pending.len();
        let mut i: usize = 0;
        while i < n
            invariant
                i <= n,
                old(self).wf(),
                n == old(self).pending@.len(),
                self.table == old(self).table,
                self.next_seq == old(self).next_seq,
                self.connected == old(self).connected,
                self.subs == old(self).subs,
                self.pending@.len() == n,
                forall|k: int|
                    i <= k < n ==> self.pending@[k] == #[trigger] old(self).pending@[k],
                forall|k: int|
                    0 <= k < i ==> self.pending@[k] == closed_entry(
                        #[trigger] old(self).pending@[k],
                    ),
            decreases n - i,
        {
            let ghost p0 = self.pending@;
            if entry_is_waiting(&self.pending[i]) {
                let mut e = self.pending.remove(i);
                e.state = PendingState::Resolved(ResponseOutcome::TransportClosed);
                let ghost e_new = e;
                self.pending.insert(i, e);
                proof {
                    p0.remove(i as int).insert_ensures(i as int, e_new);
                    p0.remove_ensures(i as int);
                    assert(self.pending@ =~= p0.update(i as int, e_new));
                }
            }
            i = i + 1;
        }
        proof {
            assert forall|a: int, b: int|
                0 <= a < b < self.pending@.len() implies self.pending@[a].seq
                != self.pending@[b].seq by {
                assert(self.pending@[a] == closed_entry(old(self).pending@[a]));
                assert(self.pending@[b] == closed_entry(old(self).pending@[b]));
            }
            assert forall|a: int|
                0 <= a < self.pending@.len() implies self.pending@[a].seq < SEQ_MODULUS by {
                assert(self.pending@[a] == closed_entry(old(self).pending@[a]));
            }
        }
        let m = self.subs.len();
        let mut j: usize = 0;
        while j < m
            invariant
                j <= m,
                old(self).wf(),
                m == old(self).subs@.len(),
                self.table == old(self).table,
                self.next_seq == old(self).next_seq,
                self.connected == old(self).connected,
                self.subs@.len() == m,
                self.pending@.len() == old(self).pending@.len(),
                forall|k: int|
                    0 <= k < old(self).pending@.len() ==> self.pending@[k] == closed_entry(
                        #[trigger] old(self).pending@[k],
                    ),
                forall|a: int, b: int|
                    0 <= a < b < self.pending@.len() ==> self.pending@[a].seq
                        != self.pending@[b].seq,
                forall|a: int|
                    0 <= a < self.pending@.len() ==> self.pending@[a].seq < SEQ_MODULUS,
                forall|k: int| j <= k < m ==> self.subs@[k] == #[trigger] old(self).subs@[k],
                forall|k: int|
                    0 <= k < j ==> self.subs@[k] == closed_sub(#[trigger] old(self).subs@[k]),
            decreases m - j,
        {
            let ghost s0 = self.subs@;
            let mut s = self.subs.remove(j);
            s.closed = true;
            let ghost s_new = s;
            self.subs.insert(j, s);
            proof {
                s0.remove(j as int).insert_ensures(j as int, s_new);
                s0.remove_ensures(j as int);
                assert(self.subs@ =~= s0.update(j as int, s_new));
            }
            j = j + 1;
        }
        self.connected = false;
        proof {
            assert forall|k: int|
                0 <= k < self.subs@.len() implies #[trigger] self.subs@[k].queue@.len()
                <= self.subs@[k].capacity && self.subs@[k].capacity >= 1 by {
                assert(self.subs@[k] == closed_sub(old(self).subs@[k]));
            }
        }
    }

    /// Starts a fresh session after a reconnect: a new sequence-id space,
    /// no outstanding requests, and subscriptions reopened with their
    /// queues intact. Stale ids of the old session can no longer collide.
    pub fn reconnect(&mut self)
        requires
            old(self).wf(),
        ensures
            final(self).wf(),
            final(self).table == old(self).table,
            final(self).connected,
            final(self).next_seq == 0,
            final(self).pending@.len() == 0,
            final(self).subs@.len() == old(self).subs@.len(),
            forall|j: int|
                0 <= j < old(self).subs@.len() ==> #[trigger] final(self).subs@[j].topic_key
                    == old(self).subs@[j].topic_key && final(self).subs@[j].capacity == old(
                    self,
                ).subs@[j].capacity && final(self).subs@[j].queue == old(self).subs@[j].queue
                    && !final(self).subs@[j].closed,
    {
        self.pending = Vec::new();
        self.next_seq = 0;
        self.connected = true;
        let m = self.subs.len();
        let mut j: usize = 0;
        while j < m
            invariant
                j <= m,
                old(self).wf(),
                m == old(self).subs@.len(),
                self.table == old(self).table,
                self.connected,
                self.next_seq == 0,
                self.pending@.len() == 0,
                self.subs@.len() == m,
                forall|k: int| j <= k < m ==> #[trigger] self.subs@[k] == old(self).subs@[k],
                forall|k: int|
                    0 <= k < j ==> #[trigger] self.subs@[k].topic_key == old(
                        self,
                    ).subs@[k].topic_key && self.subs@[k].capacity == old(
                        self,
                    ).subs@[k].capacity && self.subs@[k].queue == old(self).subs@[k].queue
                        && !self.subs@[k].closed,
            decreases m - j,
        {
            let ghost s0 = self.subs@;
            let mut s = self.subs.remove(j);
            s.closed = false;
            let ghost s_new = s;
            self.subs.insert(j, s);
            proof {
                s0.remove(j as int).insert_ensures(j as int, s_new);
                s0.remove_ensures(j as int);
                assert(self.subs@ =~= s0.update(j as int, s_new));
            }
            j = j + 1;
        }
        proof {
            assert forall|k: int|
                0 <= k < self.subs@.len() implies #[trigger] self.subs@[k].queue@.len()
                <= self.subs@[k].capacity && self.subs@[k].capacity >= 1 by {
                assert(self.subs@[k].topic_key == old(self).subs@[k].topic_key);
                assert(self.subs@[k].queue == old(self).subs@[k].queue);
                assert(self.subs@[k].capacity == old(self).subs@[k].capacity);
            }
        }
    }

    /// Registers interest in a topic key with a bounded delivery queue;
    /// hands back the subscription's index.
    pub fn subscribe(&mut self, topic_key: u64, capacity: usize) -> (r: usize)
        requires
            old(self).wf(),
            capacity >= 1,
        ensures
            final(self).wf(),
            final(self).table == old(self).table,
            final(self).next_seq == old(self).next_seq,
            final(self).connected == old(self).connected,
            final(self).pending == old(self).pending,
            r == old(self).subs@.len(),
            final(self).subs@.len() == old(self).subs@.len() + 1,
            forall|k: int|
                0 <= k < old(self).subs@.len() ==> #[trigger] final(self).subs@[k] == old(
                    self,
                ).subs@[k],
            final(self).subs@[r as int].topic_key == topic_key,
            final(self).subs@[r as int].capacity == capacity,
            final(self).subs@[r as int].queue@.len() == 0,
            !final(self).subs@[r as int].closed,
    {
        let r = self.subs.len();
        self.subs.push(
            Subscription { topic_key, capacity, queue: Vec::new(), closed: false },
        );
        r
    }

    /// Takes the oldest delivered message of a subscription, if any.
    pub fn poll_topic(&mut self, j: usize) -> (r: Option<Vec<u8>>)
        requires
            old(self).wf(),
            j < old(self).subs@.len(),
        ensures
            final(self).wf(),
            final(self).table == old(self).table,
            final(self).next_seq == old(self).next_seq,
            final(self).connected == old(self).connected,
            final(self).pending == old(self).pending,
            final(self).subs@.len() == old(self).subs@.len(),
            forall|k: int|
                0 <= k < old(self).subs@.len() && k != j ==> #[trigger] final(self).subs@[k]
                    == old(self).subs@[k],
            final(self).subs@[j as int].topic_key == old(self).subs@[j as int].topic_key,
            final(self).subs@[j as int].capacity == old(self).subs@[j as int].capacity,
            final(self).subs@[j as int].closed == old(self).subs@[j as int].closed,
            match r {
                Some(msg) => old(self).subs@[j as int].queue@.len() > 0 && msg == old(
                    self,
                ).subs@[j as int].queue@[0] && final(self).subs@[j as int].queue@ == old(
                    self,
                ).subs@[j as int].queue@.remove(0),
                None => old(self).subs@[j as int].queue@.len() == 0 && final(self).subs@[
                    j as int] == old(self).subs@[j as int],
            },
    {
        let mut s = self.subs.remove(j);
        if s.queue.len() == 0 {
            self.subs.insert(j, s);
            proof {
                assert(self.subs@ =~= old(self).subs@);
            }
            return None;
        }
        let msg = s.queue.remove(0);
        let ghost s_new = s;
        self.subs.insert(j, s);
        proof {
            assert(self.subs@ =~= old(self).subs@.update(j as int, s_new));
        }
        Some(msg)
    }
}

/// An element of a pending list with one index removed is an element of
/// the original, shifted past the removal point.
proof fn lemma_pending_remove_index(s: Seq<PendingEntry>, i: int, k: int)
    requires
        0 <= i < s.len(),
        0 <= k < s.len() - 1,
    ensures
        s.remove(i)[k] == if k < i {
            s[k]
        } else {
            s[k + 1]
        },
{
    s.remove_ensures(i);
}

/// Copies a byte vector.
fn clone_bytes(b: &Vec<u8>) -> (r: Vec<u8>)
    ensures
        r@ == b@,
{
    let mut out: Vec<u8> = Vec::new();
    let mut i: usize = 0;
    while i < b.len()
        invariant
            i <= b@.len(),
            out@ == b@.take(i as int),
        decreases b@.len() - i,
    {
        out.push(b[i]);
        i = i + 1;
        proof {
            assert(out@ =~= b@.take(i as int));
        }
    }
    proof {
        assert(b@.take(b@.len() as int) =~= b@);
    }
    out
}

/// Whether an entry's result slot is still empty.
fn entry_is_waiting(e: &PendingEntry) -> (r: bool)
    ensures
        r <==> e.state is Waiting,
{
    match &e.state {
        PendingState::Waiting => true,
        PendingState::Resolved(_) => false,
    }
}

} // verus!
