//! The device dispatcher: owns the shared context, routes decoded frames
//! to handlers, enforces the blocking/concurrent execution split with a
//! bounded spawn pool, and produces every outbound frame through one
//! serialized encode path.

use vstd::prelude::*;
use crate::codec::DecodeError;
use crate::codec::Frame;
use crate::codec::FrameModel;
use crate::codec::decode_frame;
use crate::codec::encode_frame;
use crate::codec::spec_decode_frame;
use crate::codec::spec_encode_frame;
use crate::icd::BadPositionError;
use crate::icd::Rgb8;
use crate::icd::SingleLed;
use crate::keys::KeyCollision;
use crate::keys::KeyTable;
use crate::keys::distinct_at;
use crate::payload::FailureKind;
use crate::payload::LED_COUNT;
use crate::payload::dec_all_led;
use crate::payload::dec_single_led;
use crate::payload::dec_u32;
use crate::payload::dec_unit;
use crate::payload::enc_failure;
use crate::payload::enc_led_result;
use crate::payload::enc_u32;
use crate::payload::enc_u64;
use crate::payload::enc_unit;
use crate::payload::spec_dec_single_led;
use crate::payload::spec_dec_u32;
use crate::payload::spec_dec_unit;
use crate::payload::spec_dec_all_led;
use crate::payload::spec_enc_failure;
use crate::payload::spec_enc_led_result;
use crate::payload::spec_enc_u32;
use crate::payload::spec_enc_u64;
use crate::payload::spec_enc_unit;
use crate::registry::EP_COUNT;
use crate::registry::EP_PING;
use crate::registry::EP_SCHEMA;
use crate::registry::EP_SET_ALL;
use crate::registry::EP_SET_ONE;
use crate::registry::EP_TOGGLE;
use crate::registry::EP_UNIQUE_ID;
use crate::registry::EndpointDescriptor;
use crate::registry::TopicDescriptor;
use crate::registry::registry_entries;
use crate::registry::spec_workbook_endpoints;
use crate::registry::spec_workbook_entries;
use crate::registry::lemma_entries_len;
use crate::registry::workbook_endpoints;
use crate::schema::enc_schema;
use crate::schema::report_of_table;
use crate::schema::spec_enc_schema;

verus! {

/// Device-shared mutable state, exclusively owned by the dispatcher and
/// lent out to one blocking handler at a time.
pub struct Context {
    pub unique_id: u64,
    pub leds: Vec<Rgb8>,
}

impl Context {
    /// Well-formedness: the LED state covers the whole strip.
    pub open spec fn wf(self) -> bool {
        self.leds@.len() == LED_COUNT as int
    }
}

/// The non-aliasing capability handed to concurrently spawned handlers;
/// deliberately carries none of the exclusive context.
pub struct SpawnCtx;

/// Which of the three board LEDs a toggle request addresses.
#[derive(Clone, Copy, Debug, PartialEq, Eq, Structural)]
pub enum LedSelect {
    Red,
    Yellow,
    Green,
}

/// The board position of each toggleable LED.
pub open spec fn spec_toggle_select(pos: u32) -> Option<LedSelect> {
    if pos == 3 {
        Some(LedSelect::Red)
    } else if pos == 2 {
        Some(LedSelect::Yellow)
    } else if pos == 1 {
        Some(LedSelect::Green)
    } else {
        None
    }
}

/// Blocking handler: answer a ping with its own payload.
pub fn ping_handler(req: u32) -> (r: u32)
    ensures
        r == req,
{
    req
}

/// Blocking handler: report the device's unique identifier.
pub fn unique_id_handler(context: &mut Context) -> (r: u64)
    ensures
        r == old(context).unique_id,
        *final(context) == *old(context),
{
    context.unique_id
}

/// Blocking handler: set one LED, or report the position as out of range.
pub fn set_single_led_handler(context: &mut Context, req: SingleLed) -> (r: Result<
    (),
    BadPositionError,
>)
    requires
        old(context).wf(),
    ensures
        final(context).wf(),
        final(context).unique_id == old(context).unique_id,
        match r {
            Ok(_) => req.position < LED_COUNT && final(context).leds@ == old(
                context,
            ).leds@.update(req.position as int, req.rgb),
            Err(_) => req.position >= LED_COUNT && *final(context) == *old(context),
        },
{
    if req.position < LED_COUNT as u32 {
        write_led_slot(context, req.position as usize, req.rgb);
        Ok(())
    } else {
        Err(BadPositionError)
    }
}

/// Writes one LED slot.
fn write_led_slot(context: &mut Context, pos: usize, rgb: Rgb8)
    requires
        old(context).wf(),
        pos < LED_COUNT,
    ensures
        final(context).wf(),
        final(context).unique_id == old(context).unique_id,
        final(context).leds@ == old(context).leds@.update(pos as int, rgb),
{
    context.leds.set(pos, rgb);
}

/// Blocking handler: set the whole strip.
pub fn set_all_led_handler(context: &mut Context, leds: &Vec<Rgb8>)
    requires
        old(context).wf(),
        leds@.len() == LED_COUNT as int,
    ensures
        final(context).wf(),
        final(context).unique_id == old(context).unique_id,
        final(context).leds@ == leds@,
{
    let mut i: usize = 0;
    while i < LED_COUNT
        invariant
            i <= LED_COUNT,
            context.wf(),
            leds@.len() == LED_COUNT as int,
            context.unique_id == old(context).unique_id,
            forall|k: int| 0 <= k < i ==> context.leds@[k] == leds@[k],
            forall|k: int|
                i <= k < LED_COUNT as int ==> context.leds@[k] == old(context).leds@[k],
        decreases LED_COUNT - i,
    {
        context.leds.set(i, leds[i]);
        i = i + 1;
    }
    proof {
        assert(context.leds@ =~= leds@);
    }
}

/// Concurrent handler: decide which board LED a toggle request addresses.
/// The capability deliberately gives no access to the exclusive context;
/// the caller that owns the LED lines performs the toggle.
pub fn led_toggle_single_by_pos(_cap: &SpawnCtx, pos: u32) -> (r: Option<LedSelect>)
    ensures
        r == spec_toggle_select(pos),
{
    if pos == 3 {
        Some(LedSelect::Red)
    } else if pos == 2 {
        Some(LedSelect::Yellow)
    } else if pos == 1 {
        Some(LedSelect::Green)
    } else {
        None
    }
}

/// The value of a big-endian byte string.
pub open spec fn spec_be_value(s: Seq<u8>) -> nat
    decreases s.len(),
{
    if s.len() == 0 {
        0
    } else {
        spec_be_value(s.drop_last()) * 256 + s.last() as nat
    }
}

/// Reads the device's unique identifier out of the raw hardware id bytes:
/// the first eight, big-endian.
pub fn unique_id_from_bytes(uid: &Vec<u8>) -> (r: u64)
    requires
        uid@.len() >= 8,
    ensures
        r as nat == spec_be_value(uid@.take(8)),
{
    let mut acc: u64 = 0;
    let mut i: usize = 0;
    proof {
        assert(uid@.take(0) =~= Seq::<u8>::empty());
    }
    while i < 8
        invariant
            i <= 8,
            uid@.len() >= 8,
            acc as nat == spec_be_value(uid@.take(i as int)),
            (acc as nat) < crate::wire::pow256(i as nat),
        decreases 8 - i,
    {
        proof {
            crate::wire::lemma_pow256_le_u64(i as nat + 1);
            assert(crate::wire::pow256(i as nat + 1) == 256 * crate::wire::pow256(i as nat));
            assert(acc as nat * 256 + 255 < 256 * crate::wire::pow256(i as nat))
                by (nonlinear_arith)
                requires (acc as nat) < crate::wire::pow256(i as nat);
        }
        acc = acc * 256 + uid[i] as u64;
        i = i + 1;
        proof {
            assert(uid@.take(i as int).drop_last() =~= uid@.take(i - 1));
            assert(uid@.take(i as int).last() == uid@[i - 1]);
        }
    }
    acc
}

/// One spawned concurrent handler awaiting completion: its pool token, the
/// sequence it answers, and its decoded request.
#[derive(Clone, Copy, Debug, PartialEq, Eq, Structural)]
pub struct SpawnedTask {
    pub token: u64,
    pub seq: u64,
    pub pos: u32,
}

/// What one dispatcher step asks of the caller: write a reply frame, or
/// run the spawned unit of work identified by the token and complete it
/// later.
pub enum DispatchOutcome {
    Reply(Vec<u8>),
    Spawned(u64),
}

/// The device dispatcher.
pub struct Dispatcher {
    pub table: KeyTable,
    pub endpoints: Vec<EndpointDescriptor>,
    pub context: Context,
    pub pool_size: usize,
    pub active: Vec<SpawnedTask>,
    pub next_token: u64,
}

impl Dispatcher {
    /// Well-formedness: the table is the one this deployment's registry
    /// gives rise to, the context covers the strip, and the spawn pool is
    /// within bounds with distinct fresh tokens.
    pub open spec fn wf(self) -> bool {
        &&& self.table.wf()
        &&& self.endpoints@ == spec_workbook_endpoints()
        &&& self.table.entries@ == spec_workbook_entries()
        &&& self.context.wf()
        &&& self.active@.len() <= self.pool_size as int
        &&& forall|i: int, j: int|
            0 <= i < j < self.active@.len() ==> self.active@[i].token != self.active@[j].token
        &&& forall|i: int| 0 <= i < self.active@.len() ==> self.active@[i].token < self.next_token
    }

    /// The negotiated key width.
    pub open spec fn width(self) -> nat {
        self.table.width as nat
    }

    /// The request key of endpoint `i`.
    pub open spec fn req_key(self, i: int) -> u64 {
        self.table.entries@[2 * i].key
    }

    /// The response key of endpoint `i`.
    pub open spec fn resp_key(self, i: int) -> u64 {
        self.table.entries@[2 * i + 1].key
    }

    /// The reserved error-path key, the last registry entry.
    pub open spec fn error_key_of(self) -> u64 {
        self.table.entries@[self.table.entries@.len() - 1].key
    }

    /// The wire bytes of a frame this dispatcher sends.
    pub open spec fn wire(self, key: u64, seq: nat, payload: Seq<u8>) -> Seq<u8> {
        spec_encode_frame((FrameModel { key, seq, payload }), self.width())
    }

    /// The wire bytes of an error-path reply.
    pub open spec fn error_wire(self, seq: nat, k: FailureKind) -> Seq<u8> {
        self.wire(self.error_key_of(), seq, spec_enc_failure(k))
    }

    /// The wire bytes of an ordinary reply from endpoint `ep`.
    pub open spec fn reply_wire(self, ep: int, seq: nat, payload: Seq<u8>) -> Seq<u8> {
        self.wire(self.resp_key(ep), seq, payload)
    }

    /// The keys the schema report lists: every registered key in order.
    pub open spec fn report_keys(self) -> Seq<u64> {
        Seq::new(self.table.entries@.len(), |i: int| self.table.entries@[i].key)
    }
}

/// `r` is a reply whose bytes are exactly `s`.
pub open spec fn is_reply(r: DispatchOutcome, s: Seq<u8>) -> bool {
    match r {
        DispatchOutcome::Reply(v) => v@ == s,
        _ => false,
    }
}

/// Nothing of the dispatcher's mutable state moved.
pub open spec fn step_stutter(pre: Dispatcher, post: Dispatcher) -> bool {
    &&& post.context == pre.context
    &&& post.active == pre.active
    &&& post.next_token == pre.next_token
}

/// The frame-independent part of every step: registration is immutable.
pub open spec fn step_frame(pre: Dispatcher, post: Dispatcher) -> bool {
    &&& post.table == pre.table
    &&& post.endpoints == pre.endpoints
    &&& post.pool_size == pre.pool_size
}

/// What one dispatcher step does, as a relation between the state before,
/// the state after, the inbound bytes and the outcome.
pub open spec fn spec_step(
    pre: Dispatcher,
    post: Dispatcher,
    bytes: Seq<u8>,
    r: DispatchOutcome,
) -> bool {
    &&& step_frame(pre, post)
    &&& match spec_decode_frame(bytes, pre.table.entries@, pre.width()) {
        Err(DecodeError::Truncated) => is_reply(r, pre.error_wire(0, FailureKind::MalformedFrame))
            && step_stutter(pre, post),
        Err(DecodeError::UnknownKey { seq }) => is_reply(
            r,
            pre.error_wire(seq as nat, FailureKind::UnknownKey),
        ) && step_stutter(pre, post),
        Ok(f) => spec_step_routed(pre, post, f, r),
    }
}

/// The routing stage: a decoded frame either names an endpoint's request
/// key or is answered `UnknownKey`.
pub open spec fn spec_step_routed(
    pre: Dispatcher,
    post: Dispatcher,
    f: FrameModel,
    r: DispatchOutcome,
) -> bool {
    if exists|ep: int| 0 <= ep < EP_COUNT as int && pre.req_key(ep) == f.key {
        spec_step_endpoint(
            pre,
            post,
            choose|ep: int| 0 <= ep < EP_COUNT as int && pre.req_key(ep) == f.key,
            f,
            r,
        )
    } else {
        is_reply(r, pre.error_wire(f.seq, FailureKind::UnknownKey)) && step_stutter(pre, post)
    }
}

/// The execution stage: what each endpoint's handler does with the frame.
pub open spec fn spec_step_endpoint(
    pre: Dispatcher,
    post: Dispatcher,
    ep: int,
    f: FrameModel,
    r: DispatchOutcome,
) -> bool {
    if ep == EP_PING as int {
        match spec_dec_u32(f.payload) {
            Some(v) => is_reply(r, pre.reply_wire(ep, f.seq, spec_enc_u32(v))) && step_stutter(
                pre,
                post,
            ),
            None => spec_deser_failed(pre, post, f, r),
        }
    } else if ep == EP_UNIQUE_ID as int {
        match spec_dec_unit(f.payload) {
            Some(_) => is_reply(
                r,
                pre.reply_wire(ep, f.seq, spec_enc_u64(pre.context.unique_id)),
            ) && step_stutter(pre, post),
            None => spec_deser_failed(pre, post, f, r),
        }
    } else if ep == EP_SET_ONE as int {
        match spec_dec_single_led(f.payload) {
            Some(s) => if s.position < LED_COUNT {
                is_reply(r, pre.reply_wire(ep, f.seq, spec_enc_led_result(Ok(()))))
                    && post.context.unique_id == pre.context.unique_id && post.context.leds@
                    == pre.context.leds@.update(s.position as int, s.rgb) && post.active
                    == pre.active && post.next_token == pre.next_token
            } else {
                is_reply(
                    r,
                    pre.reply_wire(ep, f.seq, spec_enc_led_result(Err(BadPositionError))),
                ) && step_stutter(pre, post)
            },
            None => spec_deser_failed(pre, post, f, r),
        }
    } else if ep == EP_SET_ALL as int {
        match spec_dec_all_led(f.payload) {
            Some(v) => is_reply(r, pre.reply_wire(ep, f.seq, spec_enc_unit()))
                && post.context.unique_id == pre.context.unique_id && post.context.leds@ == v
                && post.active == pre.active && post.next_token == pre.next_token,
            None => spec_deser_failed(pre, post, f, r),
        }
    } else if ep == EP_TOGGLE as int {
        match spec_dec_u32(f.payload) {
            Some(pos) => if pre.active@.len() >= pre.pool_size as int || pre.next_token
                == u64::MAX {
                is_reply(r, pre.error_wire(f.seq, FailureKind::SpawnCapacityExceeded))
                    && step_stutter(pre, post)
            } else {
                r == DispatchOutcome::Spawned(pre.next_token) && post.context == pre.context
                    && post.active@ == pre.active@.push(
                    (SpawnedTask { token: pre.next_token, seq: f.seq as u64, pos }),
                ) && post.next_token == pre.next_token + 1
            },
            None => spec_deser_failed(pre, post, f, r),
        }
    } else if ep == EP_SCHEMA as int {
        match spec_dec_unit(f.payload) {
            Some(_) => is_reply(
                r,
                pre.reply_wire(
                    ep,
                    f.seq,
                    spec_enc_schema(pre.table.width as u8, pre.report_keys()),
                ),
            ) && step_stutter(pre, post),
            None => spec_deser_failed(pre, post, f, r),
        }
    } else {
        false
    }
}

/// Payload bytes that do not decode at the type bound to the key: an
/// error-path reply carrying the original sequence, state untouched.
pub open spec fn spec_deser_failed(
    pre: Dispatcher,
    post: Dispatcher,
    f: FrameModel,
    r: DispatchOutcome,
) -> bool {
    is_reply(r, pre.error_wire(f.seq, FailureKind::DeserializeFailed)) && step_stutter(pre, post)
}

/// What completing a spawned task does.
pub open spec fn spec_complete(
    pre: Dispatcher,
    post: Dispatcher,
    token: u64,
    r: Option<(Vec<u8>, Option<LedSelect>)>,
) -> bool {
    &&& step_frame(pre, post)
    &&& post.context == pre.context
    &&& post.next_token == pre.next_token
    &&& if exists|i: int| 0 <= i < pre.active@.len() && pre.active@[i].token == token {
        let i = choose|i: int| 0 <= i < pre.active@.len() && pre.active@[i].token == token;
        match r {
            Some(p) => p.0@ == pre.reply_wire(
                EP_TOGGLE as int,
                pre.active@[i].seq as nat,
                spec_enc_unit(),
            ) && p.1 == spec_toggle_select(pre.active@[i].pos) && post.active@
                == pre.active@.remove(i),
            None => false,
        }
    } else {
        r is None && post.active == pre.active
    }
}

impl Dispatcher {
    /// Builds the dispatcher for this deployment: derives the registry's
    /// keys, negotiates the key width, and starts with an empty spawn
    /// pool. Fails with `KeyCollision` exactly when the registry's digests
    /// collide even at the maximum width.
    pub fn new(context: Context, pool_size: usize) -> (r: Result<Dispatcher, KeyCollision>)
        requires
            context.wf(),
        ensures
            match r {
                Ok(d) => d.wf() && d.table.width_minimal() && d.context == context && d.pool_size
                    == pool_size && d.active@.len() == 0,
                Err(_) => !distinct_at(spec_workbook_entries(), 8),
            },
    {
        let endpoints = workbook_endpoints();
        let topics: Vec<TopicDescriptor> = Vec::new();
        let entries = registry_entries(&endpoints, &topics);
        proof {
            assert(topics@ =~= Seq::<TopicDescriptor>::empty());
        }
        match KeyTable::build(entries) {
            Ok(table) => Ok(
                Dispatcher { table, endpoints, context, pool_size, active: Vec::new(), next_token: 0 },
            ),
            Err(e) => Err(e),
        }
    }

    /// The dispatch loop body: decode one inbound frame, route it, run or
    /// spawn its handler, and hand back the reply or the spawned token.
    /// Decode failures are answered on the error path and are not fatal.
    pub fn handle_frame(&mut self, bytes: &Vec<u8>) -> (r: DispatchOutcome)
        requires
            old(self).wf(),
        ensures
            final(self).wf(),
            spec_step(*old(self), *final(self), bytes@, r),
    {
        proof {
            lemma_entries_len();
        }
        let frame = match decode_frame(bytes, &self.table) {
            Err(DecodeError::Truncated) => {
                return DispatchOutcome::Reply(self.error_reply(0, FailureKind::MalformedFrame));
            },
            Err(DecodeError::UnknownKey { seq }) => {
                return DispatchOutcome::Reply(self.error_reply(seq, FailureKind::UnknownKey));
            },
            Ok(f) => f,
        };
        let ep = match self.find_request_endpoint(frame.key) {
            None => {
                return DispatchOutcome::Reply(
                    self.error_reply(frame.seq, FailureKind::UnknownKey),
                );
            },
            Some(ep) => ep,
        };
        proof {
            lemma_request_keys_distinct(*self);
            let w = choose|w: int| 0 <= w < EP_COUNT as int && self.req_key(w) == frame.key;
            assert(w == ep as int);
        }
        if ep == EP_PING {
            match dec_u32(&frame.payload) {
                Some(v) => {
                    let payload = enc_u32(ping_handler(v));
                    DispatchOutcome::Reply(self.reply(EP_PING, frame.seq, payload))
                },
                None => DispatchOutcome::Reply(
                    self.error_reply(frame.seq, FailureKind::DeserializeFailed),
                ),
            }
        } else if ep == EP_UNIQUE_ID {
            match dec_unit(&frame.payload) {
                Some(_) => {
                    let id = unique_id_handler(&mut self.context);
                    let payload = enc_u64(id);
                    DispatchOutcome::Reply(self.reply(EP_UNIQUE_ID, frame.seq, payload))
                },
                None => DispatchOutcome::Reply(
                    self.error_reply(frame.seq, FailureKind::DeserializeFailed),
                ),
            }
        } else if ep == EP_SET_ONE {
            match dec_single_led(&frame.payload) {
                Some(s) => {
                    let outcome = set_single_led_handler(&mut self.context, s);
                    let payload = enc_led_result(&outcome);
                    DispatchOutcome::Reply(self.reply(EP_SET_ONE, frame.seq, payload))
                },
                None => DispatchOutcome::Reply(
                    self.error_reply(frame.seq, FailureKind::DeserializeFailed),
                ),
            }
        } else if ep == EP_SET_ALL {
            match dec_all_led(&frame.payload) {
                Some(v) => {
                    set_all_led_handler(&mut self.context, &v);
                    let payload = enc_unit();
                    DispatchOutcome::Reply(self.reply(EP_SET_ALL, frame.seq, payload))
                },
                None => DispatchOutcome::Reply(
                    self.error_reply(frame.seq, FailureKind::DeserializeFailed),
                ),
            }
        } else if ep == EP_TOGGLE {
            match dec_u32(&frame.payload) {
                Some(pos) => {
                    if self.active.len() >= self.pool_size || self.next_token == u64::MAX {
                        DispatchOutcome::Reply(
                            self.error_reply(frame.seq, FailureKind::SpawnCapacityExceeded),
                        )
                    } else {
                        let token = self.next_token;
                        self.active.push(SpawnedTask { token, seq: frame.seq, pos });
                        self.next_token = token + 1;
                        DispatchOutcome::Spawned(token)
                    }
                },
                None => DispatchOutcome::Reply(
                    self.error_reply(frame.seq, FailureKind::DeserializeFailed),
                ),
            }
        } else {
            match dec_unit(&frame.payload) {
                Some(_) => {
                    let report = report_of_table(&self.table);
                    let payload = enc_schema(&report);
                    proof {
                        assert(report.keys@ =~= self.report_keys());
                    }
                    DispatchOutcome::Reply(self.reply(EP_SCHEMA, frame.seq, payload))
                },
                None => DispatchOutcome::Reply(
                    self.error_reply(frame.seq, FailureKind::DeserializeFailed),
                ),
            }
        }
    }

    /// Completes the spawned task identified by `token`: frees its pool
    /// slot and hands back the reply frame and the LED action the
    /// capability owner is to perform. An unknown token is a no-op.
    pub fn complete_spawn(&mut self, token: u64) -> (r: Option<(Vec<u8>, Option<LedSelect>)>)
        requires
            old(self).wf(),
        ensures
            final(self).wf(),
            spec_complete(*old(self), *final(self), token, r),
    {
        proof {
            lemma_entries_len();
        }
        let n = self.active.len();
        let mut i: usize = 0;
        while i < n
            invariant
                i <= n,
                *self == *old(self),
                old(self).wf(),
                n == self.active@.len(),
                forall|k: int| 0 <= k < i ==> self.active@[k].token != token,
            decreases n - i,
        {
            if self.active[i].token == token {
                proof {
                    assert(old(self).active@[i as int].token == token);
                }
                let task = self.active.remove(i);
                proof {
                    let pre = *old(self);
                    pre.active@.remove_ensures(i as int);
                    let w = choose|w: int|
                        0 <= w < pre.active@.len() && pre.active@[w].token == token;
                    if w < i as int {
                        assert(pre.active@[w].token != pre.active@[i as int].token);
                    } else if w > i as int {
                        assert(pre.active@[i as int].token != pre.active@[w].token);
                    }
                    assert(w == i as int);
                    assert forall|a: int, b: int|
                        0 <= a < b < self.active@.len() implies self.active@[a].token
                        != self.active@[b].token by {
                        lemma_remove_index(pre.active@, i as int, a);
                        lemma_remove_index(pre.active@, i as int, b);
                    }
                    assert forall|a: int| 0 <= a < self.active@.len() implies self.active@[a].token
                        < self.next_token by {
                        lemma_remove_index(pre.active@, i as int, a);
                    }
                }
                let cap = SpawnCtx;
                let action = led_toggle_single_by_pos(&cap, task.pos);
                let payload = enc_unit();
                let reply = self.reply(EP_TOGGLE, task.seq, payload);
                return Some((reply, action));
            }
            i = i + 1;
        }
        None
    }

    /// Encodes an ordinary reply from endpoint `ep`.
    fn reply(&self, ep: usize, seq: u64, payload: Vec<u8>) -> (r: Vec<u8>)
        requires
            self.wf(),
            ep < EP_COUNT,
        ensures
            r@ == self.reply_wire(ep as int, seq as nat, payload@),
    {
        proof {
            lemma_entries_len();
        }
        let key = self.table.entries[2 * ep + 1].key;
        let frame = Frame { key, seq, payload };
        encode_frame(&frame, self.table.width)
    }

    /// Encodes an error-path reply carrying the failing request's sequence.
    fn error_reply(&self, seq: u64, kind: FailureKind) -> (r: Vec<u8>)
        requires
            self.wf(),
        ensures
            r@ == self.error_wire(seq as nat, kind),
    {
        proof {
            lemma_entries_len();
        }
        let key = self.table.entries[self.table.entries.len() - 1].key;
        let payload = enc_failure(&kind);
        let frame = Frame { key, seq, payload };
        encode_frame(&frame, self.table.width)
    }

    /// Finds the endpoint whose request key is `key`, if any. Response,
    /// topic and error-path keys are not routable on the device.
    fn find_request_endpoint(&self, key: u64) -> (r: Option<usize>)
        requires
            self.wf(),
        ensures
            match r {
                Some(ep) => ep < EP_COUNT && self.req_key(ep as int) == key,
                None => forall|ep: int|
                    0 <= ep < EP_COUNT as int ==> self.req_key(ep) != key,
            },
    {
        proof {
            lemma_entries_len();
        }
        let mut ep: usize = 0;
        while ep < EP_COUNT
            invariant
                ep <= EP_COUNT,
                self.wf(),
                self.table.entries@.len() == 13,
                forall|k: int| 0 <= k < ep ==> self.req_key(k) != key,
            decreases EP_COUNT - ep,
        {
            if self.table.entries[2 * ep].key == key {
                return Some(ep);
            }
            ep = ep + 1;
        }
        None
    }
}

/// An element of a sequence with one index removed is an element of the
/// original, shifted past the removal point.
proof fn lemma_remove_index(s: Seq<SpawnedTask>, i: int, k: int)
    requires
        0 <= i < s.len(),
        0 <= k < s.len() - 1,
    ensures
        s.remove(i)[k] == if k < i {
            s[k]
        } else {
            s[k + 1]
        },
{
    s.remove_ensures(i);
}

/// Distinct endpoints have distinct request keys: the table keeps even the
/// truncated keys apart.
proof fn lemma_request_keys_distinct(d: Dispatcher)
    requires
        d.wf(),
    ensures
        forall|a: int, b: int|
            0 <= a < b < EP_COUNT as int ==> d.req_key(a) != d.req_key(b),
{
    lemma_entries_len();
    assert forall|a: int, b: int|
        0 <= a < b < EP_COUNT as int implies d.req_key(a) != d.req_key(b) by {
        assert(crate::keys::spec_trunc(d.table.entries@[2 * a].key, d.width()) != crate::keys::spec_trunc(
            d.table.entries@[2 * b].key,
            d.width(),
        ));
    }
}

} // verus!
