//! The typed client surface: for each endpoint, a `_start` half that
//! builds the request frame and registers the pending entry, and a
//! `_finish` half that interprets the correlated outcome. The transport
//! and the awaiting sit outside; these halves carry the whole protocol
//! logic of a call.

use vstd::prelude::*;
use crate::host::Correlator;
use crate::host::HostError;
use crate::host::PendingEntry;
use crate::host::PendingState;
use crate::host::ResponseOutcome;
use crate::host::SEQ_MODULUS;
use crate::icd::BadPositionError;
use crate::icd::Rgb8;
use crate::icd::SingleLed;
use crate::keys::KeyCollision;
use crate::payload::FailureKind;
use crate::payload::LED_COUNT;
use crate::payload::dec_led_result;
use crate::payload::dec_u32;
use crate::payload::dec_u64;
use crate::payload::dec_unit;
use crate::payload::enc_single_led;
use crate::payload::enc_u32;
use crate::payload::enc_unit;
use crate::payload::enc_all_led;
use crate::payload::spec_dec_led_result;
use crate::payload::spec_dec_u32;
use crate::payload::spec_dec_u64;
use crate::payload::spec_dec_unit;
use crate::payload::spec_enc_single_led;
use crate::payload::spec_enc_u32;
use crate::payload::spec_enc_unit;
use crate::payload::spec_enc_all_led;
use crate::registry::EP_PING;
use crate::registry::EP_SCHEMA;
use crate::registry::EP_SET_ALL;
use crate::registry::EP_SET_ONE;
use crate::registry::EP_TOGGLE;
use crate::registry::EP_UNIQUE_ID;
use crate::registry::lemma_entries_len;
use crate::schema::SchemaReport;
use crate::schema::dec_schema;
use crate::schema::spec_dec_schema;

verus! {

/// How a finished call failed below the application level.
#[derive(Clone, Copy, Debug, PartialEq, Eq, Structural)]
pub enum CommsError {
    /// A protocol failure reported on the reserved error path.
    Failure(FailureKind),
    /// The transport closed before the response arrived.
    TransportClosed,
    /// The response payload did not decode at the expected type.
    BadResponse,
}

/// How a finished call failed: in the transport/protocol layer, or as a
/// typed application failure carried inside an ordinary response.
#[derive(Clone, Copy, Debug, PartialEq, Eq, Structural)]
pub enum WorkbookError {
    Comms(CommsError),
    Endpoint(BadPositionError),
}

/// The typed client: a correlator plus the endpoint bindings of this
/// deployment's registry.
pub struct WorkbookClient {
    pub correlator: Correlator,
}

/// What a `_start` half does: on success it allocates the next sequence
/// id, registers a waiting entry expecting endpoint `ep`'s response key,
/// and hands back that endpoint's request frame around `payload`.
pub open spec fn spec_started(
    pre: Correlator,
    post: Correlator,
    r: Result<(u64, Vec<u8>), HostError>,
    ep: int,
    payload: Seq<u8>,
) -> bool {
    &&& post.table == pre.table
    &&& post.subs == pre.subs
    &&& post.connected == pre.connected
    &&& match r {
        Ok(p) => {
            &&& pre.connected
            &&& p.0 == pre.next_seq
            &&& p.1@ == pre.wire(pre.table.entries@[2 * ep].key, p.0 as nat, payload)
            &&& post.pending@ == pre.pending@.push(
                (PendingEntry {
                    seq: p.0,
                    resp_key: pre.table.entries@[2 * ep + 1].key,
                    state: PendingState::Waiting,
                }),
            )
            &&& post.next_seq == (pre.next_seq + 1) % (SEQ_MODULUS as int)
        },
        Err(HostError::Disconnected) => !pre.connected && post == pre,
        Err(HostError::SequenceInUse) => {
            &&& pre.connected
            &&& exists|i: int|
                0 <= i < pre.pending@.len() && pre.pending@[i].seq == pre.next_seq
            &&& post == pre
        },
    }
}

impl WorkbookClient {
    /// The client is usable while its correlator is.
    pub open spec fn wf(self) -> bool {
        self.correlator.wf()
    }

    /// Connects the typed client over a fresh correlator.
    pub fn new() -> (r: Result<WorkbookClient, KeyCollision>)
        ensures
            match r {
                Ok(c) => c.wf() && c.correlator.pending@.len() == 0 && c.correlator.connected,
                Err(_) => !crate::keys::distinct_at(
                    crate::registry::spec_workbook_entries(),
                    8,
                ),
            },
    {
        match Correlator::new() {
            Ok(correlator) => Ok(WorkbookClient { correlator }),
            Err(e) => Err(e),
        }
    }

    /// Starts a ping call carrying `id`.
    pub fn ping_start(&mut self, id: u32) -> (r: Result<(u64, Vec<u8>), HostError>)
        requires
            old(self).wf(),
        ensures
            final(self).wf(),
            spec_started(
                old(self).correlator,
                final(self).correlator,
                r,
                EP_PING as int,
                spec_enc_u32(id),
            ),
    {
        let payload = enc_u32(id);
        self.start(EP_PING, &payload)
    }

    /// Finishes a ping call: the response payload is the echoed value.
    pub fn ping_finish(&mut self, seq: u64) -> (r: Option<Result<u32, WorkbookError>>)
        requires
            old(self).wf(),
        ensures
            final(self).wf(),
            spec_finished(old(self).correlator, final(self).correlator, seq, r),
            match r {
                Some(out) => outcome_taken(old(self).correlator, seq) matches Some(o)
                    && out == spec_parse_ping(o),
                None => true,
            },
    {
        match self.correlator.take_response(seq) {
            None => None,
            Some(o) => Some(parse_ping(&o)),
        }
    }

    /// Starts a unique-id call.
    pub fn get_id_start(&mut self) -> (r: Result<(u64, Vec<u8>), HostError>)
        requires
            old(self).wf(),
        ensures
            final(self).wf(),
            spec_started(
                old(self).correlator,
                final(self).correlator,
                r,
                EP_UNIQUE_ID as int,
                spec_enc_unit(),
            ),
    {
        let payload = enc_unit();
        self.start(EP_UNIQUE_ID, &payload)
    }

    /// Finishes a unique-id call: the response payload is the device id.
    pub fn get_id_finish(&mut self, seq: u64) -> (r: Option<Result<u64, WorkbookError>>)
        requires
            old(self).wf(),
        ensures
            final(self).wf(),
            spec_finished(old(self).correlator, final(self).correlator, seq, r),
            match r {
                Some(out) => outcome_taken(old(self).correlator, seq) matches Some(o)
                    && out == spec_parse_id(o),
                None => true,
            },
    {
        match self.correlator.take_response(seq) {
            None => None,
            Some(o) => Some(parse_id(&o)),
        }
    }

    /// Starts a toggle call for the LED at `position`.
    pub fn toggle_led_by_pos_start(&mut self, position: u32) -> (r: Result<
        (u64, Vec<u8>),
        HostError,
    >)
        requires
            old(self).wf(),
        ensures
            final(self).wf(),
            spec_started(
                old(self).correlator,
                final(self).correlator,
                r,
                EP_TOGGLE as int,
                spec_enc_u32(position),
            ),
    {
        let payload = enc_u32(position);
        self.start(EP_TOGGLE, &payload)
    }

    /// Finishes a toggle call: the response carries no payload.
    pub fn toggle_led_by_pos_finish(&mut self, seq: u64) -> (r: Option<
        Result<(), WorkbookError>,
    >)
        requires
            old(self).wf(),
        ensures
            final(self).wf(),
            spec_finished(old(self).correlator, final(self).correlator, seq, r),
            match r {
                Some(out) => outcome_taken(old(self).correlator, seq) matches Some(o)
                    && out == spec_parse_unit(o),
                None => true,
            },
    {
        match self.correlator.take_response(seq) {
            None => None,
            Some(o) => Some(parse_unit(&o)),
        }
    }

    /// Starts a single-LED set call.
    pub fn set_rgb_single_start(&mut self, position: u32, red: u8, g: u8, b: u8) -> (r: Result<
        (u64, Vec<u8>),
        HostError,
    >)
        requires
            old(self).wf(),
        ensures
            final(self).wf(),
            spec_started(
                old(self).correlator,
                final(self).correlator,
                r,
                EP_SET_ONE as int,
                spec_enc_single_led(
                    (SingleLed { position, rgb: (Rgb8 { r: red, g, b }) }),
                ),
            ),
    {
        let payload = enc_single_led(&SingleLed { position, rgb: Rgb8 { r: red, g, b } });
        self.start(EP_SET_ONE, &payload)
    }

    /// Finishes a single-LED set call: the response carries the device's
    /// success-or-bad-position result, which this half surfaces as the
    /// endpoint error.
    pub fn set_rgb_single_finish(&mut self, seq: u64) -> (r: Option<Result<(), WorkbookError>>)
        requires
            old(self).wf(),
        ensures
            final(self).wf(),
            spec_finished(old(self).correlator, final(self).correlator, seq, r),
            match r {
                Some(out) => outcome_taken(old(self).correlator, seq) matches Some(o)
                    && out == spec_parse_led_result(o),
                None => true,
            },
    {
        match self.correlator.take_response(seq) {
            None => None,
            Some(o) => Some(parse_led_result(&o)),
        }
    }

    /// Starts an all-LED set call painting every LED the same colour.
    pub fn set_all_rgb_single_start(&mut self, red: u8, g: u8, b: u8) -> (r: Result<
        (u64, Vec<u8>),
        HostError,
    >)
        requires
            old(self).wf(),
        ensures
            final(self).wf(),
            spec_started(
                old(self).correlator,
                final(self).correlator,
                r,
                EP_SET_ALL as int,
                spec_enc_all_led(Seq::new(LED_COUNT as nat, |i: int| (Rgb8 { r: red, g, b }))),
            ),
    {
        let mut leds: Vec<Rgb8> = Vec::new();
        let mut i: usize = 0;
        while i < LED_COUNT
            invariant
                i <= LED_COUNT,
                leds@.len() == i,
                forall|k: int| 0 <= k < i ==> leds@[k] == (Rgb8 { r: red, g, b }),
            decreases LED_COUNT - i,
        {
            leds.push(Rgb8 { r: red, g, b });
            i = i + 1;
        }
        proof {
            assert(leds@ =~= Seq::new(LED_COUNT as nat, |i: int| (Rgb8 { r: red, g, b })));
        }
        let payload = enc_all_led(&leds);
        self.start(EP_SET_ALL, &payload)
    }

    /// Finishes an all-LED set call: the response carries no payload.
    pub fn set_all_rgb_single_finish(&mut self, seq: u64) -> (r: Option<
        Result<(), WorkbookError>,
    >)
        requires
            old(self).wf(),
        ensures
            final(self).wf(),
            spec_finished(old(self).correlator, final(self).correlator, seq, r),
            match r {
                Some(out) => outcome_taken(old(self).correlator, seq) matches Some(o)
                    && out == spec_parse_unit(o),
                None => true,
            },
    {
        match self.correlator.take_response(seq) {
            None => None,
            Some(o) => Some(parse_unit(&o)),
        }
    }

    /// Starts a schema-report call.
    pub fn schema_start(&mut self) -> (r: Result<(u64, Vec<u8>), HostError>)
        requires
            old(self).wf(),
        ensures
            final(self).wf(),
            spec_started(
                old(self).correlator,
                final(self).correlator,
                r,
                EP_SCHEMA as int,
                spec_enc_unit(),
            ),
    {
        let payload = enc_unit();
        self.start(EP_SCHEMA, &payload)
    }

    /// Finishes a schema-report call: the response payload decodes to the
    /// device's key table report.
    pub fn schema_finish(&mut self, seq: u64) -> (r: Option<Result<SchemaReport, WorkbookError>>)
        requires
            old(self).wf(),
        ensures
            final(self).wf(),
            spec_finished(old(self).correlator, final(self).correlator, seq, r),
            match r {
                Some(out) => outcome_taken(old(self).correlator, seq) matches Some(o) && match (
                out,
                spec_parse_schema(o),
                ) {
                    (Ok(rep), Ok(m)) => rep.min_key_len == m.0 && rep.keys@ == m.1,
                    (Err(e1), Err(e2)) => e1 == e2,
                    _ => false,
                },
                None => true,
            },
    {
        match self.correlator.take_response(seq) {
            None => None,
            Some(o) => match &o {
                ResponseOutcome::Payload(p) => match dec_schema(p) {
                    Some(rep) => Some(Ok(rep)),
                    None => Some(Err(WorkbookError::Comms(CommsError::BadResponse))),
                },
                ResponseOutcome::Failure(k) => Some(
                    Err(WorkbookError::Comms(CommsError::Failure(*k))),
                ),
                ResponseOutcome::TransportClosed => Some(
                    Err(WorkbookError::Comms(CommsError::TransportClosed)),
                ),
            },
        }
    }

    /// The shared start half: builds the frame for endpoint `ep` around an
    /// encoded payload and registers the pending entry.
    fn start(&mut self, ep: usize, payload: &Vec<u8>) -> (r: Result<(u64, Vec<u8>), HostError>)
        requires
            old(self).wf(),
            ep < crate::registry::EP_COUNT,
        ensures
            final(self).wf(),
            spec_started(old(self).correlator, final(self).correlator, r, ep as int, payload@),
    {
        proof {
            lemma_entries_len();
        }
        let req_key = self.correlator.table.entries[2 * ep].key;
        let resp_key = self.correlator.table.entries[2 * ep + 1].key;
        self.correlator.start_request(req_key, resp_key, payload)
    }
}

/// What a `_finish` half does to the correlator: nothing when the call is
/// still outstanding; removes exactly the resolved entry otherwise.
pub open spec fn spec_finished<T>(
    pre: Correlator,
    post: Correlator,
    seq: u64,
    r: Option<T>,
) -> bool {
    &&& post.table == pre.table
    &&& post.next_seq == pre.next_seq
    &&& post.connected == pre.connected
    &&& post.subs == pre.subs
    &&& match r {
        Some(_) => exists|i: int| pre.resolved_at(i, seq) && post.pending@ == pre.pending@.remove(
            i,
        ),
        None => (forall|i: int| !pre.resolved_at(i, seq)) && post.pending == pre.pending,
    }
}

/// The outcome a `_finish` half took: the resolved state of the unique
/// entry for `seq`.
pub open spec fn outcome_taken(pre: Correlator, seq: u64) -> Option<ResponseOutcome> {
    if exists|i: int| pre.resolved_at(i, seq) {
        let i = choose|i: int| pre.resolved_at(i, seq);
        match pre.pending@[i].state {
            PendingState::Resolved(o) => Some(o),
            PendingState::Waiting => None,
        }
    } else {
        None
    }
}

/// How a ping outcome reads as a typed result.
pub open spec fn spec_parse_ping(o: ResponseOutcome) -> Result<u32, WorkbookError> {
    match o {
        ResponseOutcome::Payload(p) => match spec_dec_u32(p@) {
            Some(v) => Ok(v),
            None => Err(WorkbookError::Comms(CommsError::BadResponse)),
        },
        ResponseOutcome::Failure(k) => Err(WorkbookError::Comms(CommsError::Failure(k))),
        ResponseOutcome::TransportClosed => Err(
            WorkbookError::Comms(CommsError::TransportClosed),
        ),
    }
}

/// How a unique-id outcome reads as a typed result.
pub open spec fn spec_parse_id(o: ResponseOutcome) -> Result<u64, WorkbookError> {
    match o {
        ResponseOutcome::Payload(p) => match spec_dec_u64(p@) {
            Some(v) => Ok(v),
            None => Err(WorkbookError::Comms(CommsError::BadResponse)),
        },
        ResponseOutcome::Failure(k) => Err(WorkbookError::Comms(CommsError::Failure(k))),
        ResponseOutcome::TransportClosed => Err(
            WorkbookError::Comms(CommsError::TransportClosed),
        ),
    }
}

/// How a unit-response outcome reads as a typed result.
pub open spec fn spec_parse_unit(o: ResponseOutcome) -> Result<(), WorkbookError> {
    match o {
        ResponseOutcome::Payload(p) => match spec_dec_unit(p@) {
            Some(_) => Ok(()),
            None => Err(WorkbookError::Comms(CommsError::BadResponse)),
        },
        ResponseOutcome::Failure(k) => Err(WorkbookError::Comms(CommsError::Failure(k))),
        ResponseOutcome::TransportClosed => Err(
            WorkbookError::Comms(CommsError::TransportClosed),
        ),
    }
}

/// How a single-LED set outcome reads: the carried application failure
/// surfaces as the endpoint error.
pub open spec fn spec_parse_led_result(o: ResponseOutcome) -> Result<(), WorkbookError> {
    match o {
        ResponseOutcome::Payload(p) => match spec_dec_led_result(p@) {
            Some(Ok(_)) => Ok(()),
            Some(Err(e)) => Err(WorkbookError::Endpoint(e)),
            None => Err(WorkbookError::Comms(CommsError::BadResponse)),
        },
        ResponseOutcome::Failure(k) => Err(WorkbookError::Comms(CommsError::Failure(k))),
        ResponseOutcome::TransportClosed => Err(
            WorkbookError::Comms(CommsError::TransportClosed),
        ),
    }
}

/// How a schema outcome reads: the decoded width and key list, or the
/// layer failure.
pub open spec fn spec_parse_schema(o: ResponseOutcome) -> Result<(u8, Seq<u64>), WorkbookError> {
    match o {
        ResponseOutcome::Payload(p) => match spec_dec_schema(p@) {
            Some(m) => Ok(m),
            None => Err(WorkbookError::Comms(CommsError::BadResponse)),
        },
        ResponseOutcome::Failure(k) => Err(WorkbookError::Comms(CommsError::Failure(k))),
        ResponseOutcome::TransportClosed => Err(
            WorkbookError::Comms(CommsError::TransportClosed),
        ),
    }
}

/// Reads a ping outcome.
fn parse_ping(o: &ResponseOutcome) -> (r: Result<u32, WorkbookError>)
    ensures
        r == spec_parse_ping(*o),
{
    match o {
        ResponseOutcome::Payload(p) => match dec_u32(p) {
            Some(v) => Ok(v),
            None => Err(WorkbookError::Comms(CommsError::BadResponse)),
        },
        ResponseOutcome::Failure(k) => Err(WorkbookError::Comms(CommsError::Failure(*k))),
        ResponseOutcome::TransportClosed => Err(
            WorkbookError::Comms(CommsError::TransportClosed),
        ),
    }
}

/// Reads a unique-id outcome.
fn parse_id(o: &ResponseOutcome) -> (r: Result<u64, WorkbookError>)
    ensures
        r == spec_parse_id(*o),
{
    match o {
        ResponseOutcome::Payload(p) => match dec_u64(p) {
            Some(v) => Ok(v),
            None => Err(WorkbookError::Comms(CommsError::BadResponse)),
        },
        ResponseOutcome::Failure(k) => Err(WorkbookError::Comms(CommsError::Failure(*k))),
        ResponseOutcome::TransportClosed => Err(
            WorkbookError::Comms(CommsError::TransportClosed),
        ),
    }
}

/// Reads a unit-response outcome.
fn parse_unit(o: &ResponseOutcome) -> (r: Result<(), WorkbookError>)
    ensures
        r == spec_parse_unit(*o),
{
    match o {
        ResponseOutcome::Payload(p) => match dec_unit(p) {
            Some(_) => Ok(()),
            None => Err(WorkbookError::Comms(CommsError::BadResponse)),
        },
        ResponseOutcome::Failure(k) => Err(WorkbookError::Comms(CommsError::Failure(*k))),
        ResponseOutcome::TransportClosed => Err(
            WorkbookError::Comms(CommsError::TransportClosed),
        ),
    }
}

/// Reads a single-LED set outcome.
fn parse_led_result(o: &ResponseOutcome) -> (r: Result<(), WorkbookError>)
    ensures
        r == spec_parse_led_result(*o),
{
    match o {
        ResponseOutcome::Payload(p) => match dec_led_result(p) {
            Some(Ok(_)) => Ok(()),
            Some(Err(e)) => Err(WorkbookError::Endpoint(e)),
            None => Err(WorkbookError::Comms(CommsError::BadResponse)),
        },
        ResponseOutcome::Failure(k) => Err(WorkbookError::Comms(CommsError::Failure(*k))),
        ResponseOutcome::TransportClosed => Err(
            WorkbookError::Comms(CommsError::TransportClosed),
        ),
    }
}

} // verus!
