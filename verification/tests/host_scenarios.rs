use workbook_rpc::client::{CommsError, WorkbookClient, WorkbookError};
use workbook_rpc::device::{Context, DispatchOutcome, Dispatcher};
use workbook_rpc::host::{HostError, InboundOutcome, PendingEntry, PendingState};
use workbook_rpc::icd::Rgb8;
use workbook_rpc::payload::enc_u32;
use workbook_rpc::schema::report_of_table;

fn device() -> Dispatcher {
    Dispatcher::new(
        Context { unique_id: 1, leds: vec![Rgb8 { r: 0, g: 0, b: 0 }; 24] },
        4,
    )
    .unwrap()
}

fn reply_of(out: DispatchOutcome) -> Vec<u8> {
    match out {
        DispatchOutcome::Reply(bytes) => bytes,
        DispatchOutcome::Spawned(_) => panic!("expected a reply, got a spawn"),
    }
}

#[test]
fn responses_in_shuffled_order_reach_their_own_callers() {
    let mut dev = device();
    let mut host = WorkbookClient::new().unwrap();
    let (s1, r1) = host.ping_start(101).unwrap();
    let (s2, r2) = host.ping_start(202).unwrap();
    let (s3, r3) = host.ping_start(303).unwrap();
    assert_ne!(s1, s2);
    assert_ne!(s2, s3);

    let a1 = reply_of(dev.handle_frame(&r1));
    let a2 = reply_of(dev.handle_frame(&r2));
    let a3 = reply_of(dev.handle_frame(&r3));

    // completion order differs from issue order
    host.correlator.process_inbound(&a2);
    host.correlator.process_inbound(&a3);
    host.correlator.process_inbound(&a1);

    assert_eq!(host.ping_finish(s3), Some(Ok(303)));
    assert_eq!(host.ping_finish(s1), Some(Ok(101)));
    assert_eq!(host.ping_finish(s2), Some(Ok(202)));
}

#[test]
fn cancellation_leaves_no_table_entry_after_the_late_response() {
    let mut dev = device();
    let mut host = WorkbookClient::new().unwrap();
    let before = host.correlator.pending.len();
    let (seq, req) = host.ping_start(7).unwrap();
    let late_reply = reply_of(dev.handle_frame(&req));

    assert!(host.correlator.cancel(seq));
    assert_eq!(host.correlator.pending.len(), before);

    // the late response is a no-op on the routing table
    assert!(matches!(
        host.correlator.process_inbound(&late_reply),
        InboundOutcome::Discarded
    ));
    assert_eq!(host.correlator.pending.len(), before);
    assert_eq!(host.ping_finish(seq), None);
}

#[test]
fn disconnect_resolves_every_outstanding_request_exactly_once() {
    let mut dev = device();
    let mut host = WorkbookClient::new().unwrap();
    let (s1, _r1) = host.ping_start(1).unwrap();
    let (s2, _r2) = host.ping_start(2).unwrap();
    let (s3, _r3) = host.ping_start(3).unwrap();
    drop(dev);

    host.correlator.disconnect();

    for s in [s1, s2, s3] {
        assert_eq!(
            host.ping_finish(s),
            Some(Err(WorkbookError::Comms(CommsError::TransportClosed))),
        );
        // a second take finds nothing: the resolution was delivered once
        assert_eq!(host.ping_finish(s), None);
    }
}

#[test]
fn sending_while_disconnected_fails_and_reconnect_restarts_the_sequence_space() {
    let mut host = WorkbookClient::new().unwrap();
    let (first_seq, _r) = host.ping_start(1).unwrap();
    assert_eq!(first_seq, 0);
    host.correlator.disconnect();
    assert_eq!(host.ping_start(2), Err(HostError::Disconnected));

    host.correlator.reconnect();
    let (seq, _r) = host.ping_start(3).unwrap();
    assert_eq!(seq, 0, "a fresh sequence space starts after reconnect");
}

#[test]
fn sequence_id_in_use_is_refused() {
    let mut host = WorkbookClient::new().unwrap();
    // an entry still outstanding under the next id, as after a full wrap
    // of the sequence space
    host.correlator.pending.push(PendingEntry {
        seq: 0,
        resp_key: 0,
        state: PendingState::Waiting,
    });
    assert_eq!(host.ping_start(9), Err(HostError::SequenceInUse));
}

#[test]
fn resolved_but_untaken_entry_ignores_a_second_response() {
    let mut dev = device();
    let mut host = WorkbookClient::new().unwrap();
    let (seq, req) = host.ping_start(55).unwrap();
    let reply = reply_of(dev.handle_frame(&req));
    assert!(matches!(
        host.correlator.process_inbound(&reply),
        InboundOutcome::ResolvedRequest(_)
    ));
    // a duplicate frame finds no waiting entry and is discarded
    assert!(matches!(
        host.correlator.process_inbound(&reply),
        InboundOutcome::Discarded
    ));
    assert_eq!(host.ping_finish(seq), Some(Ok(55)));
}

#[test]
fn topic_queue_is_bounded_and_drops_the_oldest() {
    let mut host = WorkbookClient::new().unwrap();
    // subscribe to the ping response key; with no pending request such
    // frames are treated as topic messages
    let key = host.correlator.table.entries[1].key;
    let sub = host.correlator.subscribe(key, 1);

    let width = host.correlator.table.width;
    let first = workbook_rpc::codec::encode_frame(
        &workbook_rpc::codec::Frame { key, seq: 900, payload: enc_u32(111) },
        width,
    );
    let second = workbook_rpc::codec::encode_frame(
        &workbook_rpc::codec::Frame { key, seq: 901, payload: enc_u32(222) },
        width,
    );
    assert!(matches!(
        host.correlator.process_inbound(&first),
        InboundOutcome::TopicDelivered(j) if j == sub
    ));
    assert!(matches!(
        host.correlator.process_inbound(&second),
        InboundOutcome::TopicDelivered(j) if j == sub
    ));

    // capacity one: the oldest was dropped, the newest kept
    assert_eq!(host.correlator.poll_topic(sub), Some(enc_u32(222)));
    assert_eq!(host.correlator.poll_topic(sub), None);
}

#[test]
fn schema_report_lists_the_key_table() {
    let mut dev = device();
    let mut host = WorkbookClient::new().unwrap();
    let (seq, req) = host.schema_start().unwrap();
    let reply = reply_of(dev.handle_frame(&req));
    host.correlator.process_inbound(&reply);
    let report = host.schema_finish(seq).unwrap().unwrap();

    let expected = report_of_table(&dev.table);
    assert_eq!(report.min_key_len, expected.min_key_len);
    assert_eq!(report.keys, expected.keys);
    assert_eq!(report.min_key_len as usize, dev.table.width);
    assert_eq!(report.keys.len(), dev.table.entries.len());
}

#[test]
fn stale_frame_with_wrong_response_key_is_discarded() {
    let mut dev = device();
    let mut host = WorkbookClient::new().unwrap();
    let (seq, _req) = host.ping_start(4).unwrap();
    // a frame carrying the pending sequence under a different (unique-id)
    // response key matches nothing and is dropped
    let wrong_key = host.correlator.table.entries[3].key;
    let frame = workbook_rpc::codec::Frame { key: wrong_key, seq, payload: enc_u32(4) };
    let bytes = workbook_rpc::codec::encode_frame(&frame, host.correlator.table.width);
    assert!(matches!(
        host.correlator.process_inbound(&bytes),
        InboundOutcome::Discarded
    ));
    assert_eq!(host.ping_finish(seq), None);
    drop(dev);
}
