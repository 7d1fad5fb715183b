use workbook_rpc::client::WorkbookClient;
use workbook_rpc::codec::{decode_frame, encode_frame, Frame};
use workbook_rpc::device::{
    unique_id_from_bytes, Context, DispatchOutcome, Dispatcher, LedSelect,
};
use workbook_rpc::host::InboundOutcome;
use workbook_rpc::icd::Rgb8;
use workbook_rpc::payload::{dec_failure, FailureKind};

fn test_context(unique_id: u64) -> Context {
    Context { unique_id, leds: vec![Rgb8 { r: 0, g: 0, b: 0 }; 24] }
}

fn reply_of(out: DispatchOutcome) -> Vec<u8> {
    match out {
        DispatchOutcome::Reply(bytes) => bytes,
        DispatchOutcome::Spawned(_) => panic!("expected a reply, got a spawn"),
    }
}

#[test]
fn ping_echoes_its_value() {
    let mut device = Dispatcher::new(test_context(1), 4).unwrap();
    let mut host = WorkbookClient::new().unwrap();
    let (seq, request) = host.ping_start(42).unwrap();
    let reply = reply_of(device.handle_frame(&request));
    assert!(matches!(
        host.correlator.process_inbound(&reply),
        InboundOutcome::ResolvedRequest(s) if s == seq
    ));
    assert_eq!(host.ping_finish(seq), Some(Ok(42)));
}

#[test]
fn unregistered_key_gets_unknown_key_reply() {
    let mut device = Dispatcher::new(test_context(1), 4).unwrap();
    let mut t: u64 = 0;
    while device.table.lookup(t).is_some() {
        t += 1;
    }
    let frame = Frame { key: t, seq: 23, payload: Vec::new() };
    let bytes = encode_frame(&frame, device.table.width);
    let reply = reply_of(device.handle_frame(&bytes));
    let decoded = decode_frame(&reply, &device.table).unwrap();
    let error_key = device.table.entries[device.table.entries.len() - 1].key;
    assert_eq!(decoded.key, error_key);
    assert_eq!(decoded.seq, 23);
    assert_eq!(dec_failure(&decoded.payload), Some(FailureKind::UnknownKey));
}

#[test]
fn out_of_range_position_is_an_application_failure() {
    let mut device = Dispatcher::new(test_context(1), 4).unwrap();
    let mut host = WorkbookClient::new().unwrap();
    let (seq, request) = host.set_rgb_single_start(99, 1, 2, 3).unwrap();
    let reply = reply_of(device.handle_frame(&request));
    let decoded = decode_frame(&reply, &device.table).unwrap();
    let error_key = device.table.entries[device.table.entries.len() - 1].key;
    assert_ne!(decoded.key, error_key, "an application failure is not an error-path frame");
    host.correlator.process_inbound(&reply);
    match host.set_rgb_single_finish(seq) {
        Some(Err(workbook_rpc::client::WorkbookError::Endpoint(_))) => {},
        other => panic!("expected a bad-position endpoint failure, got {:?}", other),
    }
}

#[test]
fn in_range_position_sets_the_led() {
    let mut device = Dispatcher::new(test_context(1), 4).unwrap();
    let mut host = WorkbookClient::new().unwrap();
    let (seq, request) = host.set_rgb_single_start(5, 10, 20, 30).unwrap();
    let reply = reply_of(device.handle_frame(&request));
    host.correlator.process_inbound(&reply);
    assert_eq!(host.set_rgb_single_finish(seq), Some(Ok(())));
    assert_eq!(device.context.leds[5], Rgb8 { r: 10, g: 20, b: 30 });
    assert_eq!(device.context.leds[4], Rgb8 { r: 0, g: 0, b: 0 });
}

#[test]
fn set_all_paints_the_whole_strip() {
    let mut device = Dispatcher::new(test_context(1), 4).unwrap();
    let mut host = WorkbookClient::new().unwrap();
    let (seq, request) = host.set_all_rgb_single_start(9, 9, 9).unwrap();
    let reply = reply_of(device.handle_frame(&request));
    host.correlator.process_inbound(&reply);
    assert_eq!(host.set_all_rgb_single_finish(seq), Some(Ok(())));
    for i in 0..24 {
        assert_eq!(device.context.leds[i], Rgb8 { r: 9, g: 9, b: 9 });
    }
}

#[test]
fn unique_id_endpoint_reports_the_device_id() {
    let mut device = Dispatcher::new(test_context(0xDEAD_BEEF_0102_0304), 4).unwrap();
    let mut host = WorkbookClient::new().unwrap();
    let (seq, request) = host.get_id_start().unwrap();
    let reply = reply_of(device.handle_frame(&request));
    host.correlator.process_inbound(&reply);
    assert_eq!(host.get_id_finish(seq), Some(Ok(0xDEAD_BEEF_0102_0304)));
}

#[test]
fn unique_id_reads_first_eight_bytes_big_endian() {
    let uid = vec![1, 2, 3, 4, 5, 6, 7, 8, 0xFF, 0xFF];
    assert_eq!(unique_id_from_bytes(&uid), 0x0102_0304_0506_0708);
}

#[test]
fn spawn_pool_rejects_when_exhausted_and_recovers() {
    let mut device = Dispatcher::new(test_context(1), 2).unwrap();
    let mut host = WorkbookClient::new().unwrap();

    let (_s1, r1) = host.toggle_led_by_pos_start(1).unwrap();
    let t1 = match device.handle_frame(&r1) {
        DispatchOutcome::Spawned(t) => t,
        _ => panic!("first toggle should spawn"),
    };
    let (_s2, r2) = host.toggle_led_by_pos_start(2).unwrap();
    match device.handle_frame(&r2) {
        DispatchOutcome::Spawned(_) => {},
        _ => panic!("second toggle should spawn"),
    }

    let (s3, r3) = host.toggle_led_by_pos_start(3).unwrap();
    let reply = reply_of(device.handle_frame(&r3));
    let decoded = decode_frame(&reply, &device.table).unwrap();
    assert_eq!(decoded.seq, s3);
    assert_eq!(dec_failure(&decoded.payload), Some(FailureKind::SpawnCapacityExceeded));

    let (done, action) = device.complete_spawn(t1).unwrap();
    assert_eq!(action, Some(LedSelect::Green));
    assert!(matches!(
        host.correlator.process_inbound(&done),
        InboundOutcome::ResolvedRequest(_)
    ));

    host.correlator.process_inbound(&reply);
    assert!(matches!(
        host.toggle_led_by_pos_finish(s3),
        Some(Err(workbook_rpc::client::WorkbookError::Comms(
            workbook_rpc::client::CommsError::Failure(FailureKind::SpawnCapacityExceeded)
        )))
    ));

    let (_s4, r4) = host.toggle_led_by_pos_start(3).unwrap();
    let t4 = match device.handle_frame(&r4) {
        DispatchOutcome::Spawned(t) => t,
        _ => panic!("retry after a freed slot should spawn"),
    };
    let (_done4, action4) = device.complete_spawn(t4).unwrap();
    assert_eq!(action4, Some(LedSelect::Red));
}

#[test]
fn toggle_positions_map_to_board_leds() {
    let mut device = Dispatcher::new(test_context(1), 4).unwrap();
    let mut host = WorkbookClient::new().unwrap();
    for (pos, expected) in [
        (3u32, Some(LedSelect::Red)),
        (2, Some(LedSelect::Yellow)),
        (1, Some(LedSelect::Green)),
        (7, None),
    ] {
        let (seq, req) = host.toggle_led_by_pos_start(pos).unwrap();
        let token = match device.handle_frame(&req) {
            DispatchOutcome::Spawned(t) => t,
            _ => panic!("toggle should spawn"),
        };
        let (reply, action) = device.complete_spawn(token).unwrap();
        assert_eq!(action, expected);
        host.correlator.process_inbound(&reply);
        assert_eq!(host.toggle_led_by_pos_finish(seq), Some(Ok(())));
    }
}

#[test]
fn malformed_frame_is_answered_on_the_error_path() {
    let mut device = Dispatcher::new(test_context(1), 4).unwrap();
    let reply = reply_of(device.handle_frame(&Vec::new()));
    let decoded = decode_frame(&reply, &device.table).unwrap();
    assert_eq!(decoded.seq, 0);
    assert_eq!(dec_failure(&decoded.payload), Some(FailureKind::MalformedFrame));
}

#[test]
fn bad_payload_is_answered_deserialize_failed() {
    let mut device = Dispatcher::new(test_context(1), 4).unwrap();
    let ping_req_key = device.table.entries[0].key;
    let frame = Frame { key: ping_req_key, seq: 5, payload: vec![1, 2, 3] };
    let bytes = encode_frame(&frame, device.table.width);
    let reply = reply_of(device.handle_frame(&bytes));
    let decoded = decode_frame(&reply, &device.table).unwrap();
    assert_eq!(decoded.seq, 5);
    assert_eq!(dec_failure(&decoded.payload), Some(FailureKind::DeserializeFailed));
}

#[test]
fn response_keyed_frame_is_not_routable_on_the_device() {
    let mut device = Dispatcher::new(test_context(1), 4).unwrap();
    let ping_resp_key = device.table.entries[1].key;
    let frame = Frame { key: ping_resp_key, seq: 6, payload: Vec::new() };
    let bytes = encode_frame(&frame, device.table.width);
    let reply = reply_of(device.handle_frame(&bytes));
    let decoded = decode_frame(&reply, &device.table).unwrap();
    assert_eq!(decoded.seq, 6);
    assert_eq!(dec_failure(&decoded.payload), Some(FailureKind::UnknownKey));
}
