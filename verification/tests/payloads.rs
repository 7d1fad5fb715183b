use workbook_rpc::icd::{BadPositionError, Rgb8, SingleLed};
use workbook_rpc::payload::{
    dec_all_led, dec_failure, dec_led_result, dec_single_led, dec_u32, dec_u64, dec_unit,
    enc_all_led, enc_failure, enc_led_result, enc_single_led, enc_u32, enc_u64, enc_unit,
    FailureKind,
};
use workbook_rpc::schema::{dec_schema, enc_schema, SchemaReport};

#[test]
fn u32_payload_is_little_endian() {
    let bytes = enc_u32(0x1234_5678);
    assert_eq!(bytes, vec![0x78, 0x56, 0x34, 0x12]);
    assert_eq!(dec_u32(&bytes), Some(0x1234_5678));
    assert_eq!(dec_u32(&vec![1, 2, 3]), None);
}

#[test]
fn u64_payload_round_trips() {
    let bytes = enc_u64(0xFEDC_BA98_7654_3210);
    assert_eq!(bytes.len(), 8);
    assert_eq!(dec_u64(&bytes), Some(0xFEDC_BA98_7654_3210));
    assert_eq!(dec_u64(&vec![0; 7]), None);
}

#[test]
fn unit_payload_is_empty() {
    assert!(enc_unit().is_empty());
    assert_eq!(dec_unit(&Vec::new()), Some(()));
    assert_eq!(dec_unit(&vec![0]), None);
}

#[test]
fn single_led_payload_round_trips() {
    let req = SingleLed { position: 17, rgb: Rgb8 { r: 1, g: 2, b: 3 } };
    let bytes = enc_single_led(&req);
    assert_eq!(bytes, vec![17, 0, 0, 0, 1, 2, 3]);
    assert_eq!(dec_single_led(&bytes), Some(req));
    assert_eq!(dec_single_led(&vec![0; 6]), None);
}

#[test]
fn all_led_payload_round_trips() {
    let mut leds = Vec::new();
    for i in 0..24u8 {
        leds.push(Rgb8 { r: i, g: i.wrapping_mul(2), b: i.wrapping_mul(3) });
    }
    let bytes = enc_all_led(&leds);
    assert_eq!(bytes.len(), 72);
    assert_eq!(dec_all_led(&bytes), Some(leds));
    assert_eq!(dec_all_led(&vec![0; 71]), None);
}

#[test]
fn led_result_payload_round_trips() {
    assert_eq!(enc_led_result(&Ok(())), vec![0]);
    assert_eq!(enc_led_result(&Err(BadPositionError)), vec![1]);
    assert_eq!(dec_led_result(&vec![0]), Some(Ok(())));
    assert_eq!(dec_led_result(&vec![1]), Some(Err(BadPositionError)));
    assert_eq!(dec_led_result(&vec![2]), None);
}

#[test]
fn every_failure_kind_round_trips() {
    for k in [
        FailureKind::UnknownKey,
        FailureKind::MalformedFrame,
        FailureKind::DeserializeFailed,
        FailureKind::SpawnCapacityExceeded,
        FailureKind::ApplicationDefined { code: 0xABCD },
    ] {
        assert_eq!(dec_failure(&enc_failure(&k)), Some(k));
    }
    assert_eq!(dec_failure(&vec![9]), None);
}

#[test]
fn schema_payload_round_trips() {
    let report = SchemaReport { min_key_len: 2, keys: vec![1, 0xFFFF_FFFF_FFFF_FFFF, 42] };
    let bytes = enc_schema(&report);
    assert_eq!(bytes.len(), 2 + 8 * 3);
    assert_eq!(bytes[0], 2);
    assert_eq!(bytes[1], 3);
    let back = dec_schema(&bytes).unwrap();
    assert_eq!(back.min_key_len, report.min_key_len);
    assert_eq!(back.keys, report.keys);
    assert_eq!(dec_schema(&vec![2, 3, 0]), None);
}
