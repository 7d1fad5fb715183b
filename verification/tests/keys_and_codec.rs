use workbook_rpc::codec::{decode_frame, encode_frame, DecodeError, Frame};
use workbook_rpc::keys::{trunc_key, KeyCollision, KeyEntry, KeyRole, KeyTable};
use workbook_rpc::registry::{
    derive_key, registry_entries, workbook_endpoints, ROLE_REQUEST, TYPE_U32,
};
use workbook_rpc::varint::{varint_decode, varint_encode};

fn workbook_table() -> KeyTable {
    let endpoints = workbook_endpoints();
    let entries = registry_entries(&endpoints, &Vec::new());
    KeyTable::build(entries).unwrap()
}

#[test]
fn registry_keys_distinct_at_min_width() {
    let table = workbook_table();
    assert!(matches!(table.width, 1 | 2 | 4 | 8));
    for i in 0..table.entries.len() {
        for j in (i + 1)..table.entries.len() {
            assert_ne!(
                trunc_key(table.entries[i].key, table.width),
                trunc_key(table.entries[j].key, table.width),
            );
        }
    }
}

#[test]
fn both_sides_derive_the_same_table() {
    let a = workbook_table();
    let b = workbook_table();
    assert_eq!(a.width, b.width);
    assert_eq!(a.entries.len(), b.entries.len());
    for i in 0..a.entries.len() {
        assert_eq!(a.entries[i].key, b.entries[i].key);
    }
}

#[test]
fn colliding_registry_fails_initialization() {
    let entries = vec![
        KeyEntry { key: 7, role: KeyRole::ErrorPath },
        KeyEntry { key: 7, role: KeyRole::ErrorPath },
    ];
    assert!(matches!(KeyTable::build(entries), Err(KeyCollision)));
}

#[test]
fn duplicate_endpoint_paths_collide() {
    let endpoints = workbook_endpoints();
    let mut doubled = Vec::new();
    for d in &endpoints {
        doubled.push(*d);
    }
    for d in &endpoints {
        doubled.push(*d);
    }
    let entries = registry_entries(&doubled, &Vec::new());
    assert!(matches!(KeyTable::build(entries), Err(KeyCollision)));
}

#[test]
fn derive_key_is_deterministic() {
    let table = workbook_table();
    let k = derive_key("ping", ROLE_REQUEST, TYPE_U32);
    assert_eq!(table.entries[0].key, k);
    assert_eq!(derive_key("ping", ROLE_REQUEST, TYPE_U32), k);
}

#[test]
fn varint_small_values_are_one_byte() {
    for x in [0u64, 1, 42, 127] {
        let mut out = Vec::new();
        varint_encode(x, &mut out);
        assert_eq!(out, vec![x as u8]);
        assert_eq!(varint_decode(&out, 0), Some((x, 1)));
    }
}

#[test]
fn varint_exact_bytes_for_300() {
    let mut out = Vec::new();
    varint_encode(300, &mut out);
    assert_eq!(out, vec![0xAC, 0x02]);
    assert_eq!(varint_decode(&out, 0), Some((300, 2)));
}

#[test]
fn varint_round_trips_large_values() {
    for x in [128u64, 16384, 0xFFFF, 0xDEAD_BEEF, u64::MAX] {
        let mut out = Vec::new();
        varint_encode(x, &mut out);
        let (v, n) = varint_decode(&out, 0).unwrap();
        assert_eq!(v, x);
        assert_eq!(n, out.len());
    }
}

#[test]
fn varint_rejects_truncated_input() {
    assert_eq!(varint_decode(&vec![0x80], 0), None);
    assert_eq!(varint_decode(&Vec::new(), 0), None);
}

#[test]
fn frame_round_trip() {
    let table = workbook_table();
    let frame = Frame { key: table.entries[0].key, seq: 777, payload: vec![9, 8, 7] };
    let bytes = encode_frame(&frame, table.width);
    let back = decode_frame(&bytes, &table).unwrap();
    assert_eq!(back.key, frame.key);
    assert_eq!(back.seq, frame.seq);
    assert_eq!(back.payload, frame.payload);
}

#[test]
fn frame_round_trip_empty_payload() {
    let table = workbook_table();
    let frame = Frame { key: table.entries[12].key, seq: 0, payload: Vec::new() };
    let bytes = encode_frame(&frame, table.width);
    let back = decode_frame(&bytes, &table).unwrap();
    assert_eq!(back.key, frame.key);
    assert_eq!(back.seq, 0);
    assert!(back.payload.is_empty());
}

#[test]
fn decode_rejects_truncated_frame() {
    let table = workbook_table();
    assert_eq!(decode_frame(&Vec::new(), &table), Err(DecodeError::Truncated));
}

#[test]
fn decode_reports_unknown_key_with_sequence() {
    let table = workbook_table();
    let mut t: u64 = 0;
    while table.lookup(t).is_some() {
        t += 1;
    }
    let frame = Frame { key: t, seq: 41, payload: Vec::new() };
    let bytes = encode_frame(&frame, table.width);
    assert_eq!(decode_frame(&bytes, &table), Err(DecodeError::UnknownKey { seq: 41 }));
}
