//! The schema report: the payload of the built-in introspection endpoint,
//! carrying the negotiated key width and the full list of registered keys
//! in registry order, so a host can validate its own build of the shared
//! schema against the device's.

use vstd::prelude::*;
use crate::wire::le_decode;
use crate::wire::le_encode;
use crate::wire::lemma_le_bytes_len;
use crate::wire::lemma_le_round_trip_exact;
use crate::wire::lemma_pow256_values;
use crate::wire::spec_le_bytes;
use crate::wire::spec_le_value;
use crate::keys::KeyTable;

verus! {

/// What the introspection endpoint reports: the negotiated key width and
/// every registered full key, in registry order.
#[derive(Debug, PartialEq, Eq)]
pub struct SchemaReport {
    pub min_key_len: u8,
    pub keys: Vec<u64>,
}

/// The flat eight-byte-per-key section of a report payload.
pub open spec fn spec_flat_keys(keys: Seq<u64>) -> Seq<u8>
    decreases keys.len(),
{
    if keys.len() == 0 {
        Seq::empty()
    } else {
        spec_le_bytes(keys[0] as nat, 8) + spec_flat_keys(keys.skip(1))
    }
}

/// A report payload: width byte, key count byte, then the keys.
pub open spec fn spec_enc_schema(width: u8, keys: Seq<u64>) -> Seq<u8> {
    seq![width, keys.len() as u8] + spec_flat_keys(keys)
}

/// Decoding a report payload: the count byte must match the remaining
/// length exactly.
pub open spec fn spec_dec_schema(b: Seq<u8>) -> Option<(u8, Seq<u64>)> {
    if b.len() >= 2 && b.len() == 2 + 8 * (b[1] as int) {
        Some(
            (
                b[0],
                Seq::new(
                    b[1] as nat,
                    |i: int| spec_le_value(b.subrange(2 + 8 * i, 2 + 8 * i + 8)) as u64,
                ),
            ),
        )
    } else {
        None
    }
}

/// The flat key section is eight bytes per key, chunk by chunk.
proof fn lemma_flat_keys_index(keys: Seq<u64>)
    ensures
        spec_flat_keys(keys).len() == 8 * keys.len(),
        forall|i: int|
            0 <= i < keys.len() ==> #[trigger] spec_flat_keys(keys).subrange(8 * i, 8 * i + 8)
                =~= spec_le_bytes(keys[i] as nat, 8),
    decreases keys.len(),
{
    if keys.len() > 0 {
        lemma_flat_keys_index(keys.skip(1));
        lemma_le_bytes_len(keys[0] as nat, 8);
        let flat = spec_flat_keys(keys);
        let tail = spec_flat_keys(keys.skip(1));
        assert forall|i: int| 0 <= i < keys.len() implies #[trigger] flat.subrange(8 * i, 8 * i + 8)
            =~= spec_le_bytes(keys[i] as nat, 8) by {
            if i == 0 {
                assert(flat.subrange(0, 8) =~= spec_le_bytes(keys[0] as nat, 8));
            } else {
                assert(keys.skip(1)[i - 1] == keys[i]);
                assert(tail.subrange(8 * (i - 1), 8 * (i - 1) + 8) =~= spec_le_bytes(
                    keys[i] as nat,
                    8,
                ));
                assert(flat.subrange(8 * i, 8 * i + 8) =~= tail.subrange(
                    8 * (i - 1),
                    8 * (i - 1) + 8,
                ));
            }
        }
    }
}

/// Every report with at most 255 keys survives its payload encoding.
pub proof fn lemma_schema_round_trip(width: u8, keys: Seq<u64>)
    requires
        keys.len() < 256,
    ensures
        spec_dec_schema(spec_enc_schema(width, keys)) == Some((width, keys)),
{
    let enc = spec_enc_schema(width, keys);
    lemma_flat_keys_index(keys);
    assert(enc[1] == keys.len() as u8);
    let dec = spec_dec_schema(enc).unwrap();
    assert forall|i: int| 0 <= i < keys.len() implies dec.1[i] == keys[i] by {
        assert(enc.subrange(2 + 8 * i, 2 + 8 * i + 8) =~= spec_flat_keys(keys).subrange(
            8 * i,
            8 * i + 8,
        ));
        lemma_pow256_values();
        lemma_le_round_trip_exact(keys[i] as nat, 8);
    }
    assert(dec.1 =~= keys);
}

/// Encodes a report for the wire.
pub fn enc_schema(report: &SchemaReport) -> (r: Vec<u8>)
    requires
        report.keys@.len() < 256,
    ensures
        r@ == spec_enc_schema(report.min_key_len, report.keys@),
{
    let mut out: Vec<u8> = Vec::new();
    out.push(report.min_key_len);
    out.push(report.keys.len() as u8);
    let ghost prefix = seq![report.min_key_len, report.keys@.len() as u8];
    let mut i: usize = 0;
    proof {
        lemma_flat_keys_prefix(report.keys@, 0);
        assert(out@ =~= prefix + spec_flat_keys(report.keys@.take(0)));
    }
    while i < report.keys.len()
        invariant
            i <= report.keys@.len(),
            out@ == prefix + spec_flat_keys(report.keys@.take(i as int)),
            prefix == seq![report.min_key_len, report.keys@.len() as u8],
        decreases report.keys@.len() - i,
    {
        le_encode(report.keys[i], 8, &mut out);
        i = i + 1;
        proof {
            lemma_flat_keys_prefix(report.keys@, i as int);
            assert(out@ =~= prefix + spec_flat_keys(report.keys@.take(i as int)));
        }
    }
    proof {
        assert(report.keys@.take(report.keys@.len() as int) =~= report.keys@);
    }
    out
}

/// A one-longer prefix of the key section is the shorter prefix plus one
/// eight-byte field.
proof fn lemma_flat_keys_prefix(keys: Seq<u64>, i: int)
    requires
        0 <= i <= keys.len(),
    ensures
        i > 0 ==> spec_flat_keys(keys.take(i)) =~= spec_flat_keys(keys.take(i - 1)) + spec_le_bytes(
            keys[i - 1] as nat,
            8,
        ),
    decreases i,
{
    if i > 0 {
        lemma_flat_keys_index(keys.take(i));
        lemma_flat_keys_index(keys.take(i - 1));
        lemma_le_bytes_len(keys[i - 1] as nat, 8);
        let a = spec_flat_keys(keys.take(i));
        let b = spec_flat_keys(keys.take(i - 1)) + spec_le_bytes(keys[i - 1] as nat, 8);
        assert forall|k: int| 0 <= k < 8 * i implies a[k] == b[k] by {
            let q = k / 8;
            let m = k % 8;
            vstd::arithmetic::div_mod::lemma_fundamental_div_mod(k, 8);
            assert(0 <= q < i) by (nonlinear_arith)
                requires 0 <= k < 8 * i, k == 8 * q + m, 0 <= m < 8;
            assert(a.subrange(8 * q, 8 * q + 8) =~= spec_le_bytes(keys.take(i)[q] as nat, 8));
            assert(a[k] == a.subrange(8 * q, 8 * q + 8)[m]);
            if q < i - 1 {
                assert(spec_flat_keys(keys.take(i - 1)).subrange(8 * q, 8 * q + 8) =~= spec_le_bytes(
                    keys.take(i - 1)[q] as nat,
                    8,
                ));
                assert(b[k] == spec_flat_keys(keys.take(i - 1)).subrange(8 * q, 8 * q + 8)[m]);
            } else {
                assert(b[k] == spec_le_bytes(keys[i - 1] as nat, 8)[m]);
            }
        }
    }
}

/// Decodes a report payload.
pub fn dec_schema(b: &Vec<u8>) -> (r: Option<SchemaReport>)
    ensures
        match r {
            Some(rep) => spec_dec_schema(b@) == Some((rep.min_key_len, rep.keys@)),
            None => spec_dec_schema(b@) is None,
        },
{
    if b.len() < 2 {
        return None;
    }
    let count = b[1] as usize;
    if b.len() != 2 + 8 * count {
        return None;
    }
    let ghost target = spec_dec_schema(b@).unwrap();
    let mut keys: Vec<u64> = Vec::new();
    let mut i: usize = 0;
    proof {
        assert(keys@ =~= target.1.take(0));
    }
    while i < count
        invariant
            i <= count,
            count == b@[1] as int,
            b@.len() == 2 + 8 * count,
            target == spec_dec_schema(b@).unwrap(),
            spec_dec_schema(b@) is Some,
            keys@ == target.1.take(i as int),
        decreases count - i,
    {
        let k = le_decode(b, 2 + 8 * i, 8);
        proof {
            assert(b@.subrange(2 + 8 * i as int, 2 + 8 * i as int + 8) =~= b@.subrange(
                2 + 8 * (i as int),
                2 + 8 * (i as int) + 8,
            ));
        }
        keys.push(k);
        i = i + 1;
        proof {
            assert(keys@ =~= target.1.take(i as int));
        }
    }
    proof {
        assert(target.1.take(count as int) =~= target.1);
    }
    Some(SchemaReport { min_key_len: b[0], keys })
}

/// Builds the report a table gives rise to.
pub fn report_of_table(table: &KeyTable) -> (r: SchemaReport)
    requires
        table.entries@.len() < 256,
    ensures
        r.min_key_len == table.width as u8,
        r.keys@.len() == table.entries@.len(),
        forall|i: int| 0 <= i < r.keys@.len() ==> r.keys@[i] == table.entries@[i].key,
        table.width <= 8 ==> r.min_key_len == table.width,
{
    let mut keys: Vec<u64> = Vec::new();
    let mut i: usize = 0;
    while i < table.entries.len()
        invariant
            i <= table.entries@.len(),
            keys@.len() == i,
            forall|k: int| 0 <= k < i ==> keys@[k] == table.entries@[k].key,
        decreases table.entries@.len() - i,
    {
        keys.push(table.entries[i].key);
        i = i + 1;
    }
    SchemaReport { min_key_len: table.width as u8, keys }
}

} // verus!
