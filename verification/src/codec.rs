//! The frame codec: one wire message is the chosen number of key bytes,
//! a variable-length sequence number, then the payload bytes. Frame
//! boundaries come from the transport; the codec adds no framing of its
//! own.

use vstd::prelude::*;
use crate::keys::KeyEntry;
use crate::keys::KeyTable;
use crate::keys::distinct_at;
use crate::keys::spec_trunc;
use crate::keys::trunc_key;
use crate::keys::valid_width;
use crate::varint::lemma_varint_decode_consumed;
use crate::varint::lemma_varint_encode_len;
use crate::varint::lemma_varint_round_trip;
use crate::varint::spec_varint_decode;
use crate::varint::spec_varint_encode;
use crate::varint::varint_decode;
use crate::varint::varint_encode;
use crate::wire::le_decode;
use crate::wire::le_encode;
use crate::wire::lemma_le_bytes_len;
use crate::wire::lemma_le_round_trip;
use crate::wire::spec_le_bytes;
use crate::wire::spec_le_value;

verus! {

/// One decoded wire message: the full key of its table entry, the sequence
/// number, and the raw payload bytes.
#[derive(Debug, PartialEq, Eq)]
pub struct Frame {
    pub key: u64,
    pub seq: u64,
    pub payload: Vec<u8>,
}

/// The mathematical shape of a frame.
pub ghost struct FrameModel {
    pub key: u64,
    pub seq: nat,
    pub payload: Seq<u8>,
}

impl View for Frame {
    type V = FrameModel;

    open spec fn view(&self) -> FrameModel {
        FrameModel { key: self.key, seq: self.seq as nat, payload: self.payload@ }
    }
}

/// Why a byte string failed to decode as a frame: too short to carry the
/// header, or a key that the table does not know (with the sequence that
/// the header carried, for the error-path reply).
#[derive(Clone, Copy, Debug, PartialEq, Eq, Structural)]
pub enum DecodeError {
    Truncated,
    UnknownKey { seq: u64 },
}

/// The encoding of a frame at key width `width`: the low `width` bytes of
/// the key, the sequence as a varint, then the payload.
pub open spec fn spec_encode_frame(f: FrameModel, width: nat) -> Seq<u8> {
    spec_le_bytes(f.key as nat, width) + spec_varint_encode(f.seq) + f.payload
}

/// First table index whose truncated key equals `t`, scanning from `from`.
pub open spec fn spec_find_key(entries: Seq<KeyEntry>, t: nat, width: nat, from: int) -> Option<
    int,
>
    decreases entries.len() - from,
{
    if from < 0 || from >= entries.len() {
        None
    } else if spec_trunc(entries[from].key, width) == t {
        Some(from)
    } else {
        spec_find_key(entries, t, width, from + 1)
    }
}

/// Decoding a byte string against a table: read the truncated key, the
/// sequence varint, then resolve the key. `Truncated` covers every header
/// that cannot be read in full.
pub open spec fn spec_decode_frame(bytes: Seq<u8>, entries: Seq<KeyEntry>, width: nat) -> Result<
    FrameModel,
    DecodeError,
> {
    if bytes.len() < width {
        Err(DecodeError::Truncated)
    } else {
        let t = spec_le_value(bytes.take(width as int));
        match spec_varint_decode(bytes.skip(width as int)) {
            None => Err(DecodeError::Truncated),
            Some((v, n)) => if v >= 0x1_0000_0000_0000_0000 {
                Err(DecodeError::Truncated)
            } else {
                match spec_find_key(entries, t, width, 0) {
                    Some(i) => Ok(
                        (FrameModel {
                            key: entries[i].key,
                            seq: v,
                            payload: bytes.skip(width + n as int),
                        }),
                    ),
                    None => Err((DecodeError::UnknownKey { seq: v as u64 })),
                }
            },
        }
    }
}

/// Encodes `f` for the wire at the table's key width.
pub fn encode_frame(f: &Frame, width: usize) -> (out: Vec<u8>)
    ensures
        out@ == spec_encode_frame(f@, width as nat),
{
    let mut out: Vec<u8> = Vec::new();
    le_encode(f.key, width, &mut out);
    varint_encode(f.seq, &mut out);
    let mut i: usize = 0;
    let ghost prefix = spec_le_bytes(f.key as nat, width as nat) + spec_varint_encode(
        f.seq as nat,
    );
    proof {
        assert(out@ =~= prefix + f.payload@.take(0));
    }
    while i < f.payload.len()
        invariant
            i <= f.payload@.len(),
            out@ == prefix + f.payload@.take(i as int),
        decreases f.payload@.len() - i,
    {
        out.push(f.payload[i]);
        i = i + 1;
        proof {
            assert(out@ =~= prefix + f.payload@.take(i as int));
        }
    }
    proof {
        assert(f.payload@.take(f.payload@.len() as int) =~= f.payload@);
        assert(out@ =~= spec_encode_frame(f@, width as nat));
    }
    out
}

/// Decodes one wire message against the key table.
pub fn decode_frame(bytes: &Vec<u8>, table: &KeyTable) -> (r: Result<Frame, DecodeError>)
    requires
        valid_width(table.width as nat),
    ensures
        match r {
            Ok(f) => spec_decode_frame(bytes@, table.entries@, table.width as nat) == Ok::<
                FrameModel,
                DecodeError,
            >(f@),
            Err(e) => spec_decode_frame(bytes@, table.entries@, table.width as nat) == Err::<
                FrameModel,
                DecodeError,
            >(e),
        },
{
    let n = bytes.len();
    let width = table.width;
    if n < width {
        return Err(DecodeError::Truncated);
    }
    let t = le_decode(bytes, 0, width);
    proof {
        assert(bytes@.subrange(0, width as int) =~= bytes@.take(width as int));
    }
    let (seq, consumed) = match varint_decode_from(bytes, width) {
        None => {
            return Err(DecodeError::Truncated);
        },
        Some(p) => p,
    };
    proof {
        lemma_varint_decode_consumed(bytes@.skip(width as int));
    }
    let idx = match find_key(table, t) {
        None => {
            return Err(DecodeError::UnknownKey { seq });
        },
        Some(i) => i,
    };
    let start = width + consumed;
    let mut payload: Vec<u8> = Vec::new();
    let mut i: usize = start;
    proof {
        assert(payload@ =~= bytes@.subrange(start as int, start as int));
    }
    while i < n
        invariant
            start <= i <= n,
            n == bytes@.len(),
            payload@ == bytes@.subrange(start as int, i as int),
        decreases n - i,
    {
        payload.push(bytes[i]);
        i = i + 1;
        proof {
            assert(payload@ =~= bytes@.subrange(start as int, i as int));
        }
    }
    proof {
        assert(bytes@.subrange(start as int, n as int) =~= bytes@.skip(
            width + consumed,
        ));
    }
    Ok(Frame { key: table.entries[idx].key, seq, payload })
}

/// Reads the sequence varint that follows the key bytes, mirroring the
/// spec-level decode's handling of oversized values.
fn varint_decode_from(bytes: &Vec<u8>, start: usize) -> (r: Option<(u64, usize)>)
    requires
        start <= bytes@.len(),
    ensures
        match spec_varint_decode(bytes@.skip(start as int)) {
            Some(d) => if d.0 < 0x1_0000_0000_0000_0000 {
                r == Some::<(u64, usize)>((d.0 as u64, d.1 as usize))
            } else {
                r is None
            },
            None => r is None,
        },
{
    varint_decode(bytes, start)
}

/// Finds the first table entry whose truncated key equals `t`.
fn find_key(table: &KeyTable, t: u64) -> (r: Option<usize>)
    requires
        valid_width(table.width as nat),
    ensures
        match r {
            Some(i) => i < table.entries@.len() && spec_find_key(
                table.entries@,
                t as nat,
                table.width as nat,
                0,
            ) == Some(i as int),
            None => spec_find_key(table.entries@, t as nat, table.width as nat, 0) is None,
        },
{
    let n = table.entries.len();
    let mut i: usize = 0;
    while i < n
        invariant
            i <= n,
            n == table.entries@.len(),
            valid_width(table.width as nat),
            spec_find_key(table.entries@, t as nat, table.width as nat, 0) == spec_find_key(
                table.entries@,
                t as nat,
                table.width as nat,
                i as int,
            ),
        decreases n - i,
    {
        if trunc_key(table.entries[i].key, table.width) == t {
            return Some(i);
        }
        i = i + 1;
    }
    None
}

/// A frame whose key is registered survives the wire unchanged: decoding
/// its encoding against the same table yields it back. This holds for every
/// payload and every sequence number a frame can carry.
pub proof fn lemma_frame_round_trip(f: FrameModel, entries: Seq<KeyEntry>, width: nat)
    requires
        valid_width(width),
        distinct_at(entries, width),
        exists|i: int| 0 <= i < entries.len() && entries[i].key == f.key,
        f.seq < 0x1_0000_0000_0000_0000,
    ensures
        spec_decode_frame(spec_encode_frame(f, width), entries, width) == Ok::<
            FrameModel,
            DecodeError,
        >(f),
{
    let a = spec_le_bytes(f.key as nat, width);
    let b = spec_varint_encode(f.seq);
    let enc = spec_encode_frame(f, width);
    lemma_le_bytes_len(f.key as nat, width);
    lemma_varint_encode_len(f.seq);
    assert(enc.len() >= width);
    assert(enc.take(width as int) =~= a);
    lemma_le_round_trip(f.key as nat, width);
    let t = spec_trunc(f.key, width);
    assert(spec_le_value(enc.take(width as int)) == t);
    assert(enc.skip(width as int) =~= b + f.payload);
    lemma_varint_round_trip(f.seq, f.payload);
    let wit = choose|i: int| 0 <= i < entries.len() && entries[i].key == f.key;
    lemma_find_key_hits(entries, t, width, wit);
    let found = spec_find_key(entries, t, width, 0).unwrap();
    assert(entries[found].key == f.key) by {
        lemma_find_key_sound(entries, t, width, 0);
        if found != wit {
            assert(spec_trunc(entries[found].key, width) == spec_trunc(entries[wit].key, width));
        }
    }
    assert(enc.skip(width as int + b.len() as int) =~= f.payload);
}

/// If some entry's truncated key equals `t`, the scan finds one.
proof fn lemma_find_key_hits(entries: Seq<KeyEntry>, t: nat, width: nat, wit: int)
    requires
        0 <= wit < entries.len(),
        spec_trunc(entries[wit].key, width) == t,
    ensures
        spec_find_key(entries, t, width, 0) is Some,
{
    lemma_find_key_hits_from(entries, t, width, 0, wit);
}

proof fn lemma_find_key_hits_from(entries: Seq<KeyEntry>, t: nat, width: nat, from: int, wit: int)
    requires
        0 <= from <= wit < entries.len(),
        spec_trunc(entries[wit].key, width) == t,
    ensures
        spec_find_key(entries, t, width, from) is Some,
    decreases entries.len() - from,
{
    if spec_trunc(entries[from].key, width) != t {
        lemma_find_key_hits_from(entries, t, width, from + 1, wit);
    }
}

/// Whatever the scan finds indeed carries the truncated key `t`.
proof fn lemma_find_key_sound(entries: Seq<KeyEntry>, t: nat, width: nat, from: int)
    ensures
        spec_find_key(entries, t, width, from) matches Some(i) ==> from <= i < entries.len()
            && spec_trunc(entries[i].key, width) == t,
    decreases entries.len() - from,
{
    if 0 <= from < entries.len() {
        if spec_trunc(entries[from].key, width) != t {
            lemma_find_key_sound(entries, t, width, from + 1);
        }
    }
}

} // verus!
