//! Typed payload codecs: how each registered wire type's values are laid
//! out inside a frame's payload bytes, with a decoder that accepts exactly
//! the encodings.

use vstd::prelude::*;
use crate::icd::BadPositionError;
use crate::icd::Rgb8;
use crate::icd::SingleLed;
use crate::wire::le_decode;
use crate::wire::le_encode;
use crate::wire::lemma_le_bytes_len;
use crate::wire::lemma_le_round_trip_exact;
use crate::wire::lemma_pow256_values;
use crate::wire::spec_le_bytes;
use crate::wire::spec_le_value;

verus! {

/// How many LEDs an all-LED payload addresses.
pub const LED_COUNT: usize = 24;

// --- u32 ---

pub open spec fn spec_enc_u32(x: u32) -> Seq<u8> {
    spec_le_bytes(x as nat, 4)
}

pub open spec fn spec_dec_u32(b: Seq<u8>) -> Option<u32> {
    if b.len() == 4 {
        Some(spec_le_value(b) as u32)
    } else {
        None
    }
}

/// Every `u32` value survives its payload encoding.
pub proof fn lemma_u32_round_trip(x: u32)
    ensures
        spec_dec_u32(spec_enc_u32(x)) == Some(x),
{
    lemma_le_bytes_len(x as nat, 4);
    lemma_pow256_values();
    lemma_le_round_trip_exact(x as nat, 4);
}

pub fn enc_u32(x: u32) -> (r: Vec<u8>)
    ensures
        r@ == spec_enc_u32(x),
{
    let mut out: Vec<u8> = Vec::new();
    le_encode(x as u64, 4, &mut out);
    proof {
        assert(out@ =~= spec_enc_u32(x));
    }
    out
}

pub fn dec_u32(b: &Vec<u8>) -> (r: Option<u32>)
    ensures
        r == spec_dec_u32(b@),
{
    if b.len() == 4 {
        let v = le_decode(b, 0, 4);
        proof {
            assert(b@.subrange(0, 4) =~= b@);
            lemma_pow256_values();
        }
        Some(v as u32)
    } else {
        None
    }
}

// --- u64 ---

pub open spec fn spec_enc_u64(x: u64) -> Seq<u8> {
    spec_le_bytes(x as nat, 8)
}

pub open spec fn spec_dec_u64(b: Seq<u8>) -> Option<u64> {
    if b.len() == 8 {
        Some(spec_le_value(b) as u64)
    } else {
        None
    }
}

/// Every `u64` value survives its payload encoding.
pub proof fn lemma_u64_round_trip(x: u64)
    ensures
        spec_dec_u64(spec_enc_u64(x)) == Some(x),
{
    lemma_le_bytes_len(x as nat, 8);
    lemma_pow256_values();
    lemma_le_round_trip_exact(x as nat, 8);
}

pub fn enc_u64(x: u64) -> (r: Vec<u8>)
    ensures
        r@ == spec_enc_u64(x),
{
    let mut out: Vec<u8> = Vec::new();
    le_encode(x, 8, &mut out);
    proof {
        assert(out@ =~= spec_enc_u64(x));
    }
    out
}

pub fn dec_u64(b: &Vec<u8>) -> (r: Option<u64>)
    ensures
        r == spec_dec_u64(b@),
{
    if b.len() == 8 {
        let v = le_decode(b, 0, 8);
        proof {
            assert(b@.subrange(0, 8) =~= b@);
        }
        Some(v)
    } else {
        None
    }
}

// --- unit ---

pub open spec fn spec_enc_unit() -> Seq<u8> {
    Seq::empty()
}

pub open spec fn spec_dec_unit(b: Seq<u8>) -> Option<()> {
    if b.len() == 0 {
        Some(())
    } else {
        None
    }
}

pub fn enc_unit() -> (r: Vec<u8>)
    ensures
        r@ == spec_enc_unit(),
{
    let out: Vec<u8> = Vec::new();
    proof {
        assert(out@ =~= spec_enc_unit());
    }
    out
}

pub fn dec_unit(b: &Vec<u8>) -> (r: Option<()>)
    ensures
        r == spec_dec_unit(b@),
{
    if b.len() == 0 {
        Some(())
    } else {
        None
    }
}

// --- single LED ---

pub open spec fn spec_enc_single_led(s: SingleLed) -> Seq<u8> {
    spec_le_bytes(s.position as nat, 4) + seq![s.rgb.r, s.rgb.g, s.rgb.b]
}

pub open spec fn spec_dec_single_led(b: Seq<u8>) -> Option<SingleLed> {
    if b.len() == 7 {
        Some(
            (SingleLed {
                position: spec_le_value(b.take(4)) as u32,
                rgb: (Rgb8 { r: b[4], g: b[5], b: b[6] }),
            }),
        )
    } else {
        None
    }
}

/// Every single-LED request survives its payload encoding.
pub proof fn lemma_single_led_round_trip(s: SingleLed)
    ensures
        spec_dec_single_led(spec_enc_single_led(s)) == Some(s),
{
    let enc = spec_enc_single_led(s);
    lemma_le_bytes_len(s.position as nat, 4);
    assert(enc.take(4) =~= spec_le_bytes(s.position as nat, 4));
    lemma_pow256_values();
    lemma_le_round_trip_exact(s.position as nat, 4);
}

pub fn enc_single_led(s: &SingleLed) -> (r: Vec<u8>)
    ensures
        r@ == spec_enc_single_led(*s),
{
    let mut out: Vec<u8> = Vec::new();
    le_encode(s.position as u64, 4, &mut out);
    out.push(s.rgb.r);
    out.push(s.rgb.g);
    out.push(s.rgb.b);
    proof {
        assert(out@ =~= spec_enc_single_led(*s));
    }
    out
}

pub fn dec_single_led(b: &Vec<u8>) -> (r: Option<SingleLed>)
    ensures
        r == spec_dec_single_led(b@),
{
    if b.len() == 7 {
        let pos = le_decode(b, 0, 4);
        proof {
            assert(b@.subrange(0, 4) =~= b@.take(4));
            lemma_pow256_values();
        }
        Some(SingleLed { position: pos as u32, rgb: Rgb8 { r: b[4], g: b[5], b: b[6] } })
    } else {
        None
    }
}

// --- all LEDs ---

pub open spec fn spec_enc_all_led(leds: Seq<Rgb8>) -> Seq<u8>
    decreases leds.len(),
{
    if leds.len() == 0 {
        Seq::empty()
    } else {
        seq![leds[0].r, leds[0].g, leds[0].b] + spec_enc_all_led(leds.skip(1))
    }
}

pub open spec fn spec_dec_all_led(b: Seq<u8>) -> Option<Seq<Rgb8>> {
    if b.len() == 3 * LED_COUNT {
        Some(Seq::new(LED_COUNT as nat, |i: int| (Rgb8 { r: b[3 * i], g: b[3 * i + 1], b: b[3 * i + 2] })))
    } else {
        None
    }
}

/// The flat encoding of an LED list is three bytes per LED, in order.
pub proof fn lemma_enc_all_led_index(leds: Seq<Rgb8>)
    ensures
        spec_enc_all_led(leds).len() == 3 * leds.len(),
        forall|i: int|
            0 <= i < leds.len() ==> spec_enc_all_led(leds)[3 * i] == leds[i].r && spec_enc_all_led(
                leds,
            )[3 * i + 1] == leds[i].g && spec_enc_all_led(leds)[3 * i + 2] == leds[i].b,
    decreases leds.len(),
{
    if leds.len() > 0 {
        lemma_enc_all_led_index(leds.skip(1));
        let enc = spec_enc_all_led(leds);
        let tail = spec_enc_all_led(leds.skip(1));
        assert forall|i: int| 0 <= i < leds.len() implies enc[3 * i] == leds[i].r && enc[3 * i + 1]
            == leds[i].g && enc[3 * i + 2] == leds[i].b by {
            if i > 0 {
                assert(leds.skip(1)[i - 1] == leds[i]);
                assert(enc[3 * i] == tail[3 * (i - 1)]);
                assert(enc[3 * i + 1] == tail[3 * (i - 1) + 1]);
                assert(enc[3 * i + 2] == tail[3 * (i - 1) + 2]);
            }
        }
    }
}

/// Every full-strip colour list survives its payload encoding.
pub proof fn lemma_all_led_round_trip(leds: Seq<Rgb8>)
    requires
        leds.len() == LED_COUNT,
    ensures
        spec_dec_all_led(spec_enc_all_led(leds)) == Some(leds),
{
    lemma_enc_all_led_index(leds);
    let dec = spec_dec_all_led(spec_enc_all_led(leds)).unwrap();
    assert(dec =~= leds);
}

pub fn enc_all_led(leds: &Vec<Rgb8>) -> (r: Vec<u8>)
    requires
        leds@.len() == LED_COUNT,
    ensures
        r@ == spec_enc_all_led(leds@),
{
    let mut out: Vec<u8> = Vec::new();
    let mut i: usize = 0;
    proof {
        lemma_enc_all_led_index(leds@);
        lemma_enc_all_led_prefix(leds@, 0);
        assert(out@ =~= spec_enc_all_led(leds@.take(0)));
    }
    while i < leds.len()
        invariant
            i <= leds@.len(),
            leds@.len() == LED_COUNT,
            out@ == spec_enc_all_led(leds@.take(i as int)),
            out@.len() == 3 * i,
        decreases leds@.len() - i,
    {
        out.push(leds[i].r);
        out.push(leds[i].g);
        out.push(leds[i].b);
        i = i + 1;
        proof {
            lemma_enc_all_led_prefix(leds@, i as int);
            lemma_enc_all_led_index(leds@.take(i as int));
            lemma_enc_all_led_index(leds@.take(i - 1));
            assert(out@ =~= spec_enc_all_led(leds@.take(i as int)));
        }
    }
    proof {
        assert(leds@.take(leds@.len() as int) =~= leds@);
    }
    out
}

/// A one-longer prefix encodes as the shorter prefix plus three bytes.
proof fn lemma_enc_all_led_prefix(leds: Seq<Rgb8>, i: int)
    requires
        0 <= i <= leds.len(),
    ensures
        i > 0 ==> spec_enc_all_led(leds.take(i)) =~= spec_enc_all_led(leds.take(i - 1)) + seq![
            leds[i - 1].r,
            leds[i - 1].g,
            leds[i - 1].b,
        ],
{
    if i > 0 {
        lemma_enc_all_led_index(leds.take(i));
        lemma_enc_all_led_index(leds.take(i - 1));
        assert forall|k: int| 0 <= k < 3 * i implies spec_enc_all_led(leds.take(i))[k] == (
        spec_enc_all_led(leds.take(i - 1)) + seq![
            leds[i - 1].r,
            leds[i - 1].g,
            leds[i - 1].b,
        ])[k] by {
            let q = k / 3;
            let m = k % 3;
            vstd::arithmetic::div_mod::lemma_fundamental_div_mod(k, 3);
            assert(0 <= q < i) by (nonlinear_arith)
                requires 0 <= k < 3 * i, k == 3 * q + m, 0 <= m < 3;
            assert(leds.take(i)[q] == leds[q]);
            if q < i - 1 {
                assert(leds.take(i - 1)[q] == leds[q]);
            }
        }
    }
}

pub fn dec_all_led(b: &Vec<u8>) -> (r: Option<Vec<Rgb8>>)
    ensures
        match r {
            Some(v) => spec_dec_all_led(b@) == Some(v@),
            None => spec_dec_all_led(b@) is None,
        },
{
    if b.len() != 3 * LED_COUNT {
        return None;
    }
    let ghost target = spec_dec_all_led(b@).unwrap();
    let mut out: Vec<Rgb8> = Vec::new();
    let mut i: usize = 0;
    while i < LED_COUNT
        invariant
            i <= LED_COUNT,
            b@.len() == 3 * LED_COUNT,
            target == spec_dec_all_led(b@).unwrap(),
            out@ == target.take(i as int),
        decreases LED_COUNT - i,
    {
        out.push(Rgb8 { r: b[3 * i], g: b[3 * i + 1], b: b[3 * i + 2] });
        i = i + 1;
        proof {
            assert(out@ =~= target.take(i as int));
        }
    }
    proof {
        assert(target.take(LED_COUNT as int) =~= target);
    }
    Some(out)
}

// --- LED set result ---

pub open spec fn spec_enc_led_result(r: Result<(), BadPositionError>) -> Seq<u8> {
    match r {
        Ok(_) => seq![0u8],
        Err(_) => seq![1u8],
    }
}

pub open spec fn spec_dec_led_result(b: Seq<u8>) -> Option<Result<(), BadPositionError>> {
    if b.len() == 1 && b[0] == 0 {
        Some(Ok(()))
    } else if b.len() == 1 && b[0] == 1 {
        Some(Err(BadPositionError))
    } else {
        None
    }
}

/// Every LED set result survives its payload encoding.
pub proof fn lemma_led_result_round_trip(r: Result<(), BadPositionError>)
    ensures
        spec_dec_led_result(spec_enc_led_result(r)) == Some(r),
{
    match r {
        Ok(u) => {
            assert(spec_enc_led_result(r) == seq![0u8]);
        },
        Err(e) => {
            assert(spec_enc_led_result(r) == seq![1u8]);
            assert(e == BadPositionError);
        },
    }
}

pub fn enc_led_result(r: &Result<(), BadPositionError>) -> (out: Vec<u8>)
    ensures
        out@ == spec_enc_led_result(*r),
{
    let mut out: Vec<u8> = Vec::new();
    match r {
        Ok(_) => out.push(0),
        Err(_) => out.push(1),
    }
    proof {
        assert(out@ =~= spec_enc_led_result(*r));
    }
    out
}

pub fn dec_led_result(b: &Vec<u8>) -> (r: Option<Result<(), BadPositionError>>)
    ensures
        r == spec_dec_led_result(b@),
{
    if b.len() == 1 && b[0] == 0 {
        Some(Ok(()))
    } else if b.len() == 1 && b[0] == 1 {
        Some(Err(BadPositionError))
    } else {
        None
    }
}

// --- protocol failure kinds (error-path payload) ---

/// The tagged failure kinds the reserved error path can carry. The header
/// of an error-path frame carries the sequence of the request the failure
/// answers.
#[derive(Clone, Copy, Debug, PartialEq, Eq, Structural)]
pub enum FailureKind {
    UnknownKey,
    MalformedFrame,
    DeserializeFailed,
    SpawnCapacityExceeded,
    ApplicationDefined { code: u32 },
}

pub open spec fn spec_enc_failure(k: FailureKind) -> Seq<u8> {
    match k {
        FailureKind::UnknownKey => seq![0u8],
        FailureKind::MalformedFrame => seq![1u8],
        FailureKind::DeserializeFailed => seq![2u8],
        FailureKind::SpawnCapacityExceeded => seq![3u8],
        FailureKind::ApplicationDefined { code } => seq![4u8] + spec_le_bytes(code as nat, 4),
    }
}

pub open spec fn spec_dec_failure(b: Seq<u8>) -> Option<FailureKind> {
    if b.len() == 1 && b[0] == 0 {
        Some(FailureKind::UnknownKey)
    } else if b.len() == 1 && b[0] == 1 {
        Some(FailureKind::MalformedFrame)
    } else if b.len() == 1 && b[0] == 2 {
        Some(FailureKind::DeserializeFailed)
    } else if b.len() == 1 && b[0] == 3 {
        Some(FailureKind::SpawnCapacityExceeded)
    } else if b.len() == 5 && b[0] == 4 {
        Some((FailureKind::ApplicationDefined { code: spec_le_value(b.skip(1)) as u32 }))
    } else {
        None
    }
}

/// Every failure kind survives its error-path encoding.
pub proof fn lemma_failure_round_trip(k: FailureKind)
    ensures
        spec_dec_failure(spec_enc_failure(k)) == Some(k),
{
    match k {
        FailureKind::ApplicationDefined { code } => {
            let enc = spec_enc_failure(k);
            lemma_le_bytes_len(code as nat, 4);
            assert(enc.skip(1) =~= spec_le_bytes(code as nat, 4));
            lemma_pow256_values();
            lemma_le_round_trip_exact(code as nat, 4);
        },
        _ => {},
    }
}

pub fn enc_failure(k: &FailureKind) -> (out: Vec<u8>)
    ensures
        out@ == spec_enc_failure(*k),
{
    let mut out: Vec<u8> = Vec::new();
    match k {
        FailureKind::UnknownKey => out.push(0),
        FailureKind::MalformedFrame => out.push(1),
        FailureKind::DeserializeFailed => out.push(2),
        FailureKind::SpawnCapacityExceeded => out.push(3),
        FailureKind::ApplicationDefined { code } => {
            out.push(4);
            le_encode(*code as u64, 4, &mut out);
        },
    }
    proof {
        assert(out@ =~= spec_enc_failure(*k));
    }
    out
}

pub fn dec_failure(b: &Vec<u8>) -> (r: Option<FailureKind>)
    ensures
        r == spec_dec_failure(b@),
{
    if b.len() == 1 && b[0] == 0 {
        Some(FailureKind::UnknownKey)
    } else if b.len() == 1 && b[0] == 1 {
        Some(FailureKind::MalformedFrame)
    } else if b.len() == 1 && b[0] == 2 {
        Some(FailureKind::DeserializeFailed)
    } else if b.len() == 1 && b[0] == 3 {
        Some(FailureKind::SpawnCapacityExceeded)
    } else if b.len() == 5 && b[0] == 4 {
        let code = le_decode(b, 1, 4);
        proof {
            assert(b@.subrange(1, 5) =~= b@.skip(1));
            lemma_pow256_values();
        }
        Some(FailureKind::ApplicationDefined { code: code as u32 })
    } else {
        None
    }
}

} // verus!
