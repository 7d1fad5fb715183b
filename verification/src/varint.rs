//! Variable-length encoding of unsigned integers, used for the sequence
//! field of a frame header: seven value bits per byte, least significant
//! group first, the high bit of a byte marking that more bytes follow.

use vstd::prelude::*;

verus! {

/// The encoding of `x`: low seven bits first, continuation bit set on every
/// byte but the last.
pub open spec fn spec_varint_encode(x: nat) -> Seq<u8>
    decreases x,
{
    if x < 128 {
        seq![x as u8]
    } else {
        seq![((x % 128) + 128) as u8] + spec_varint_encode(x / 128)
    }
}

/// Reading a varint from the front of `s`: the decoded value and the number
/// of bytes consumed, or `None` if `s` ends inside the encoding.
pub open spec fn spec_varint_decode(s: Seq<u8>) -> Option<(nat, nat)>
    decreases s.len(),
{
    if s.len() == 0 {
        None
    } else if s[0] < 128 {
        Some((s[0] as nat, 1))
    } else {
        match spec_varint_decode(s.skip(1)) {
            None => None,
            Some((v, n)) => Some((((s[0] - 128) as nat + 128 * v), n + 1)),
        }
    }
}

/// Decoding starts over wherever an encoding was laid down: the decoder
/// recovers exactly the encoded value and consumes exactly the encoding.
pub proof fn lemma_varint_round_trip(x: nat, rest: Seq<u8>)
    ensures
        spec_varint_decode(spec_varint_encode(x) + rest) == Some::<(nat, nat)>(
            (x, spec_varint_encode(x).len()),
        ),
    decreases x,
{
    let enc = spec_varint_encode(x);
    let s = enc + rest;
    if x < 128 {
        assert(s[0] == x as u8);
    } else {
        let tail = spec_varint_encode(x / 128);
        assert(s[0] == ((x % 128) + 128) as u8);
        assert(s.skip(1) =~= tail + rest);
        lemma_varint_round_trip(x / 128, rest);
        assert((s[0] - 128) as nat + 128 * (x / 128) == x) by {
            assert(x % 128 + 128 * (x / 128) == x) by (nonlinear_arith);
        }
    }
}

/// An encoding is never empty and never longer than ten bytes (the widest a
/// 64-bit value needs).
pub proof fn lemma_varint_encode_len(x: nat)
    ensures
        1 <= spec_varint_encode(x).len(),
        x < 0x1_0000_0000_0000_0000 ==> spec_varint_encode(x).len() <= 10,
    decreases x,
{
    if x >= 128 {
        lemma_varint_encode_len(x / 128);
        if x < 0x1_0000_0000_0000_0000 {
            lemma_pow128_9();
            lemma_varint_len_bound(x, 10);
        }
    }
}

/// Helper: the value of `128^9`, unfolded step by step.
proof fn lemma_pow128_9()
    ensures
        pow128(9) == 0x8000_0000_0000_0000,
{
    assert(pow128(0) == 1);
    assert(pow128(1) == 128);
    assert(pow128(2) == 0x4000);
    assert(pow128(3) == 0x20_0000);
    assert(pow128(4) == 0x1000_0000);
    assert(pow128(5) == 0x8_0000_0000);
    assert(pow128(6) == 0x400_0000_0000);
    assert(pow128(7) == 0x2_0000_0000_0000);
    assert(pow128(8) == 0x100_0000_0000_0000);
    assert(pow128(9) == 0x8000_0000_0000_0000);
}

/// Helper: a value below `128^(k-1) * 128` encodes in at most `k` bytes.
proof fn lemma_varint_len_bound(x: nat, k: nat)
    requires
        k >= 1,
        x < pow128((k - 1) as nat) * 128,
    ensures
        spec_varint_encode(x).len() <= k,
    decreases x,
{
    if x >= 128 {
        assert(k >= 2) by {
            if k == 1 {
                assert(pow128(0) == 1);
            }
        }
        assert(x / 128 < pow128((k - 2) as nat) * 128) by {
            assert(pow128((k - 1) as nat) == 128 * pow128((k - 2) as nat));
            assert(x < 128 * (pow128((k - 2) as nat) * 128));
            assert(x / 128 < pow128((k - 2) as nat) * 128) by (nonlinear_arith)
                requires x < 128 * (pow128((k - 2) as nat) * 128);
        }
        lemma_varint_len_bound(x / 128, (k - 1) as nat);
    }
}

/// `128^k`, the count of values expressible in `k` full seven-bit groups.
pub open spec fn pow128(k: nat) -> nat
    decreases k,
{
    if k == 0 {
        1
    } else {
        128 * pow128((k - 1) as nat)
    }
}

/// A decode never consumes more bytes than it was given.
pub proof fn lemma_varint_decode_consumed(s: Seq<u8>)
    ensures
        spec_varint_decode(s) matches Some(r) ==> 1 <= r.1 <= s.len(),
    decreases s.len(),
{
    if s.len() > 0 && s[0] >= 128 {
        lemma_varint_decode_consumed(s.skip(1));
    }
}

/// Appends the encoding of `x` to `out`.
pub fn varint_encode(x: u64, out: &mut Vec<u8>)
    ensures
        final(out)@ == old(out)@ + spec_varint_encode(x as nat),
    decreases x,
{
    if x < 128 {
        out.push(x as u8);
    } else {
        let ghost pre = out@;
        out.push(((x % 128) + 128) as u8);
        varint_encode(x / 128, out);
        proof {
            assert(out@ =~= pre + spec_varint_encode(x as nat));
        }
    }
}

/// Reads a varint from `bytes` starting at `start`. Returns the value and
/// the number of bytes consumed, or `None` where the bytes end inside the
/// encoding or the value does not fit in 64 bits.
pub fn varint_decode(bytes: &Vec<u8>, start: usize) -> (r: Option<(u64, usize)>)
    requires
        start <= bytes@.len(),
    ensures
        match spec_varint_decode(bytes@.skip(start as int)) {
            Some(d) => if d.0 < 0x1_0000_0000_0000_0000 {
                r == Some::<(u64, usize)>((d.0 as u64, d.1 as usize))
            } else {
                r is None
            },
            None => r is None,
        },
    decreases bytes@.len() - start,
{
    let ghost s = bytes@.skip(start as int);
    if start == bytes.len() {
        return None;
    }
    let b = bytes[start];
    assert(s[0] == b);
    if b < 128 {
        Some((b as u64, 1))
    } else {
        proof {
            assert(s.skip(1) =~= bytes@.skip(start + 1));
        }
        match varint_decode(bytes, start + 1) {
            None => None,
            Some((v, n)) => {
                proof {
                    lemma_varint_decode_consumed(s.skip(1));
                }
                let low = (b - 128) as u64;
                if v > (u64::MAX - low as u64) / 128 {
                    proof {
                        let d = spec_varint_decode(s).unwrap();
                        assert(d.0 == low + 128 * v);
                        assert(128 * v > u64::MAX - low) by (nonlinear_arith)
                            requires v > (u64::MAX - low as u64) / 128, v <= u64::MAX;
                    }
                    None
                } else {
                    proof {
                        assert(128 * v <= u64::MAX - low) by (nonlinear_arith)
                            requires v <= (u64::MAX - low as u64) / 128;
                    }
                    Some((low + 128 * v, n + 1))
                }
            },
        }
    }
}

} // verus!
