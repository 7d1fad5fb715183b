//! Fixed-width little-endian integer fields and the digest that wire keys
//! are derived from.

use vstd::prelude::*;

verus! {

/// The `w` low-order bytes of `x`, least significant first.
pub open spec fn spec_le_bytes(x: nat, w: nat) -> Seq<u8>
    decreases w,
{
    if w == 0 {
        Seq::empty()
    } else {
        seq![(x % 256) as u8] + spec_le_bytes(x / 256, (w - 1) as nat)
    }
}

/// The value of a little-endian byte string.
pub open spec fn spec_le_value(s: Seq<u8>) -> nat
    decreases s.len(),
{
    if s.len() == 0 {
        0
    } else {
        s[0] as nat + 256 * spec_le_value(s.skip(1))
    }
}

/// `256^w`, the count of values a `w`-byte field can carry.
pub open spec fn pow256(w: nat) -> nat
    decreases w,
{
    if w == 0 {
        1
    } else {
        256 * pow256((w - 1) as nat)
    }
}

/// A `w`-byte little-endian field holds exactly `w` bytes.
pub proof fn lemma_le_bytes_len(x: nat, w: nat)
    ensures
        spec_le_bytes(x, w).len() == w,
    decreases w,
{
    if w > 0 {
        lemma_le_bytes_len(x / 256, (w - 1) as nat);
    }
}

/// Reading back a `w`-byte field recovers the value modulo `256^w`.
pub proof fn lemma_le_round_trip(x: nat, w: nat)
    ensures
        spec_le_value(spec_le_bytes(x, w)) == x % pow256(w),
    decreases w,
{
    if w == 0 {
        assert(x % 1 == 0);
    } else {
        let tail = spec_le_bytes(x / 256, (w - 1) as nat);
        let s = spec_le_bytes(x, w);
        assert(s.skip(1) =~= tail);
        lemma_le_round_trip(x / 256, (w - 1) as nat);
        lemma_pow256_pos((w - 1) as nat);
        vstd::arithmetic::div_mod::lemma_breakdown(
            x as int,
            256,
            pow256((w - 1) as nat) as int,
        );
        assert(spec_le_value(s) == x % 256 + 256 * ((x / 256) % pow256((w - 1) as nat)));
    }
}

/// `256^w` is positive.
pub proof fn lemma_pow256_pos(w: nat)
    ensures
        pow256(w) >= 1,
    decreases w,
{
    if w > 0 {
        lemma_pow256_pos((w - 1) as nat);
    }
}

/// A value below `256^w` survives a `w`-byte field unchanged.
pub proof fn lemma_le_round_trip_exact(x: nat, w: nat)
    requires
        x < pow256(w),
    ensures
        spec_le_value(spec_le_bytes(x, w)) == x,
{
    lemma_le_round_trip(x, w);
    assert(x % pow256(w) == x) by (nonlinear_arith)
        requires x < pow256(w);
}

/// Appends the `w`-byte little-endian form of `x` to `out`.
pub fn le_encode(x: u64, w: usize, out: &mut Vec<u8>)
    ensures
        final(out)@ == old(out)@ + spec_le_bytes(x as nat, w as nat),
    decreases w,
{
    if w > 0 {
        let ghost pre = out@;
        out.push((x % 256) as u8);
        le_encode(x / 256, w - 1, out);
        proof {
            assert(out@ =~= pre + spec_le_bytes(x as nat, w as nat));
        }
    } else {
        proof {
            assert(out@ =~= old(out)@ + spec_le_bytes(x as nat, 0));
        }
    }
}

/// Reads a `w`-byte little-endian field from `bytes` at `start`.
pub fn le_decode(bytes: &Vec<u8>, start: usize, w: usize) -> (r: u64)
    requires
        start + w <= bytes@.len(),
        w <= 8,
    ensures
        r as nat == spec_le_value(bytes@.subrange(start as int, start + w)),
        (r as nat) < pow256(w as nat),
    decreases w,
{
    proof {
        lemma_pow256_le_u64(w as nat);
    }
    let n = bytes.len();
    if w == 0 {
        0
    } else {
        proof {
            assert(start + w <= n);
        }
        let b = bytes[start];
        let rest = le_decode(bytes, start + 1, w - 1);
        let ghost field = bytes@.subrange(start as int, start + w);
        proof {
            assert(field.skip(1) =~= bytes@.subrange(start + 1, start + 1 + (w - 1)));
            assert(field[0] == b);
            assert((rest as nat) < pow256((w - 1) as nat));
            assert(b as nat + 256 * (rest as nat) < 256 * pow256((w - 1) as nat))
                by (nonlinear_arith)
                requires b < 256, (rest as nat) < pow256((w - 1) as nat);
        }
        b as u64 + 256 * rest
    }
}

/// `256^w` fits the reasoning range for fields of up to eight bytes.
pub proof fn lemma_pow256_le_u64(w: nat)
    requires
        w <= 8,
    ensures
        pow256(w) <= 0x1_0000_0000_0000_0000,
{
    assert(pow256(0) == 1);
    assert(pow256(1) == 0x100);
    assert(pow256(2) == 0x1_0000);
    assert(pow256(3) == 0x100_0000);
    assert(pow256(4) == 0x1_0000_0000);
    assert(pow256(5) == 0x100_0000_0000);
    assert(pow256(6) == 0x1_0000_0000_0000);
    assert(pow256(7) == 0x100_0000_0000_0000);
    assert(pow256(8) == 0x1_0000_0000_0000_0000);
}

/// `256^w` for the widths a key field can take, as a named table.
pub proof fn lemma_pow256_values()
    ensures
        pow256(1) == 0x100,
        pow256(2) == 0x1_0000,
        pow256(4) == 0x1_0000_0000,
        pow256(8) == 0x1_0000_0000_0000_0000,
{
    assert(pow256(0) == 1);
    assert(pow256(1) == 0x100);
    assert(pow256(2) == 0x1_0000);
    assert(pow256(3) == 0x100_0000);
    assert(pow256(4) == 0x1_0000_0000);
    assert(pow256(5) == 0x100_0000_0000);
    assert(pow256(6) == 0x1_0000_0000_0000);
    assert(pow256(7) == 0x100_0000_0000_0000);
    assert(pow256(8) == 0x1_0000_0000_0000_0000);
}

/// Offset basis of the 64-bit FNV-1a digest.
pub const DIGEST_BASIS: u64 = 0xcbf2_9ce4_8422_2325;

/// Multiplicative prime of the 64-bit FNV-1a digest.
pub const DIGEST_PRIME: u64 = 0x100_0000_01b3;

/// One digest step: fold a byte into the running state.
pub open spec fn spec_digest_step(h: u64, byte: u8) -> u64 {
    (h ^ byte as u64).wrapping_mul(DIGEST_PRIME)
}

/// The digest state after folding every byte of `s` into `h`.
pub open spec fn spec_digest_fold(h: u64, s: Seq<u8>) -> u64
    decreases s.len(),
{
    if s.len() == 0 {
        h
    } else {
        spec_digest_fold(spec_digest_step(h, s[0]), s.skip(1))
    }
}

/// The digest of a byte string, started from the fixed basis.
pub open spec fn spec_digest(s: Seq<u8>) -> u64 {
    spec_digest_fold(DIGEST_BASIS, s)
}

/// Folding a concatenation folds the parts in order.
pub proof fn lemma_digest_fold_concat(h: u64, a: Seq<u8>, b: Seq<u8>)
    ensures
        spec_digest_fold(h, a + b) == spec_digest_fold(spec_digest_fold(h, a), b),
    decreases a.len(),
{
    if a.len() == 0 {
        assert(a + b =~= b);
    } else {
        assert((a + b).skip(1) =~= a.skip(1) + b);
        lemma_digest_fold_concat(spec_digest_step(h, a[0]), a.skip(1), b);
    }
}

/// Folds the bytes of `s` into a running digest state.
pub fn digest_fold(h: u64, s: &[u8]) -> (r: u64)
    ensures
        r == spec_digest_fold(h, s@),
{
    let mut acc = h;
    let mut i: usize = 0;
    proof {
        assert(s@.skip(0) =~= s@);
    }
    while i < s.len()
        invariant
            i <= s@.len(),
            spec_digest_fold(h, s@) == spec_digest_fold(acc, s@.skip(i as int)),
        decreases s@.len() - i,
    {
        let ghost pre = s@.skip(i as int);
        acc = (acc ^ s[i] as u64).wrapping_mul(DIGEST_PRIME);
        i = i + 1;
        proof {
            assert(pre[0] == s@[i - 1]);
            assert(pre.skip(1) =~= s@.skip(i as int));
        }
    }
    proof {
        assert(s@.skip(s@.len() as int) =~= Seq::<u8>::empty());
    }
    acc
}

} // verus!
