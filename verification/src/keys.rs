//! The key table: one fixed-width wire identifier per registered
//! endpoint/topic entry, truncated to the smallest width at which every
//! identifier in the combined namespace stays distinct.

use vstd::prelude::*;
use crate::wire::pow256;
use crate::wire::lemma_pow256_values;

verus! {

/// What a key table entry stands for: the request or response side of an
/// endpoint, a topic message, or the reserved protocol error path.
#[derive(Clone, Copy, Debug, PartialEq, Eq, Structural)]
pub enum KeyRole {
    EndpointRequest { endpoint: usize },
    EndpointResponse { endpoint: usize },
    TopicMessage { topic: usize },
    ErrorPath,
}

/// One table entry: the full 64-bit digest and what it identifies.
#[derive(Clone, Copy, Debug, PartialEq, Eq, Structural)]
pub struct KeyEntry {
    pub key: u64,
    pub role: KeyRole,
}

/// Startup failure: even the widest key cannot keep the registered
/// identifiers apart, so the protocol is unsatisfiable as registered.
#[derive(Clone, Copy, Debug, PartialEq, Eq, Structural)]
pub struct KeyCollision;

/// The key widths, in bytes, that the wire format may choose from.
pub open spec fn valid_width(w: nat) -> bool {
    w == 1 || w == 2 || w == 4 || w == 8
}

/// A key truncated to its `w` low-order bytes.
pub open spec fn spec_trunc(k: u64, w: nat) -> nat {
    (k as nat) % pow256(w)
}

/// Whether every pair of entries stays distinct when truncated to `w` bytes.
pub open spec fn distinct_at(entries: Seq<KeyEntry>, w: nat) -> bool {
    forall|i: int, j: int|
        0 <= i < j < entries.len() ==> spec_trunc(entries[i].key, w) != spec_trunc(
            entries[j].key,
            w,
        )
}

/// The key table: the registered entries and the negotiated key width.
pub struct KeyTable {
    pub entries: Vec<KeyEntry>,
    pub width: usize,
}

impl KeyTable {
    /// Well-formedness: the width is one of the candidate widths and keys
    /// truncated to it are pairwise distinct.
    pub open spec fn wf(self) -> bool {
        valid_width(self.width as nat) && distinct_at(self.entries@, self.width as nat)
    }

    /// The width is minimal: no smaller candidate width keeps the keys
    /// distinct.
    pub open spec fn width_minimal(self) -> bool {
        forall|w: nat| valid_width(w) && w < self.width ==> !distinct_at(self.entries@, w)
    }

    /// Builds the table over `entries`, choosing the smallest candidate
    /// width at which all keys stay pairwise distinct. Fails with
    /// `KeyCollision` exactly when even eight-byte keys collide, which can
    /// only happen when two entries carry identical full digests.
    pub fn build(entries: Vec<KeyEntry>) -> (r: Result<KeyTable, KeyCollision>)
        ensures
            match r {
                Ok(t) => t.wf() && t.width_minimal() && t.entries@ == entries@,
                Err(_) => !distinct_at(entries@, 8),
            },
            (r is Err) <==> !distinct_at(entries@, 8),
    {
        if all_distinct(&entries, 1) {
            proof {
                lemma_distinct_at_widens(entries@, 1, 8);
            }
            Ok(KeyTable { entries, width: 1 })
        } else if all_distinct(&entries, 2) {
            proof {
                lemma_distinct_at_widens(entries@, 2, 8);
            }
            Ok(KeyTable { entries, width: 2 })
        } else if all_distinct(&entries, 4) {
            proof {
                lemma_distinct_at_widens(entries@, 4, 8);
            }
            Ok(KeyTable { entries, width: 4 })
        } else if all_distinct(&entries, 8) {
            Ok(KeyTable { entries, width: 8 })
        } else {
            Err(KeyCollision)
        }
    }

    /// Finds the entry whose truncated key equals `needle`, itself already
    /// truncated to the table's width.
    pub fn lookup(&self, needle: u64) -> (r: Option<usize>)
        requires
            valid_width(self.width as nat),
        ensures
            match r {
                Some(i) => i < self.entries@.len() && spec_trunc(
                    self.entries@[i as int].key,
                    self.width as nat,
                ) == needle as nat,
                None => forall|i: int|
                    0 <= i < self.entries@.len() ==> spec_trunc(
                        self.entries@[i].key,
                        self.width as nat,
                    ) != needle as nat,
            },
    {
        let n = self.entries.len();
        let mut i: usize = 0;
        while i < n
            invariant
                n == self.entries@.len(),
                i <= n,
                valid_width(self.width as nat),
                forall|k: int|
                    0 <= k < i ==> spec_trunc(self.entries@[k].key, self.width as nat)
                        != needle as nat,
            decreases n - i,
        {
            if trunc_key(self.entries[i].key, self.width) == needle {
                return Some(i);
            }
            i = i + 1;
        }
        None
    }
}

/// Truncates `k` to its `w` low-order bytes.
pub fn trunc_key(k: u64, w: usize) -> (r: u64)
    requires
        valid_width(w as nat),
    ensures
        (r as nat) == spec_trunc(k, w as nat),
{
    proof {
        lemma_pow256_values();
    }
    if w == 1 {
        k % 0x100
    } else if w == 2 {
        k % 0x1_0000
    } else if w == 4 {
        k % 0x1_0000_0000
    } else {
        proof {
            vstd::arithmetic::div_mod::lemma_small_mod(k as nat, pow256(8));
        }
        k
    }
}

/// `256^(a+b) == 256^a * 256^b`.
proof fn lemma_pow256_adds(a: nat, b: nat)
    ensures
        pow256(a + b) == pow256(a) * pow256(b),
    decreases a,
{
    if a == 0 {
        assert(pow256(0) == 1);
    } else {
        lemma_pow256_adds((a - 1) as nat, b);
        assert(pow256(a + b) == 256 * pow256((a - 1) as nat + b));
        assert(256 * (pow256((a - 1) as nat) * pow256(b)) == (256 * pow256((a - 1) as nat))
            * pow256(b)) by (nonlinear_arith);
    }
}

/// A truncation to `w1` bytes factors through any wider truncation.
proof fn lemma_trunc_mod(k: u64, w1: nat, w2: nat)
    requires
        w1 <= w2,
    ensures
        spec_trunc(k, w1) == spec_trunc(k, w2) % pow256(w1),
{
    lemma_pow256_adds(w1, (w2 - w1) as nat);
    crate::wire::lemma_pow256_pos(w1);
    crate::wire::lemma_pow256_pos((w2 - w1) as nat);
    vstd::arithmetic::div_mod::lemma_mod_mod(
        k as int,
        pow256(w1) as int,
        pow256((w2 - w1) as nat) as int,
    );
}

/// Keys that stay distinct under a narrow truncation stay distinct under
/// any wider one.
pub proof fn lemma_distinct_at_widens(s: Seq<KeyEntry>, w1: nat, w2: nat)
    requires
        w1 <= w2,
        distinct_at(s, w1),
    ensures
        distinct_at(s, w2),
{
    assert forall|i: int, j: int|
        0 <= i < j < s.len() implies spec_trunc(s[i].key, w2) != spec_trunc(s[j].key, w2) by {
        lemma_trunc_mod(s[i].key, w1, w2);
        lemma_trunc_mod(s[j].key, w1, w2);
        assert(spec_trunc(s[i].key, w1) != spec_trunc(s[j].key, w1));
    }
}

/// Whether all entries stay pairwise distinct at width `w`.
fn all_distinct(entries: &Vec<KeyEntry>, w: usize) -> (r: bool)
    requires
        valid_width(w as nat),
    ensures
        r <==> distinct_at(entries@, w as nat),
{
    let n = entries.len();
    let mut i: usize = 0;
    while i < n
        invariant
            n == entries@.len(),
            i <= n,
            valid_width(w as nat),
            forall|a: int, b: int|
                0 <= a < b < n && a < i ==> spec_trunc(entries@[a].key, w as nat) != spec_trunc(
                    entries@[b].key,
                    w as nat,
                ),
        decreases n - i,
    {
        let ti = trunc_key(entries[i].key, w);
        let mut j: usize = i + 1;
        while j < n
            invariant
                n == entries@.len(),
                i < n,
                i < j <= n,
                valid_width(w as nat),
                (ti as nat) == spec_trunc(entries@[i as int].key, w as nat),
                forall|b: int|
                    i < b < j ==> spec_trunc(entries@[i as int].key, w as nat) != spec_trunc(
                        entries@[b].key,
                        w as nat,
                    ),
            decreases n - j,
        {
            if trunc_key(entries[j].key, w) == ti {
                return false;
            }
            j = j + 1;
        }
        i = i + 1;
    }
    true
}

} // verus!
