//! Nibble paths: user byte keys are split into 4-bit values (0..=15),
//! one per byte, high nibble first.

use vstd::prelude::*;

verus! {

/// The nibble expansion of a byte sequence: each byte becomes two
/// entries, its high 4 bits first, then its low 4 bits.
pub open spec fn spec_nibbles(bytes: Seq<u8>) -> Seq<u8> {
    Seq::new(2 * bytes.len(), |i: int| if i % 2 == 0 {
        bytes[i / 2] / 16
    } else {
        bytes[i / 2] % 16
    })
}

/// Every entry of a nibble expansion is a valid nibble.
pub open spec fn spec_is_nibbles(s: Seq<u8>) -> bool {
    forall|i: int| 0 <= i < s.len() ==> s[i] < 16
}

/// Length of the longest common prefix of two sequences.
pub open spec fn spec_common_prefix(a: Seq<u8>, b: Seq<u8>) -> nat
    decreases a.len(),
{
    if a.len() == 0 || b.len() == 0 || a[0] != b[0] {
        0
    } else {
        1 + spec_common_prefix(a.skip(1), b.skip(1))
    }
}

/// The common prefix length is bounded by both lengths, the prefixes
/// agree below it, and the sequences differ at it when both go on.
pub proof fn lemma_common_prefix(a: Seq<u8>, b: Seq<u8>)
    ensures
        spec_common_prefix(a, b) <= a.len(),
        spec_common_prefix(a, b) <= b.len(),
        forall|i: int| 0 <= i < spec_common_prefix(a, b) ==> a[i] == b[i],
        spec_common_prefix(a, b) < a.len() && spec_common_prefix(a, b) < b.len()
            ==> a[spec_common_prefix(a, b) as int] != b[spec_common_prefix(a, b) as int],
    decreases a.len(),
{
    if a.len() == 0 || b.len() == 0 || a[0] != b[0] {
    } else {
        lemma_common_prefix(a.skip(1), b.skip(1));
        assert forall|i: int| 0 <= i < spec_common_prefix(a, b) implies a[i] == b[i] by {
            if i > 0 {
                assert(a.skip(1)[i - 1] == b.skip(1)[i - 1]);
            }
        }
    }
}

/// Converts a byte key to its nibble path: `n` bytes become `2n`
/// nibbles, high nibble first.
pub fn bytes_to_nibbles(bytes: &[u8]) -> (r: Vec<u8>)
    ensures
        r@ == spec_nibbles(bytes@),
        spec_is_nibbles(r@),
{
    let n = bytes.len();
    let mut out: Vec<u8> = Vec::new();
    let mut i: usize = 0;
    while i < n
        invariant
            n == bytes@.len(),
            i <= n,
            out@ == spec_nibbles(bytes@.take(i as int)),
        decreases n - i,
    {
        let b = bytes[i];
        out.push(b / 16);
        out.push(b % 16);
        i = i + 1;
        assert(out@ =~= spec_nibbles(bytes@.take(i as int)));
    }
    assert(bytes@.take(n as int) =~= bytes@);
    assert(spec_is_nibbles(out@));
    out
}

/// Length of the longest common prefix of two nibble slices.
pub fn common_prefix_len(a: &[u8], b: &[u8]) -> (r: usize)
    ensures
        r == spec_common_prefix(a@, b@),
{
    let mut i: usize = 0;
    while i < a.len() && i < b.len() && a[i] == b[i]
        invariant
            i <= a@.len(),
            i <= b@.len(),
            forall|j: int| 0 <= j < i ==> a@[j] == b@[j],
            spec_common_prefix(a@, b@) >= i,
        decreases a@.len() - i,
    {
        i = i + 1;
        proof {
            lemma_common_prefix_step(a@, b@, i as nat);
        }
    }
    proof {
        lemma_common_prefix(a@, b@);
        if i < a@.len() && i < b@.len() {
            assert(a@[i as int] != b@[i as int]);
            if spec_common_prefix(a@, b@) > i {
                assert(a@[i as int] == b@[i as int]);
            }
        }
    }
    i
}

/// If the first `k` entries agree and both sequences have at least `k`
/// entries, the common prefix is at least `k`.
proof fn lemma_common_prefix_step(a: Seq<u8>, b: Seq<u8>, k: nat)
    requires
        k <= a.len(),
        k <= b.len(),
        forall|j: int| 0 <= j < k ==> a[j] == b[j],
    ensures
        spec_common_prefix(a, b) >= k,
    decreases k,
{
    if k > 0 {
        assert(a[0] == b[0]);
        lemma_common_prefix_step(a.skip(1), b.skip(1), (k - 1) as nat);
    }
}

/// Nibble expansion is injective: equal nibble paths come only from
/// equal byte keys.
pub proof fn lemma_nibbles_injective(a: Seq<u8>, b: Seq<u8>)
    requires
        spec_nibbles(a) == spec_nibbles(b),
    ensures
        a == b,
{
    assert(spec_nibbles(a).len() == 2 * a.len());
    assert(spec_nibbles(b).len() == 2 * b.len());
    assert(a.len() == b.len());
    assert forall|i: int| 0 <= i < a.len() implies a[i] == b[i] by {
        assert((2 * i) / 2 == i && (2 * i) % 2 == 0) by (nonlinear_arith);
        assert((2 * i + 1) / 2 == i && (2 * i + 1) % 2 == 1) by (nonlinear_arith);
        assert(0 <= 2 * i < spec_nibbles(a).len());
        assert(0 <= 2 * i + 1 < spec_nibbles(a).len());
        assert(spec_nibbles(a)[2 * i] == a[i] / 16);
        assert(spec_nibbles(b)[2 * i] == b[i] / 16);
        assert(spec_nibbles(a)[2 * i + 1] == a[i] % 16);
        assert(spec_nibbles(b)[2 * i + 1] == b[i] % 16);
        assert(a[i] / 16 == b[i] / 16);
        assert(a[i] % 16 == b[i] % 16);
        assert(a[i] == 16 * (a[i] / 16) + a[i] % 16) by (nonlinear_arith);
        assert(b[i] == 16 * (b[i] / 16) + b[i] % 16) by (nonlinear_arith);
    }
    assert(a =~= b);
}

} // verus!
