//! Canonical byte codec primitives: fixed-width little-endian unsigned
//! integers and length-prefixed byte strings. The same codec backs both
//! the signing payloads and the trie node encodings, so the two can
//! never drift apart.

use vstd::prelude::*;
use vstd::arithmetic::div_mod::lemma_div_denominator;

verus! {

/// 256 raised to `w`: the number of values a `w`-byte field can hold.
pub open spec fn pow256(w: nat) -> nat
    decreases w,
{
    if w == 0 {
        1
    } else {
        256 * pow256((w - 1) as nat)
    }
}

/// The `width` low-order bytes of `n`, least significant first.
pub open spec fn spec_le_bytes(n: nat, width: nat) -> Seq<u8>
    decreases width,
{
    if width == 0 {
        Seq::empty()
    } else {
        seq![(n % 256) as u8] + spec_le_bytes(n / 256, (width - 1) as nat)
    }
}

/// The unsigned value of a little-endian byte string.
pub open spec fn spec_le_val(s: Seq<u8>) -> nat
    decreases s.len(),
{
    if s.len() == 0 {
        0
    } else {
        (s[0] + 256 * spec_le_val(s.skip(1))) as nat
    }
}

pub proof fn lemma_le_bytes_len(n: nat, width: nat)
    ensures
        spec_le_bytes(n, width).len() == width,
    decreases width,
{
    if width > 0 {
        lemma_le_bytes_len(n / 256, (width - 1) as nat);
    }
}

pub proof fn lemma_le_val_bound(s: Seq<u8>)
    ensures
        spec_le_val(s) < pow256(s.len()),
    decreases s.len(),
{
    if s.len() > 0 {
        lemma_le_val_bound(s.skip(1));
    }
}

/// Decoding the little-endian bytes of `n` gives back `n` whenever `n`
/// fits in the width.
pub proof fn lemma_le_roundtrip(n: nat, width: nat)
    requires
        n < pow256(width),
    ensures
        spec_le_val(spec_le_bytes(n, width)) == n,
    decreases width,
{
    if width > 0 {
        let rest = spec_le_bytes(n / 256, (width - 1) as nat);
        assert(spec_le_bytes(n, width).skip(1) =~= rest);
        assert(n / 256 < pow256((width - 1) as nat)) by (nonlinear_arith)
            requires
                n < 256 * pow256((width - 1) as nat),
        ;
        lemma_le_roundtrip(n / 256, (width - 1) as nat);
        assert(n == n % 256 + 256 * (n / 256)) by (nonlinear_arith);
    }
}

/// One more byte on the right extends a little-endian encoding.
proof fn lemma_le_bytes_snoc(n: nat, width: nat)
    ensures
        spec_le_bytes(n, width + 1)
            == spec_le_bytes(n, width) + seq![((n / pow256(width)) % 256) as u8],
    decreases width,
{
    if width == 0 {
        reveal_with_fuel(spec_le_bytes, 3);
        assert(spec_le_bytes(n, 1) =~= seq![(n % 256) as u8]);
        assert(spec_le_bytes(n, 0) + seq![((n / 1) % 256) as u8] =~= seq![(n % 256) as u8]);
    } else {
        lemma_le_bytes_snoc(n / 256, (width - 1) as nat);
        lemma_pow256_pos((width - 1) as nat);
        lemma_div_denominator(n as int, 256, pow256((width - 1) as nat) as int);
        assert(spec_le_bytes(n, width + 1) =~= spec_le_bytes(n, width) + seq![
            ((n / pow256(width)) % 256) as u8,
        ]);
    }
}

pub proof fn lemma_pow256_pos(w: nat)
    ensures
        pow256(w) >= 1,
    decreases w,
{
    if w > 0 {
        lemma_pow256_pos((w - 1) as nat);
    }
}

pub proof fn lemma_pow256_16()
    ensures
        pow256(4) == 0x1_0000_0000,
        pow256(8) == 0x1_0000_0000_0000_0000,
        pow256(16) == 0x1_0000_0000_0000_0000_0000_0000_0000_0000,
{
    reveal_with_fuel(pow256, 17);
}

/// Appends the `width` low-order bytes of `v`, least significant first.
pub fn push_le(out: &mut Vec<u8>, v: u128, width: usize)
    ensures
        final(out)@ == old(out)@ + spec_le_bytes(v as nat, width as nat),
{
    let mut i: usize = 0;
    let mut n: u128 = v;
    proof {
        lemma_le_bytes_len(v as nat, 0);
        assert(out@ =~= out@ + spec_le_bytes(v as nat, 0));
        vstd::arithmetic::div_mod::lemma_div_basics(v as int);
        assert(pow256(0) == 1);
    }
    while i < width
        invariant
            i <= width,
            out@ == old(out)@ + spec_le_bytes(v as nat, i as nat),
            n as nat == (v as nat) / pow256(i as nat),
        decreases width - i,
    {
        proof {
            lemma_le_bytes_snoc(v as nat, i as nat);
            lemma_pow256_pos(i as nat);
            lemma_div_denominator(v as int, pow256(i as nat) as int, 256);
            assert(pow256((i + 1) as nat) == pow256(i as nat) * 256) by (nonlinear_arith)
                requires
                    pow256((i + 1) as nat) == 256 * pow256(i as nat),
            ;
        }
        out.push((n % 256) as u8);
        n = n / 256;
        i = i + 1;
    }
}

/// Reads `width` bytes at `pos` as a little-endian unsigned value.
pub fn read_le(b: &[u8], pos: usize, width: usize) -> (r: u128)
    requires
        pos + width <= b@.len(),
        width <= 16,
    ensures
        r as nat == spec_le_val(b@.subrange(pos as int, pos + width)),
{
    let blen = b.len();
    let mut j: usize = width;
    let mut acc: u128 = 0;
    proof {
        assert(b@.subrange(pos + width, pos + width) =~= Seq::<u8>::empty());
    }
    while j > 0
        invariant
            j <= width,
            width <= 16,
            blen == b@.len(),
            pos + width <= blen,
            acc as nat == spec_le_val(b@.subrange(pos + j, pos + width)),
        decreases j,
    {
        let sub = Ghost(b@.subrange(pos + j - 1, pos + width));
        proof {
            assert(sub@.skip(1) =~= b@.subrange(pos + j, pos + width));
            lemma_le_val_bound(b@.subrange(pos + j, pos + width));
            lemma_pow256_16();
            lemma_pow256_le(((width - j) + 1) as nat, 16);
            assert(256 * pow256((width - j) as nat) == pow256(((width - j) + 1) as nat));
            assert((acc as nat) * 256 + 255 < 256 * pow256((width - j) as nat))
                by (nonlinear_arith)
                requires
                    (acc as nat) < pow256((width - j) as nat),
            ;
        }
        acc = acc * 256 + (b[pos + (j - 1)] as u128);
        j = j - 1;
    }
    acc
}

/// `pow256` grows with the width.
pub proof fn lemma_pow256_le(a: nat, b: nat)
    requires
        a <= b,
    ensures
        pow256(a) <= pow256(b),
    decreases b,
{
    if a < b && b > 0 {
        lemma_pow256_le(a, (b - 1) as nat);
        assert(pow256(b) == 256 * pow256((b - 1) as nat));
    }
}

/// Appends every byte of `src` to `out`.
pub fn push_bytes(out: &mut Vec<u8>, src: &[u8])
    ensures
        final(out)@ == old(out)@ + src@,
{
    let n = src.len();
    let mut i: usize = 0;
    proof {
        assert(out@ =~= out@ + src@.take(0));
    }
    while i < n
        invariant
            i <= n,
            n == src@.len(),
            out@ == old(out)@ + src@.take(i as int),
        decreases n - i,
    {
        out.push(src[i]);
        i = i + 1;
        proof {
            assert(old(out)@ + src@.take(i as int) =~= (old(out)@ + src@.take(i - 1)).push(
                src@[i - 1],
            ));
        }
    }
    proof {
        assert(src@.take(n as int) =~= src@);
    }
}

} // verus!
