//! Bit arithmetic for the bit-reversal permutation: powers of two and the
//! reversal of an index within a fixed bit width.

use vstd::prelude::*;
use vstd::arithmetic::power2::{pow2, lemma_pow2_unfold, lemma_pow2_pos, lemma2_to64};

verus! {

/// Largest supported complex transform length, as a number of complex
/// elements.  Every index computed by a kernel stays below twice this bound,
/// so index arithmetic cannot overflow on any platform.
pub const MAX_SIZE: usize = 0x100000;

/// Number of bits needed to index `MAX_SIZE` complex elements.
pub const MAX_BITS: usize = 20;

/// The value of `i` with its low `nbits` bits written in reverse order.
/// Bits of `i` at position `nbits` and above are dropped.
pub open spec fn rev_bits(i: nat, nbits: nat) -> nat
    decreases nbits,
{
    if nbits == 0 {
        0
    } else {
        (i % 2) * pow2((nbits - 1) as nat) + rev_bits(i / 2, (nbits - 1) as nat)
    }
}

/// A reversed index fits in the same bit width.
pub proof fn lemma_rev_bits_bound(i: nat, nbits: nat)
    ensures
        rev_bits(i, nbits) < pow2(nbits),
    decreases nbits,
{
    if nbits == 0 {
        assert(pow2(0) == 1) by {
            lemma2_to64();
        }
    } else {
        lemma_rev_bits_bound(i / 2, (nbits - 1) as nat);
        lemma_pow2_unfold(nbits);
        let p = pow2((nbits - 1) as nat);
        let c = i % 2;
        assert(c * p + rev_bits(i / 2, (nbits - 1) as nat) < 2 * p) by (nonlinear_arith)
            requires
                c < 2,
                c >= 0,
                p > 0,
                rev_bits(i / 2, (nbits - 1) as nat) < p,
        {}
    }
}

/// Reversing after placing one extra bit `b` on top of an `nbits`-wide value
/// shifts the old reversal up by one and puts `b` at the bottom.
proof fn lemma_rev_bits_append_high(r: nat, b: nat, nbits: nat)
    requires
        r < pow2(nbits),
        b < 2,
    ensures
        rev_bits(b * pow2(nbits) + r, nbits + 1) == 2 * rev_bits(r, nbits) + b,
    decreases nbits,
{
    if nbits == 0 {
        assert(pow2(0) == 1) by {
            lemma2_to64();
        }
        assert(rev_bits(b * 1 + 0, 1) == (b % 2) * pow2(0) + rev_bits(b / 2, 0));
    } else {
        let x = b * pow2(nbits) + r;
        lemma_pow2_unfold(nbits);
        assert(pow2(nbits) == 2 * pow2((nbits - 1) as nat));
        let p = pow2((nbits - 1) as nat);
        assert(x == 2 * (b * p) + r);
        assert(x % 2 == r % 2 && x / 2 == b * p + r / 2) by (nonlinear_arith)
            requires
                x == 2 * (b * p) + r,
                r >= 0,
                b >= 0,
                p > 0,
        {}
        assert(r / 2 < p) by (nonlinear_arith)
            requires
                r < 2 * p,
                r >= 0,
                p > 0,
        {}
        lemma_rev_bits_append_high(r / 2, b, (nbits - 1) as nat);
        assert(rev_bits(x, nbits + 1) == (x % 2) * pow2(nbits) + rev_bits(x / 2, nbits));
        assert(rev_bits(x / 2, nbits) == 2 * rev_bits(r / 2, (nbits - 1) as nat) + b);
        assert(rev_bits(r, nbits) == (r % 2) * p + rev_bits(r / 2, (nbits - 1) as nat));
        let c = r % 2;
        assert(c * (2 * p) == 2 * (c * p)) by (nonlinear_arith) {}
        assert(rev_bits(x, nbits + 1) == 2 * (c * p) + 2 * rev_bits(r / 2, (nbits - 1) as nat)
            + b);
    }
}

/// Reversing the low `nbits` bits twice is the identity on values that fit
/// in `nbits` bits.
pub proof fn lemma_rev_bits_involution(i: nat, nbits: nat)
    requires
        i < pow2(nbits),
    ensures
        rev_bits(rev_bits(i, nbits), nbits) == i,
    decreases nbits,
{
    if nbits == 0 {
        assert(pow2(0) == 1) by {
            lemma2_to64();
        }
    } else {
        let c = i % 2;
        let q = i / 2;
        lemma_pow2_unfold(nbits);
        let p = pow2((nbits - 1) as nat);
        assert(q < p) by (nonlinear_arith)
            requires
                i < 2 * p,
                i >= 0,
                p > 0,
                q == i / 2,
        {}
        lemma_rev_bits_bound(q, (nbits - 1) as nat);
        assert(rev_bits(i, nbits) == c * p + rev_bits(q, (nbits - 1) as nat));
        lemma_rev_bits_append_high(rev_bits(q, (nbits - 1) as nat), c, (nbits - 1) as nat);
        assert(rev_bits(rev_bits(i, nbits), nbits)
            == 2 * rev_bits(rev_bits(q, (nbits - 1) as nat), (nbits - 1) as nat) + c);
        lemma_rev_bits_involution(q, (nbits - 1) as nat);
        assert(rev_bits(rev_bits(i, nbits), nbits) == 2 * q + c);
        assert(2 * q + c == i) by (nonlinear_arith)
            requires
                c == i % 2,
                q == i / 2,
                i >= 0,
        {}
    }
}

/// `pow2` stays within `MAX_SIZE` for the supported bit widths.
pub proof fn lemma_pow2_le_max(k: nat)
    requires
        k <= MAX_BITS,
    ensures
        pow2(k) <= MAX_SIZE,
        pow2(k) >= 1,
    decreases MAX_BITS - k,
{
    lemma2_to64();
    if k < MAX_BITS {
        lemma_pow2_unfold((k + 1) as nat);
        lemma_pow2_le_max((k + 1) as nat);
        lemma_pow2_pos(k);
    }
}

/// `2^k`, for widths up to `MAX_BITS`.
pub fn pow2_usize(k: usize) -> (r: usize)
    requires
        k <= MAX_BITS,
    ensures
        r == pow2(k as nat),
        1 <= r <= MAX_SIZE,
{
    let mut j: usize = 0;
    let mut r: usize = 1;
    proof {
        assert(pow2(0) == 1) by {
            lemma2_to64();
        }
    }
    while j < k
        invariant
            j <= k,
            k <= MAX_BITS,
            r == pow2(j as nat),
            1 <= r <= MAX_SIZE,
        decreases k - j,
    {
        proof {
            lemma_pow2_unfold((j + 1) as nat);
            lemma_pow2_le_max((j + 1) as nat);
        }
        r = r * 2;
        j = j + 1;
    }
    r
}

/// The value of `i` with its low `nbits` bits reversed.
pub fn reverse_bits(i: usize, nbits: usize) -> (r: usize)
    requires
        nbits <= MAX_BITS,
    ensures
        r == rev_bits(i as nat, nbits as nat),
        r < pow2(nbits as nat),
    decreases nbits,
{
    proof {
        lemma_rev_bits_bound(i as nat, nbits as nat);
        lemma_pow2_le_max(nbits as nat);
    }
    if nbits == 0 {
        0
    } else {
        let rest = reverse_bits(i / 2, nbits - 1);
        let p = pow2_usize(nbits - 1);
        proof {
            lemma_pow2_unfold(nbits as nat);
        }
        (i % 2) * p + rest
    }
}

/// The full bit-reversal index table for a transform of `2^nbits` complex
/// elements: entry `j` holds the index whose bits are those of `j` reversed.
pub fn build_rev_table(nbits: usize) -> (table: Vec<usize>)
    requires
        nbits <= MAX_BITS,
    ensures
        table@.len() == pow2(nbits as nat),
        forall|j: int| 0 <= j < table@.len() ==> table@[j] == rev_bits(j as nat, nbits as nat),
{
    let m = pow2_usize(nbits);
    let mut table: Vec<usize> = Vec::new();
    let mut j: usize = 0;
    while j < m
        invariant
            j <= m,
            nbits <= MAX_BITS,
            m == pow2(nbits as nat),
            table@.len() == j,
            forall|t: int| 0 <= t < j ==> table@[t] == rev_bits(t as nat, nbits as nat),
        decreases m - j,
    {
        let r = reverse_bits(j, nbits);
        table.push(r);
        j = j + 1;
    }
    table
}

} // verus!
