//! Bit-reversal permutation kernels.
//!
//! A bit-reversal kernel permutes the complex buffer in place so that the
//! element at index `i` ends up at the index whose bits are those of `i`
//! reversed.  The swapping variant walks the index table and exchanges the
//! pairs where `i` is below its reversal; the gathering variants copy the
//! whole buffer through the work area, exploiting regularities of the index
//! table to move several consecutive source elements per step.

use crate::bits::{
    build_rev_table, lemma_rev_bits_bound, lemma_rev_bits_involution, rev_bits, MAX_BITS,
};
use crate::complex::{complex_read, complex_write};
use crate::kernel::{Kernel, KernelShape};
use crate::Num;
use vstd::arithmetic::div_mod::{lemma_fundamental_div_mod, lemma_fundamental_div_mod_converse};
use vstd::arithmetic::power2::pow2;
use vstd::prelude::*;

verus! {

/// The bit-reversal index table over `2^nbits` entries, as a sequence.
pub open spec fn rev_table_spec(nbits: nat) -> Seq<usize> {
    Seq::new(pow2(nbits), |i: int| rev_bits(i as nat, nbits) as usize)
}

/// The interleaved complex sequence permuted by an index table: the complex
/// element at `table[j]` moves to position `j`.
pub open spec fn permute_complex<T>(s: Seq<T>, table: Seq<usize>) -> Seq<T> {
    Seq::new(s.len(), |j: int| s[2 * (table[j / 2] as int) + (j % 2)])
}

/// Permuting by the bit-reversal table twice is the identity: the
/// bit-reversal kernel is its own inverse.
pub proof fn lemma_bit_reversal_twice_identity<T>(s: Seq<T>, nbits: nat)
    requires
        s.len() == 2 * pow2(nbits),
        nbits <= MAX_BITS,
    ensures
        permute_complex(permute_complex(s, rev_table_spec(nbits)), rev_table_spec(nbits)) == s,
{
    let t = rev_table_spec(nbits);
    let p1 = permute_complex(s, t);
    let p2 = permute_complex(p1, t);
    crate::bits::lemma_pow2_le_max(nbits);
    assert forall|j: int| 0 <= j < s.len() implies p2[j] == s[j] by {
        let d = j / 2;
        let b = j % 2;
        assert(0 <= d < pow2(nbits));
        lemma_rev_bits_bound(d as nat, nbits);
        let r = rev_bits(d as nat, nbits);
        assert(t[d] == r as usize);
        let jj = 2 * (r as int) + b;
        assert(jj / 2 == r && jj % 2 == b) by {
            lemma_fundamental_div_mod_converse(jj, 2, r as int, b);
        }
        assert(p2[j] == p1[jj]);
        assert(0 <= jj < s.len());
        assert(p1[jj] == s[2 * (t[r as int] as int) + b]);
        lemma_rev_bits_involution(d as nat, nbits);
        assert(t[r as int] == d as usize);
        assert(j == 2 * d + b) by {
            lemma_fundamental_div_mod_converse(j, 2, d, b);
        }
    }
    assert(p2 =~= s);
}

/// The smaller of two integers.
pub open spec fn min2(a: int, b: int) -> int {
    if a < b {
        a
    } else {
        b
    }
}

/// The value scalar `jj` of the buffer holds after the swapping pass has
/// finished the first `i` complex indices: its pair has been exchanged
/// exactly when the smaller end of the pair lies below `i`.
pub open spec fn swap_progress<T>(orig: Seq<T>, nb: nat, i: int, jj: int) -> T {
    let d = jj / 2;
    let b = jj % 2;
    if min2(d, rev_bits(d as nat, nb) as int) < i {
        orig[2 * (rev_bits(d as nat, nb) as int) + b]
    } else {
        orig[jj]
    }
}

/// The in-place swapping bit-reversal kernel: its table is the full
/// bit-reversal table, and only the pairs where the index is below its
/// reversal are exchanged.
pub struct BitRevSwapKernel {
    /// Bit width of the indices; the buffer holds `2^nbits` complex
    /// elements.
    pub nbits: usize,

    /// The full bit-reversal index table.
    pub table: Vec<usize>,
}

impl BitRevSwapKernel {
    /// The table is exactly the bit-reversal table of width `nbits`.
    pub open spec fn wf(self) -> bool {
        &&& self.nbits <= MAX_BITS
        &&& self.table@ == rev_table_spec(self.nbits as nat)
    }

    /// Applies the permutation by swapping the pairs `(i, rev(i))` with
    /// `i < rev(i)`.
    pub fn transform<T: Num>(&self, coefs: &mut Vec<T>)
        requires
            self.wf(),
            old(coefs)@.len() == 2 * self.table@.len(),
        ensures
            final(coefs)@.len() == old(coefs)@.len(),
            final(coefs)@ == permute_complex(old(coefs)@, self.table@),
    {
        let m = self.table.len();
        let ghost nb = self.nbits as nat;
        let ghost orig = coefs@;
        let mut i: usize = 0;
        while i < m
            invariant
                self.wf(),
                i <= m,
                m == self.table@.len(),
                coefs@.len() == 2 * m,
                orig.len() == 2 * m,
                nb == self.nbits as nat,
                m == pow2(nb),
                forall|jj: int|
                    0 <= jj < 2 * m ==> #[trigger] coefs@[jj] == swap_progress(
                        orig,
                        nb,
                        i as int,
                        jj,
                    ),
            decreases m - i,
        {
            let j = self.table[i];
            proof {
                crate::bits::lemma_pow2_le_max(nb);
                assert(self.table@[i as int] == rev_bits(i as nat, nb) as usize);
                lemma_rev_bits_bound(i as nat, nb);
                lemma_rev_bits_involution(i as nat, nb);
                assert(j as int == rev_bits(i as nat, nb) as int);
            }
            if i < j {
                let a = complex_read(coefs, i);
                let c = complex_read(coefs, j);
                complex_write(coefs, i, c);
                complex_write(coefs, j, a);
                proof {
                    assert forall|jj: int| 0 <= jj < 2 * m implies #[trigger] coefs@[jj]
                        == swap_progress(orig, nb, i + 1, jj) by {
                        let d = jj / 2;
                        let b = jj % 2;
                        assert(jj == 2 * d + b) by {
                            lemma_fundamental_div_mod(jj, 2);
                        }
                        let rp = rev_bits(d as nat, nb) as int;
                        assert(2 * (i as int) / 2 == i && 2 * (i as int) % 2 == 0 && (2 * (
                        i as int) + 1) / 2 == i && (2 * (i as int) + 1) % 2 == 1) by {
                            lemma_fundamental_div_mod_converse(2 * (i as int), 2, i as int, 0);
                            lemma_fundamental_div_mod_converse(2 * (i as int) + 1, 2, i as int, 1);
                        }
                        assert(2 * (j as int) / 2 == j && 2 * (j as int) % 2 == 0 && (2 * (
                        j as int) + 1) / 2 == j && (2 * (j as int) + 1) % 2 == 1) by {
                            lemma_fundamental_div_mod_converse(2 * (j as int), 2, j as int, 0);
                            lemma_fundamental_div_mod_converse(2 * (j as int) + 1, 2, j as int, 1);
                        }
                        if d == i as int {
                            assert(rp == j as int);
                            assert(min2(d, rp) == i as int);
                            assert(coefs@[jj] == if b == 0 {
                                c.re
                            } else {
                                c.im
                            });
                            assert(swap_progress(orig, nb, i as int, 2 * (j as int) + b) == orig[2
                                * (j as int) + b]);
                        } else if d == j as int {
                            lemma_rev_bits_involution(d as nat, nb);
                            assert(rp == i as int);
                            assert(coefs@[jj] == if b == 0 {
                                a.re
                            } else {
                                a.im
                            });
                            assert(swap_progress(orig, nb, i as int, 2 * (i as int) + b) == orig[2
                                * (i as int) + b]);
                        } else {
                            assert(rp != i as int) by {
                                if rp == i as int && 0 <= d < m {
                                    lemma_rev_bits_involution(d as nat, nb);
                                }
                            }
                            assert(coefs@[jj] == swap_progress(orig, nb, i as int, jj));
                            assert(min2(d, rp) != i as int);
                        }
                    }
                }
            } else {
                proof {
                    assert forall|jj: int| 0 <= jj < 2 * m implies #[trigger] coefs@[jj]
                        == swap_progress(orig, nb, i + 1, jj) by {
                        let d = jj / 2;
                        let b = jj % 2;
                        assert(jj == 2 * d + b) by {
                            lemma_fundamental_div_mod(jj, 2);
                        }
                        let rp = rev_bits(d as nat, nb) as int;
                        assert(coefs@[jj] == swap_progress(orig, nb, i as int, jj));
                        if d == i as int {
                            assert(rp == j as int);
                            if rp == d {
                                assert(swap_progress(orig, nb, i + 1, jj) == orig[2 * rp + b]);
                                assert(orig[2 * rp + b] == orig[jj]);
                            } else {
                                assert(rp < d);
                                assert(min2(d, rp) < i as int);
                            }
                        } else if rp == i as int {
                            lemma_rev_bits_involution(d as nat, nb);
                            assert(d == j as int);
                            assert(d < i as int);
                            assert(min2(d, rp) < i as int);
                        } else {
                            assert(min2(d, rp) != i as int);
                        }
                    }
                }
            }
            i = i + 1;
        }
        proof {
            let t = self.table@;
            crate::bits::lemma_pow2_le_max(nb);
            assert forall|jj: int| 0 <= jj < coefs@.len() implies coefs@[jj] == permute_complex(
                orig,
                t,
            )[jj] by {
                let d = jj / 2;
                let b = jj % 2;
                assert(0 <= d < m);
                lemma_rev_bits_bound(d as nat, nb);
                let rp = rev_bits(d as nat, nb) as int;
                assert(min2(d, rp) < m);
                assert(coefs@[jj] == swap_progress(orig, nb, m as int, jj));
                assert(t[d] == rev_bits(d as nat, nb) as usize);
                assert(t[d] as int == rp);
            }
            assert(coefs@ =~= permute_complex(orig, t));
        }
    }
}

/// Builds the scalar in-place bit-reversal kernel for a transform of
/// `2^nbits` complex elements.
pub fn new_bit_reversal_kernel<T: Num>(nbits: usize) -> (r: Kernel<T>)
    requires
        nbits <= MAX_BITS,
    ensures
        r.wf(),
        r.is_bit_reversal(),
        r.buf_len() == 2 * pow2(nbits as nat),
        r.wa_len() == 0,
        r.bitrev_table() == rev_table_spec(nbits as nat),
        r.shape() == KernelShape::BitReversalSwap(pow2(nbits as nat) as usize),
{
    let table = build_rev_table(nbits);
    proof {
        assert(table@ =~= rev_table_spec(nbits as nat));
    }
    Kernel::BitRevSwap(BitRevSwapKernel { nbits, table })
}

/// The regularity a gathering kernel with block width `block` relies on:
/// the table splits into `block` runs, and entry `i + q * (m / block)` is
/// `table[i] + q`.  Consecutive source elements then feed `block` strided
/// destinations, so one wide load serves `block` positions.
pub open spec fn block_paired(table: Seq<usize>, block: int) -> bool {
    forall|i: int, q: int|
        0 <= i < table.len() as int / block && 0 <= q < block ==> #[trigger] table[i + q * (table.len() as int
            / block)] == table[i] + q
}

/// A block width of one demands nothing of the table beyond its bounds.
pub proof fn lemma_block_paired_one(t: Seq<usize>)
    ensures
        block_paired(t, 1),
{
    assert forall|i: int, q: int|
        0 <= i < t.len() as int / 1 && 0 <= q < 1 implies #[trigger] t[i + q * (t.len() as int
        / 1)] == t[i] + q by {
        assert(q == 0);
        assert(i + 0 * (t.len() as int / 1) == i);
    }
}

/// The gathering bit-reversal kernel: copies every complex element through
/// the work area to its permuted position, `block` destinations per
/// iteration, then copies the work area back.
pub struct BitRevGatherKernel {
    /// How many destination positions one iteration serves.
    pub block: usize,

    /// The index table; position `j` receives the element at `table[j]`.
    pub table: Vec<usize>,
}

impl BitRevGatherKernel {
    /// Table entries are in bounds, the length is divisible by the block
    /// width, and the block regularity holds.
    pub open spec fn wf(self) -> bool {
        &&& (self.block == 1 || self.block == 2 || self.block == 4)
        &&& self.table@.len() as int % (self.block as int) == 0
        &&& self.table@.len() <= 0x4000_0000
        &&& (forall|j: int| 0 <= j < self.table@.len() ==> #[trigger] self.table@[j]
            < self.table@.len())
        &&& block_paired(self.table@, self.block as int)
    }

    /// Applies the permutation: gathers into the work area, then copies
    /// back.  The result depends only on the coefficients, never on what
    /// the work area held before the call.
    pub fn transform<T: Num>(&self, coefs: &mut Vec<T>, work: &mut Vec<T>)
        requires
            self.wf(),
            old(coefs)@.len() == 2 * self.table@.len(),
            old(work)@.len() >= 2 * self.table@.len(),
        ensures
            final(coefs)@.len() == old(coefs)@.len(),
            final(work)@.len() == old(work)@.len(),
            final(coefs)@ == permute_complex(old(coefs)@, self.table@),
    {
        let m = self.table.len();
        let block = self.block;
        let mb = m / block;
        let ghost orig = coefs@;
        let ghost t = self.table@;
        proof {
            assert(m as int == (mb as int) * (block as int)) by {
                lemma_fundamental_div_mod(m as int, block as int);
            }
            assert(mb <= m) by (nonlinear_arith)
                requires
                    m as int == (mb as int) * (block as int),
                    block >= 1,
                    mb >= 0,
            {}
        }
        let mut i: usize = 0;
        while i < mb
            invariant
                self.wf(),
                i <= mb,
                mb <= m,
                m == self.table@.len(),
                t == self.table@,
                mb as int == m as int / block as int,
                m as int == (mb as int) * (block as int),
                block == self.block,
                coefs@ == orig,
                orig.len() == 2 * m,
                work@.len() >= 2 * m,
                work@.len() == old(work)@.len(),
                forall|jj: int|
                    0 <= jj < 2 * m && (jj / 2) % (mb as int) < i ==> #[trigger] work@[jj]
                        == orig[2 * (t[jj / 2] as int) + jj % 2],
            decreases mb - i,
        {
            let src = self.table[i];
            let mut q: usize = 0;
            while q < block
                invariant
                    self.wf(),
                    i < mb,
                    mb <= m,
                    q <= block,
                    m == self.table@.len(),
                    t == self.table@,
                    mb as int == m as int / block as int,
                    m as int == (mb as int) * (block as int),
                    block == self.block,
                    src == t[i as int],
                    coefs@ == orig,
                    orig.len() == 2 * m,
                    work@.len() >= 2 * m,
                    work@.len() == old(work)@.len(),
                    forall|jj: int|
                        0 <= jj < 2 * m && ((jj / 2) % (mb as int) < i || ((jj / 2) % (mb as int)
                            == i && (jj / 2) / (mb as int) < q)) ==> #[trigger] work@[jj] == orig[2
                            * (t[jj / 2] as int) + jj % 2],
                decreases block - q,
            {
                proof {
                    assert(mb >= 1);
                    assert(i + q * mb < m) by (nonlinear_arith)
                        requires
                            i < mb,
                            q < block,
                            m as int == (mb as int) * (block as int),
                            mb >= 1,
                            block >= 1,
                    {}
                }
                let dst = i + q * mb;
                proof {
                    assert(dst as int % (mb as int) == i && dst as int / (mb as int) == q) by {
                        lemma_fundamental_div_mod_converse(
                            dst as int,
                            mb as int,
                            q as int,
                            i as int,
                        );
                    }
                    assert(t[dst as int] == t[i as int] + q) by {
                        assert(block_paired(t, block as int));
                        assert(t[i as int + (q as int) * (t.len() as int / (block as int))] == t[i as int]
                            + q);
                    }
                    assert(t[dst as int] < m);
                    assert(src + q < m);
                }
                let v = complex_read(coefs, src + q);
                complex_write(work, dst, v);
                proof {
                    assert forall|jj: int|
                        0 <= jj < 2 * m && ((jj / 2) % (mb as int) < i || ((jj / 2) % (mb as int)
                            == i && (jj / 2) / (mb as int) < q + 1)) implies #[trigger] work@[jj]
                        == orig[2 * (t[jj / 2] as int) + jj % 2] by {
                        let d = jj / 2;
                        let b = jj % 2;
                        assert(jj == 2 * d + b) by {
                            lemma_fundamental_div_mod(jj, 2);
                        }
                        if d == dst as int {
                            assert(t[d] == src + q);
                            assert(work@[2 * (dst as int)] == v.re && work@[2 * (dst as int) + 1]
                                == v.im);
                            assert(v.re == orig[2 * (src + q) as int] && v.im == orig[2 * (src
                                + q) as int + 1]);
                        } else {
                            assert(jj != 2 * (dst as int) && jj != 2 * (dst as int) + 1);
                            assert(d % (mb as int) < i || (d % (mb as int) == i && d / (mb as int)
                                < q)) by {
                                if d % (mb as int) == i && d / (mb as int) == q as int {
                                    lemma_fundamental_div_mod(d, mb as int);
                                    assert(d == (mb as int) * q + i);
                                    assert((mb as int) * (q as int) == (q as int) * (
                                    mb as int)) by (nonlinear_arith) {}
                                    assert(d == dst as int);
                                }
                            }
                        }
                    }
                }
                q = q + 1;
            }
            proof {
                assert forall|jj: int| 0 <= jj < 2 * m && (jj / 2) % (mb as int) < i
                    + 1 implies #[trigger] work@[jj] == orig[2 * (t[jj / 2] as int) + jj % 2] by {
                    let d = jj / 2;
                    assert(0 <= d < m);
                    assert(d / (mb as int) < block) by (nonlinear_arith)
                        requires
                            0 <= d < m,
                            m as int == (mb as int) * (block as int),
                            mb >= 1,
                            block >= 1,
                    {}
                }
            }
            i = i + 1;
        }
        let n = 2 * m;
        let mut j: usize = 0;
        while j < n
            invariant
                j <= n,
                n == 2 * m,
                m == self.table@.len(),
                t == self.table@,
                mb as int == m as int / block as int,
                m as int == (mb as int) * (block as int),
                mb <= m,
                block == self.block,
                self.wf(),
                coefs@.len() == 2 * m,
                orig.len() == 2 * m,
                work@.len() >= 2 * m,
                work@.len() == old(work)@.len(),
                forall|jj: int|
                    0 <= jj < 2 * m && (jj / 2) % (mb as int) < mb ==> #[trigger] work@[jj]
                        == orig[2 * (t[jj / 2] as int) + jj % 2],
                forall|jj: int| 0 <= jj < j ==> #[trigger] coefs@[jj] == work@[jj],
                forall|jj: int| j <= jj < 2 * m ==> #[trigger] coefs@[jj] == orig[jj],
            decreases n - j,
        {
            let v = work[j];
            coefs[j] = v;
            j = j + 1;
        }
        proof {
            assert forall|jj: int| 0 <= jj < coefs@.len() implies coefs@[jj] == permute_complex(
                orig,
                t,
            )[jj] by {
                let d = jj / 2;
                let b = jj % 2;
                assert(0 <= d < m);
                assert(d % (mb as int) < mb) by {
                    assert(mb >= 1);
                }
                assert(coefs@[jj] == work@[jj]);
                assert(jj == 2 * d + b) by {
                    lemma_fundamental_div_mod(jj, 2);
                }
            }
            assert(coefs@ =~= permute_complex(orig, t));
        }
    }
}

} // verus!
