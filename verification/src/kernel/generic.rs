//! The generic radix-R butterfly kernel.
//!
//! Handles any radix and any unit by computing each length-`radix` DFT
//! directly from a precomputed root table, staging the twiddled inputs in
//! the work area.  For a power-of-two radix the within-digit order is the
//! bit reversal of the digit, which keeps a whole plan consistent with the
//! binary bit-reversal permutation; other radices keep natural order.

use crate::bits::{build_rev_table, MAX_BITS, MAX_SIZE};
use crate::complex::{complex_read, complex_write, twiddle, Complex};
use crate::kernel::{
    lemma_butterfly_index_bound, lemma_stage_geometry, Kernel, KernelCreationParams, KernelShape,
    KernelType,
};
use crate::Num;
use vstd::arithmetic::power2::{lemma_pow2_strictly_increases, lemma_pow2_unfold, lemma2_to64, pow2};
use vstd::prelude::*;

verus! {

/// The generic butterfly kernel: works for every well-formed stage.
pub struct GenericKernel<T: Num> {
    /// The stage description.
    pub cparams: KernelCreationParams,

    /// The within-digit order: logical digit `k` maps to offset
    /// `sigma[k]`.  A permutation of `0 .. radix`.
    pub sigma: Vec<usize>,

    /// The radix-th roots of unity, interleaved complex, `radix` entries.
    pub omega: Vec<T>,

    /// The stage twiddle table, interleaved complex: entry `(k - 1) * unit
    /// + u` holds the factor for digit `k` at stride position `u`.
    pub twiddles: Vec<T>,
}

impl<T: Num> GenericKernel<T> {
    /// Tables sized to the stage.
    pub open spec fn wf(self) -> bool {
        &&& self.cparams.wf()
        &&& self.sigma@.len() == self.cparams.radix
        &&& (forall|k: int| 0 <= k < self.sigma@.len() ==> #[trigger] self.sigma@[k]
            < self.cparams.radix)
        &&& self.omega@.len() == 2 * self.cparams.radix
        &&& self.twiddles@.len() == 2 * (self.cparams.radix - 1) * self.cparams.unit
    }

    /// One butterfly stage over the whole buffer: for each group and
    /// stride position, the length-`radix` DFT of the (twiddled) inputs.
    pub fn transform(&self, coefs: &mut Vec<T>, work: &mut Vec<T>)
        requires
            self.wf(),
            old(coefs)@.len() == 2 * self.cparams.size,
            old(work)@.len() >= 2 * self.cparams.radix,
        ensures
            final(coefs)@.len() == old(coefs)@.len(),
            final(work)@.len() == old(work)@.len(),
    {
        let size = self.cparams.size;
        let radix = self.cparams.radix;
        let unit = self.cparams.unit;
        let dit = self.cparams.kernel_type == KernelType::Dit;
        proof {
            lemma_stage_geometry(self.cparams);
        }
        let ru = radix * unit;
        let groups = size / ru;
        let mut g: usize = 0;
        while g < groups
            invariant
                g <= groups,
                self.wf(),
                size == self.cparams.size,
                radix == self.cparams.radix,
                unit == self.cparams.unit,
                ru == radix * unit,
                size as int == (radix as int * unit as int) * groups as int,
                coefs@.len() == 2 * size,
                work@.len() >= 2 * radix,
                work@.len() == old(work)@.len(),
            decreases groups - g,
        {
            let mut u: usize = 0;
            while u < unit
                invariant
                    u <= unit,
                    g < groups,
                    self.wf(),
                    size == self.cparams.size,
                    radix == self.cparams.radix,
                    unit == self.cparams.unit,
                    ru == radix * unit,
                    size as int == (radix as int * unit as int) * groups as int,
                    coefs@.len() == 2 * size,
                    work@.len() >= 2 * radix,
                    work@.len() == old(work)@.len(),
                decreases unit - u,
            {
                proof {
                    lemma_stage_geometry(self.cparams);
                    lemma_butterfly_index_bound(
                        g as int,
                        0,
                        u as int,
                        radix as int,
                        unit as int,
                        groups as int,
                        size as int,
                    );
                }
                let base = g * ru + u;
                // Stage the (twiddled) inputs in the work area.
                let mut k: usize = 0;
                while k < radix
                    invariant
                        k <= radix,
                        u < unit,
                        g < groups,
                        radix <= MAX_SIZE,
                        self.wf(),
                        size == self.cparams.size,
                        radix == self.cparams.radix,
                        unit == self.cparams.unit,
                        ru == radix * unit,
                        base == g * ru + u,
                        size as int == (radix as int * unit as int) * groups as int,
                        coefs@.len() == 2 * size,
                        work@.len() >= 2 * radix,
                        work@.len() == old(work)@.len(),
                    decreases radix - k,
                {
                    let digit = if dit {
                        self.sigma[k]
                    } else {
                        k
                    };
                    proof {
                        lemma_butterfly_index_bound(
                            g as int,
                            digit as int,
                            u as int,
                            radix as int,
                            unit as int,
                            groups as int,
                            size as int,
                        );
                        if k >= 1 {
                            assert((k - 1) * (unit as int) + u < (radix as int - 1) * (
                            unit as int) && (radix as int - 1) * (unit as int) <= radix as int
                                * unit as int && 2 * ((radix as int - 1) * (unit as int)) == 2 * (
                            radix as int - 1) * (unit as int)) by (nonlinear_arith)
                                requires
                                    1 <= k < radix,
                                    0 <= u < unit,
                            {}
                        }
                    }
                    let c = complex_read(coefs, base + digit * unit);
                    let c = if dit && k >= 1 {
                        let ti = (k - 1) * unit + u;
                        let w = Complex::new(self.twiddles[2 * ti], self.twiddles[2 * ti + 1]);
                        c.mul(w)
                    } else {
                        c
                    };
                    complex_write(work, k, c);
                    k = k + 1;
                }
                // Emit each output as a direct DFT over the staged inputs.
                let mut j: usize = 0;
                while j < radix
                    invariant
                        j <= radix,
                        u < unit,
                        g < groups,
                        radix <= MAX_SIZE,
                        self.wf(),
                        size == self.cparams.size,
                        radix == self.cparams.radix,
                        unit == self.cparams.unit,
                        ru == radix * unit,
                        base == g * ru + u,
                        size as int == (radix as int * unit as int) * groups as int,
                        coefs@.len() == 2 * size,
                        work@.len() >= 2 * radix,
                        work@.len() == old(work)@.len(),
                    decreases radix - j,
                {
                    let mut acc = Complex::new(T::zero(), T::zero());
                    let mut t: usize = 0;
                    let mut k2: usize = 0;
                    while k2 < radix
                        invariant
                            k2 <= radix,
                            j < radix,
                            t < radix,
                            radix <= MAX_SIZE,
                            self.wf(),
                            radix == self.cparams.radix,
                            work@.len() >= 2 * radix,
                        decreases radix - k2,
                    {
                        let o = Complex::new(self.omega[2 * t], self.omega[2 * t + 1]);
                        acc = acc.add(complex_read(work, k2).mul(o));
                        t = t + j;
                        if t >= radix {
                            t = t - radix;
                        }
                        k2 = k2 + 1;
                    }
                    let acc = if !dit && j >= 1 {
                        proof {
                            assert((j - 1) * (unit as int) + u < (radix as int - 1) * (
                            unit as int) && (radix as int - 1) * (unit as int) <= radix as int
                                * unit as int && 2 * ((radix as int - 1) * (unit as int)) == 2 * (
                            radix as int - 1) * (unit as int)) by (nonlinear_arith)
                                requires
                                    1 <= j < radix,
                                    0 <= u < unit,
                            {}
                        }
                        let ti = (j - 1) * unit + u;
                        let w = Complex::new(self.twiddles[2 * ti], self.twiddles[2 * ti + 1]);
                        acc.mul(w)
                    } else {
                        acc
                    };
                    let digit = if dit {
                        j
                    } else {
                        self.sigma[j]
                    };
                    proof {
                        lemma_butterfly_index_bound(
                            g as int,
                            digit as int,
                            u as int,
                            radix as int,
                            unit as int,
                            groups as int,
                            size as int,
                        );
                    }
                    complex_write(coefs, base + digit * unit, acc);
                    j = j + 1;
                }
                u = u + 1;
            }
            g = g + 1;
        }
    }
}

/// The within-digit order table: the bit reversal of each digit for a
/// power-of-two radix, natural order otherwise.
fn build_sigma(radix: usize) -> (sigma: Vec<usize>)
    requires
        2 <= radix <= MAX_SIZE,
    ensures
        sigma@.len() == radix,
        forall|k: int| 0 <= k < sigma@.len() ==> #[trigger] sigma@[k] < radix,
{
    let mut v = radix;
    let mut lg: usize = 0;
    proof {
        assert(pow2(0) == 1) by {
            lemma2_to64();
        }
    }
    while v % 2 == 0 && v >= 2
        invariant
            1 <= v <= radix,
            lg <= MAX_BITS,
            radix as int == v as int * pow2(lg as nat),
            radix <= MAX_SIZE,
        decreases v,
    {
        proof {
            lemma_pow2_unfold((lg + 1) as nat);
            assert(radix as int == (v as int / 2) * pow2((lg + 1) as nat)) by (nonlinear_arith)
                requires
                    radix as int == v as int * pow2(lg as nat),
                    v as int % 2 == 0,
                    pow2((lg + 1) as nat) == 2 * pow2(lg as nat),
                    v >= 2,
            {}
            assert(lg + 1 <= MAX_BITS) by {
                if lg + 1 > MAX_BITS {
                    assert(lg == MAX_BITS);
                    lemma_pow2_strictly_increases(MAX_BITS as nat, (lg + 1) as nat);
                    assert(pow2(MAX_BITS as nat) == MAX_SIZE) by {
                        lemma2_to64();
                    }
                    assert(radix as int >= pow2((lg + 1) as nat)) by (nonlinear_arith)
                        requires
                            radix as int == (v as int / 2) * pow2((lg + 1) as nat),
                            v as int / 2 >= 1,
                            pow2((lg + 1) as nat) > 0,
                    {}
                }
            }
        }
        v = v / 2;
        lg = lg + 1;
    }
    if v == 1 {
        proof {
            assert(radix as int == pow2(lg as nat));
        }
        let table = build_rev_table(lg);
        proof {
            crate::bits::lemma_pow2_le_max(lg as nat);
            assert forall|k: int| 0 <= k < table@.len() implies #[trigger] table@[k] < radix by {
                crate::bits::lemma_rev_bits_bound(k as nat, lg as nat);
            }
        }
        table
    } else {
        let mut table: Vec<usize> = Vec::new();
        let mut k: usize = 0;
        while k < radix
            invariant
                k <= radix,
                table@.len() == k,
                forall|i: int| 0 <= i < k ==> #[trigger] table@[i] < radix,
            decreases radix - k,
        {
            table.push(k);
            k = k + 1;
        }
        table
    }
}

/// Builds the generic kernel for any well-formed stage, computing the
/// root and twiddle tables.
pub fn new_generic_kernel<T: Num>(cparams: &KernelCreationParams) -> (r: Kernel<T>)
    requires
        cparams.wf(),
    ensures
        r.wf(),
        r.shape() == KernelShape::Generic(*cparams),
        r.buf_len() == 2 * cparams.size as int,
        r.wa_len() == 2 * cparams.radix as int,
{
    let radix = cparams.radix;
    let unit = cparams.unit;
    let inverse = cparams.inverse;
    proof {
        lemma_stage_geometry(*cparams);
    }
    let sigma = build_sigma(radix);
    let mut omega: Vec<T> = Vec::new();
    let mut t: usize = 0;
    while t < radix
        invariant
            t <= radix,
            radix <= MAX_SIZE,
            radix >= 2,
            omega@.len() == 2 * t,
        decreases radix - t,
    {
        let w: Complex<T> = twiddle(inverse, t, radix);
        omega.push(w.re);
        omega.push(w.im);
        t = t + 1;
    }
    let mut twiddles: Vec<T> = Vec::new();
    let mut k: usize = 1;
    proof {
        assert(2 * ((1 - 1) as int) * (unit as int) == 0) by (nonlinear_arith) {}
    }
    while k < radix
        invariant
            1 <= k <= radix,
            radix == cparams.radix,
            unit == cparams.unit,
            cparams.wf(),
            twiddles@.len() == 2 * (k - 1) * (unit as int),
        decreases radix - k,
    {
        let mut u: usize = 0;
        while u < unit
            invariant
                u <= unit,
                1 <= k < radix,
                radix == cparams.radix,
                unit == cparams.unit,
                cparams.wf(),
                twiddles@.len() == 2 * (k - 1) * (unit as int) + 2 * u,
            decreases unit - u,
        {
            proof {
                lemma_stage_geometry(*cparams);
                assert(k * u <= radix as int * unit as int) by (nonlinear_arith)
                    requires
                        1 <= k < radix,
                        0 <= u < unit,
                {}
            }
            let w: Complex<T> = twiddle(inverse, k * u, radix * unit);
            twiddles.push(w.re);
            twiddles.push(w.im);
            u = u + 1;
        }
        proof {
            assert(2 * (k as int - 1) * (unit as int) + 2 * (unit as int) == 2 * ((k as int + 1)
                - 1) * (unit as int)) by (nonlinear_arith) {}
        }
        k = k + 1;
    }
    proof {
        assert(2 * (radix as int - 1) * (unit as int) == 2 * (cparams.radix - 1)
            * cparams.unit) by (nonlinear_arith)
            requires
                radix == cparams.radix,
                unit == cparams.unit,
        {}
    }
    Kernel::Generic(GenericKernel { cparams: *cparams, sigma, omega, twiddles })
}

} // verus!
