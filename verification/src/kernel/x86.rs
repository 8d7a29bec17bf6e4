//! Blocked butterfly kernels and the selection cascade.
//!
//! These variants mirror a 4-lane vector unit: each inner iteration
//! processes `block` sub-transforms whose twiddles are stored contiguously,
//! real parts before imaginary parts (`rrii` for a block of two,
//! `rrrr-iiii` for a block of four).  This crate realizes the lanes in
//! portable scalar code; the blocking, the table layouts and the selection
//! predicates are the kernels' identity.

use crate::bits::MAX_SIZE;
use crate::complex::{complex_read, complex_write, dft4, twiddle, Complex};
use crate::kernel::bitreversal::{block_paired, BitRevGatherKernel};
use crate::kernel::realfft::{new_real_fft_kernel_checked, real_fft_len_ok};
use crate::kernel::{
    lemma_butterfly_index_bound, lemma_stage_geometry, select_kernel_shape, Kernel,
    KernelCreationParams, KernelShape, KernelType,
};
use crate::Num;
use vstd::arithmetic::div_mod::lemma_fundamental_div_mod;
use vstd::prelude::*;

verus! {

/// A twiddle table in blocked layout: for each run of `block` consecutive
/// stride positions there are `count` twiddle factors, each stored as
/// `block` real parts then `block` imaginary parts.
///
/// Builds the table for twiddle `t + 1` at stride position `u` equal to
/// `exp(sign * 2 * pi * i * (t + 1) * u / span)`.
fn build_blocked_twiddles<T: Num>(
    unit: usize,
    block: usize,
    count: usize,
    span: usize,
    inverse: bool,
) -> (tw: Vec<T>)
    requires
        1 <= block,
        block <= unit,
        unit as int % block as int == 0,
        unit <= MAX_SIZE,
        1 <= count <= 3,
        span >= 1,
        count * unit <= span,
        span <= 4 * MAX_SIZE,
    ensures
        tw@.len() == 2 * count * unit,
{
    let ub_count = unit / block;
    proof {
        lemma_fundamental_div_mod(unit as int, block as int);
        assert(unit as int == block as int * ub_count as int);
    }
    let mut tw: Vec<T> = Vec::new();
    let mut ub: usize = 0;
    while ub < ub_count
        invariant
            ub <= ub_count,
            unit as int == block as int * ub_count as int,
            1 <= block <= unit <= MAX_SIZE,
            1 <= count <= 3,
            span >= 1,
            count * unit <= span,
            span <= 4 * MAX_SIZE,
            tw@.len() == ub as int * (2 * count as int * block as int),
        decreases ub_count - ub,
    {
        let mut t: usize = 0;
        while t < count
            invariant
                t <= count,
                ub < ub_count,
                unit as int == block as int * ub_count as int,
                1 <= block <= unit <= MAX_SIZE,
                1 <= count <= 3,
                span >= 1,
                count * unit <= span,
                span <= 4 * MAX_SIZE,
                tw@.len() == ub as int * (2 * count as int * block as int) + t as int * (2
                    * block as int),
            decreases count - t,
        {
            let mut b: usize = 0;
            while b < block
                invariant
                    b <= block,
                    t < count,
                    ub < ub_count,
                    unit as int == block as int * ub_count as int,
                    1 <= block <= unit <= MAX_SIZE,
                    1 <= count <= 3,
                    span >= 1,
                    count * unit <= span,
                    span <= 4 * MAX_SIZE,
                    tw@.len() == ub as int * (2 * count as int * block as int) + t as int * (2
                        * block as int) + b as int,
                decreases block - b,
            {
                proof {
                    assert(ub as int * block as int + b < unit && (t + 1) * (ub as int
                        * block as int + b) <= count * unit) by (nonlinear_arith)
                        requires
                            ub < ub_count,
                            b < block,
                            t < count,
                            1 <= block,
                            unit as int == block as int * ub_count as int,
                    {}
                }
                let u = ub * block + b;
                let w: Complex<T> = twiddle(inverse, (t + 1) * u, span);
                tw.push(w.re);
                b = b + 1;
            }
            let mut b2: usize = 0;
            while b2 < block
                invariant
                    b2 <= block,
                    t < count,
                    ub < ub_count,
                    unit as int == block as int * ub_count as int,
                    1 <= block <= unit <= MAX_SIZE,
                    1 <= count <= 3,
                    span >= 1,
                    count * unit <= span,
                    span <= 4 * MAX_SIZE,
                    tw@.len() == ub as int * (2 * count as int * block as int) + t as int * (2
                        * block as int) + block as int + b2 as int,
                decreases block - b2,
            {
                proof {
                    assert(ub as int * block as int + b2 < unit && (t + 1) * (ub as int
                        * block as int + b2) <= count * unit) by (nonlinear_arith)
                        requires
                            ub < ub_count,
                            b2 < block,
                            t < count,
                            1 <= block,
                            unit as int == block as int * ub_count as int,
                    {}
                }
                let u = ub * block + b2;
                let w: Complex<T> = twiddle(inverse, (t + 1) * u, span);
                tw.push(w.im);
                b2 = b2 + 1;
            }
            proof {
                assert(t as int * (2 * block as int) + block as int + block as int == (t as int
                    + 1) * (2 * block as int)) by (nonlinear_arith) {}
            }
            t = t + 1;
        }
        proof {
            assert(ub as int * (2 * count as int * block as int) + count as int * (2
                * block as int) == (ub as int + 1) * (2 * count as int
                * block as int)) by (nonlinear_arith) {}
        }
        ub = ub + 1;
    }
    proof {
        assert(ub_count as int * (2 * count as int * block as int) == 2 * count as int
            * unit as int) by (nonlinear_arith)
            requires
                unit as int == block as int * ub_count as int,
        {}
    }
    tw
}

/// The blocked radix-2 butterfly kernel.
pub struct Radix2BlockedKernel<T: Num> {
    /// The stage description.
    pub cparams: KernelCreationParams,

    /// How many sub-transforms one inner iteration processes.
    pub block: usize,

    /// Twiddle table in blocked layout, one factor per stride position.
    pub twiddles: Vec<T>,
}

impl<T: Num> Radix2BlockedKernel<T> {
    /// Radix 2, a block of two or four dividing the unit, and a full
    /// twiddle table.
    pub open spec fn wf(self) -> bool {
        &&& self.cparams.wf()
        &&& self.cparams.radix == 2
        &&& (self.block == 2 || self.block == 4)
        &&& self.cparams.unit as int % self.block as int == 0
        &&& self.block <= self.cparams.unit
        &&& self.twiddles@.len() == 2 * self.cparams.unit
    }

    /// One radix-2 butterfly stage over the whole buffer.
    pub fn transform(&self, coefs: &mut Vec<T>)
        requires
            self.wf(),
            old(coefs)@.len() == 2 * self.cparams.size,
        ensures
            final(coefs)@.len() == old(coefs)@.len(),
    {
        let size = self.cparams.size;
        let unit = self.cparams.unit;
        let block = self.block;
        let dit = self.cparams.kernel_type == KernelType::Dit;
        let ru = 2 * unit;
        let groups = size / ru;
        let ub_count = unit / block;
        proof {
            lemma_stage_geometry(self.cparams);
            lemma_fundamental_div_mod(unit as int, block as int);
            assert(unit as int == block as int * ub_count as int);
        }
        let mut g: usize = 0;
        while g < groups
            invariant
                g <= groups,
                self.wf(),
                size == self.cparams.size,
                unit == self.cparams.unit,
                block == self.block,
                ru == 2 * unit,
                size as int == (2 * unit as int) * groups as int,
                unit as int == block as int * ub_count as int,
                coefs@.len() == 2 * size,
            decreases groups - g,
        {
            let mut ub: usize = 0;
            while ub < ub_count
                invariant
                    ub <= ub_count,
                    g < groups,
                    self.wf(),
                    size == self.cparams.size,
                    unit == self.cparams.unit,
                    block == self.block,
                    ru == 2 * unit,
                    size as int == (2 * unit as int) * groups as int,
                    unit as int == block as int * ub_count as int,
                    coefs@.len() == 2 * size,
                decreases ub_count - ub,
            {
                let mut b: usize = 0;
                while b < block
                    invariant
                        b <= block,
                        ub < ub_count,
                        g < groups,
                        self.wf(),
                        size == self.cparams.size,
                        unit == self.cparams.unit,
                        block == self.block,
                        ru == 2 * unit,
                        size as int == (2 * unit as int) * groups as int,
                        unit as int == block as int * ub_count as int,
                        coefs@.len() == 2 * size,
                    decreases block - b,
                {
                    proof {
                        assert(ub as int * block as int + b < unit) by (nonlinear_arith)
                            requires
                                ub < ub_count,
                                b < block,
                                1 <= block,
                                unit as int == block as int * ub_count as int,
                        {}
                    }
                    let u = ub * block + b;
                    proof {
                        lemma_butterfly_index_bound(
                            g as int,
                            0,
                            u as int,
                            2,
                            unit as int,
                            groups as int,
                            size as int,
                        );
                        lemma_butterfly_index_bound(
                            g as int,
                            1,
                            u as int,
                            2,
                            unit as int,
                            groups as int,
                            size as int,
                        );
                        assert(ub as int * (2 * block as int) + block as int + b < 2
                            * unit as int) by (nonlinear_arith)
                            requires
                                ub < ub_count,
                                b < block,
                                1 <= block,
                                unit as int == block as int * ub_count as int,
                        {}
                    }
                    let i0 = g * ru + u;
                    let i1 = i0 + unit;
                    let tb = ub * (2 * block);
                    let w = Complex::new(self.twiddles[tb + b], self.twiddles[tb + block + b]);
                    let a = complex_read(coefs, i0);
                    let c = complex_read(coefs, i1);
                    if dit {
                        let cw = c.mul(w);
                        complex_write(coefs, i0, a.add(cw));
                        complex_write(coefs, i1, a.sub(cw));
                    } else {
                        complex_write(coefs, i0, a.add(c));
                        complex_write(coefs, i1, a.sub(c).mul(w));
                    }
                    b = b + 1;
                }
                ub = ub + 1;
            }
            g = g + 1;
        }
    }
}

/// The blocked radix-4 butterfly kernel.
pub struct Radix4BlockedKernel<T: Num> {
    /// The stage description.
    pub cparams: KernelCreationParams,

    /// How many sub-transforms one inner iteration processes.
    pub block: usize,

    /// Twiddle table in blocked layout, three factors per stride position.
    pub twiddles: Vec<T>,
}

impl<T: Num> Radix4BlockedKernel<T> {
    /// Radix 4, a block of two or four dividing the unit, and a full
    /// twiddle table.
    pub open spec fn wf(self) -> bool {
        &&& self.cparams.wf()
        &&& self.cparams.radix == 4
        &&& (self.block == 2 || self.block == 4)
        &&& self.cparams.unit as int % self.block as int == 0
        &&& self.block <= self.cparams.unit
        &&& self.twiddles@.len() == 6 * self.cparams.unit
    }

    /// One radix-4 butterfly stage over the whole buffer.
    pub fn transform(&self, coefs: &mut Vec<T>)
        requires
            self.wf(),
            old(coefs)@.len() == 2 * self.cparams.size,
        ensures
            final(coefs)@.len() == old(coefs)@.len(),
    {
        let size = self.cparams.size;
        let unit = self.cparams.unit;
        let block = self.block;
        let inverse = self.cparams.inverse;
        let dit = self.cparams.kernel_type == KernelType::Dit;
        let ru = 4 * unit;
        let groups = size / ru;
        let ub_count = unit / block;
        proof {
            lemma_stage_geometry(self.cparams);
            lemma_fundamental_div_mod(unit as int, block as int);
            assert(unit as int == block as int * ub_count as int);
        }
        let mut g: usize = 0;
        while g < groups
            invariant
                g <= groups,
                self.wf(),
                size == self.cparams.size,
                unit == self.cparams.unit,
                block == self.block,
                ru == 4 * unit,
                size as int == (4 * unit as int) * groups as int,
                unit as int == block as int * ub_count as int,
                coefs@.len() == 2 * size,
            decreases groups - g,
        {
            let mut ub: usize = 0;
            while ub < ub_count
                invariant
                    ub <= ub_count,
                    g < groups,
                    self.wf(),
                    size == self.cparams.size,
                    unit == self.cparams.unit,
                    block == self.block,
                    ru == 4 * unit,
                    size as int == (4 * unit as int) * groups as int,
                    unit as int == block as int * ub_count as int,
                    coefs@.len() == 2 * size,
                decreases ub_count - ub,
            {
                let mut b: usize = 0;
                while b < block
                    invariant
                        b <= block,
                        ub < ub_count,
                        g < groups,
                        self.wf(),
                        size == self.cparams.size,
                        unit == self.cparams.unit,
                        block == self.block,
                        ru == 4 * unit,
                        size as int == (4 * unit as int) * groups as int,
                        unit as int == block as int * ub_count as int,
                        coefs@.len() == 2 * size,
                    decreases block - b,
                {
                    proof {
                        assert(ub as int * block as int + b < unit) by (nonlinear_arith)
                            requires
                                ub < ub_count,
                                b < block,
                                1 <= block,
                                unit as int == block as int * ub_count as int,
                        {}
                    }
                    let u = ub * block + b;
                    proof {
                        lemma_butterfly_index_bound(
                            g as int,
                            0,
                            u as int,
                            4,
                            unit as int,
                            groups as int,
                            size as int,
                        );
                        lemma_butterfly_index_bound(
                            g as int,
                            1,
                            u as int,
                            4,
                            unit as int,
                            groups as int,
                            size as int,
                        );
                        lemma_butterfly_index_bound(
                            g as int,
                            2,
                            u as int,
                            4,
                            unit as int,
                            groups as int,
                            size as int,
                        );
                        lemma_butterfly_index_bound(
                            g as int,
                            3,
                            u as int,
                            4,
                            unit as int,
                            groups as int,
                            size as int,
                        );
                        assert(ub as int * (6 * block as int) + 5 * block as int + b < 6
                            * unit as int) by (nonlinear_arith)
                            requires
                                ub < ub_count,
                                b < block,
                                1 <= block,
                                unit as int == block as int * ub_count as int,
                        {}
                    }
                    let base = g * ru + u;
                    let tb = ub * (6 * block);
                    let w1 = Complex::new(self.twiddles[tb + b], self.twiddles[tb + block + b]);
                    let w2 = Complex::new(
                        self.twiddles[tb + 2 * block + b],
                        self.twiddles[tb + 3 * block + b],
                    );
                    let w3 = Complex::new(
                        self.twiddles[tb + 4 * block + b],
                        self.twiddles[tb + 5 * block + b],
                    );
                    if dit {
                        // Logical input k comes from the within-digit
                        // swizzled position; its twiddle comes before the
                        // butterfly.
                        let c0 = complex_read(coefs, base);
                        let c1 = complex_read(coefs, base + 2 * unit).mul(w1);
                        let c2 = complex_read(coefs, base + unit).mul(w2);
                        let c3 = complex_read(coefs, base + 3 * unit).mul(w3);
                        let (x0, x1, x2, x3) = dft4(c0, c1, c2, c3, inverse);
                        complex_write(coefs, base, x0);
                        complex_write(coefs, base + unit, x1);
                        complex_write(coefs, base + 2 * unit, x2);
                        complex_write(coefs, base + 3 * unit, x3);
                    } else {
                        // Natural reads; twiddle after the butterfly; the
                        // outputs land at the within-digit swizzled
                        // positions.
                        let c0 = complex_read(coefs, base);
                        let c1 = complex_read(coefs, base + unit);
                        let c2 = complex_read(coefs, base + 2 * unit);
                        let c3 = complex_read(coefs, base + 3 * unit);
                        let (x0, x1, x2, x3) = dft4(c0, c1, c2, c3, inverse);
                        complex_write(coefs, base, x0);
                        complex_write(coefs, base + 2 * unit, x1.mul(w1));
                        complex_write(coefs, base + unit, x2.mul(w2));
                        complex_write(coefs, base + 3 * unit, x3.mul(w3));
                    }
                    b = b + 1;
                }
                ub = ub + 1;
            }
            g = g + 1;
        }
    }
}

/// Builds a blocked radix-2 kernel.
fn new_radix2_blocked<T: Num>(cparams: &KernelCreationParams, block: usize) -> (r: Kernel<T>)
    requires
        cparams.wf(),
        cparams.radix == 2,
        block == 2 || block == 4,
        cparams.unit as int % block as int == 0,
        block <= cparams.unit,
    ensures
        r.wf(),
        r.shape() == KernelShape::Blocked(*cparams, block),
        r.buf_len() == 2 * cparams.size as int,
        r.wa_len() == 0,
{
    proof {
        lemma_stage_geometry(*cparams);
    }
    let twiddles = build_blocked_twiddles(cparams.unit, block, 1, 2 * cparams.unit,
        cparams.inverse);
    Kernel::Radix2Blocked(Radix2BlockedKernel { cparams: *cparams, block, twiddles })
}

/// Builds a blocked radix-4 kernel.
fn new_radix4_blocked<T: Num>(cparams: &KernelCreationParams, block: usize) -> (r: Kernel<T>)
    requires
        cparams.wf(),
        cparams.radix == 4,
        block == 2 || block == 4,
        cparams.unit as int % block as int == 0,
        block <= cparams.unit,
    ensures
        r.wf(),
        r.shape() == KernelShape::Blocked(*cparams, block),
        r.buf_len() == 2 * cparams.size as int,
        r.wa_len() == 0,
{
    proof {
        lemma_stage_geometry(*cparams);
    }
    let twiddles = build_blocked_twiddles(cparams.unit, block, 3, 4 * cparams.unit,
        cparams.inverse);
    Kernel::Radix4Blocked(Radix4BlockedKernel { cparams: *cparams, block, twiddles })
}

/// The 4-wide blocked radix-2 kernel: radix 2 with a unit divisible by
/// four.
pub fn new_x86_avx_f32_radix2_kernel<T: Num>(cparams: &KernelCreationParams) -> (r: Option<
    Kernel<T>,
>)
    requires
        cparams.wf(),
    ensures
        r is Some <==> (cparams.radix == 2 && cparams.unit % 4 == 0),
        r is Some ==> {
            let k = r->Some_0;
            &&& k.wf()
            &&& k.shape() == KernelShape::Blocked(*cparams, 4usize)
            &&& k.buf_len() == 2 * cparams.size as int
            &&& k.wa_len() == 0
        },
{
    if cparams.radix == 2 && cparams.unit % 4 == 0 {
        Some(new_radix2_blocked(cparams, 4))
    } else {
        None
    }
}

/// The 4-wide blocked radix-4 kernel: radix 4 with a unit divisible by
/// four.
pub fn new_x86_avx_f32_radix4_kernel<T: Num>(cparams: &KernelCreationParams) -> (r: Option<
    Kernel<T>,
>)
    requires
        cparams.wf(),
    ensures
        r is Some <==> (cparams.radix == 4 && cparams.unit % 4 == 0),
        r is Some ==> {
            let k = r->Some_0;
            &&& k.wf()
            &&& k.shape() == KernelShape::Blocked(*cparams, 4usize)
            &&& k.buf_len() == 2 * cparams.size as int
            &&& k.wa_len() == 0
        },
{
    if cparams.radix == 4 && cparams.unit % 4 == 0 {
        Some(new_radix4_blocked(cparams, 4))
    } else {
        None
    }
}

/// The 2-wide blocked radix-4 kernel: radix 4 with an even unit.
pub fn new_x86_sse3_f32_radix4_kernel<T: Num>(cparams: &KernelCreationParams) -> (r: Option<
    Kernel<T>,
>)
    requires
        cparams.wf(),
    ensures
        r is Some <==> (cparams.radix == 4 && cparams.unit % 2 == 0),
        r is Some ==> {
            let k = r->Some_0;
            &&& k.wf()
            &&& k.shape() == KernelShape::Blocked(*cparams, 2usize)
            &&& k.buf_len() == 2 * cparams.size as int
            &&& k.wa_len() == 0
        },
{
    if cparams.radix == 4 && cparams.unit % 2 == 0 {
        Some(new_radix4_blocked(cparams, 2))
    } else {
        None
    }
}

/// The baseline radix-2 kernel family: a 2-wide blocked variant for even
/// units and an unrolled variant for a unit of one.
pub fn new_x86_sse_radix2_kernel<T: Num>(cparams: &KernelCreationParams) -> (r: Option<Kernel<T>>)
    requires
        cparams.wf(),
    ensures
        r is Some <==> (cparams.radix == 2 && (cparams.unit % 2 == 0 || cparams.unit == 1)),
        r is Some ==> {
            let k = r->Some_0;
            &&& k.wf()
            &&& k.shape() == (if cparams.unit % 2 == 0 {
                KernelShape::Blocked(*cparams, 2usize)
            } else {
                KernelShape::Small(*cparams)
            })
            &&& k.buf_len() == 2 * cparams.size as int
            &&& k.wa_len() == 0
        },
{
    if cparams.radix != 2 {
        return None;
    }
    if cparams.unit % 2 == 0 {
        Some(new_radix2_blocked(cparams, 2))
    } else if cparams.unit == 1 {
        Some(Kernel::Small(crate::kernel::generic2::SmallKernel { cparams: *cparams }))
    } else {
        None
    }
}

/// The baseline radix-4 kernel family: 4-wide and 2-wide blocked variants
/// by unit divisibility, and an unrolled variant for a unit of one.
#[verifier::rlimit(50)]
pub fn new_x86_sse_radix4_kernel<T: Num>(cparams: &KernelCreationParams) -> (r: Option<Kernel<T>>)
    requires
        cparams.wf(),
    ensures
        r is Some <==> (cparams.radix == 4 && (cparams.unit % 2 == 0 || cparams.unit == 1)),
        r is Some ==> {
            let k = r->Some_0;
            &&& k.wf()
            &&& k.shape() == (if cparams.unit % 4 == 0 {
                KernelShape::Blocked(*cparams, 4usize)
            } else if cparams.unit % 2 == 0 {
                KernelShape::Blocked(*cparams, 2usize)
            } else {
                KernelShape::Small(*cparams)
            })
            &&& k.buf_len() == 2 * cparams.size as int
            &&& k.wa_len() == 0
        },
{
    if cparams.radix != 4 {
        return None;
    }
    if cparams.unit % 4 == 0 {
        Some(new_radix4_blocked(cparams, 4))
    } else if cparams.unit % 2 == 0 {
        Some(new_radix4_blocked(cparams, 2))
    } else if cparams.unit == 1 {
        Some(Kernel::Small(crate::kernel::generic2::SmallKernel { cparams: *cparams }))
    } else {
        None
    }
}

/// The butterfly selection cascade: widest applicable block first, then
/// the baseline families.  The first supporting variant wins.
pub fn new_x86_kernel<T: Num>(cparams: &KernelCreationParams) -> (r: Option<Kernel<T>>)
    requires
        cparams.wf(),
    ensures
        r is Some <==> ((cparams.radix == 2 || cparams.radix == 4) && (cparams.unit % 2 == 0
            || cparams.unit == 1)),
        r is Some ==> {
            let k = r->Some_0;
            &&& k.wf()
            &&& k.shape() == select_kernel_shape(*cparams)
            &&& k.buf_len() == 2 * cparams.size as int
            &&& k.wa_len() == 0
        },
{
    if let Some(k) = new_x86_avx_f32_radix4_kernel(cparams) {
        return Some(k);
    }
    if let Some(k) = new_x86_avx_f32_radix2_kernel(cparams) {
        return Some(k);
    }
    if let Some(k) = new_x86_sse3_f32_radix4_kernel(cparams) {
        return Some(k);
    }
    if let Some(k) = new_x86_sse_radix2_kernel(cparams) {
        return Some(k);
    }
    if let Some(k) = new_x86_sse_radix4_kernel(cparams) {
        return Some(k);
    }
    None
}

/// What a gathering bit-reversal kernel of a given block width demands of
/// an index table.
pub open spec fn gather_ok(t: Seq<usize>, block: int) -> bool {
    &&& t.len() as int % block == 0
    &&& t.len() <= 0x4000_0000
    &&& (forall|j: int| 0 <= j < t.len() ==> #[trigger] t[j] < t.len())
    &&& block_paired(t, block)
}

/// An owned copy of an index table.
fn copy_indices(src: &Vec<usize>) -> (r: Vec<usize>)
    ensures
        r@ == src@,
{
    let mut r: Vec<usize> = Vec::new();
    let mut i: usize = 0;
    let n = src.len();
    while i < n
        invariant
            i <= n,
            n == src@.len(),
            r@ == src@.subrange(0, i as int),
        decreases n - i,
    {
        r.push(src[i]);
        i = i + 1;
    }
    proof {
        assert(r@ =~= src@);
    }
    r
}

/// Checks that every table entry indexes back into the table.
fn indices_in_bounds(indices: &Vec<usize>) -> (r: bool)
    ensures
        r == (forall|j: int| 0 <= j < indices@.len() ==> #[trigger] indices@[j]
            < indices@.len()),
{
    let n = indices.len();
    let mut i: usize = 0;
    while i < n
        invariant
            i <= n,
            n == indices@.len(),
            forall|j: int| 0 <= j < i ==> #[trigger] indices@[j] < indices@.len(),
        decreases n - i,
    {
        if indices[i] >= n {
            return false;
        }
        i = i + 1;
    }
    true
}

/// Checks the block regularity of an index table.
fn check_block_paired(indices: &Vec<usize>, block: usize) -> (r: bool)
    requires
        1 <= block <= 4,
    ensures
        r == (indices@.len() as int % (block as int) == 0 && block_paired(indices@, block as int)),
{
    let m = indices.len();
    if m % block != 0 {
        return false;
    }
    let mb = m / block;
    proof {
        lemma_fundamental_div_mod(m as int, block as int);
        assert(m as int == block as int * mb as int);
    }
    let mut i: usize = 0;
    while i < mb
        invariant
            i <= mb,
            m == indices@.len(),
            1 <= block <= 4,
            mb as int == m as int / block as int,
            m as int == block as int * mb as int,
            forall|ii: int, q: int|
                0 <= ii < i && 0 <= q < block ==> #[trigger] indices@[ii + q * (mb as int)]
                    == indices@[ii] + q,
        decreases mb - i,
    {
        let base = indices[i];
        let mut q: usize = 0;
        while q < block
            invariant
                q <= block,
                i < mb,
                m == indices@.len(),
                1 <= block <= 4,
                mb as int == m as int / block as int,
                m as int == block as int * mb as int,
                base == indices@[i as int],
                forall|ii: int, qq: int|
                    0 <= ii < i && 0 <= qq < block ==> #[trigger] indices@[ii + qq * (mb as int)]
                        == indices@[ii] + qq,
                forall|qq: int|
                    0 <= qq < q ==> #[trigger] indices@[i as int + qq * (mb as int)]
                        == indices@[i as int] + qq,
            decreases block - q,
        {
            proof {
                assert(i + q * mb < m) by (nonlinear_arith)
                    requires
                        i < mb,
                        q < block,
                        m as int == block as int * mb as int,
                        mb >= 0,
                        block >= 1,
                {}
            }
            let v = indices[i + q * mb];
            if v < q || v - q != base {
                proof {
                    assert(!block_paired(indices@, block as int)) by {
                        assert(indices@[i as int + q as int * (indices@.len() as int / block as int)]
                            != indices@[i as int] + q);
                    }
                }
                return false;
            }
            q = q + 1;
        }
        i = i + 1;
    }
    proof {
        assert(block_paired(indices@, block as int)) by {
            assert forall|ii: int, qq: int|
                0 <= ii < indices@.len() as int / (block as int) && 0 <= qq
                    < block implies #[trigger] indices@[ii + qq * (indices@.len() as int / (
            block as int))] == indices@[ii] + qq by {
                assert(indices@.len() as int / (block as int) == mb as int);
            }
        }
    }
    true
}

/// Builds a gathering bit-reversal kernel of the given block width after
/// checking the table.
fn new_gather_kernel<T: Num>(indices: &Vec<usize>, block: usize) -> (r: Option<Kernel<T>>)
    requires
        block == 1 || block == 2 || block == 4,
    ensures
        r is Some <==> gather_ok(indices@, block as int),
        r is Some ==> {
            let k = r->Some_0;
            &&& k.wf()
            &&& k.is_bit_reversal()
            &&& k.bitrev_table() == indices@
            &&& k.shape() == KernelShape::BitReversalGather(indices@.len() as usize, block)
            &&& k.buf_len() == 2 * indices@.len() as int
            &&& k.wa_len() == 2 * indices@.len() as int
        },
{
    if indices.len() > 0x4000_0000 {
        return None;
    }
    if !indices_in_bounds(indices) {
        return None;
    }
    if !check_block_paired(indices, block) {
        return None;
    }
    let table = copy_indices(indices);
    Some(Kernel::BitRevGather(BitRevGatherKernel { block, table }))
}

/// The plain gathering bit-reversal kernel, one position per step.
pub fn new_x86_avx_bit_reversal_kernel<T: Num>(indices: &Vec<usize>) -> (r: Option<Kernel<T>>)
    ensures
        r is Some <==> gather_ok(indices@, 1),
        r is Some ==> {
            let k = r->Some_0;
            &&& k.wf()
            &&& k.is_bit_reversal()
            &&& k.bitrev_table() == indices@
            &&& k.shape() == KernelShape::BitReversalGather(indices@.len() as usize, 1usize)
            &&& k.buf_len() == 2 * indices@.len() as int
            &&& k.wa_len() == 2 * indices@.len() as int
        },
{
    new_gather_kernel(indices, 1)
}

/// The gathering bit-reversal kernel for tables whose halves are offset by
/// one: two consecutive source elements per step.
pub fn new_x86_avx_radix2_bit_reversal_kernel<T: Num>(indices: &Vec<usize>) -> (r: Option<
    Kernel<T>,
>)
    ensures
        r is Some <==> gather_ok(indices@, 2),
        r is Some ==> {
            let k = r->Some_0;
            &&& k.wf()
            &&& k.is_bit_reversal()
            &&& k.bitrev_table() == indices@
            &&& k.shape() == KernelShape::BitReversalGather(indices@.len() as usize, 2usize)
            &&& k.buf_len() == 2 * indices@.len() as int
            &&& k.wa_len() == 2 * indices@.len() as int
        },
{
    new_gather_kernel(indices, 2)
}

/// The gathering bit-reversal kernel for tables whose quarters are offset
/// by one: four consecutive source elements per step.
pub fn new_x86_avx_radix4_bit_reversal_kernel<T: Num>(indices: &Vec<usize>) -> (r: Option<
    Kernel<T>,
>)
    ensures
        r is Some <==> gather_ok(indices@, 4),
        r is Some ==> {
            let k = r->Some_0;
            &&& k.wf()
            &&& k.is_bit_reversal()
            &&& k.bitrev_table() == indices@
            &&& k.shape() == KernelShape::BitReversalGather(indices@.len() as usize, 4usize)
            &&& k.buf_len() == 2 * indices@.len() as int
            &&& k.wa_len() == 2 * indices@.len() as int
        },
{
    new_gather_kernel(indices, 4)
}

/// The gathering bit-reversal variant the dispatcher picks for a table:
/// the most specific block regularity that holds.
pub open spec fn x86_bitrev_shape(t: Seq<usize>) -> KernelShape {
    if gather_ok(t, 4) {
        KernelShape::BitReversalGather(t.len() as usize, 4usize)
    } else if gather_ok(t, 2) {
        KernelShape::BitReversalGather(t.len() as usize, 2usize)
    } else {
        KernelShape::BitReversalGather(t.len() as usize, 1usize)
    }
}

/// The bit-reversal dispatch cascade: detects the radix-4 and radix-2
/// pairing structures of the index table and falls back to the plain
/// gather.
pub fn new_x86_bit_reversal_kernel<T: Num>(indices: &Vec<usize>) -> (r: Option<Kernel<T>>)
    ensures
        r is Some <==> gather_ok(indices@, 1),
        r is Some ==> {
            let k = r->Some_0;
            &&& k.wf()
            &&& k.is_bit_reversal()
            &&& k.bitrev_table() == indices@
            &&& k.shape() == x86_bitrev_shape(indices@)
            &&& k.buf_len() == 2 * indices@.len() as int
            &&& k.wa_len() == 2 * indices@.len() as int
        },
{
    proof {
        crate::kernel::bitreversal::lemma_block_paired_one(indices@);
    }
    if let Some(k) = new_x86_avx_radix4_bit_reversal_kernel(indices) {
        return Some(k);
    }
    if let Some(k) = new_x86_avx_radix2_bit_reversal_kernel(indices) {
        return Some(k);
    }
    new_x86_avx_bit_reversal_kernel(indices)
}

/// The real-FFT pre/post kernel for lengths divisible by eight (beyond
/// eight itself).
pub fn new_x86_sse3_f32_real_fft_pre_post_process_kernel<T: Num>(len: usize, inverse: bool) -> (r:
    Option<Kernel<T>>)
    ensures
        r is Some <==> (len % 8 == 0 && len > 8 && real_fft_len_ok(len as int)),
        r is Some ==> {
            let k = r->Some_0;
            &&& k.wf()
            &&& k.shape() == KernelShape::RealFft(len, inverse)
            &&& k.buf_len() == len as int
            &&& k.wa_len() == 0
        },
{
    if len % 8 == 0 && len > 8 {
        new_real_fft_kernel_checked(len, inverse)
    } else {
        None
    }
}

/// The real-FFT pre/post kernel for lengths divisible by sixteen (beyond
/// sixteen itself).
pub fn new_x86_avx_f32_real_fft_pre_post_process_kernel<T: Num>(len: usize, inverse: bool) -> (r:
    Option<Kernel<T>>)
    ensures
        r is Some <==> (len % 16 == 0 && len > 16 && real_fft_len_ok(len as int)),
        r is Some ==> {
            let k = r->Some_0;
            &&& k.wf()
            &&& k.shape() == KernelShape::RealFft(len, inverse)
            &&& k.buf_len() == len as int
            &&& k.wa_len() == 0
        },
{
    if len % 16 == 0 && len > 16 {
        new_real_fft_kernel_checked(len, inverse)
    } else {
        None
    }
}

/// The real-FFT pre/post kernel for lengths divisible by four (beyond four
/// itself).
pub fn new_x86_sse_real_fft_pre_post_process_kernel<T: Num>(len: usize, inverse: bool) -> (r:
    Option<Kernel<T>>)
    ensures
        r is Some <==> (len % 4 == 0 && len > 4 && real_fft_len_ok(len as int)),
        r is Some ==> {
            let k = r->Some_0;
            &&& k.wf()
            &&& k.shape() == KernelShape::RealFft(len, inverse)
            &&& k.buf_len() == len as int
            &&& k.wa_len() == 0
        },
{
    if len % 4 == 0 && len > 4 {
        new_real_fft_kernel_checked(len, inverse)
    } else {
        None
    }
}

/// The real-FFT dispatch cascade, widest variant first.  All variants
/// share one shape; only their admission predicates differ.
pub fn new_x86_real_fft_pre_post_process_kernel<T: Num>(len: usize, inverse: bool) -> (r: Option<
    Kernel<T>,
>)
    ensures
        r is Some <==> (len % 4 == 0 && len > 4 && real_fft_len_ok(len as int)),
        r is Some ==> {
            let k = r->Some_0;
            &&& k.wf()
            &&& k.shape() == KernelShape::RealFft(len, inverse)
            &&& k.buf_len() == len as int
            &&& k.wa_len() == 0
        },
{
    if let Some(k) = new_x86_avx_f32_real_fft_pre_post_process_kernel(len, inverse) {
        return Some(k);
    }
    if let Some(k) = new_x86_sse3_f32_real_fft_pre_post_process_kernel(len, inverse) {
        return Some(k);
    }
    new_x86_sse_real_fft_pre_post_process_kernel(len, inverse)
}

} // verus!
