//! FFT kernel objects.
//!
//! A plan is an ordered sequence of kernels.  Each kernel performs one step
//! of the transform in place: a butterfly stage, the bit-reversal
//! permutation, or the real-FFT pre/post processing.  A kernel owns its
//! precomputed twiddle tables and is immutable once built; each invocation
//! receives exclusive access to the coefficient buffer and the work area.

mod bitreversal;
mod generic;
mod generic2;
mod realfft;
mod x86;

use crate::bits::MAX_SIZE;
use crate::Num;
use vstd::prelude::*;

pub use bitreversal::{
    lemma_bit_reversal_twice_identity, new_bit_reversal_kernel, permute_complex, rev_table_spec,
    BitRevGatherKernel, BitRevSwapKernel,
};
pub use generic::{new_generic_kernel, GenericKernel};
pub use generic2::{new_specialized_generic_kernel, SmallKernel};
pub use realfft::{new_real_fft_pre_post_process_kernel, RealFftKernel};
pub use x86::{
    gather_ok, new_x86_avx_bit_reversal_kernel, new_x86_avx_f32_radix2_kernel,
    new_x86_avx_f32_radix4_kernel, new_x86_avx_f32_real_fft_pre_post_process_kernel,
    new_x86_avx_radix2_bit_reversal_kernel, new_x86_avx_radix4_bit_reversal_kernel,
    new_x86_bit_reversal_kernel, new_x86_kernel, new_x86_real_fft_pre_post_process_kernel,
    new_x86_sse3_f32_radix4_kernel, new_x86_sse3_f32_real_fft_pre_post_process_kernel,
    new_x86_sse_radix2_kernel, new_x86_sse_radix4_kernel,
    new_x86_sse_real_fft_pre_post_process_kernel, x86_bitrev_shape, Radix2BlockedKernel,
    Radix4BlockedKernel,
};

verus! {

/// Whether the twiddle multiplication of a butterfly stage comes before or
/// after the size-`radix` butterfly.
#[derive(Clone, Copy, Debug, PartialEq, Eq, Structural)]
pub enum KernelType {
    /// Decimation-in-time: twiddle before the butterfly.  Units ascend
    /// across a plan's stages; the stage reads its inputs in the swizzled
    /// within-digit order.
    Dit,
    /// Decimation-in-frequency: twiddle after the butterfly.  Units descend
    /// across a plan's stages; the stage writes its outputs in the swizzled
    /// within-digit order.
    Dif,
}

/// The immutable description of one butterfly stage, emitted by the planner.
#[derive(Clone, Copy, Debug, PartialEq, Eq, Structural)]
pub struct KernelCreationParams {
    /// Total transform length in complex elements.
    pub size: usize,

    /// Twiddle placement of this stage.
    pub kernel_type: KernelType,

    /// Butterfly fan-out of this stage.
    pub radix: usize,

    /// Sub-transform stride, with `1 <= unit <= size / radix`.  Each
    /// butterfly stage processes `size / (radix * unit)` groups of
    /// `radix * unit` complex elements.
    pub unit: usize,

    /// Direction flag: `false` is forward, `true` is inverse.
    pub inverse: bool,
}

impl KernelCreationParams {
    /// Number of groups this stage processes.
    pub open spec fn groups(self) -> int {
        self.size as int / (self.radix as int * self.unit as int)
    }

    /// The stage invariant: `size = radix * unit * groups` for an integer
    /// number of groups, at least one group, and a size within the
    /// supported range.
    pub open spec fn wf(self) -> bool {
        &&& 2 <= self.radix
        &&& 1 <= self.unit
        &&& self.radix as int * self.unit as int <= self.size as int
        &&& self.size as int % (self.radix as int * self.unit as int) == 0
        &&& self.size <= MAX_SIZE
    }

    /// Checks the stage invariant.
    pub fn is_valid(&self) -> (r: bool)
        ensures
            r == self.wf(),
    {
        if self.radix < 2 || self.unit < 1 || self.size > MAX_SIZE {
            return false;
        }
        if self.radix > self.size || self.unit > self.size {
            proof {
                assert(self.radix as int * self.unit as int >= self.radix as int && self.radix
                    as int * self.unit as int >= self.unit as int) by (nonlinear_arith)
                    requires
                        self.radix >= 1,
                        self.unit >= 1,
                {}
            }
            return false;
        }
        proof {
            assert(self.radix as int * self.unit as int >= 2 && self.radix as int
                * self.unit as int <= 0x100000 * 0x100000) by (nonlinear_arith)
                requires
                    2 <= self.radix <= 0x100000,
                    1 <= self.unit <= 0x100000,
            {}
        }
        let ru: u64 = (self.radix as u64) * (self.unit as u64);
        if ru > self.size as u64 {
            return false;
        }
        (self.size as u64) % ru == 0
    }
}

/// The buffers a kernel invocation works on: the coefficient buffer holding
/// the interleaved complex data, and the scratch work area.
pub struct KernelParams<T: Num> {
    /// Interleaved complex coefficients, transformed in place.
    pub coefs: Vec<T>,

    /// Scratch space; a kernel may read and write it freely and promises
    /// nothing about its final contents beyond its length.
    pub work_area: Vec<T>,
}

/// The mathematical identity of a kernel: which algorithm variant it runs
/// and on which stage description.  Two kernels of equal shape built over
/// the same scalar carrier behave identically.
pub enum KernelShape {
    /// The generic radix-R butterfly.
    Generic(KernelCreationParams),
    /// The unrolled no-twiddle butterfly for `unit == 1`.
    Small(KernelCreationParams),
    /// A blocked butterfly processing `block` sub-transforms per inner
    /// iteration.
    Blocked(KernelCreationParams, usize),
    /// The in-place swapping bit-reversal over `m` complex elements.
    BitReversalSwap(usize),
    /// The gathering bit-reversal over `m` complex elements, `block`
    /// positions per iteration.
    BitReversalGather(usize, usize),
    /// The real-FFT pre/post processing over a real length.
    RealFft(usize, bool),
}

/// The kernel variant the selection cascade picks for a butterfly stage.
/// Blocked variants are preferred with the widest applicable block; a stage
/// with `unit == 1` needs no twiddles and takes the unrolled small kernel;
/// everything else falls back to the generic kernel.
pub open spec fn select_kernel_shape(c: KernelCreationParams) -> KernelShape {
    if c.radix == 4 && c.unit % 4 == 0 {
        KernelShape::Blocked(c, 4)
    } else if c.radix == 2 && c.unit % 4 == 0 {
        KernelShape::Blocked(c, 4)
    } else if c.radix == 4 && c.unit % 2 == 0 {
        KernelShape::Blocked(c, 2)
    } else if c.radix == 2 && c.unit % 2 == 0 {
        KernelShape::Blocked(c, 2)
    } else if (c.radix == 2 || c.radix == 4) && c.unit == 1 {
        KernelShape::Small(c)
    } else {
        KernelShape::Generic(c)
    }
}

/// One step of a transform plan.
///
/// The closed set of kernel variants: the planner evaluates the selection
/// cascade and the first supporting variant wins.
pub enum Kernel<T: Num> {
    /// Generic radix-R butterfly, any radix, any unit.
    Generic(GenericKernel<T>),
    /// Unrolled radix-2/4 butterfly for `unit == 1`.
    Small(SmallKernel),
    /// Blocked radix-2 butterfly.
    Radix2Blocked(Radix2BlockedKernel<T>),
    /// Blocked radix-4 butterfly.
    Radix4Blocked(Radix4BlockedKernel<T>),
    /// In-place swapping bit-reversal permutation.
    BitRevSwap(BitRevSwapKernel),
    /// Gathering bit-reversal permutation using the work area.
    BitRevGather(BitRevGatherKernel),
    /// Real-FFT pre/post processing.
    RealFft(RealFftKernel<T>),
}

impl<T: Num> Kernel<T> {
    /// Internal consistency of the kernel's tables and parameters.
    pub open spec fn wf(self) -> bool {
        match self {
            Kernel::Generic(k) => k.wf(),
            Kernel::Small(k) => k.wf(),
            Kernel::Radix2Blocked(k) => k.wf(),
            Kernel::Radix4Blocked(k) => k.wf(),
            Kernel::BitRevSwap(k) => k.wf(),
            Kernel::BitRevGather(k) => k.wf(),
            Kernel::RealFft(k) => k.wf(),
        }
    }

    /// The exact coefficient buffer length, in scalars, this kernel works on.
    pub open spec fn buf_len(self) -> int {
        match self {
            Kernel::Generic(k) => 2 * k.cparams.size as int,
            Kernel::Small(k) => 2 * k.cparams.size as int,
            Kernel::Radix2Blocked(k) => 2 * k.cparams.size as int,
            Kernel::Radix4Blocked(k) => 2 * k.cparams.size as int,
            Kernel::BitRevSwap(k) => 2 * k.table@.len() as int,
            Kernel::BitRevGather(k) => 2 * k.table@.len() as int,
            Kernel::RealFft(k) => k.len as int,
        }
    }

    /// The work area this kernel requires, in scalars.
    pub open spec fn wa_len(self) -> int {
        match self {
            Kernel::Generic(k) => 2 * k.cparams.radix as int,
            Kernel::BitRevGather(k) => 2 * k.table@.len() as int,
            _ => 0,
        }
    }

    /// The kernel's shape: its algorithm variant and stage description.
    pub open spec fn shape(self) -> KernelShape {
        match self {
            Kernel::Generic(k) => KernelShape::Generic(k.cparams),
            Kernel::Small(k) => KernelShape::Small(k.cparams),
            Kernel::Radix2Blocked(k) => KernelShape::Blocked(k.cparams, k.block),
            Kernel::Radix4Blocked(k) => KernelShape::Blocked(k.cparams, k.block),
            Kernel::BitRevSwap(k) => KernelShape::BitReversalSwap(k.table@.len() as usize),
            Kernel::BitRevGather(k) => KernelShape::BitReversalGather(
                k.table@.len() as usize,
                k.block,
            ),
            Kernel::RealFft(k) => KernelShape::RealFft(k.len, k.inverse),
        }
    }

    /// Whether this kernel is a bit-reversal permutation.
    pub open spec fn is_bit_reversal(self) -> bool {
        match self {
            Kernel::BitRevSwap(_) => true,
            Kernel::BitRevGather(_) => true,
            _ => false,
        }
    }

    /// The index table of a bit-reversal kernel: the transform moves the
    /// complex element at `table[j]` to position `j`.
    pub open spec fn bitrev_table(self) -> Seq<usize> {
        match self {
            Kernel::BitRevSwap(k) => k.table@,
            Kernel::BitRevGather(k) => k.table@,
            _ => Seq::empty(),
        }
    }

    /// The size of the temporary storage, in scalars, that `transform`
    /// needs in the work area.
    pub fn required_work_area_size(&self) -> (r: usize)
        requires
            self.wf(),
        ensures
            r == self.wa_len(),
    {
        match self {
            Kernel::Generic(k) => {
                proof {
                    lemma_stage_geometry(k.cparams);
                }
                2 * k.cparams.radix
            },
            Kernel::BitRevGather(k) => {
                let m = k.table.len();
                2 * m
            },
            _ => 0,
        }
    }

    /// Applies this kernel to the buffers in place.
    ///
    /// Every kernel preserves both buffer lengths.  A bit-reversal kernel
    /// moreover permutes the coefficients exactly by its index table, and
    /// its output does not depend on what the work area held before the
    /// call.
    pub fn transform(&self, params: &mut KernelParams<T>)
        requires
            self.wf(),
            old(params).coefs@.len() == self.buf_len(),
            old(params).work_area@.len() >= self.wa_len(),
        ensures
            final(params).coefs@.len() == old(params).coefs@.len(),
            final(params).work_area@.len() == old(params).work_area@.len(),
            self.is_bit_reversal() ==> final(params).coefs@ == permute_complex(
                old(params).coefs@,
                self.bitrev_table(),
            ),
    {
        match self {
            Kernel::Generic(k) => k.transform(&mut params.coefs, &mut params.work_area),
            Kernel::Small(k) => k.transform(&mut params.coefs),
            Kernel::Radix2Blocked(k) => k.transform(&mut params.coefs),
            Kernel::Radix4Blocked(k) => k.transform(&mut params.coefs),
            Kernel::BitRevSwap(k) => k.transform(&mut params.coefs),
            Kernel::BitRevGather(k) => k.transform(&mut params.coefs, &mut params.work_area),
            Kernel::RealFft(k) => k.transform(&mut params.coefs),
        }
    }

    /// Builds the kernel for one butterfly stage: runs the selection
    /// cascade over the variant constructors and falls back to the generic
    /// kernel.
    pub fn new(cparams: &KernelCreationParams) -> (r: Kernel<T>)
        requires
            cparams.wf(),
        ensures
            r.wf(),
            r.shape() == select_kernel_shape(*cparams),
            r.buf_len() == 2 * cparams.size as int,
            r.wa_len() <= 2 * cparams.size as int,
    {
        let r = match new_x86_kernel(cparams) {
            Some(k) => k,
            None => match new_specialized_generic_kernel(cparams) {
                Some(k) => k,
                None => new_generic_kernel(cparams),
            },
        };
        proof {
            lemma_stage_geometry(*cparams);
        }
        r
    }
}

/// Unfolds the stage invariant: the size splits exactly into groups, and
/// radix and unit each stay within the size.
pub proof fn lemma_stage_geometry(c: KernelCreationParams)
    requires
        c.wf(),
    ensures
        c.size as int == (c.radix as int * c.unit as int) * c.groups(),
        c.groups() >= 1,
        c.radix as int <= c.size as int,
        c.unit as int <= c.size as int,
        c.radix as int * c.unit as int >= 2,
{
    let ru = c.radix as int * c.unit as int;
    assert(ru >= 2) by (nonlinear_arith)
        requires
            c.radix >= 2,
            c.unit >= 1,
            ru == c.radix as int * c.unit as int,
    {}
    vstd::arithmetic::div_mod::lemma_fundamental_div_mod(c.size as int, ru);
    assert(c.size as int == ru * c.groups());
    assert(c.groups() >= 1) by {
        if c.groups() <= 0 {
            assert(ru * c.groups() <= 0) by (nonlinear_arith)
                requires
                    ru > 0,
                    c.groups() <= 0,
            {}
        }
    }
    assert(c.radix as int <= ru && c.unit as int <= ru) by (nonlinear_arith)
        requires
            ru == c.radix as int * c.unit as int,
            c.radix >= 1,
            c.unit >= 1,
    {}
}

/// Every element index a butterfly stage touches stays inside the buffer:
/// with `size = radix * unit * groups`, the element `(g * radix + d) * unit
/// + u` of group `g`, digit `d` and stride position `u` lies below `size`.
pub proof fn lemma_butterfly_index_bound(
    g: int,
    d: int,
    u: int,
    radix: int,
    unit: int,
    groups: int,
    size: int,
)
    requires
        0 <= g < groups,
        0 <= d < radix,
        0 <= u < unit,
        size == (radix * unit) * groups,
    ensures
        0 <= (g * radix + d) * unit + u < size,
        0 <= g * (radix * unit) + d * unit + u < size,
        (g * radix + d) * unit + u == g * (radix * unit) + d * unit + u,
{
    assert((g * radix + d) * unit + u == g * (radix * unit) + d * unit + u && 0 <= (g * radix + d)
        * unit + u < size) by (nonlinear_arith)
        requires
            0 <= g < groups,
            0 <= d < radix,
            0 <= u < unit,
            size == (radix * unit) * groups,
    {}
}

} // verus!
