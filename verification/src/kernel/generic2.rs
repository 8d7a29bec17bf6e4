//! The specialized no-twiddle butterfly kernel.
//!
//! When a stage has `unit == 1` every twiddle factor is unity, so the
//! twiddle multiplication is skipped entirely and the radix-2 or radix-4
//! butterfly is hand-unrolled over consecutive complex elements.

use crate::complex::{complex_read, complex_write, dft4};
use crate::kernel::{
    lemma_stage_geometry, Kernel, KernelCreationParams, KernelShape, KernelType,
};
use crate::Num;
use vstd::prelude::*;

verus! {

/// The unrolled butterfly for stages with `unit == 1` and radix 2 or 4.
/// It owns no twiddle table.
pub struct SmallKernel {
    /// The stage description.
    pub cparams: KernelCreationParams,
}

impl SmallKernel {
    /// The stage this kernel accepts: unit 1 and radix 2 or 4.
    pub open spec fn wf(self) -> bool {
        &&& self.cparams.wf()
        &&& self.cparams.unit == 1
        &&& (self.cparams.radix == 2 || self.cparams.radix == 4)
    }

    /// One butterfly stage over the whole buffer, radix elements at a time.
    pub fn transform<T: Num>(&self, coefs: &mut Vec<T>)
        requires
            self.wf(),
            old(coefs)@.len() == 2 * self.cparams.size,
        ensures
            final(coefs)@.len() == old(coefs)@.len(),
    {
        let size = self.cparams.size;
        let radix = self.cparams.radix;
        let inverse = self.cparams.inverse;
        let dit = self.cparams.kernel_type == KernelType::Dit;
        let groups = size / radix;
        proof {
            lemma_stage_geometry(self.cparams);
            assert(size as int == radix as int * groups as int);
        }
        if radix == 2 {
            let mut g: usize = 0;
            while g < groups
                invariant
                    g <= groups,
                    size as int == 2 * groups as int,
                    coefs@.len() == 2 * size,
                decreases groups - g,
            {
                let a = complex_read(coefs, 2 * g);
                let b = complex_read(coefs, 2 * g + 1);
                complex_write(coefs, 2 * g, a.add(b));
                complex_write(coefs, 2 * g + 1, a.sub(b));
                g = g + 1;
            }
        } else {
            let mut g: usize = 0;
            while g < groups
                invariant
                    g <= groups,
                    size as int == 4 * groups as int,
                    coefs@.len() == 2 * size,
                decreases groups - g,
            {
                let base = 4 * g;
                // Logical input k sits at the within-digit swizzled offset
                // for a decimation-in-time stage and at the natural offset
                // for a decimation-in-frequency one; the outputs mirror
                // that.
                let (c0, c1, c2, c3) = if dit {
                    (
                        complex_read(coefs, base),
                        complex_read(coefs, base + 2),
                        complex_read(coefs, base + 1),
                        complex_read(coefs, base + 3),
                    )
                } else {
                    (
                        complex_read(coefs, base),
                        complex_read(coefs, base + 1),
                        complex_read(coefs, base + 2),
                        complex_read(coefs, base + 3),
                    )
                };
                let (x0, x1, x2, x3) = dft4(c0, c1, c2, c3, inverse);
                if dit {
                    complex_write(coefs, base, x0);
                    complex_write(coefs, base + 1, x1);
                    complex_write(coefs, base + 2, x2);
                    complex_write(coefs, base + 3, x3);
                } else {
                    complex_write(coefs, base, x0);
                    complex_write(coefs, base + 2, x1);
                    complex_write(coefs, base + 1, x2);
                    complex_write(coefs, base + 3, x3);
                }
                g = g + 1;
            }
        }
    }
}

/// Builds the specialized no-twiddle kernel when the stage admits it.
pub fn new_specialized_generic_kernel<T: Num>(cparams: &KernelCreationParams) -> (r: Option<
    Kernel<T>,
>)
    requires
        cparams.wf(),
    ensures
        r is Some <==> (cparams.unit == 1 && (cparams.radix == 2 || cparams.radix == 4)),
        r is Some ==> {
            let k = r->Some_0;
            &&& k.wf()
            &&& k.shape() == KernelShape::Small(*cparams)
            &&& k.buf_len() == 2 * cparams.size as int
            &&& k.wa_len() == 0
        },
{
    if cparams.unit == 1 && (cparams.radix == 2 || cparams.radix == 4) {
        Some(Kernel::Small(SmallKernel { cparams: *cparams }))
    } else {
        None
    }
}

} // verus!
