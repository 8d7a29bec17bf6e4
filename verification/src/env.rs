//! The driver.
//!
//! An `Env` owns the scratch work area a plan requires and applies the
//! plan's kernels, in order, to a caller's buffer in place.  One `Env`
//! serves one thread at a time; any number of them may share a `Setup`.
//! No allocation happens during a transform.

use crate::kernel::KernelParams;
use crate::setup::Setup;
use crate::Num;
use vstd::prelude::*;

verus! {

/// Per-thread transform state: a borrowed plan and the owned scratch
/// buffers.
pub struct Env<'a, T: Num> {
    /// The plan this environment executes.
    pub setup: &'a Setup<T>,

    /// The kernel buffers: an empty coefficient slot that the caller's
    /// buffer is swapped into for the duration of a call, and the scratch
    /// work area.
    pub params: KernelParams<T>,
}

impl<'a, T: Num> Env<'a, T> {
    /// The work area matches the plan's requirement and the coefficient
    /// slot is parked empty between calls.
    pub open spec fn wf(self) -> bool {
        &&& self.setup.wf()
        &&& self.params.work_area@.len() == self.setup.work_area_size
        &&& self.params.coefs@.len() == 0
    }

    /// Creates an environment for a plan, allocating its work area.
    pub fn new(setup: &'a Setup<T>) -> (r: Env<'a, T>)
        requires
            setup.wf(),
        ensures
            r.wf(),
            r.setup == setup,
    {
        let n = setup.work_area_size;
        let mut work_area: Vec<T> = Vec::new();
        let mut i: usize = 0;
        while i < n
            invariant
                i <= n,
                work_area@.len() == i,
            decreases n - i,
        {
            work_area.push(T::zero());
            i = i + 1;
        }
        Env { setup, params: KernelParams { coefs: Vec::new(), work_area } }
    }

    /// Transforms a buffer in place by executing the plan's kernels in
    /// order.  The buffer must have exactly the length the plan was built
    /// for: `2 * len` scalars for a complex plan, `len` for a real one.
    pub fn transform(&mut self, buf: &mut Vec<T>)
        requires
            old(self).wf(),
            old(buf)@.len() == old(self).setup.buffer_len,
        ensures
            final(self).wf(),
            final(self).setup == old(self).setup,
            final(buf)@.len() == old(buf)@.len(),
    {
        let setup = self.setup;
        core::mem::swap(buf, &mut self.params.coefs);
        let n = setup.kernels.len();
        let mut i: usize = 0;
        while i < n
            invariant
                i <= n,
                setup.wf(),
                n == setup.kernels@.len(),
                self.setup == setup,
                self.params.coefs@.len() == setup.buffer_len,
                self.params.work_area@.len() == setup.work_area_size,
            decreases n - i,
        {
            let k = &setup.kernels[i];
            k.transform(&mut self.params);
            i = i + 1;
        }
        core::mem::swap(buf, &mut self.params.coefs);
    }
}

} // verus!
