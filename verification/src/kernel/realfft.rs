//! The real-FFT pre/post processing kernel.
//!
//! A real transform of length `N` is carried by a complex transform of
//! length `N/2` over the same buffer.  After a forward complex transform
//! this kernel unpacks the packed spectrum: the purely real DC and Nyquist
//! bins share element zero, and bin `k` is combined from bins `k` and
//! `N/2 - k` with the precomputed coefficient tables.  Before an inverse
//! complex transform it applies the conjugate tables and halves the
//! DC/Nyquist pair.

use crate::bits::MAX_SIZE;
use crate::complex::{complex_read, complex_write, twiddle, Complex};
use crate::kernel::{Kernel, KernelShape};
use crate::Num;
use vstd::prelude::*;

verus! {

/// The lengths the real-FFT kernel accepts: even, at least two, and within
/// the supported range.
pub open spec fn real_fft_len_ok(len: int) -> bool {
    &&& len % 2 == 0
    &&& 2 <= len
    &&& len <= 2 * MAX_SIZE
}

/// The real-FFT pre/post processing kernel with its coefficient tables.
pub struct RealFftKernel<T: Num> {
    /// The real transform length; the buffer holds this many scalars.
    pub len: usize,

    /// Direction: post-processing after a forward transform when false,
    /// pre-processing before an inverse transform when true.
    pub inverse: bool,

    /// First coefficient table, interleaved complex, `len / 2` entries.
    pub table_a: Vec<T>,

    /// Second coefficient table, interleaved complex, `len / 2` entries.
    pub table_b: Vec<T>,
}

impl<T: Num> RealFftKernel<T> {
    /// An accepted length and fully built tables.
    pub open spec fn wf(self) -> bool {
        &&& real_fft_len_ok(self.len as int)
        &&& self.table_a@.len() == self.len
        &&& self.table_b@.len() == self.len
    }

    /// Builds the kernel, computing both coefficient tables.
    pub fn new(len: usize, inverse: bool) -> (r: RealFftKernel<T>)
        requires
            real_fft_len_ok(len as int),
        ensures
            r.wf(),
            r.len == len,
            r.inverse == inverse,
    {
        let half = len / 2;
        let one = Complex::new(T::from_usize(1), T::zero());
        let half_scalar: T = T::from_usize(1).div(T::from_usize(2));
        let mut table_a: Vec<T> = Vec::new();
        let mut table_b: Vec<T> = Vec::new();
        let mut k: usize = 0;
        while k < half
            invariant
                k <= half,
                half == len / 2,
                len as int == 2 * half,
                2 <= len <= 2 * MAX_SIZE,
                table_a@.len() == 2 * k,
                table_b@.len() == 2 * k,
            decreases half - k,
        {
            let w: Complex<T> = twiddle(inverse, k, len);
            let iw = w.mul_pos_i();
            let (a, b) = if !inverse {
                (one.sub(iw).scale(half_scalar), one.add(iw).scale(half_scalar))
            } else {
                (one.add(iw).scale(half_scalar), one.sub(iw).scale(half_scalar))
            };
            table_a.push(a.re);
            table_a.push(a.im);
            table_b.push(b.re);
            table_b.push(b.im);
            k = k + 1;
        }
        RealFftKernel { len, inverse, table_a, table_b }
    }

    /// Applies the packing (forward) or unpacking (inverse) step in place.
    pub fn transform(&self, coefs: &mut Vec<T>)
        requires
            self.wf(),
            old(coefs)@.len() == self.len,
        ensures
            final(coefs)@.len() == old(coefs)@.len(),
    {
        let len = self.len;
        let half = len / 2;
        proof {
            assert(len as int == 2 * half);
        }
        let half_scalar: T = T::from_usize(1).div(T::from_usize(2));
        let x0 = coefs[0];
        let x1 = coefs[1];
        if !self.inverse {
            coefs[0] = x0.add(x1);
            coefs[1] = x0.sub(x1);
        } else {
            coefs[0] = x0.add(x1).mul(half_scalar);
            coefs[1] = x0.sub(x1).mul(half_scalar);
        }
        let mut k: usize = 1;
        while 2 * k <= half
            invariant
                1 <= k,
                2 * (k - 1) <= half,
                half == len / 2,
                len as int == 2 * half,
                self.wf(),
                len == self.len,
                coefs@.len() == len,
            decreases half + 2 - 2 * k,
        {
            let j = half - k;
            let xk = complex_read(coefs, k);
            let xj = complex_read(coefs, j);
            let ak = complex_read(&self.table_a, k);
            let aj = complex_read(&self.table_a, j);
            let bk = complex_read(&self.table_b, k);
            let bj = complex_read(&self.table_b, j);
            let gk = ak.mul(xk).add(bk.mul(xj.conj()));
            let gj = aj.mul(xj).add(bj.mul(xk.conj()));
            complex_write(coefs, k, gk);
            if j != k {
                complex_write(coefs, j, gj);
            }
            k = k + 1;
        }
    }
}

/// Builds the generic real-FFT pre/post processing kernel for any even
/// length.
pub fn new_real_fft_pre_post_process_kernel<T: Num>(len: usize, inverse: bool) -> (r: Kernel<T>)
    requires
        real_fft_len_ok(len as int),
    ensures
        r.wf(),
        r.shape() == KernelShape::RealFft(len, inverse),
        r.buf_len() == len as int,
        r.wa_len() == 0,
{
    Kernel::RealFft(RealFftKernel::new(len, inverse))
}

/// Builds the real-FFT kernel after checking the length.
pub fn new_real_fft_kernel_checked<T: Num>(len: usize, inverse: bool) -> (r: Option<Kernel<T>>)
    ensures
        r is Some <==> real_fft_len_ok(len as int),
        r is Some ==> {
            let k = r->Some_0;
            &&& k.wf()
            &&& k.shape() == KernelShape::RealFft(len, inverse)
            &&& k.buf_len() == len as int
            &&& k.wa_len() == 0
        },
{
    if len % 2 == 0 && len >= 2 && len <= 2 * MAX_SIZE {
        Some(new_real_fft_pre_post_process_kernel(len, inverse))
    } else {
        None
    }
}

} // verus!
