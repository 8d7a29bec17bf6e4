//! A complex pair over the abstract scalar and the helpers the kernels use.

use crate::Num;
use vstd::prelude::*;

verus! {

/// A complex number as a pair of scalars.  The in-memory wire layout of a
/// complex sequence is interleaved (`r0 i0 r1 i1 ...`); a `Complex` value is
/// the working form of one element.
pub struct Complex<T: Num> {
    /// Real part.
    pub re: T,
    /// Imaginary part.
    pub im: T,
}

impl<T: Num> Clone for Complex<T> {
    fn clone(&self) -> (r: Self)
        ensures
            r == *self,
    {
        Complex { re: self.re, im: self.im }
    }
}

impl<T: Num> Copy for Complex<T> {

}

impl<T: Num> Complex<T> {
    /// The pair `(re, im)`.
    pub fn new(re: T, im: T) -> (r: Self)
        ensures
            r.re == re,
            r.im == im,
    {
        Complex { re, im }
    }

    /// The additive identity.
    pub fn zero() -> Self {
        Complex { re: T::zero(), im: T::zero() }
    }

    /// Complex addition.
    pub fn add(self, other: Self) -> Self {
        Complex { re: self.re.add(other.re), im: self.im.add(other.im) }
    }

    /// Complex subtraction.
    pub fn sub(self, other: Self) -> Self {
        Complex { re: self.re.sub(other.re), im: self.im.sub(other.im) }
    }

    /// Complex multiplication.
    pub fn mul(self, other: Self) -> Self {
        Complex {
            re: self.re.mul(other.re).sub(self.im.mul(other.im)),
            im: self.re.mul(other.im).add(self.im.mul(other.re)),
        }
    }

    /// The complex conjugate.
    pub fn conj(self) -> Self {
        Complex { re: self.re, im: self.im.neg() }
    }

    /// Multiplication by the imaginary unit.
    pub fn mul_pos_i(self) -> Self {
        Complex { re: self.im.neg(), im: self.re }
    }

    /// Multiplication by the negated imaginary unit.
    pub fn mul_neg_i(self) -> Self {
        Complex { re: self.im, im: self.re.neg() }
    }

    /// Multiplication by a scalar.
    pub fn scale(self, s: T) -> Self {
        Complex { re: self.re.mul(s), im: self.im.mul(s) }
    }

    /// `exp(i * theta)` as `(cos theta, sin theta)`.
    pub fn expi(theta: T) -> Self {
        Complex { re: theta.cos(), im: theta.sin() }
    }
}

/// The angle `sign * 2 * pi * num / den` of a twiddle factor, where `sign`
/// is negative for a forward transform and positive for an inverse one.
/// The bound on `num` keeps the doubling below the word range on every
/// platform; twiddle numerators stay below the square of `MAX_SIZE`'s root
/// in every caller.
pub fn twiddle_angle<T: Num>(inverse: bool, num: usize, den: usize) -> T
    requires
        den >= 1,
        num <= 0x4000_0000,
{
    let full: T = T::from_usize(2 * num).mul(T::pi()).div(T::from_usize(den));
    if inverse {
        full
    } else {
        full.neg()
    }
}

/// The twiddle factor `exp(sign * 2 * pi * i * num / den)`.
pub fn twiddle<T: Num>(inverse: bool, num: usize, den: usize) -> Complex<T>
    requires
        den >= 1,
        num <= 0x4000_0000,
{
    Complex::expi(twiddle_angle(inverse, num, den))
}

/// The size-4 DFT of four complex values, natural input and output order.
/// The inverse flag picks the conjugated kernel (no rescaling).
pub fn dft4<T: Num>(c0: Complex<T>, c1: Complex<T>, c2: Complex<T>, c3: Complex<T>, inverse: bool)
    -> (Complex<T>, Complex<T>, Complex<T>, Complex<T>) {
    let t0 = c0.add(c2);
    let t1 = c1.add(c3);
    let t2 = c0.sub(c2);
    let t3 = c1.sub(c3);
    let x0 = t0.add(t1);
    let x2 = t0.sub(t1);
    let it3 = t3.mul_pos_i();
    let (x1, x3) = if inverse {
        (t2.add(it3), t2.sub(it3))
    } else {
        (t2.sub(it3), t2.add(it3))
    };
    (x0, x1, x2, x3)
}

/// Reads the complex element `idx` of an interleaved buffer.
pub fn complex_read<T: Num>(buf: &Vec<T>, idx: usize) -> (r: Complex<T>)
    requires
        2 * idx + 1 < buf@.len(),
    ensures
        r.re == buf@[2 * idx as int],
        r.im == buf@[2 * idx as int + 1],
{
    let n = buf.len();
    proof {
        assert(n == buf@.len());
    }
    Complex { re: buf[2 * idx], im: buf[2 * idx + 1] }
}

/// Writes the complex element `idx` of an interleaved buffer.
pub fn complex_write<T: Num>(buf: &mut Vec<T>, idx: usize, v: Complex<T>)
    requires
        2 * idx + 1 < old(buf)@.len(),
    ensures
        final(buf)@ == old(buf)@.update(2 * idx as int, v.re).update(2 * idx as int + 1, v.im),
        final(buf)@.len() == old(buf)@.len(),
{
    let n = buf.len();
    proof {
        assert(n == buf@.len());
    }
    buf[2 * idx] = v.re;
    buf[2 * idx + 1] = v.im;
}

} // verus!
