//! A one-dimensional fast Fourier transform engine for small power-of-two
//! transforms.
//!
//! A [`Setup`] is built once from an [`Options`] record: it factorizes the
//! transform length into radix-4 and radix-2 butterfly stages, picks a kernel
//! variant for every stage, and precomputes twiddle tables and the
//! bit-reversal index table.  A cheap [`Env`] owns the scratch work area and
//! applies the plan to a user buffer in place.
//!
//! Complex sequences are stored interleaved (`r0 i0 r1 i1 ...`).  Forward and
//! inverse transforms are unnormalized: a round trip over a complex plan pair
//! scales the data by the transform length.  Clients that do not need
//! naturally ordered data can opt in to a swizzled (bit-reversed) input or
//! output order and skip the final permutation.
//!
//! The scalar type is abstract: every kernel is generic over the [`Num`]
//! capability, which collects the closure, trigonometric and constant
//! operations the twiddle computations need.  The caller supplies the
//! concrete floating-point carrier.

mod bits;
mod complex;
mod env;
pub mod kernel;
pub mod setup;

use vstd::prelude::*;

verus! {

/// Scalar capability for transform elements.
///
/// Collects the arithmetic closure operations, the constants and the
/// trigonometric functions that plan construction and the butterfly kernels
/// use.  Single precision is the optimized target; any carrier with these
/// operations works.  The library states nothing about the numeric results of
/// these operations: accuracy is the carrier's affair.
pub trait Num: Sized + Copy {
    /// The additive identity.
    fn zero() -> Self;

    /// The scalar standing for a small nonnegative integer.
    fn from_usize(x: usize) -> Self;

    /// The constant pi.
    fn pi() -> Self;

    /// Addition.
    fn add(self, other: Self) -> Self;

    /// Subtraction.
    fn sub(self, other: Self) -> Self;

    /// Multiplication.
    fn mul(self, other: Self) -> Self;

    /// Division.
    fn div(self, other: Self) -> Self;

    /// Negation.
    fn neg(self) -> Self;

    /// Square root.
    fn sqrt(self) -> Self;

    /// Sine.
    fn sin(self) -> Self;

    /// Cosine.
    fn cos(self) -> Self;
}

} // verus!

pub use complex::Complex;
pub use env::Env;
pub use kernel::{Kernel, KernelCreationParams, KernelParams, KernelShape, KernelType};
pub use setup::{DataFormat, DataOrder, Options, PlanError, Setup};
