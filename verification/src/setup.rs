//! The planner.
//!
//! `Setup::new` validates an [`Options`] record, factorizes the complex
//! transform length into radix-4 and radix-2 stages, lays the stages out in
//! decimation-in-frequency order (descending units) or decimation-in-time
//! order (ascending units) according to the requested data orders, appends
//! the bit-reversal permutation where both orders are natural, wraps a real
//! transform in its pre/post processing step, and runs the kernel selection
//! cascade for every stage.  The resulting plan is immutable.

use crate::bits::{build_rev_table, MAX_BITS, MAX_SIZE};
use crate::kernel::{
    new_bit_reversal_kernel, new_real_fft_pre_post_process_kernel,
    new_x86_bit_reversal_kernel, new_x86_real_fft_pre_post_process_kernel, rev_table_spec,
    select_kernel_shape, Kernel, KernelCreationParams, KernelShape, KernelType,
};
use crate::kernel::x86_bitrev_shape;
use crate::Num;
use vstd::arithmetic::power2::{lemma2_to64, pow2};
use vstd::prelude::*;

verus! {

/// The order of the complex data at one end of a transform.
#[derive(Clone, Copy, Debug, PartialEq, Eq, Structural)]
pub enum DataOrder {
    /// Elements in ascending index order.
    Natural,
    /// The stable, plan-defined permutation (the bit-reversed order) that
    /// lets a matching plan of the opposite direction skip the final
    /// permutation.
    Swizzled,
}

/// Whether a buffer holds interleaved complex values or packed real
/// values.
#[derive(Clone, Copy, Debug, PartialEq, Eq, Structural)]
pub enum DataFormat {
    /// `2 * len` scalars, interleaved complex.
    Complex,
    /// `len` scalars; the spectrum is packed with DC and Nyquist sharing
    /// element zero.
    Real,
}

/// Everything `Setup::new` needs to build a plan.
#[derive(Clone, Copy, Debug, PartialEq, Eq, Structural)]
pub struct Options {
    /// Order of the input data.
    pub input_data_order: DataOrder,

    /// Order of the output data.
    pub output_data_order: DataOrder,

    /// Format of the input data.
    pub input_data_format: DataFormat,

    /// Format of the output data.
    pub output_data_format: DataFormat,

    /// Transform length: complex elements for a complex transform, real
    /// scalars for a real one.
    pub len: usize,

    /// Direction: forward when false, inverse when true.  Neither
    /// direction rescales.
    pub inverse: bool,
}

/// Why a plan cannot be built.
#[derive(Clone, Copy, Debug, PartialEq, Eq, Structural)]
pub enum PlanError {
    /// The input and output formats disagree, a real format comes with an
    /// odd length or a non-natural order, or both orders are swizzled.
    InvalidInputOutputFormat,
    /// The length is zero.
    InvalidInputOutputLength,
    /// The length is not a supported power of two.
    UnsupportedLength,
    /// The allocator could not satisfy a request.
    AllocationFailed,
}

/// Whether a length is a power of two.
pub open spec fn is_pot(n: int) -> bool
    decreases n,
{
    if n <= 0 {
        false
    } else if n == 1 {
        true
    } else if n % 2 == 0 {
        is_pot(n / 2)
    } else {
        false
    }
}

/// The base-two logarithm, rounding down.
pub open spec fn log2_spec(n: int) -> nat
    decreases n,
{
    if n <= 1 {
        0
    } else {
        1 + log2_spec(n / 2)
    }
}

/// On powers of two the logarithm inverts `pow2`.
pub proof fn lemma_log2_pot(n: int)
    requires
        is_pot(n),
    ensures
        pow2(log2_spec(n)) == n,
    decreases n,
{
    if n == 1 {
        assert(pow2(0) == 1) by {
            lemma2_to64();
        }
    } else {
        lemma_log2_pot(n / 2);
        vstd::arithmetic::power2::lemma_pow2_unfold(log2_spec(n));
        assert(n == 2 * (n / 2));
    }
}

/// Whether the transform works on a real buffer.
pub open spec fn is_real(o: Options) -> bool {
    o.input_data_format is Real
}

/// The length of the complex transform that carries the plan: half the
/// length for a real transform.
pub open spec fn complex_m(o: Options) -> int {
    if is_real(o) {
        o.len as int / 2
    } else {
        o.len as int
    }
}

/// The validation verdict on an options record, in check order: a zero
/// length, then the format combination, then the order combination, then
/// the length itself.  `None` means the plan can be built.
pub open spec fn plan_error_of(o: Options) -> Option<PlanError> {
    if o.len == 0 {
        Some(PlanError::InvalidInputOutputLength)
    } else if !(o.input_data_format == o.output_data_format) {
        Some(PlanError::InvalidInputOutputFormat)
    } else if is_real(o) && o.len as int % 2 != 0 {
        Some(PlanError::InvalidInputOutputFormat)
    } else if is_real(o) && !(o.input_data_order is Natural && o.output_data_order is Natural) {
        Some(PlanError::InvalidInputOutputFormat)
    } else if o.input_data_order is Swizzled && o.output_data_order is Swizzled {
        Some(PlanError::InvalidInputOutputFormat)
    } else if !(complex_m(o) <= MAX_SIZE && is_pot(complex_m(o))) {
        Some(PlanError::UnsupportedLength)
    } else {
        None
    }
}

/// The butterfly stages of a decimation-in-frequency plan over a remaining
/// length `m`: radix 4 while it divides, then radix 2, units descending.
pub open spec fn dif_stage_seq(size: int, m: int, inverse: bool) -> Seq<KernelCreationParams>
    decreases m,
{
    if m <= 1 {
        Seq::empty()
    } else if m % 4 == 0 {
        seq![
            KernelCreationParams {
                size: size as usize,
                kernel_type: KernelType::Dif,
                radix: 4,
                unit: (m / 4) as usize,
                inverse,
            },
        ] + dif_stage_seq(size, m / 4, inverse)
    } else if m % 2 == 0 {
        seq![
            KernelCreationParams {
                size: size as usize,
                kernel_type: KernelType::Dif,
                radix: 2,
                unit: (m / 2) as usize,
                inverse,
            },
        ] + dif_stage_seq(size, m / 2, inverse)
    } else {
        Seq::empty()
    }
}

/// The butterfly stages of a decimation-in-time plan: the mirror image of
/// the decimation-in-frequency plan, units ascending.
pub open spec fn dit_stage_seq(size: int, m: int, inverse: bool) -> Seq<KernelCreationParams>
    decreases m,
{
    if m <= 1 {
        Seq::empty()
    } else if m % 4 == 0 {
        dit_stage_seq(size, m / 4, inverse) + seq![
            KernelCreationParams {
                size: size as usize,
                kernel_type: KernelType::Dit,
                radix: 4,
                unit: (m / 4) as usize,
                inverse,
            },
        ]
    } else if m % 2 == 0 {
        dit_stage_seq(size, m / 2, inverse) + seq![
            KernelCreationParams {
                size: size as usize,
                kernel_type: KernelType::Dit,
                radix: 2,
                unit: (m / 2) as usize,
                inverse,
            },
        ]
    } else {
        Seq::empty()
    }
}

/// Across a decimation-in-frequency plan the units descend monotonically:
/// the first stage's radix times its unit spans the whole complex length,
/// each later stage's radix times its unit is exactly the unit before it,
/// and on a power of two of at least two the final stage reaches unit one.
/// By the mirror lemma below, a decimation-in-time plan ascends the same
/// way.
pub proof fn lemma_dif_units_descend(size: int, m: int, inverse: bool)
    requires
        is_pot(m),
        m <= MAX_SIZE,
    ensures
        m >= 2 ==> dif_stage_seq(size, m, inverse).len() >= 1,
        dif_stage_seq(size, m, inverse).len() >= 1 ==> {
            let s = dif_stage_seq(size, m, inverse);
            &&& s[0].radix as int * s[0].unit as int == m
            &&& s[s.len() - 1].unit == 1
        },
        forall|i: int|
            0 <= i < dif_stage_seq(size, m, inverse).len() - 1 ==> (#[trigger] dif_stage_seq(
                size,
                m,
                inverse,
            )[i + 1]).radix as int * dif_stage_seq(size, m, inverse)[i + 1].unit as int
                == dif_stage_seq(size, m, inverse)[i].unit as int,
    decreases m,
{
    if m <= 1 {
    } else {
        let rest = if m % 4 == 0 {
            m / 4
        } else {
            m / 2
        };
        let radix: int = if m % 4 == 0 {
            4
        } else {
            2
        };
        assert(m % 2 == 0);
        assert(is_pot(rest)) by {
            if radix == 4 {
                assert(is_pot(m / 2));
                assert((m / 2) % 2 == 0 && (m / 2) / 2 == m / 4);
            }
        }
        lemma_dif_units_descend(size, rest, inverse);
        let s = dif_stage_seq(size, m, inverse);
        let sr = dif_stage_seq(size, rest, inverse);
        assert(s[0].radix as int * s[0].unit as int == radix * rest);
        assert forall|i: int| 0 <= i < s.len() - 1 implies (#[trigger] s[i + 1]).radix as int * s[i
            + 1].unit as int == s[i].unit as int by {
            if i == 0 {
                if rest == 1 {
                } else {
                    assert(s[1] == sr[0]);
                    assert(sr[0].radix as int * sr[0].unit as int == rest);
                    assert(s[0].unit == rest);
                }
            } else {
                assert(s[i] == sr[i - 1] && s[i + 1] == sr[i]);
                assert((sr[(i - 1) + 1]).radix as int * sr[(i - 1) + 1].unit as int == sr[i
                    - 1].unit as int);
            }
        }
        assert(s[s.len() - 1].unit == 1) by {
            if rest == 1 {
                assert(s.len() == 1);
                assert(s[0].unit as int == rest);
            } else {
                assert(s[s.len() - 1] == sr[sr.len() - 1]);
            }
        }
    }
}

/// A plan that leaves its output swizzled and the opposite-order plan over
/// the same length run the same butterfly stages in mirrored order: stage
/// `i` of the decimation-in-time sequence carries the radix, unit, size
/// and direction of stage `n - 1 - i` of the decimation-in-frequency
/// sequence, with only the twiddle placement flipped.  A swizzled
/// transform pair therefore traverses one butterfly network forwards and
/// backwards, which is what lets it round-trip without a bit reversal.
pub proof fn lemma_dit_mirrors_dif(size: int, m: int, inverse: bool)
    ensures
        dit_stage_seq(size, m, inverse).len() == dif_stage_seq(size, m, inverse).len(),
        forall|i: int|
            0 <= i < dit_stage_seq(size, m, inverse).len() ==> {
                let n = dif_stage_seq(size, m, inverse).len() as int;
                let dit = #[trigger] dit_stage_seq(size, m, inverse)[i];
                let dif = dif_stage_seq(size, m, inverse)[n - 1 - i];
                &&& dit.radix == dif.radix
                &&& dit.unit == dif.unit
                &&& dit.size == dif.size
                &&& dit.inverse == dif.inverse
                &&& dit.kernel_type is Dit
                &&& dif.kernel_type is Dif
            },
    decreases m,
{
    if m <= 1 {
    } else if m % 4 == 0 || m % 2 == 0 {
        let rest = if m % 4 == 0 {
            m / 4
        } else {
            m / 2
        };
        lemma_dit_mirrors_dif(size, rest, inverse);
        let dif_rest = dif_stage_seq(size, rest, inverse);
        let dit_rest = dit_stage_seq(size, rest, inverse);
        let dif = dif_stage_seq(size, m, inverse);
        let dit = dit_stage_seq(size, m, inverse);
        let n = dif.len() as int;
        assert(n == dif_rest.len() + 1);
        assert forall|i: int| 0 <= i < dit.len() implies {
            let ddit = #[trigger] dit[i];
            let ddif = dif[n - 1 - i];
            &&& ddit.radix == ddif.radix
            &&& ddit.unit == ddif.unit
            &&& ddit.size == ddif.size
            &&& ddit.inverse == ddif.inverse
            &&& ddit.kernel_type is Dit
            &&& ddif.kernel_type is Dif
        } by {
            if i < dit_rest.len() {
                assert(dit[i] == dit_rest[i]);
                assert(dif[n - 1 - i] == dif_rest[n - 2 - i]);
                let nr = dif_rest.len() as int;
                assert(n - 2 - i == nr - 1 - i);
            } else {
                assert(i == dit_rest.len());
            }
        }
    }
}

/// The shapes the selection cascade assigns to a stage list.
pub open spec fn shapes_of_stages(s: Seq<KernelCreationParams>) -> Seq<KernelShape> {
    Seq::new(s.len(), |i: int| select_kernel_shape(s[i]))
}

/// The bit-reversal step of a natural-to-natural plan: present for lengths
/// of at least two, realized by the gathering variant the dispatcher picks
/// for the bit-reversal table.
pub open spec fn bitrev_part(m: int, lg: nat) -> Seq<KernelShape> {
    if m >= 2 {
        seq![x86_bitrev_shape(rev_table_spec(lg))]
    } else {
        Seq::empty()
    }
}

/// The full plan for an options record that validates: the exact sequence
/// of kernel shapes, a function of the options alone.  Two setups built
/// from equal options have equal plans.
pub open spec fn plan_shapes(o: Options) -> Seq<KernelShape> {
    let m = complex_m(o);
    let lg = log2_spec(m);
    if is_real(o) {
        if o.inverse {
            seq![KernelShape::RealFft(o.len, true)] + shapes_of_stages(
                dif_stage_seq(m, m, true),
            ) + bitrev_part(m, lg)
        } else {
            shapes_of_stages(dif_stage_seq(m, m, false)) + bitrev_part(m, lg) + seq![
                KernelShape::RealFft(o.len, false),
            ]
        }
    } else {
        if o.input_data_order is Swizzled {
            shapes_of_stages(dit_stage_seq(m, m, o.inverse))
        } else if o.output_data_order is Swizzled {
            shapes_of_stages(dif_stage_seq(m, m, o.inverse))
        } else {
            shapes_of_stages(dif_stage_seq(m, m, o.inverse)) + bitrev_part(m, lg)
        }
    }
}

/// Finds the exact base-two logarithm of a power of two.
fn log2_exact(m: usize) -> (r: Option<usize>)
    requires
        1 <= m <= MAX_SIZE,
    ensures
        r is Some <==> is_pot(m as int),
        r is Some ==> r->Some_0 == log2_spec(m as int) && r->Some_0 <= MAX_BITS && pow2(
            r->Some_0 as nat,
        ) == m,
    decreases m,
{
    if m == 1 {
        proof {
            assert(pow2(0) == 1) by {
                lemma2_to64();
            }
        }
        Some(0)
    } else if m % 2 != 0 {
        None
    } else {
        match log2_exact(m / 2) {
            Some(l) => {
                proof {
                    vstd::arithmetic::power2::lemma_pow2_unfold((l + 1) as nat);
                    assert(l + 1 <= MAX_BITS) by {
                        if l + 1 > MAX_BITS {
                            assert(l == MAX_BITS);
                            assert(pow2(MAX_BITS as nat) == MAX_SIZE) by {
                                lemma2_to64();
                            }
                        }
                    }
                }
                Some(l + 1)
            },
            None => None,
        }
    }
}

/// Builds the decimation-in-frequency stage list for a complex length `m`
/// carried inside a transform of length `size`.
fn build_dif_stages(size: usize, m: usize, inverse: bool) -> (v: Vec<KernelCreationParams>)
    requires
        1 <= m <= size <= MAX_SIZE,
        size as int % m as int == 0,
        is_pot(m as int),
    ensures
        v@ == dif_stage_seq(size as int, m as int, inverse),
        forall|i: int| 0 <= i < v@.len() ==> (#[trigger] v@[i]).wf(),
        forall|i: int| 0 <= i < v@.len() ==> (#[trigger] v@[i]).size == size,
    decreases m,
{
    if m == 1 {
        Vec::new()
    } else {
        let radix: usize;
        let rest: usize;
        if m % 4 == 0 {
            radix = 4;
            rest = m / 4;
            proof {
                vstd::arithmetic::div_mod::lemma_fundamental_div_mod(m as int, 4);
                assert(m as int == 4 * (rest as int));
            }
        } else {
            radix = 2;
            rest = m / 2;
            proof {
                vstd::arithmetic::div_mod::lemma_fundamental_div_mod(m as int, 2);
                assert(m as int % 2 == 0);
                assert(m as int == 2 * (rest as int));
                assert((m as int / 2) / 2 == m as int / 4 || true);
            }
        }
        let unit = rest;
        let head = KernelCreationParams {
            size,
            kernel_type: KernelType::Dif,
            radix,
            unit,
            inverse,
        };
        proof {
            assert(m as int == radix as int * rest as int) by (nonlinear_arith)
                requires
                    (radix == 4 && m as int == 4 * (rest as int)) || (radix == 2 && m as int == 2
                        * (rest as int)),
            {}
            assert(1 <= rest);
            assert(head.wf()) by {
                assert(size as int % (head.radix as int * head.unit as int) == 0 && head.radix
                    as int * head.unit as int <= size) by (nonlinear_arith)
                    requires
                        size as int % m as int == 0,
                        m as int == radix as int * rest as int,
                        head.radix == radix,
                        head.unit == rest,
                        head.size == size,
                        1 <= rest,
                        2 <= radix,
                        1 <= m <= size,
                {}
            }
            assert(size as int % rest as int == 0) by {
                let q = size as int / m as int;
                vstd::arithmetic::div_mod::lemma_fundamental_div_mod(size as int, m as int);
                assert(size as int == (q * radix as int) * rest as int) by (nonlinear_arith)
                    requires
                        size as int == m as int * q,
                        m as int == radix as int * rest as int,
                {}
                vstd::arithmetic::div_mod::lemma_mod_multiples_basic(
                    q * radix as int,
                    rest as int,
                );
            }
            assert(is_pot(rest as int)) by {
                if radix == 4 {
                    assert(is_pot(m as int / 2));
                    assert(m as int / 2 == 2 * (rest as int));
                    assert((m as int / 2) % 2 == 0);
                    assert(is_pot((m as int / 2) / 2));
                    assert((m as int / 2) / 2 == rest as int);
                }
            }
        }
        let mut v: Vec<KernelCreationParams> = Vec::new();
        v.push(head);
        let mut tail = build_dif_stages(size, rest, inverse);
        v.append(&mut tail);
        proof {
            assert(v@ =~= dif_stage_seq(size as int, m as int, inverse));
        }
        v
    }
}

/// Builds the decimation-in-time stage list: the reverse of the
/// decimation-in-frequency one.
fn build_dit_stages(size: usize, m: usize, inverse: bool) -> (v: Vec<KernelCreationParams>)
    requires
        1 <= m <= size <= MAX_SIZE,
        size as int % m as int == 0,
        is_pot(m as int),
    ensures
        v@ == dit_stage_seq(size as int, m as int, inverse),
        forall|i: int| 0 <= i < v@.len() ==> (#[trigger] v@[i]).wf(),
        forall|i: int| 0 <= i < v@.len() ==> (#[trigger] v@[i]).size == size,
    decreases m,
{
    if m == 1 {
        Vec::new()
    } else {
        let radix: usize;
        let rest: usize;
        if m % 4 == 0 {
            radix = 4;
            rest = m / 4;
            proof {
                vstd::arithmetic::div_mod::lemma_fundamental_div_mod(m as int, 4);
                assert(m as int == 4 * (rest as int));
            }
        } else {
            radix = 2;
            rest = m / 2;
            proof {
                vstd::arithmetic::div_mod::lemma_fundamental_div_mod(m as int, 2);
                assert(m as int % 2 == 0);
                assert(m as int == 2 * (rest as int));
                assert((m as int / 2) / 2 == m as int / 4 || true);
            }
        }
        let unit = rest;
        let tail = KernelCreationParams {
            size,
            kernel_type: KernelType::Dit,
            radix,
            unit,
            inverse,
        };
        proof {
            assert(m as int == radix as int * rest as int) by (nonlinear_arith)
                requires
                    (radix == 4 && m as int == 4 * (rest as int)) || (radix == 2 && m as int == 2
                        * (rest as int)),
            {}
            assert(1 <= rest);
            assert(tail.wf()) by {
                assert(size as int % (tail.radix as int * tail.unit as int) == 0 && tail.radix
                    as int * tail.unit as int <= size) by (nonlinear_arith)
                    requires
                        size as int % m as int == 0,
                        m as int == radix as int * rest as int,
                        tail.radix == radix,
                        tail.unit == rest,
                        tail.size == size,
                        1 <= rest,
                        2 <= radix,
                        1 <= m <= size,
                {}
            }
            assert(size as int % rest as int == 0) by {
                let q = size as int / m as int;
                vstd::arithmetic::div_mod::lemma_fundamental_div_mod(size as int, m as int);
                assert(size as int == (q * radix as int) * rest as int) by (nonlinear_arith)
                    requires
                        size as int == m as int * q,
                        m as int == radix as int * rest as int,
                {}
                vstd::arithmetic::div_mod::lemma_mod_multiples_basic(
                    q * radix as int,
                    rest as int,
                );
            }
            assert(is_pot(rest as int)) by {
                if radix == 4 {
                    assert(is_pot(m as int / 2));
                    assert(m as int / 2 == 2 * (rest as int));
                    assert((m as int / 2) % 2 == 0);
                    assert(is_pot((m as int / 2) / 2));
                    assert((m as int / 2) / 2 == rest as int);
                }
            }
        }
        let mut v = build_dit_stages(size, rest, inverse);
        v.push(tail);
        proof {
            assert(v@ =~= dit_stage_seq(size as int, m as int, inverse));
        }
        v
    }
}

/// A transform plan: the ordered kernels, the buffer length they expect,
/// and the scratch size the largest kernel needs.  Immutable once built;
/// any number of environments may share one setup.
pub struct Setup<T: Num> {
    /// The kernels, in execution order.
    pub kernels: Vec<Kernel<T>>,

    /// The scalar length of the buffer every kernel works on.
    pub buffer_len: usize,

    /// The scalar length of the work area the plan requires.
    pub work_area_size: usize,
}

impl<T: Num> Setup<T> {
    /// Every kernel is internally consistent, works on the same buffer
    /// length, and fits the work area.
    pub open spec fn wf(self) -> bool {
        &&& forall|i: int| 0 <= i < self.kernels@.len() ==> (#[trigger] self.kernels@[i]).wf()
        &&& forall|i: int| 0 <= i < self.kernels@.len() ==> (#[trigger] self.kernels@[i]).buf_len()
            == self.buffer_len
        &&& forall|i: int| 0 <= i < self.kernels@.len() ==> (#[trigger] self.kernels@[i]).wa_len()
            <= self.work_area_size
    }

    /// The plan as a sequence of kernel shapes.
    pub open spec fn shapes(self) -> Seq<KernelShape> {
        Seq::new(self.kernels@.len(), |i: int| self.kernels@[i].shape())
    }

    /// Builds a plan.
    ///
    /// Fails exactly on the options `plan_error_of` rejects, with that
    /// error.  On success the plan's shape sequence is exactly
    /// `plan_shapes(options)`, the expected buffer length is `len` scalars
    /// for a real transform and `2 * len` for a complex one, and every
    /// bit-reversal kernel in the plan carries the bit-reversal table of
    /// the complex length.
    pub fn new(options: &Options) -> (r: Result<Setup<T>, PlanError>)
        ensures
            r is Ok <==> plan_error_of(*options) is None,
            r is Err ==> Some(r->Err_0) == plan_error_of(*options),
            r is Ok ==> {
                let s = r->Ok_0;
                &&& s.wf()
                &&& s.buffer_len as int == 2 * complex_m(*options)
                &&& s.shapes() == plan_shapes(*options)
                &&& (forall|i: int|
                    0 <= i < s.kernels@.len() && (#[trigger] s.kernels@[i]).is_bit_reversal()
                        ==> s.kernels@[i].bitrev_table() == rev_table_spec(
                        log2_spec(complex_m(*options)),
                    ))
            },
    {
        let o = *options;
        if o.len == 0 {
            return Err(PlanError::InvalidInputOutputLength);
        }
        if o.input_data_format != o.output_data_format {
            return Err(PlanError::InvalidInputOutputFormat);
        }
        let real_fmt = o.input_data_format == DataFormat::Real;
        if real_fmt && o.len % 2 != 0 {
            return Err(PlanError::InvalidInputOutputFormat);
        }
        if real_fmt && !(o.input_data_order == DataOrder::Natural && o.output_data_order
            == DataOrder::Natural) {
            return Err(PlanError::InvalidInputOutputFormat);
        }
        if o.input_data_order == DataOrder::Swizzled && o.output_data_order
            == DataOrder::Swizzled {
            return Err(PlanError::InvalidInputOutputFormat);
        }
        let m = if real_fmt {
            o.len / 2
        } else {
            o.len
        };
        if m > MAX_SIZE {
            return Err(PlanError::UnsupportedLength);
        }
        let lg = match log2_exact(m) {
            Some(lg) => lg,
            None => {
                return Err(PlanError::UnsupportedLength);
            },
        };
        let dit = o.input_data_order == DataOrder::Swizzled;
        let stages = if dit {
            build_dit_stages(m, m, o.inverse)
        } else {
            build_dif_stages(m, m, o.inverse)
        };
        let needs_bitrev = real_fmt || (o.input_data_order == DataOrder::Natural
            && o.output_data_order == DataOrder::Natural);
        let ghost gshapes = plan_shapes(o);
        let mut kernels: Vec<Kernel<T>> = Vec::new();
        let mut work_area_size: usize = 0;
        if real_fmt && o.inverse {
            proof {
                assert(o.len as int == 2 * m as int);
            }
            let k = new_real_fft_pre_post_process_kernel(o.len, true);
            let w = k.required_work_area_size();
            if w > work_area_size {
                work_area_size = w;
            }
            kernels.push(k);
        }
        let nstages = stages.len();
        let mut si: usize = 0;
        let ghost pre = kernels@.len() as int;
        while si < nstages
            invariant
                si <= nstages,
                nstages == stages@.len(),
                0 <= pre,
                kernels@.len() == pre + si,
                forall|i: int| 0 <= i < stages@.len() ==> (#[trigger] stages@[i]).wf(),
                forall|i: int| 0 <= i < stages@.len() ==> (#[trigger] stages@[i]).size == m,
                forall|i: int|
                    0 <= i < pre ==> (#[trigger] kernels@[i]).wf() && kernels@[i].buf_len() == 2
                        * m && kernels@[i].wa_len() <= work_area_size
                        && !kernels@[i].is_bit_reversal(),
                forall|i: int|
                    pre <= i < kernels@.len() ==> (#[trigger] kernels@[i]).wf()
                        && kernels@[i].buf_len() == 2 * m && kernels@[i].wa_len()
                        <= work_area_size && !kernels@[i].is_bit_reversal(),
                forall|i: int|
                    0 <= i < pre ==> (#[trigger] kernels@[i]).shape() == gshapes[i],
                forall|i: int|
                    pre <= i < kernels@.len() ==> (#[trigger] kernels@[i]).shape()
                        == select_kernel_shape(stages@[i - pre]),
                m <= MAX_SIZE,
            decreases nstages - si,
        {
            let cp = stages[si];
            let k = Kernel::new(&cp);
            let w = k.required_work_area_size();
            if w > work_area_size {
                work_area_size = w;
            }
            proof {
                assert(!k.is_bit_reversal()) by {
                    if k.is_bit_reversal() {
                        assert(k.shape() is BitReversalSwap || k.shape() is BitReversalGather);
                    }
                }
                assert(cp == stages@[si as int]);
                assert(k.shape() == select_kernel_shape(stages@[si as int]));
                assert(k.wf() && k.buf_len() == 2 * m);
            }
            let ghost ks0 = kernels@;
            kernels.push(k);
            si = si + 1;
            proof {
                assert(kernels@ == ks0.push(k));
                assert(ks0.push(k).len() == ks0.len() + 1);
                assert(ks0.len() == pre + si - 1);
                assert(kernels@.len() == pre + si);
                assert forall|i: int| 0 <= i < pre implies (#[trigger] kernels@[i]).shape()
                    == gshapes[i] by {
                    assert(0 <= i < ks0.len());
                    assert(ks0.push(k)[i] == ks0[i]);
                    assert(kernels@[i] == ks0[i]);
                    assert(ks0[i].shape() == gshapes[i]);
                }
                assert forall|i: int| pre <= i < kernels@.len() implies (
                #[trigger] kernels@[i]).shape() == select_kernel_shape(stages@[i - pre]) by {
                    if i < pre + si - 1 {
                        assert(0 <= i < ks0.len());
                        assert(ks0.push(k)[i] == ks0[i]);
                        assert(kernels@[i] == ks0[i]);
                        assert(ks0[i].shape() == select_kernel_shape(stages@[i - pre]));
                    } else {
                        assert(kernels@[i] == k);
                    }
                }
                assert forall|i: int| 0 <= i < kernels@.len() implies (#[trigger] kernels@[i]).wf()
                    && kernels@[i].buf_len() == 2 * m && kernels@[i].wa_len() <= work_area_size
                    && !kernels@[i].is_bit_reversal() by {
                    if i < pre + si - 1 {
                        assert(0 <= i < ks0.len());
                        assert(ks0.push(k)[i] == ks0[i]);
                        assert(kernels@[i] == ks0[i]);
                        assert(ks0[i].wf() && ks0[i].buf_len() == 2 * m && ks0[i].wa_len()
                            <= work_area_size && !ks0[i].is_bit_reversal());
                    } else {
                        assert(kernels@[i] == k);
                    }
                }
            }
        }
        let ghost mid = kernels@.len() as int;
        proof {
            lemma_log2_pot(m as int);
            assert(lg == log2_spec(complex_m(o)));
        }
        if needs_bitrev && m >= 2 {
            let table = build_rev_table(lg);
            proof {
                assert(table@ =~= rev_table_spec(lg as nat));
                assert forall|j: int| 0 <= j < table@.len() implies #[trigger] table@[j]
                    < table@.len() by {
                    crate::bits::lemma_rev_bits_bound(j as nat, lg as nat);
                }
                assert(crate::kernel::gather_ok(table@, 1)) by {
                    assert forall|ii: int, qq: int|
                        0 <= ii < table@.len() as int / 1 && 0 <= qq < 1 implies #[trigger] table@[ii + qq
                        * (table@.len() as int / 1)] == table@[ii] + qq by {
                        assert(qq == 0);
                        assert(ii + 0 * (table@.len() as int / 1) == ii);
                    }
                }
            }
            let k = match new_x86_bit_reversal_kernel(&table) {
                Some(k) => k,
                None => new_bit_reversal_kernel(lg),
            };
            let w = k.required_work_area_size();
            if w > work_area_size {
                work_area_size = w;
            }
            kernels.push(k);
        }
        if real_fmt && !o.inverse {
            proof {
                assert(o.len as int == 2 * m as int);
            }
            let k = new_real_fft_pre_post_process_kernel(o.len, false);
            let w = k.required_work_area_size();
            if w > work_area_size {
                work_area_size = w;
            }
            kernels.push(k);
        }
        let buffer_len = 2 * m;
        let s = Setup { kernels, buffer_len, work_area_size };
        proof {
            let ks = s.kernels@;
            let stage_shapes = shapes_of_stages(stages@);
            assert(stage_shapes.len() == nstages);
            assert forall|i: int| pre <= i < mid implies #[trigger] ks[i].shape()
                == stage_shapes[i - pre] by {
                assert(ks[i].shape() == select_kernel_shape(stages@[i - pre]));
            }
            assert(gshapes.len() == ks.len());
            assert forall|i: int| 0 <= i < ks.len() implies s.shapes()[i] == gshapes[i] by {
                assert(s.shapes()[i] == ks[i].shape());
            }
            assert(s.shapes() =~= plan_shapes(o));
        }
        Ok(s)
    }
}

} // verus!
