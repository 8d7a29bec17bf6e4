//! Planner validation, kernel selection predicates, and the permutation
//! kernels.

use yfft::{
    DataFormat, DataOrder, Kernel, KernelCreationParams, KernelParams, KernelType, Num, Options,
    PlanError, Setup,
};

#[derive(Clone, Copy, Debug)]
struct F(f32);

impl Num for F {
    fn zero() -> F {
        F(0.0)
    }
    fn from_usize(x: usize) -> F {
        F(x as f32)
    }
    fn pi() -> F {
        F(std::f32::consts::PI)
    }
    fn add(self, other: F) -> F {
        F(self.0 + other.0)
    }
    fn sub(self, other: F) -> F {
        F(self.0 - other.0)
    }
    fn mul(self, other: F) -> F {
        F(self.0 * other.0)
    }
    fn div(self, other: F) -> F {
        F(self.0 / other.0)
    }
    fn neg(self) -> F {
        F(-self.0)
    }
    fn sqrt(self) -> F {
        F(self.0.sqrt())
    }
    fn sin(self) -> F {
        F(self.0.sin())
    }
    fn cos(self) -> F {
        F(self.0.cos())
    }
}

fn options(len: usize) -> Options {
    Options {
        input_data_order: DataOrder::Natural,
        output_data_order: DataOrder::Natural,
        input_data_format: DataFormat::Complex,
        output_data_format: DataFormat::Complex,
        len,
        inverse: false,
    }
}

#[test]
fn zero_length_is_rejected() {
    let r: Result<Setup<F>, PlanError> = Setup::new(&options(0));
    assert_eq!(r.err(), Some(PlanError::InvalidInputOutputLength));
}

#[test]
fn mismatched_formats_are_rejected() {
    let mut o = options(16);
    o.output_data_format = DataFormat::Real;
    let r: Result<Setup<F>, PlanError> = Setup::new(&o);
    assert_eq!(r.err(), Some(PlanError::InvalidInputOutputFormat));
}

#[test]
fn odd_real_length_is_rejected() {
    let mut o = options(15);
    o.input_data_format = DataFormat::Real;
    o.output_data_format = DataFormat::Real;
    let r: Result<Setup<F>, PlanError> = Setup::new(&o);
    assert_eq!(r.err(), Some(PlanError::InvalidInputOutputFormat));
}

#[test]
fn swizzled_real_orders_are_rejected() {
    let mut o = options(16);
    o.input_data_format = DataFormat::Real;
    o.output_data_format = DataFormat::Real;
    o.output_data_order = DataOrder::Swizzled;
    let r: Result<Setup<F>, PlanError> = Setup::new(&o);
    assert_eq!(r.err(), Some(PlanError::InvalidInputOutputFormat));
}

#[test]
fn doubly_swizzled_orders_are_rejected() {
    let mut o = options(16);
    o.input_data_order = DataOrder::Swizzled;
    o.output_data_order = DataOrder::Swizzled;
    let r: Result<Setup<F>, PlanError> = Setup::new(&o);
    assert_eq!(r.err(), Some(PlanError::InvalidInputOutputFormat));
}

#[test]
fn non_power_of_two_length_is_rejected() {
    let r: Result<Setup<F>, PlanError> = Setup::new(&options(12));
    assert_eq!(r.err(), Some(PlanError::UnsupportedLength));
}

#[test]
fn oversized_length_is_rejected() {
    let r: Result<Setup<F>, PlanError> = Setup::new(&options(1 << 21));
    assert_eq!(r.err(), Some(PlanError::UnsupportedLength));
}

#[test]
fn accepted_lengths_build_plans() {
    for &len in &[1usize, 2, 4, 8, 1024] {
        let r: Result<Setup<F>, PlanError> = Setup::new(&options(len));
        let s = r.unwrap();
        assert_eq!(s.buffer_len, 2 * len);
    }
}

fn cparams(size: usize, radix: usize, unit: usize) -> KernelCreationParams {
    KernelCreationParams {
        size,
        kernel_type: KernelType::Dif,
        radix,
        unit,
        inverse: false,
    }
}

#[test]
fn creation_params_validity() {
    assert!(cparams(16, 4, 4).is_valid());
    assert!(cparams(16, 4, 1).is_valid());
    assert!(!cparams(16, 4, 3).is_valid());
    assert!(!cparams(16, 1, 1).is_valid());
    assert!(!cparams(0, 2, 1).is_valid());
    assert!(!cparams(16, 4, 8).is_valid());
}

#[test]
fn butterfly_selection_predicates() {
    let some4: Option<Kernel<F>> = yfft::kernel::new_x86_avx_f32_radix4_kernel(&cparams(64, 4, 4));
    assert!(some4.is_some());
    let none4: Option<Kernel<F>> = yfft::kernel::new_x86_avx_f32_radix4_kernel(&cparams(16, 4, 2));
    assert!(none4.is_none());
    let some2: Option<Kernel<F>> = yfft::kernel::new_x86_sse3_f32_radix4_kernel(&cparams(16, 4, 2));
    assert!(some2.is_some());
    let rad2: Option<Kernel<F>> = yfft::kernel::new_x86_sse_radix2_kernel(&cparams(4, 2, 1));
    assert!(rad2.is_some());
    let miss: Option<Kernel<F>> = yfft::kernel::new_x86_sse_radix2_kernel(&cparams(16, 4, 4));
    assert!(miss.is_none());
    let cascade: Option<Kernel<F>> = yfft::kernel::new_x86_kernel(&cparams(64, 4, 16));
    assert!(cascade.is_some());
}

#[test]
fn real_fft_kernel_predicates() {
    let a: Option<Kernel<F>> =
        yfft::kernel::new_x86_sse3_f32_real_fft_pre_post_process_kernel(16, false);
    assert!(a.is_some());
    let b: Option<Kernel<F>> =
        yfft::kernel::new_x86_sse3_f32_real_fft_pre_post_process_kernel(8, false);
    assert!(b.is_none());
    let c: Option<Kernel<F>> =
        yfft::kernel::new_x86_sse3_f32_real_fft_pre_post_process_kernel(12, false);
    assert!(c.is_none());
    let d: Option<Kernel<F>> =
        yfft::kernel::new_x86_avx_f32_real_fft_pre_post_process_kernel(32, true);
    assert!(d.is_some());
    let e: Option<Kernel<F>> =
        yfft::kernel::new_x86_avx_f32_real_fft_pre_post_process_kernel(24, true);
    assert!(e.is_none());
}

fn apply(kernel: &Kernel<F>, data: &[f32]) -> Vec<f32> {
    let mut params = KernelParams {
        coefs: data.iter().map(|&x| F(x)).collect(),
        work_area: vec![F(0.0); kernel.required_work_area_size()],
    };
    kernel.transform(&mut params);
    params.coefs.iter().map(|f| f.0).collect()
}

#[test]
fn bit_reversal_permutes_and_inverts() {
    // 8 complex elements, distinct values; bit reversal of 3 bits.
    let nbits = 3;
    let k: Kernel<F> = yfft::kernel::new_bit_reversal_kernel(nbits);
    let data: Vec<f32> = (0..16).map(|x| x as f32).collect();
    let once = apply(&k, &data);
    // index j receives element rev(j): rev = [0, 4, 2, 6, 1, 5, 3, 7]
    let rev = [0usize, 4, 2, 6, 1, 5, 3, 7];
    for j in 0..8 {
        assert_eq!(once[2 * j], data[2 * rev[j]]);
        assert_eq!(once[2 * j + 1], data[2 * rev[j] + 1]);
    }
    let twice = apply(&k, &once);
    assert_eq!(twice, data);
}

#[test]
fn gathering_bit_reversal_matches_swapping() {
    let nbits = 4;
    let m = 1usize << nbits;
    let table: Vec<usize> = (0..m).map(|i| (i as u32).reverse_bits() as usize >> (32 - nbits)).collect();
    let gather: Kernel<F> = yfft::kernel::new_x86_bit_reversal_kernel(&table).unwrap();
    let swap: Kernel<F> = yfft::kernel::new_bit_reversal_kernel(nbits);
    let data: Vec<f32> = (0..2 * m).map(|x| (x as f32) * 0.5 - 3.0).collect();
    assert_eq!(apply(&gather, &data), apply(&swap, &data));
    let twice = apply(&gather, &apply(&gather, &data));
    assert_eq!(twice, data);
}

#[test]
fn gather_variant_detection() {
    // The identity table satisfies the radix-4 pairing only when each
    // quarter is offset by one, which holds for [0, 1, 2, 3].
    let idx = vec![0usize, 1, 2, 3];
    let k: Option<Kernel<F>> = yfft::kernel::new_x86_avx_radix4_bit_reversal_kernel(&idx);
    assert!(k.is_some());
    // The 8-entry bit-reversal table pairs by halves but not by quarters.
    let rev8 = vec![0usize, 4, 2, 6, 1, 5, 3, 7];
    let r4: Option<Kernel<F>> = yfft::kernel::new_x86_avx_radix4_bit_reversal_kernel(&rev8);
    assert!(r4.is_none());
    let r2: Option<Kernel<F>> = yfft::kernel::new_x86_avx_radix2_bit_reversal_kernel(&rev8);
    assert!(r2.is_some());
    // An out-of-bounds entry is refused everywhere.
    let bad = vec![0usize, 9];
    let rb: Option<Kernel<F>> = yfft::kernel::new_x86_bit_reversal_kernel(&bad);
    assert!(rb.is_none());
}

#[test]
fn generic_kernel_computes_odd_radix_dft() {
    // A single radix-3 stage of size 3 is a direct three-point DFT.
    let cp = KernelCreationParams {
        size: 3,
        kernel_type: KernelType::Dif,
        radix: 3,
        unit: 1,
        inverse: false,
    };
    let k: Kernel<F> = Kernel::new(&cp);
    assert_eq!(k.required_work_area_size(), 6);
    let out = apply(&k, &[1.0, 0.0, 2.0, 0.0, 3.0, 0.0]);
    // X0 = 6; X1 = conj(X2) = -1.5 + i*0.866...
    assert!((out[0] - 6.0).abs() < 1.0e-4);
    assert!(out[1].abs() < 1.0e-4);
    assert!((out[2] + 1.5).abs() < 1.0e-4);
    assert!((out[3] - 0.8660254).abs() < 1.0e-4);
    assert!((out[4] + 1.5).abs() < 1.0e-4);
    assert!((out[5] + 0.8660254).abs() < 1.0e-4);
}

#[test]
fn work_area_sizes() {
    // Power-of-two plans use blocked or unrolled butterflies (no scratch)
    // and the gathering bit reversal (a full buffer of scratch).
    let s: Setup<F> = Setup::new(&options(64)).unwrap();
    assert_eq!(s.buffer_len, 128);
    assert_eq!(s.work_area_size, 128);
    // A swizzled-output plan omits the permutation and needs no scratch.
    let mut o = options(64);
    o.output_data_order = DataOrder::Swizzled;
    let s2: Setup<F> = Setup::new(&o).unwrap();
    assert_eq!(s2.work_area_size, 0);
}
