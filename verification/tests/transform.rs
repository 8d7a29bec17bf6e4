//! End-to-end transform behaviour: the scenarios and the numeric
//! invariants, in single and double precision.

use yfft::{DataFormat, DataOrder, Env, Num, Options, Setup};

#[derive(Clone, Copy, Debug)]
struct F(f32);

impl Num for F {
    fn zero() -> F {
        F(0.0)
    }
    fn from_usize(x: usize) -> F {
        F(x as f32)
    }
    fn pi() -> F {
        F(std::f32::consts::PI)
    }
    fn add(self, other: F) -> F {
        F(self.0 + other.0)
    }
    fn sub(self, other: F) -> F {
        F(self.0 - other.0)
    }
    fn mul(self, other: F) -> F {
        F(self.0 * other.0)
    }
    fn div(self, other: F) -> F {
        F(self.0 / other.0)
    }
    fn neg(self) -> F {
        F(-self.0)
    }
    fn sqrt(self) -> F {
        F(self.0.sqrt())
    }
    fn sin(self) -> F {
        F(self.0.sin())
    }
    fn cos(self) -> F {
        F(self.0.cos())
    }
}

#[derive(Clone, Copy, Debug)]
struct D(f64);

impl Num for D {
    fn zero() -> D {
        D(0.0)
    }
    fn from_usize(x: usize) -> D {
        D(x as f64)
    }
    fn pi() -> D {
        D(std::f64::consts::PI)
    }
    fn add(self, other: D) -> D {
        D(self.0 + other.0)
    }
    fn sub(self, other: D) -> D {
        D(self.0 - other.0)
    }
    fn mul(self, other: D) -> D {
        D(self.0 * other.0)
    }
    fn div(self, other: D) -> D {
        D(self.0 / other.0)
    }
    fn neg(self) -> D {
        D(-self.0)
    }
    fn sqrt(self) -> D {
        D(self.0.sqrt())
    }
    fn sin(self) -> D {
        D(self.0.sin())
    }
    fn cos(self) -> D {
        D(self.0.cos())
    }
}

fn complex_options(len: usize, inverse: bool, in_order: DataOrder, out_order: DataOrder)
    -> Options {
    Options {
        input_data_order: in_order,
        output_data_order: out_order,
        input_data_format: DataFormat::Complex,
        output_data_format: DataFormat::Complex,
        len,
        inverse,
    }
}

fn real_options(len: usize, inverse: bool) -> Options {
    Options {
        input_data_order: DataOrder::Natural,
        output_data_order: DataOrder::Natural,
        input_data_format: DataFormat::Real,
        output_data_format: DataFormat::Real,
        len,
        inverse,
    }
}

fn run_f32(options: &Options, data: &[f32]) -> Vec<f32> {
    let setup: Setup<F> = Setup::new(options).unwrap();
    let mut env = Env::new(&setup);
    let mut buf: Vec<F> = data.iter().map(|&x| F(x)).collect();
    env.transform(&mut buf);
    buf.iter().map(|f| f.0).collect()
}

fn run_f64(options: &Options, data: &[f64]) -> Vec<f64> {
    let setup: Setup<D> = Setup::new(options).unwrap();
    let mut env = Env::new(&setup);
    let mut buf: Vec<D> = data.iter().map(|&x| D(x)).collect();
    env.transform(&mut buf);
    buf.iter().map(|d| d.0).collect()
}

/// Reference DFT over interleaved complex data, computed in f64.
fn dft_ref(data: &[f64], inverse: bool) -> Vec<f64> {
    let n = data.len() / 2;
    let sign = if inverse { 1.0 } else { -1.0 };
    let mut out = vec![0.0f64; 2 * n];
    for k in 0..n {
        let mut re = 0.0f64;
        let mut im = 0.0f64;
        for t in 0..n {
            let angle = sign * 2.0 * std::f64::consts::PI * (t as f64) * (k as f64) / (n as f64);
            let (s, c) = angle.sin_cos();
            let xr = data[2 * t];
            let xi = data[2 * t + 1];
            re += xr * c - xi * s;
            im += xr * s + xi * c;
        }
        out[2 * k] = re;
        out[2 * k + 1] = im;
    }
    out
}

fn assert_close(got: &[f32], expected: &[f64], releps: f64) {
    assert_eq!(got.len(), expected.len());
    let maxabs = expected.iter().fold(0.01f64, |a, &b| a.max(b.abs()));
    for i in 0..got.len() {
        let diff = (got[i] as f64 - expected[i]).abs();
        assert!(
            diff <= maxabs * releps,
            "element {}: got {}, expected {}, diff {}",
            i,
            got[i],
            expected[i],
            diff
        );
    }
}

/// A small deterministic generator, enough to fill test buffers.
fn pseudo_random(seed: u64, n: usize) -> Vec<f32> {
    let mut state = seed.wrapping_mul(6364136223846793005).wrapping_add(1442695040888963407);
    let mut out = Vec::with_capacity(n);
    for _ in 0..n {
        state = state.wrapping_mul(6364136223846793005).wrapping_add(1442695040888963407);
        let v = ((state >> 33) as f64) / ((1u64 << 31) as f64) - 1.0;
        out.push(v as f32);
    }
    out
}

#[test]
fn impulse_has_flat_spectrum() {
    let out = run_f32(
        &complex_options(4, false, DataOrder::Natural, DataOrder::Natural),
        &[1.0, 0.0, 0.0, 0.0, 0.0, 0.0, 0.0, 0.0],
    );
    let expected = [1.0, 0.0, 1.0, 0.0, 1.0, 0.0, 1.0, 0.0];
    assert_close(&out, &expected, 1.0e-3);
}

#[test]
fn constant_concentrates_in_dc() {
    let out = run_f32(
        &complex_options(4, false, DataOrder::Natural, DataOrder::Natural),
        &[1.0, 0.0, 1.0, 0.0, 1.0, 0.0, 1.0, 0.0],
    );
    let expected = [4.0, 0.0, 0.0, 0.0, 0.0, 0.0, 0.0, 0.0];
    assert_close(&out, &expected, 1.0e-3);
}

#[test]
fn single_rotation_concentrates_in_bin_one() {
    let out = run_f32(
        &complex_options(4, false, DataOrder::Natural, DataOrder::Natural),
        &[1.0, 0.0, 0.0, 1.0, -1.0, 0.0, 0.0, -1.0],
    );
    let expected = [0.0, 0.0, 4.0, 0.0, 0.0, 0.0, 0.0, 0.0];
    assert_close(&out, &expected, 1.0e-3);
}

#[test]
fn swizzled_round_trip_n128() {
    let size = 128;
    let mut pat = vec![0.0f32; size * 2];
    pat[42] = 100.0;
    pat[82] = 200.0;
    let fwd = run_f32(
        &complex_options(size, false, DataOrder::Natural, DataOrder::Swizzled),
        &pat,
    );
    let back = run_f32(
        &complex_options(size, true, DataOrder::Swizzled, DataOrder::Natural),
        &fwd,
    );
    let expected: Vec<f64> = pat.iter().map(|&x| x as f64).collect();
    let scaled: Vec<f32> = back.iter().map(|&x| x / size as f32).collect();
    assert_close(&scaled, &expected, 1.0e-3);
}

#[test]
fn real_forward_n8() {
    let out = run_f32(&real_options(8, false), &[1.0, 1.0, 1.0, 1.0, 0.0, 0.0, 0.0, 0.0]);
    // DC bin in the real slot, Nyquist packed into the imaginary slot of
    // element zero.
    assert!((out[0] - 4.0).abs() < 1.0e-3);
    assert!(out[1].abs() < 1.0e-3);
    let mag1 = (out[2] * out[2] + out[3] * out[3]).sqrt();
    assert!((mag1 - 2.613).abs() < 2.0e-3, "bin 1 magnitude {}", mag1);
}

#[test]
fn natural_round_trip_n16() {
    let size = 16;
    let pat = pseudo_random(7, size * 2);
    let fwd = run_f32(
        &complex_options(size, false, DataOrder::Natural, DataOrder::Natural),
        &pat,
    );
    let back = run_f32(
        &complex_options(size, true, DataOrder::Natural, DataOrder::Natural),
        &fwd,
    );
    let expected: Vec<f64> = pat.iter().map(|&x| x as f64).collect();
    let scaled: Vec<f32> = back.iter().map(|&x| x / size as f32).collect();
    assert_close(&scaled, &expected, 1.0e-3);
}

#[test]
fn forward_matches_reference_dft() {
    for &size in &[1usize, 2, 4, 8, 16, 32, 64, 128] {
        let pat = pseudo_random(size as u64, size * 2);
        let out = run_f32(
            &complex_options(size, false, DataOrder::Natural, DataOrder::Natural),
            &pat,
        );
        let data64: Vec<f64> = pat.iter().map(|&x| x as f64).collect();
        let expected = dft_ref(&data64, false);
        assert_close(&out, &expected, 1.0e-3);
    }
}

#[test]
fn inverse_matches_reference_dft() {
    for &size in &[2usize, 8, 32] {
        let pat = pseudo_random(100 + size as u64, size * 2);
        let out = run_f32(
            &complex_options(size, true, DataOrder::Natural, DataOrder::Natural),
            &pat,
        );
        let data64: Vec<f64> = pat.iter().map(|&x| x as f64).collect();
        let expected = dft_ref(&data64, true);
        assert_close(&out, &expected, 1.0e-3);
    }
}

#[test]
fn round_trip_scales_by_length() {
    for &size in &[2usize, 4, 8, 16, 64, 256] {
        let pat = pseudo_random(size as u64 + 1, size * 2);
        let fwd = run_f32(
            &complex_options(size, false, DataOrder::Natural, DataOrder::Natural),
            &pat,
        );
        let back = run_f32(
            &complex_options(size, true, DataOrder::Natural, DataOrder::Natural),
            &fwd,
        );
        let expected: Vec<f64> = pat.iter().map(|&x| (x * size as f32) as f64).collect();
        assert_close(&back, &expected, 1.0e-3);
    }
}

#[test]
fn linearity() {
    let size = 16;
    let alpha = 0.75f32;
    let beta = -1.5f32;
    let x = pseudo_random(21, size * 2);
    let y = pseudo_random(22, size * 2);
    let opts = complex_options(size, false, DataOrder::Natural, DataOrder::Natural);
    let fx = run_f32(&opts, &x);
    let fy = run_f32(&opts, &y);
    let mix: Vec<f32> = x.iter().zip(y.iter()).map(|(&a, &b)| alpha * a + beta * b).collect();
    let fmix = run_f32(&opts, &mix);
    let expected: Vec<f64> = fx
        .iter()
        .zip(fy.iter())
        .map(|(&a, &b)| (alpha as f64) * (a as f64) + (beta as f64) * (b as f64))
        .collect();
    assert_close(&fmix, &expected, 1.0e-3);
}

#[test]
fn parseval() {
    let size = 32;
    let x = pseudo_random(5, size * 2);
    let out = run_f32(
        &complex_options(size, false, DataOrder::Natural, DataOrder::Natural),
        &x,
    );
    let time_energy: f64 = x.iter().map(|&v| (v as f64) * (v as f64)).sum();
    let freq_energy: f64 = out.iter().map(|&v| (v as f64) * (v as f64)).sum();
    let scaled = freq_energy / size as f64;
    assert!(
        (time_energy - scaled).abs() <= 1.0e-3 * time_energy.max(0.01),
        "time {} freq/N {}",
        time_energy,
        scaled
    );
}

#[test]
fn real_input_spectrum_is_conjugate_symmetric() {
    let size = 32;
    let reals = pseudo_random(9, size);
    let mut data = vec![0.0f32; size * 2];
    for i in 0..size {
        data[2 * i] = reals[i];
    }
    let out = run_f32(
        &complex_options(size, false, DataOrder::Natural, DataOrder::Natural),
        &data,
    );
    for k in 1..size {
        let re_k = out[2 * k] as f64;
        let im_k = out[2 * k + 1] as f64;
        let re_nk = out[2 * (size - k)] as f64;
        let im_nk = out[2 * (size - k) + 1] as f64;
        assert!((re_k - re_nk).abs() < 1.0e-2, "bin {}", k);
        assert!((im_k + im_nk).abs() < 1.0e-2, "bin {}", k);
    }
}

#[test]
fn packed_real_spectrum_matches_full_dft() {
    for &size in &[2usize, 4, 8, 16, 64] {
        let reals = pseudo_random(31 + size as u64, size);
        let out = run_f32(&real_options(size, false), &reals);
        let mut data64 = vec![0.0f64; size * 2];
        for i in 0..size {
            data64[2 * i] = reals[i] as f64;
        }
        let full = dft_ref(&data64, false);
        let maxabs = full.iter().fold(0.01f64, |a, &b| a.max(b.abs()));
        assert!((out[0] as f64 - full[0]).abs() <= 1.0e-3 * maxabs, "dc, size {}", size);
        assert!(
            (out[1] as f64 - full[size]).abs() <= 1.0e-3 * maxabs,
            "nyquist, size {}",
            size
        );
        for k in 1..size / 2 {
            assert!(
                (out[2 * k] as f64 - full[2 * k]).abs() <= 1.0e-3 * maxabs,
                "bin {} re, size {}",
                k,
                size
            );
            assert!(
                (out[2 * k + 1] as f64 - full[2 * k + 1]).abs() <= 1.0e-3 * maxabs,
                "bin {} im, size {}",
                k,
                size
            );
        }
    }
}

#[test]
fn real_round_trip_scales_by_half_length() {
    for &size in &[2usize, 4, 8, 16, 64] {
        let reals = pseudo_random(77 + size as u64, size);
        let fwd = run_f32(&real_options(size, false), &reals);
        let back = run_f32(&real_options(size, true), &fwd);
        let scale = (size / 2) as f64;
        let expected: Vec<f64> = reals.iter().map(|&x| x as f64 * scale).collect();
        assert_close(&back, &expected, 1.0e-3);
    }
}

#[test]
fn swizzle_is_stable_across_setups() {
    let size = 64;
    let pat = pseudo_random(12, size * 2);
    let opts = complex_options(size, false, DataOrder::Natural, DataOrder::Swizzled);
    let out1 = run_f32(&opts, &pat);
    let out2 = run_f32(&opts, &pat);
    for i in 0..out1.len() {
        assert_eq!(out1[i].to_bits(), out2[i].to_bits(), "element {}", i);
    }
}

#[test]
fn scratch_contents_do_not_affect_output() {
    let size = 64;
    let pat = pseudo_random(3, size * 2);
    let opts = complex_options(size, false, DataOrder::Natural, DataOrder::Natural);
    let setup: Setup<F> = Setup::new(&opts).unwrap();
    let mut env = Env::new(&setup);

    let mut buf1: Vec<F> = pat.iter().map(|&x| F(x)).collect();
    env.transform(&mut buf1);

    for slot in env.params.work_area.iter_mut() {
        *slot = F(f32::NAN);
    }
    let mut buf2: Vec<F> = pat.iter().map(|&x| F(x)).collect();
    env.transform(&mut buf2);

    for i in 0..buf1.len() {
        assert_eq!(buf1[i].0.to_bits(), buf2[i].0.to_bits(), "element {}", i);
    }
}

#[test]
fn double_precision_round_trip() {
    let size = 64;
    let pat: Vec<f64> = pseudo_random(40, size * 2).iter().map(|&x| x as f64).collect();
    let fwd = run_f64(
        &complex_options(size, false, DataOrder::Natural, DataOrder::Natural),
        &pat,
    );
    let back = run_f64(
        &complex_options(size, true, DataOrder::Natural, DataOrder::Natural),
        &fwd,
    );
    let maxabs = pat.iter().fold(0.01f64, |a, &b| a.max(b.abs()));
    for i in 0..back.len() {
        let diff = (back[i] / size as f64 - pat[i]).abs();
        assert!(diff <= 1.0e-9 * maxabs, "element {} diff {}", i, diff);
    }
}

#[test]
fn forward_from_swizzled_input_matches_reference_dft() {
    // Feeding a bit-reversed buffer to a swizzled-input forward plan gives
    // the naturally ordered spectrum of the unreversed signal.
    for &size in &[4usize, 8, 16, 64] {
        let nbits = size.trailing_zeros();
        let pat = pseudo_random(55 + size as u64, size * 2);
        let mut swizzled = vec![0.0f32; size * 2];
        for i in 0..size {
            let r = (i as u32).reverse_bits() as usize >> (32 - nbits);
            swizzled[2 * r] = pat[2 * i];
            swizzled[2 * r + 1] = pat[2 * i + 1];
        }
        let out = run_f32(
            &complex_options(size, false, DataOrder::Swizzled, DataOrder::Natural),
            &swizzled,
        );
        let data64: Vec<f64> = pat.iter().map(|&x| x as f64).collect();
        let expected = dft_ref(&data64, false);
        assert_close(&out, &expected, 1.0e-3);
    }
}

#[test]
fn one_element_transform_is_identity() {
    let out = run_f32(
        &complex_options(1, false, DataOrder::Natural, DataOrder::Natural),
        &[3.5, -2.0],
    );
    assert_eq!(out, vec![3.5, -2.0]);
}
