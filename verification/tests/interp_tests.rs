use ebur128::interp::TAPS;
use ebur128::{FrameAccumulator, InterpF};

#[derive(Clone, Copy, Debug, PartialEq)]
struct Mono(f64);

impl FrameAccumulator for Mono {
    type Coeff = f32;

    fn zero_spec() -> Self {
        Mono(0.0)
    }

    fn scale_add_spec(mut self, other: Self, coeff: f32) -> Self {
        self.scale_add(&other, coeff);
        self
    }

    fn zero() -> Self {
        Mono(0.0)
    }

    fn scale_add(&mut self, other: &Self, coeff: f32) {
        self.0 += coeff as f64 * other.0;
    }
}

/// The Hanning-windowed sinc kernel of the true-peak interpolator, laid
/// out as `active_taps` rows of `factor` per-phase coefficients.
fn hanning_sinc_kernel(active_taps: usize, factor: usize) -> Vec<Vec<f32>> {
    assert_eq!(active_taps * factor, TAPS);
    let mut filter = vec![vec![0f32; factor]; active_taps];
    for j in 0..TAPS {
        let jf = j as f64;
        let window = TAPS as f64;
        let w = 0.5 * (1.0 - f64::cos(2.0 * std::f64::consts::PI * jf / window));
        let m = jf - window / 2.0;
        let coeff = if m.abs() > 0.000001 {
            w * f64::sin(m * std::f64::consts::PI / factor as f64)
                / (m * std::f64::consts::PI / factor as f64)
        } else {
            w
        };
        filter[j / factor][j % factor] = coeff as f32;
    }
    filter
}

#[test]
fn unity_gain_on_constant_input() {
    let mut interp: InterpF<12, 4, Mono> = InterpF::new(hanning_sinc_kernel(12, 4));
    let mut last = Vec::new();
    for _ in 0..16 {
        last = interp.interpolate(Mono(1.0));
    }
    assert_eq!(last.len(), 4);
    for out in &last {
        assert!((out.0 - 1.0).abs() < 0.01);
    }
}

#[test]
fn scaling_input_scales_output() {
    let inputs = [0.3, -0.7, 0.11, 0.95, -0.2, 0.04, -0.55, 0.81];
    let mut a: InterpF<12, 4, Mono> = InterpF::new(hanning_sinc_kernel(12, 4));
    let mut b: InterpF<12, 4, Mono> = InterpF::new(hanning_sinc_kernel(12, 4));
    for _ in 0..4 {
        for &x in &inputs {
            let out1 = a.interpolate(Mono(x));
            let out2 = b.interpolate(Mono(2.0 * x));
            for (o1, o2) in out1.iter().zip(out2.iter()) {
                // Doubling is exact in binary floating point.
                assert_eq!(o2.0, 2.0 * o1.0);
            }
        }
    }
}

#[test]
fn oversampled_peak_exceeds_sample_peak() {
    // A quarter-rate sine sampled at phase pi/4 has sample peak sqrt(2)/2
    // but a continuous-time peak of 1: the interpolator must reveal most
    // of the inter-sample overshoot.
    let mut interp: InterpF<12, 4, Mono> = InterpF::new(hanning_sinc_kernel(12, 4));
    let mut sample_peak: f64 = 0.0;
    let mut true_peak: f64 = 0.0;
    for n in 0..200 {
        let x = f64::sin(2.0 * std::f64::consts::PI * 0.25 * n as f64
            + std::f64::consts::PI / 4.0);
        sample_peak = sample_peak.max(x.abs());
        true_peak = true_peak.max(x.abs());
        let outs = interp.interpolate(Mono(x));
        if n > 12 {
            for o in &outs {
                true_peak = true_peak.max(o.0.abs());
            }
        }
    }
    assert!(sample_peak < 0.71);
    assert!(true_peak >= sample_peak);
    assert!(true_peak > 0.95);
}

#[test]
fn reset_matches_fresh_interpolator() {
    let mut used: InterpF<24, 2, Mono> = InterpF::new(hanning_sinc_kernel(24, 2));
    for n in 0..40 {
        used.interpolate(Mono((n as f64 * 0.37).sin()));
    }
    used.reset();
    let mut fresh: InterpF<24, 2, Mono> = InterpF::new(hanning_sinc_kernel(24, 2));
    for n in 0..30 {
        let x = (n as f64 * 0.11).cos();
        let a = used.interpolate(Mono(x));
        let b = fresh.interpolate(Mono(x));
        assert_eq!(a, b);
    }
}

#[test]
fn factor_outputs_per_input() {
    let mut interp: InterpF<24, 2, Mono> = InterpF::new(hanning_sinc_kernel(24, 2));
    let outs = interp.interpolate(Mono(0.5));
    assert_eq!(outs.len(), 2);
}
