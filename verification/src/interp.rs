use vstd::prelude::*;
use crate::buffer::{pushed, RollingBuffer};

verus! {

/// Total number of taps every interpolator kernel splits into phases.
pub const TAPS: usize = 48;

/// Capability of a fixed-width multichannel sample frame: a zero value and
/// in-place scaled accumulation. Everything above is generic over it; the
/// concrete frame types (tuples of sample values) and their arithmetic
/// live with the caller. Both operations must be pure functions of their
/// arguments, which the two specification functions name.
pub trait FrameAccumulator: Copy {
    type Coeff: Copy;

    /// The all-zero frame.
    spec fn zero_spec() -> Self;

    /// The frame `scale_add` leaves behind, determined by the accumulator,
    /// the other frame and the coefficient alone.
    spec fn scale_add_spec(self, other: Self, coeff: Self::Coeff) -> Self;

    /// Returns the all-zero frame.
    fn zero() -> (r: Self)
        ensures
            r == Self::zero_spec(),
    ;

    /// In-place scaled accumulation: `*self += coeff * *other`.
    fn scale_add(&mut self, other: &Self, coeff: Self::Coeff)
        ensures
            *final(self) == old(self).scale_add_spec(*other, coeff),
    ;
}

/// The coefficient matrix as a sequence of tap rows, row `t` holding the
/// per-phase coefficients of tap `t`.
pub open spec fn kernel_view<C>(filter: Seq<Vec<C>>) -> Seq<Seq<C>> {
    Seq::new(filter.len(), |t: int| filter[t]@)
}

/// Output frame of phase `p` after accumulating the first `t` taps:
/// starting from zero, tap `k` adds `kernel[k][p] * hist[k]`, the most
/// recent frame weighted by tap row `0`.
pub open spec fn phase_output_upto<F: FrameAccumulator>(
    kernel: Seq<Seq<F::Coeff>>,
    hist: Seq<F>,
    p: int,
    t: int,
) -> F
    decreases t,
{
    if t <= 0 {
        F::zero_spec()
    } else {
        phase_output_upto(kernel, hist, p, t - 1).scale_add_spec(hist[t - 1], kernel[t - 1][p])
    }
}

/// Output frame of phase `p`: the full dot product of the tap column with
/// the buffered history.
pub open spec fn phase_output<F: FrameAccumulator>(
    kernel: Seq<Seq<F::Coeff>>,
    hist: Seq<F>,
    p: int,
) -> F {
    phase_output_upto(kernel, hist, p, kernel.len() as int)
}

/// Polyphase oversampling FIR interpolator: `TAPS` coefficients split into
/// `FACTOR` phases of `ACTIVE_TAPS` taps each, applied to the rolling
/// history of the last `ACTIVE_TAPS` input frames. Each input frame yields
/// `FACTOR` output frames of the oversampled signal.
pub struct InterpF<const ACTIVE_TAPS: usize, const FACTOR: usize, F: FrameAccumulator> {
    filter: Vec<Vec<F::Coeff>>,
    buffer: RollingBuffer<F, ACTIVE_TAPS>,
}

impl<const ACTIVE_TAPS: usize, const FACTOR: usize, F: FrameAccumulator> InterpF<
    ACTIVE_TAPS,
    FACTOR,
    F,
> {
    /// The immutable coefficient matrix, `ACTIVE_TAPS` rows of `FACTOR`
    /// per-phase coefficients.
    pub closed spec fn kernel(self) -> Seq<Seq<F::Coeff>> {
        kernel_view(self.filter@)
    }

    /// The buffered input history, most recent frame first.
    pub closed spec fn history(self) -> Seq<F> {
        self.buffer@
    }

    pub closed spec fn wf(self) -> bool {
        &&& self.buffer.wf()
        &&& ACTIVE_TAPS * FACTOR == TAPS
        &&& ACTIVE_TAPS * 2 <= TAPS
        &&& 0 < ACTIVE_TAPS
        &&& self.filter@.len() == ACTIVE_TAPS
        &&& forall|t: int| 0 <= t < ACTIVE_TAPS ==> (#[trigger] self.filter@[t])@.len() == FACTOR
    }

    /// Builds the interpolator around a ready coefficient matrix whose
    /// `ACTIVE_TAPS * FACTOR` entries cover all `TAPS` kernel taps, with a
    /// history of zero frames.
    pub fn new(filter: Vec<Vec<F::Coeff>>) -> (r: Self)
        requires
            ACTIVE_TAPS * FACTOR == TAPS,
            ACTIVE_TAPS * 2 <= TAPS,
            0 < ACTIVE_TAPS,
            filter@.len() == ACTIVE_TAPS,
            forall|t: int| 0 <= t < ACTIVE_TAPS ==> (#[trigger] filter@[t])@.len() == FACTOR,
        ensures
            r.wf(),
            r.kernel() == kernel_view(filter@),
            r.history() == Seq::new(ACTIVE_TAPS as nat, |i: int| F::zero_spec()),
    {
        let z: F = F::zero();
        Self { filter, buffer: RollingBuffer::new(z) }
    }

    /// Pushes `frame` into the history, then produces the `FACTOR`
    /// interpolated frames between the previous and the current input, in
    /// chronological phase order. The coefficients persist unchanged.
    pub fn interpolate(&mut self, frame: F) -> (out: Vec<F>)
        requires
            old(self).wf(),
        ensures
            final(self).wf(),
            final(self).kernel() == old(self).kernel(),
            final(self).history() == pushed(old(self).history(), frame),
            out@.len() == FACTOR,
            forall|p: int|
                0 <= p < FACTOR ==> out@[p] == phase_output::<F>(
                    final(self).kernel(),
                    final(self).history(),
                    p,
                ),
    {
        self.buffer.push_front(frame);
        let ghost hist = self.history();
        let ghost kernel = self.kernel();
        let buf: &[F] = self.buffer.as_view();
        let mut out: Vec<F> = Vec::new();
        let mut p: usize = 0;
        while p < FACTOR
            invariant
                self.wf(),
                self.kernel() == old(self).kernel(),
                self.history() == pushed(old(self).history(), frame),
                hist == self.history(),
                kernel == self.kernel(),
                kernel.len() == ACTIVE_TAPS,
                hist.len() == ACTIVE_TAPS,
                buf@ == hist,
                p <= FACTOR,
                out@.len() == p as int,
                forall|q: int| 0 <= q < p ==> out@[q] == phase_output::<F>(kernel, hist, q),
            decreases FACTOR - p,
        {
            let mut acc: F = F::zero();
            let mut t: usize = 0;
            while t < ACTIVE_TAPS
                invariant
                    self.wf(),
                    hist == self.history(),
                    kernel == self.kernel(),
                    kernel.len() == ACTIVE_TAPS,
                    hist.len() == ACTIVE_TAPS,
                    buf@ == hist,
                    p < FACTOR,
                    t <= ACTIVE_TAPS,
                    acc == phase_output_upto::<F>(kernel, hist, p as int, t as int),
                decreases ACTIVE_TAPS - t,
            {
                let c: F::Coeff = self.filter[t][p];
                acc.scale_add(&buf[t], c);
                t = t + 1;
            }
            out.push(acc);
            p = p + 1;
        }
        out
    }

    /// Clears the history back to zero frames, as a fresh interpolator
    /// with the same coefficient matrix has it; the coefficients are
    /// input-independent and persist.
    pub fn reset(&mut self)
        requires
            old(self).wf(),
        ensures
            final(self).wf(),
            final(self).kernel() == old(self).kernel(),
            final(self).history() == Seq::new(ACTIVE_TAPS as nat, |i: int| F::zero_spec()),
    {
        let z: F = F::zero();
        self.buffer.reset(z);
    }
}

} // verus!
