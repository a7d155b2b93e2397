use vstd::prelude::*;
use vstd::arithmetic::div_mod::{
    lemma_div_is_ordered, lemma_div_multiples_vanish, lemma_div_nonincreasing,
    lemma_div_pos_is_pos,
};

verus! {

/// Number of loudness bins: 0.1 LU steps covering the representable range
/// upward from the absolute gate at -70 LUFS.
pub const BIN_COUNT: usize = 1000;

/// Exclusive upper bound on a fixed-point block energy. Keeping every
/// energy below it lets a whole histogram be summed in 128 bits.
pub const ENERGY_LIMIT: u64 = 0x40_0000_0000_0000;

/// Largest value one bin can add to an energy sum.
const TERM_BOUND: u128 = 0x3F_FFFF_FFFF_FFFFu128 * 0xFFFF_FFFF_FFFF_FFFFu128;

/// Sum of `count * energy` over the first `upto` bins whose energy passes
/// threshold `thr`.
pub open spec fn gated_energy_sum(counts: Seq<u64>, energies: Seq<u64>, thr: int, upto: int) -> int
    decreases upto,
{
    if upto <= 0 {
        0
    } else {
        gated_energy_sum(counts, energies, thr, upto - 1) + if energies[upto - 1] >= thr {
            counts[upto - 1] * energies[upto - 1]
        } else {
            0
        }
    }
}

/// Number of blocks among the first `upto` bins whose energy passes
/// threshold `thr`.
pub open spec fn gated_count_sum(counts: Seq<u64>, energies: Seq<u64>, thr: int, upto: int) -> int
    decreases upto,
{
    if upto <= 0 {
        0
    } else {
        gated_count_sum(counts, energies, thr, upto - 1) + if energies[upto - 1] >= thr {
            counts[upto - 1] as int
        } else {
            0
        }
    }
}

/// The second-stage gate: the mean block energy of all counted blocks,
/// lowered by the given energy ratio (10 for the integrated-loudness gate
/// of -10 dB, 100 for the loudness-range gate of -20 dB).
pub open spec fn relative_gate(counts: Seq<u64>, energies: Seq<u64>, divisor: int) -> int {
    gated_energy_sum(counts, energies, 0, counts.len() as int) / gated_count_sum(
        counts,
        energies,
        0,
        counts.len() as int,
    ) / divisor
}

/// `b` is the least bin at which the cumulative gated block count reaches
/// `target`.
pub open spec fn is_percentile_bin(
    counts: Seq<u64>,
    energies: Seq<u64>,
    thr: int,
    target: int,
    b: int,
) -> bool {
    &&& 0 <= b < counts.len()
    &&& energies[b] >= thr
    &&& counts[b] > 0
    &&& gated_count_sum(counts, energies, thr, b + 1) >= target
    &&& gated_count_sum(counts, energies, thr, b) < target
}

/// Cumulative block count that the `p`-th percentile of `m` gated blocks
/// must reach.
pub open spec fn percentile_target(m: int, p: int) -> int {
    1 + (m - 1) * p / 100
}

/// Both gated sums are sums of non-negative terms.
pub proof fn lemma_sums_nonneg(counts: Seq<u64>, energies: Seq<u64>, thr: int, upto: int)
    requires
        0 <= upto <= counts.len(),
        counts.len() == energies.len(),
    ensures
        0 <= gated_count_sum(counts, energies, thr, upto),
        0 <= gated_energy_sum(counts, energies, thr, upto),
    decreases upto,
{
    if upto > 0 {
        lemma_sums_nonneg(counts, energies, thr, upto - 1);
        let c = counts[upto - 1] as int;
        let e = energies[upto - 1] as int;
        assert(0 <= c * e) by (nonlinear_arith)
            requires
                0 <= c,
                0 <= e,
        ;
    }
}

/// The cumulative gated count never shrinks as more bins are taken in.
pub proof fn lemma_gated_count_monotone(
    counts: Seq<u64>,
    energies: Seq<u64>,
    thr: int,
    a: int,
    b: int,
)
    requires
        0 <= a <= b <= counts.len(),
        counts.len() == energies.len(),
    ensures
        gated_count_sum(counts, energies, thr, a) <= gated_count_sum(counts, energies, thr, b),
    decreases b - a,
{
    if a < b {
        lemma_gated_count_monotone(counts, energies, thr, a, b - 1);
    }
}

/// A single bin that passes the threshold already contributes its whole count.
proof fn lemma_gated_count_ge_single(
    counts: Seq<u64>,
    energies: Seq<u64>,
    thr: int,
    i: int,
    upto: int,
)
    requires
        counts.len() == energies.len(),
        0 <= i < upto <= counts.len(),
        energies[i] >= thr,
    ensures
        gated_count_sum(counts, energies, thr, upto) >= counts[i],
    decreases upto,
{
    if i < upto - 1 {
        lemma_gated_count_ge_single(counts, energies, thr, i, upto - 1);
    } else {
        lemma_sums_nonneg(counts, energies, thr, upto - 1);
    }
}

/// With every counted bin's energy at most `m`, the energy sum is at most
/// `m` blocks' worth per counted block.
proof fn lemma_energy_le_mul_count(counts: Seq<u64>, energies: Seq<u64>, m: int, upto: int)
    requires
        counts.len() == energies.len(),
        0 <= upto <= counts.len(),
        0 <= m,
        forall|i: int| 0 <= i < upto && counts[i] > 0 ==> energies[i] <= m,
    ensures
        gated_energy_sum(counts, energies, 0, upto) <= m * gated_count_sum(
            counts,
            energies,
            0,
            upto,
        ),
    decreases upto,
{
    if upto > 0 {
        lemma_energy_le_mul_count(counts, energies, m, upto - 1);
        let c = counts[upto - 1] as int;
        let e = energies[upto - 1] as int;
        let n1 = gated_count_sum(counts, energies, 0, upto - 1);
        assert(c * e <= m * c && m * (n1 + c) == m * n1 + m * c) by (nonlinear_arith)
            requires
                0 <= c,
                0 <= e,
                c > 0 ==> e <= m,
        ;
    }
}

/// All-zero counts sum to nothing, whatever the threshold.
proof fn lemma_all_zero_sums(counts: Seq<u64>, energies: Seq<u64>, thr: int, upto: int)
    requires
        counts.len() == energies.len(),
        0 <= upto <= counts.len(),
        forall|i: int| 0 <= i < upto ==> counts[i] == 0,
    ensures
        gated_count_sum(counts, energies, thr, upto) == 0,
        gated_energy_sum(counts, energies, thr, upto) == 0,
    decreases upto,
{
    if upto > 0 {
        lemma_all_zero_sums(counts, energies, thr, upto - 1);
    }
}

/// The largest energy found in a bin with a non-zero count.
spec fn max_counted_energy(counts: Seq<u64>, energies: Seq<u64>, upto: int) -> int
    decreases upto,
{
    if upto <= 0 {
        0
    } else {
        let rest = max_counted_energy(counts, energies, upto - 1);
        if counts[upto - 1] > 0 && energies[upto - 1] > rest {
            energies[upto - 1] as int
        } else {
            rest
        }
    }
}

proof fn lemma_max_counted_energy(counts: Seq<u64>, energies: Seq<u64>, upto: int)
    requires
        counts.len() == energies.len(),
        0 <= upto <= counts.len(),
    ensures
        0 <= max_counted_energy(counts, energies, upto),
        forall|i: int|
            0 <= i < upto && counts[i] > 0 ==> energies[i] <= max_counted_energy(
                counts,
                energies,
                upto,
            ),
        (exists|i: int| 0 <= i < upto && counts[i] > 0) ==> (exists|i: int|
            0 <= i < upto && counts[i] > 0 && energies[i] == max_counted_energy(
                counts,
                energies,
                upto,
            )),
        (forall|i: int| 0 <= i < upto ==> counts[i] == 0) ==> max_counted_energy(
            counts,
            energies,
            upto,
        ) == 0,
    decreases upto,
{
    if upto > 0 {
        lemma_max_counted_energy(counts, energies, upto - 1);
        let m = max_counted_energy(counts, energies, upto);
        let rest = max_counted_energy(counts, energies, upto - 1);
        if exists|i: int| 0 <= i < upto && counts[i] > 0 {
            if counts[upto - 1] > 0 {
                if energies[upto - 1] > rest {
                    assert(counts[upto - 1] > 0 && energies[upto - 1] == m);
                } else {
                    if exists|i: int| 0 <= i < upto - 1 && counts[i] > 0 {
                        let w = choose|i: int|
                            0 <= i < upto - 1 && counts[i] > 0 && energies[i] == rest;
                        assert(0 <= w < upto && counts[w] > 0 && energies[w] == m);
                    } else {
                        assert forall|i: int| 0 <= i < upto - 1 implies counts[i] == 0 by {
                            if counts[i] > 0 {
                                assert(exists|j: int| 0 <= j < upto - 1 && counts[j] > 0);
                            }
                        }
                        assert(rest == 0);
                        assert(counts[upto - 1] > 0 && energies[upto - 1] == m);
                    }
                }
            } else {
                let w0 = choose|i: int| 0 <= i < upto && counts[i] > 0;
                assert(0 <= w0 < upto - 1 && counts[w0] > 0);
                let w = choose|i: int| 0 <= i < upto - 1 && counts[i] > 0 && energies[i] == rest;
                assert(0 <= w < upto && counts[w] > 0 && energies[w] == m);
            }
        }
    }
}

/// Law of the two-stage gate: once any block was counted, the relative
/// gate derived from the mean energy can never discard every block, for
/// any gate ratio.
pub proof fn lemma_relative_gate_survivors(counts: Seq<u64>, energies: Seq<u64>, divisor: int)
    requires
        counts.len() == energies.len(),
        gated_count_sum(counts, energies, 0, counts.len() as int) > 0,
        1 <= divisor,
    ensures
        gated_count_sum(
            counts,
            energies,
            relative_gate(counts, energies, divisor),
            counts.len() as int,
        ) > 0,
{
    let len = counts.len() as int;
    let s0 = gated_energy_sum(counts, energies, 0, len);
    let n0 = gated_count_sum(counts, energies, 0, len);
    let m = max_counted_energy(counts, energies, len);
    lemma_sums_nonneg(counts, energies, 0, len);
    lemma_max_counted_energy(counts, energies, len);
    assert(exists|i: int| 0 <= i < len && counts[i] > 0) by {
        if forall|i: int| 0 <= i < len ==> counts[i] == 0 {
            lemma_all_zero_sums(counts, energies, 0, len);
        }
    }
    let w = choose|i: int| 0 <= i < len && counts[i] > 0 && energies[i] == m;
    lemma_energy_le_mul_count(counts, energies, m, len);
    lemma_div_is_ordered(s0, m * n0, n0);
    lemma_div_multiples_vanish(m, n0);
    assert(m * n0 == n0 * m) by (nonlinear_arith);
    assert(s0 / n0 <= m);
    lemma_div_pos_is_pos(s0, n0);
    lemma_div_nonincreasing(s0 / n0, divisor);
    let thr = relative_gate(counts, energies, divisor);
    assert(thr <= m);
    lemma_gated_count_ge_single(counts, energies, thr, w, len);
}

/// Sums of a histogram in which a single bin `b` holds all the counts.
proof fn lemma_sums_single_bin(counts: Seq<u64>, energies: Seq<u64>, thr: int, b: int, upto: int)
    requires
        counts.len() == energies.len(),
        0 <= b < counts.len(),
        0 <= upto <= counts.len(),
        forall|i: int| 0 <= i < counts.len() && i != b ==> counts[i] == 0,
    ensures
        gated_energy_sum(counts, energies, thr, upto) == if b < upto && energies[b] >= thr {
            counts[b] * energies[b]
        } else {
            0
        },
        gated_count_sum(counts, energies, thr, upto) == if b < upto && energies[b] >= thr {
            counts[b] as int
        } else {
            0
        },
    decreases upto,
{
    if upto > 0 {
        lemma_sums_single_bin(counts, energies, thr, b, upto - 1);
    }
}

/// Law of integrated-loudness gating: with one loud bin counted and
/// nothing else in the histogram, the two-stage gate keeps exactly that
/// bin, and the gated mean energy is that bin's own energy.
pub proof fn lemma_integrated_single_bin(counts: Seq<u64>, energies: Seq<u64>, b: int)
    requires
        counts.len() == energies.len(),
        0 <= b < counts.len(),
        counts[b] > 0,
        forall|i: int| 0 <= i < counts.len() && i != b ==> counts[i] == 0,
    ensures
        gated_count_sum(counts, energies, relative_gate(counts, energies, 10), counts.len() as int)
            == counts[b],
        gated_energy_sum(counts, energies, relative_gate(counts, energies, 10), counts.len() as int)
            == counts[b] * energies[b],
        gated_energy_sum(counts, energies, relative_gate(counts, energies, 10), counts.len() as int)
            / gated_count_sum(
            counts,
            energies,
            relative_gate(counts, energies, 10),
            counts.len() as int,
        ) == energies[b],
{
    let len = counts.len() as int;
    let c = counts[b] as int;
    let e = energies[b] as int;
    lemma_sums_single_bin(counts, energies, 0, b, len);
    assert(gated_energy_sum(counts, energies, 0, len) == c * e);
    assert(gated_count_sum(counts, energies, 0, len) == c);
    lemma_div_multiples_vanish(e, c);
    assert(c * e == e * c) by (nonlinear_arith);
    assert(c * e / c == e);
    lemma_div_nonincreasing(e, 10);
    let thr = relative_gate(counts, energies, 10);
    assert(thr == e / 10);
    assert(thr <= e);
    lemma_sums_single_bin(counts, energies, thr, b, len);
}

/// Gated energy and block-count sums of a histogram against per-bin
/// fixed-point energies: bins whose energy is below `thr` are discarded.
pub fn gated_sums(counts: &Vec<u64>, energies: &Vec<u64>, thr: u128) -> (r: (u128, u128))
    requires
        counts@.len() == energies@.len(),
        counts@.len() <= 1024,
        forall|i: int| 0 <= i < energies@.len() ==> energies@[i] < ENERGY_LIMIT,
    ensures
        r.0 as int == gated_energy_sum(counts@, energies@, thr as int, counts@.len() as int),
        r.1 as int == gated_count_sum(counts@, energies@, thr as int, counts@.len() as int),
        r.1 as int <= counts@.len() * (u64::MAX as int),
{
    let len: usize = counts.len();
    let mut i: usize = 0;
    let mut s: u128 = 0;
    let mut n: u128 = 0;
    while i < len
        invariant
            i <= len,
            len == counts@.len(),
            counts@.len() == energies@.len(),
            len <= 1024,
            forall|k: int| 0 <= k < energies@.len() ==> energies@[k] < ENERGY_LIMIT,
            s as int == gated_energy_sum(counts@, energies@, thr as int, i as int),
            n as int == gated_count_sum(counts@, energies@, thr as int, i as int),
            s as int <= i as int * (TERM_BOUND as int),
            n as int <= i as int * (u64::MAX as int),
        decreases len - i,
    {
        let c: u64 = counts[i];
        let e: u64 = energies[i];
        if (e as u128) >= thr {
            proof {
                let ci = c as int;
                let ei = e as int;
                let bi = TERM_BOUND as int;
                let ui = u64::MAX as int;
                assert(bi == (ENERGY_LIMIT - 1) as int * ui);
                assert(ci * ei <= bi) by (nonlinear_arith)
                    requires
                        0 <= ci,
                        ci <= ui,
                        0 <= ei,
                        ei <= (ENERGY_LIMIT - 1) as int,
                        bi == (ENERGY_LIMIT - 1) as int * ui,
                ;
                assert(s as int + ci * ei <= (i as int + 1) * bi) by (nonlinear_arith)
                    requires
                        s as int <= i as int * bi,
                        ci * ei <= bi,
                ;
                assert((i as int + 1) * bi <= 1024 * bi) by (nonlinear_arith)
                    requires
                        i as int + 1 <= 1024,
                        0 <= bi,
                ;
                assert(1024 * bi <= u128::MAX as int);
                assert(n as int + ci <= (i as int + 1) * ui) by (nonlinear_arith)
                    requires
                        n as int <= i as int * ui,
                        ci <= ui,
                ;
                assert((i as int + 1) * ui <= 1024 * ui) by (nonlinear_arith)
                    requires
                        i as int + 1 <= 1024,
                        0 <= ui,
                ;
            }
            let term: u128 = (c as u128) * (e as u128);
            s = s + term;
            n = n + (c as u128);
        }
        proof {
            let bi = TERM_BOUND as int;
            let ui = u64::MAX as int;
            assert(i as int * bi <= (i as int + 1) * bi) by (nonlinear_arith)
                requires
                    0 <= bi,
            ;
            assert(i as int * ui <= (i as int + 1) * ui) by (nonlinear_arith)
                requires
                    0 <= ui,
            ;
        }
        i = i + 1;
    }
    (s, n)
}

/// Least bin at which the cumulative count of gate-passing blocks reaches
/// `target`, or `None` when the whole histogram holds less mass.
pub fn percentile_bin(counts: &Vec<u64>, energies: &Vec<u64>, thr: u128, target: u128) -> (r:
    Option<usize>)
    requires
        counts@.len() == energies@.len(),
        counts@.len() <= 1024,
        1 <= target,
    ensures
        match r {
            Some(b) => is_percentile_bin(counts@, energies@, thr as int, target as int, b as int),
            None => gated_count_sum(counts@, energies@, thr as int, counts@.len() as int)
                < target as int,
        },
{
    let len: usize = counts.len();
    let mut i: usize = 0;
    let mut cum: u128 = 0;
    while i < len
        invariant
            i <= len,
            len == counts@.len(),
            counts@.len() == energies@.len(),
            len <= 1024,
            cum as int == gated_count_sum(counts@, energies@, thr as int, i as int),
            cum as int <= i as int * (u64::MAX as int),
            cum < target,
        decreases len - i,
    {
        let c: u64 = counts[i];
        let e: u64 = energies[i];
        if (e as u128) >= thr {
            proof {
                let ci = c as int;
                let ui = u64::MAX as int;
                assert(cum as int + ci <= (i as int + 1) * ui) by (nonlinear_arith)
                    requires
                        cum as int <= i as int * ui,
                        ci <= ui,
                ;
                assert((i as int + 1) * ui <= 1024 * ui) by (nonlinear_arith)
                    requires
                        i as int + 1 <= 1024,
                        0 <= ui,
                ;
            }
            cum = cum + (c as u128);
            if cum >= target {
                return Some(i);
            }
        }
        proof {
            let ui = u64::MAX as int;
            assert(i as int * ui <= (i as int + 1) * ui) by (nonlinear_arith)
                requires
                    0 <= ui,
            ;
        }
        i = i + 1;
    }
    None
}

/// Histogram of quantized block loudness: an occurrence count per bin.
/// Counts only grow until `reset`; no individual block value is kept.
pub struct Histogram {
    counts: Vec<u64>,
}

impl View for Histogram {
    type V = Seq<u64>;

    closed spec fn view(&self) -> Seq<u64> {
        self.counts@
    }
}

impl Histogram {
    pub closed spec fn wf(&self) -> bool {
        self.counts@.len() == BIN_COUNT
    }

    /// An empty histogram: every bin at zero.
    pub fn new() -> (r: Self)
        ensures
            r.wf(),
            r@ == Seq::new(BIN_COUNT as nat, |i: int| 0u64),
    {
        let mut counts: Vec<u64> = Vec::new();
        let mut i: usize = 0;
        while i < BIN_COUNT
            invariant
                i <= BIN_COUNT,
                counts@.len() == i as int,
                forall|j: int| 0 <= j < i ==> counts@[j] == 0u64,
            decreases BIN_COUNT - i,
        {
            counts.push(0u64);
            i = i + 1;
        }
        let r = Histogram { counts };
        proof {
            assert(r@ =~= Seq::new(BIN_COUNT as nat, |k: int| 0u64));
        }
        r
    }

    /// Records one closed gating block quantized into `bin`. The count
    /// saturates rather than wrap; every other bin is untouched.
    pub fn add(&mut self, bin: usize)
        requires
            old(self).wf(),
            bin < BIN_COUNT,
        ensures
            final(self).wf(),
            old(self)@[bin as int] < u64::MAX ==> final(self)@ == old(self)@.update(
                bin as int,
                (old(self)@[bin as int] + 1) as u64,
            ),
            old(self)@[bin as int] == u64::MAX ==> final(self)@ == old(self)@,
    {
        let c: u64 = self.counts[bin];
        if c < u64::MAX {
            self.counts[bin] = c + 1;
        }
    }

    /// The per-bin counts, for use with the gating and percentile
    /// functions.
    pub fn counts(&self) -> (r: &Vec<u64>)
        ensures
            r@ == self@,
    {
        &self.counts
    }

    /// Restores the state a fresh histogram has: every bin at zero.
    pub fn reset(&mut self)
        requires
            old(self).wf(),
        ensures
            final(self).wf(),
            final(self)@ == Seq::new(BIN_COUNT as nat, |i: int| 0u64),
    {
        *self = Self::new();
    }

    /// Two-stage gated mean for integrated loudness. Stage one counts
    /// every recorded block (the absolute gate was applied before a block
    /// entered a bin); stage two discards blocks below the relative gate,
    /// one tenth (-10 dB) of the stage-one mean energy. Returns the gated
    /// energy sum and block count, whose quotient is the mean energy of
    /// the surviving blocks, or `None` when nothing was ever recorded.
    pub fn integrated_energy(&self, energies: &Vec<u64>) -> (r: Option<(u128, u128)>)
        requires
            self.wf(),
            energies@.len() == BIN_COUNT,
            forall|i: int| 0 <= i < energies@.len() ==> energies@[i] < ENERGY_LIMIT,
        ensures
            match r {
                Some(sums) => {
                    &&& gated_count_sum(self@, energies@, 0, BIN_COUNT as int) > 0
                    &&& sums.0 as int == gated_energy_sum(
                        self@,
                        energies@,
                        relative_gate(self@, energies@, 10),
                        BIN_COUNT as int,
                    )
                    &&& sums.1 as int == gated_count_sum(
                        self@,
                        energies@,
                        relative_gate(self@, energies@, 10),
                        BIN_COUNT as int,
                    )
                    &&& sums.1 > 0
                },
                None => gated_count_sum(self@, energies@, 0, BIN_COUNT as int) == 0,
            },
    {
        let sums0: (u128, u128) = gated_sums(&self.counts, energies, 0);
        if sums0.1 == 0 {
            None
        } else {
            let thr: u128 = sums0.0 / sums0.1 / 10;
            proof {
                lemma_relative_gate_survivors(self@, energies@, 10);
            }
            let sums: (u128, u128) = gated_sums(&self.counts, energies, thr);
            Some(sums)
        }
    }

    /// Two-stage gate for loudness range: the relative gate sits -20 dB
    /// (a factor of 100) below the stage-one mean energy. Returns the
    /// bins of the 10th and 95th percentile of the surviving histogram
    /// mass, counted over cumulative block counts, or `None` when nothing
    /// was ever recorded.
    pub fn loudness_range_bins(&self, energies: &Vec<u64>) -> (r: Option<(usize, usize)>)
        requires
            self.wf(),
            energies@.len() == BIN_COUNT,
            forall|i: int| 0 <= i < energies@.len() ==> energies@[i] < ENERGY_LIMIT,
        ensures
            match r {
                Some(bins) => {
                    &&& {
                        let thr = relative_gate(self@, energies@, 100);
                        let m = gated_count_sum(self@, energies@, thr, BIN_COUNT as int);
                        &&& m > 0
                        &&& is_percentile_bin(
                            self@,
                            energies@,
                            thr,
                            percentile_target(m, 10),
                            bins.0 as int,
                        )
                        &&& is_percentile_bin(
                            self@,
                            energies@,
                            thr,
                            percentile_target(m, 95),
                            bins.1 as int,
                        )
                    }
                    &&& bins.0 <= bins.1
                },
                None => gated_count_sum(self@, energies@, 0, BIN_COUNT as int) == 0,
            },
    {
        let sums0: (u128, u128) = gated_sums(&self.counts, energies, 0);
        if sums0.1 == 0 {
            return None;
        }
        let thr: u128 = sums0.0 / sums0.1 / 100;
        proof {
            lemma_relative_gate_survivors(self@, energies@, 100);
        }
        let sums: (u128, u128) = gated_sums(&self.counts, energies, thr);
        let m: u128 = sums.1;
        proof {
            let mi = m as int;
            lemma_div_pos_is_pos((mi - 1) * 10, 100);
            lemma_div_pos_is_pos((mi - 1) * 95, 100);
            lemma_div_is_ordered((mi - 1) * 10, (mi - 1) * 95, 100);
            lemma_div_is_ordered((mi - 1) * 95, (mi - 1) * 100, 100);
            lemma_div_multiples_vanish(mi - 1, 100);
            assert((mi - 1) * 100 == 100 * (mi - 1)) by (nonlinear_arith);
        }
        let t_lo: u128 = 1 + (m - 1) * 10 / 100;
        let t_hi: u128 = 1 + (m - 1) * 95 / 100;
        let lo: usize = match percentile_bin(&self.counts, energies, thr, t_lo) {
            Some(b) => b,
            None => {
                proof {
                    assert(false);
                }
                0
            },
        };
        let hi: usize = match percentile_bin(&self.counts, energies, thr, t_hi) {
            Some(b) => b,
            None => {
                proof {
                    assert(false);
                }
                0
            },
        };
        proof {
            if hi < lo {
                lemma_gated_count_monotone(
                    self@,
                    energies@,
                    relative_gate(self@, energies@, 100),
                    hi as int + 1,
                    lo as int,
                );
            }
        }
        Some((lo, hi))
    }
}

} // verus!
