use vstd::prelude::*;
use vstd::arithmetic::div_mod::{lemma_div_is_ordered, lemma_div_multiples_vanish};
use vstd::arithmetic::mul::lemma_mul_inequality;

verus! {

/// Sum of a sequence of fixed-point block energies.
pub open spec fn energy_total(s: Seq<u64>) -> int
    decreases s.len(),
{
    if s.len() == 0 {
        0
    } else {
        energy_total(s.drop_last()) + s.last()
    }
}

/// The sum never exceeds one maximal energy per block.
proof fn lemma_energy_total_bound(s: Seq<u64>)
    ensures
        energy_total(s) <= s.len() * (u64::MAX as int),
    decreases s.len(),
{
    if s.len() > 0 {
        lemma_energy_total_bound(s.drop_last());
    }
}

/// The last closed gating blocks, oldest first, capped at a fixed number
/// of blocks: the source of momentary loudness (most recent block) and
/// short-term loudness (mean energy over the retained span).
pub struct BlockHistory {
    recent: Vec<u64>,
    cap: usize,
}

impl View for BlockHistory {
    type V = Seq<u64>;

    /// The retained block energies, oldest first.
    closed spec fn view(&self) -> Seq<u64> {
        self.recent@
    }
}

impl BlockHistory {
    pub closed spec fn wf(&self) -> bool {
        &&& self.recent@.len() <= self.cap
        &&& 1 <= self.cap <= 1024
    }

    /// How many blocks are retained at most.
    pub closed spec fn capacity(&self) -> int {
        self.cap as int
    }

    /// An empty history retaining at most `cap` blocks.
    pub fn new(cap: usize) -> (r: Self)
        requires
            1 <= cap <= 1024,
        ensures
            r.wf(),
            r@ == Seq::<u64>::empty(),
            r.capacity() == cap,
    {
        let r = BlockHistory { recent: Vec::new(), cap };
        proof {
            assert(r@ =~= Seq::<u64>::empty());
        }
        r
    }

    /// Appends the energy of a newly closed block, evicting the oldest
    /// retained block once the cap is reached.
    pub fn push(&mut self, energy: u64)
        requires
            old(self).wf(),
        ensures
            final(self).wf(),
            final(self).capacity() == old(self).capacity(),
            old(self)@.len() < old(self).capacity() ==> final(self)@ == old(self)@.push(energy),
            old(self)@.len() == old(self).capacity() ==> final(self)@ == old(self)@.skip(1).push(
                energy,
            ),
    {
        if self.recent.len() == self.cap {
            self.recent.remove(0);
            proof {
                assert(self.recent@ =~= old(self)@.skip(1));
            }
        }
        self.recent.push(energy);
    }

    /// The most recent block's energy: the momentary measurement. `None`
    /// until the first block closes.
    pub fn latest(&self) -> (r: Option<u64>)
        requires
            self.wf(),
        ensures
            match r {
                Some(v) => self@.len() > 0 && v == self@.last(),
                None => self@.len() == 0,
            },
    {
        let len: usize = self.recent.len();
        if len == 0 {
            None
        } else {
            Some(self.recent[len - 1])
        }
    }

    /// Energy sum and block count of the retained span, whose quotient is
    /// the short-term mean energy. A zero count marks the no-data state.
    pub fn span_sums(&self) -> (r: (u128, usize))
        requires
            self.wf(),
        ensures
            r.0 as int == energy_total(self@),
            r.1 == self@.len(),
    {
        let len: usize = self.recent.len();
        let mut i: usize = 0;
        let mut s: u128 = 0;
        while i < len
            invariant
                i <= len,
                len == self.recent@.len(),
                self.wf(),
                s as int == energy_total(self@.take(i as int)),
                s as int <= i as int * (u64::MAX as int),
            decreases len - i,
        {
            let e: u64 = self.recent[i];
            proof {
                let ui = u64::MAX as int;
                assert(self@.take(i as int + 1).drop_last() =~= self@.take(i as int));
                assert(s as int + e as int <= (i as int + 1) * ui) by (nonlinear_arith)
                    requires
                        s as int <= i as int * ui,
                        e as int <= ui,
                ;
                assert((i as int + 1) * ui <= 1024 * ui) by (nonlinear_arith)
                    requires
                        i as int + 1 <= 1024,
                        0 <= ui,
                ;
            }
            s = s + (e as u128);
            i = i + 1;
        }
        proof {
            assert(self@.take(len as int) =~= self@);
        }
        (s, len)
    }

    /// The short-term statistic: the mean energy over the retained span,
    /// or `None` before the first block closes.
    pub fn mean_energy(&self) -> (r: Option<u64>)
        requires
            self.wf(),
        ensures
            match r {
                Some(m) => self@.len() > 0 && m as int == energy_total(self@) / (
                self@.len() as int),
                None => self@.len() == 0,
            },
    {
        let (sum, n) = self.span_sums();
        if n == 0 {
            None
        } else {
            proof {
                let total = energy_total(self@);
                let ni = n as int;
                let ui = u64::MAX as int;
                lemma_energy_total_bound(self@);
                lemma_mul_inequality(self@.len() as int, ni, ui);
                lemma_div_is_ordered(total, ni * ui, ni);
                lemma_div_multiples_vanish(ui, ni);
                assert(ni * ui == ui * ni) by (nonlinear_arith);
            }
            Some((sum / (n as u128)) as u64)
        }
    }

    /// Restores the state a fresh history with the same cap has: empty.
    pub fn reset(&mut self)
        requires
            old(self).wf(),
        ensures
            final(self).wf(),
            final(self).capacity() == old(self).capacity(),
            final(self)@ == Seq::<u64>::empty(),
    {
        self.recent.clear();
        proof {
            assert(self@ =~= Seq::<u64>::empty());
        }
    }
}

} // verus!
