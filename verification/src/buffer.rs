use vstd::prelude::*;
use vstd::slice::slice_subrange;

verus! {

/// Fixed-capacity circular store of the last `N` pushed values.
///
/// The backing vector holds `2 * N` slots; every push writes the value at
/// the cursor and again `N` slots ahead (the shadow copy), so the `N` slots
/// starting at the cursor always hold the history, most recent first, and
/// can be handed out as one contiguous slice without copying.
pub struct RollingBuffer<T, const N: usize> {
    buf: Vec<T>,
    position: usize,
}

impl<T: Copy, const N: usize> View for RollingBuffer<T, N> {
    type V = Seq<T>;

    /// The history: the last `N` pushed values, most recent first.
    closed spec fn view(&self) -> Seq<T> {
        self.buf@.subrange(self.position as int, self.position + N)
    }
}

/// One push at the model level: the new value enters in front, the oldest
/// history entry leaves.
pub open spec fn pushed<T>(view: Seq<T>, v: T) -> Seq<T> {
    seq![v] + view.take(view.len() - 1)
}

/// `frames` pushed one after the other, `frames[0]` first.
pub open spec fn pushed_all<T>(view: Seq<T>, frames: Seq<T>) -> Seq<T>
    decreases frames.len(),
{
    if frames.len() == 0 {
        view
    } else {
        pushed_all(pushed(view, frames[0]), frames.skip(1))
    }
}

impl<T: Copy, const N: usize> RollingBuffer<T, N> {
    /// Structural invariant: the cursor stays within the first half and
    /// every slot of the first half agrees with its shadow copy.
    pub closed spec fn wf(&self) -> bool {
        &&& 0 < N
        &&& self.buf@.len() == 2 * (N as int)
        &&& self.position <= N
        &&& forall|i: int| 0 <= i < N ==> #[trigger] self.buf@[i] == self.buf@[i + N]
    }

    /// A buffer holding `N` copies of `fill`, cursor at the wrap point.
    pub fn new(fill: T) -> (r: Self)
        requires
            0 < N,
            N * 2 <= usize::MAX,
        ensures
            r.wf(),
            r@ == Seq::new(N as nat, |i: int| fill),
    {
        let total: usize = 2 * N;
        let mut buf: Vec<T> = Vec::new();
        let mut i: usize = 0;
        while i < total
            invariant
                i <= total,
                total == 2 * (N as int),
                buf@.len() == i as int,
                forall|j: int| 0 <= j < i ==> buf@[j] == fill,
            decreases total - i,
        {
            buf.push(fill);
            i = i + 1;
        }
        let r = Self { buf, position: N };
        proof {
            assert(r@ =~= Seq::new(N as nat, |k: int| fill));
        }
        r
    }

    /// Inserts `v` as the new most-recent element, evicting the oldest.
    pub fn push_front(&mut self, v: T)
        requires
            old(self).wf(),
        ensures
            final(self).wf(),
            final(self)@ == pushed(old(self)@, v),
            final(self)@.len() == N,
    {
        if self.position == 0 {
            self.position = N - 1;
        } else {
            self.position = self.position - 1;
        }
        // a Vec's length is machine-representable, so the shadow index fits
        let _len: usize = self.buf.len();
        let p: usize = self.position;
        self.buf[p] = v;
        let shadow: usize = p + N;
        self.buf[shadow] = v;
        proof {
            let old_view = old(self)@;
            let new_view = self@;
            assert forall|j: int| 0 <= j < N implies new_view[j] == pushed(old_view, v)[j] by {
                if j > 0 {
                    if old(self).position == 0 {
                        assert(old(self).buf@[j - 1] == old(self).buf@[j - 1 + N]);
                    }
                }
            }
            assert(new_view =~= pushed(old_view, v));
        }
    }

    /// The contiguous window of the last `N` pushes, most recent first.
    /// Takes `&self` only: reading the view never changes the state.
    pub fn as_view(&self) -> (r: &[T])
        requires
            self.wf(),
        ensures
            r@ == self@,
    {
        // a Vec's length is machine-representable, so the window end fits
        let _len: usize = self.buf.len();
        let end: usize = self.position + N;
        slice_subrange(self.buf.as_slice(), self.position, end)
    }

    /// Restores the state a fresh `new(fill)` buffer has, so every later
    /// read agrees with one on a freshly built buffer.
    pub fn reset(&mut self, fill: T)
        requires
            old(self).wf(),
        ensures
            final(self).wf(),
            final(self)@ == Seq::new(N as nat, |i: int| fill),
    {
        // a Vec's length is machine-representable, so `N * 2` fits
        let _len: usize = self.buf.len();
        *self = Self::new(fill);
    }
}

/// Law: pushing as many frames as the window holds fills it completely;
/// the window then lists exactly those frames most-recent-first. Reading
/// has no side effect, so the statement covers every later read as well.
pub proof fn lemma_push_history<T>(view: Seq<T>, frames: Seq<T>)
    requires
        frames.len() <= view.len(),
    ensures
        pushed_all(view, frames).len() == view.len(),
        forall|i: int|
            0 <= i < frames.len() ==> pushed_all(view, frames)[i] == frames[frames.len() - 1 - i],
        forall|i: int|
            frames.len() <= i < view.len() ==> pushed_all(view, frames)[i] == view[i
                - frames.len()],
    decreases frames.len(),
{
    if frames.len() > 0 {
        let view1 = pushed(view, frames[0]);
        assert(view1.len() == view.len());
        lemma_push_history(view1, frames.skip(1));
        assert forall|i: int|
            0 <= i < frames.len() implies pushed_all(view, frames)[i] == frames[frames.len() - 1
            - i] by {
            if i < frames.len() - 1 {
                assert(frames.skip(1)[frames.len() - 2 - i] == frames[frames.len() - 1 - i]);
            } else {
                assert(pushed_all(view1, frames.skip(1))[i] == view1[i - (frames.len() - 1)]);
            }
        }
    }
}

} // verus!
