//! Framing for the noise suppressor: the denoiser works on whole frames of
//! a fixed size, so samples that do not fill a frame wait for the next
//! buffer.
use vstd::prelude::*;

verus! {

/// Cuts incoming sample buffers into whole frames, carrying the remainder
/// over to the next buffer.
pub struct FrameAligner<T> {
    enabled: bool,
    frame_size: usize,
    leftover: Vec<T>,
}

/// The number of samples, out of `len`, that fill whole frames.
pub open spec fn whole_frames_len(len: int, frame_size: int) -> int {
    len / frame_size * frame_size
}

impl<T> FrameAligner<T> {
    /// Framing is applied (otherwise buffers pass through untouched).
    pub closed spec fn is_enabled(&self) -> bool {
        self.enabled
    }

    /// Samples per frame.
    pub closed spec fn frame_size(&self) -> usize {
        self.frame_size
    }

    /// Samples waiting for the next buffer.
    pub closed spec fn pending(&self) -> Seq<T> {
        self.leftover@
    }

    /// An enabled aligner for frames of `frame_size` samples.
    pub fn new(frame_size: usize) -> (a: Self)
        requires
            frame_size > 0,
        ensures
            a.is_enabled(),
            a.frame_size() == frame_size,
            a.pending() == Seq::<T>::empty(),
    {
        FrameAligner { enabled: true, frame_size, leftover: Vec::new() }
    }

    /// The same aligner, enabled or not.
    pub fn with_enabled(self, enabled: bool) -> (a: Self)
        ensures
            a.is_enabled() == enabled,
            a.frame_size() == self.frame_size(),
            a.pending() == self.pending(),
    {
        let mut a = self;
        a.enabled = enabled;
        a
    }

    /// Prepends the pending samples to `samples`, keeps in `samples` the
    /// longest prefix made of whole frames and holds the rest back. A
    /// disabled aligner, or an empty buffer, changes nothing.
    pub fn process(&mut self, samples: &mut Vec<T>)
        requires
            old(self).frame_size() > 0,
        ensures
            final(self).is_enabled() == old(self).is_enabled(),
            final(self).frame_size() == old(self).frame_size(),
            !old(self).is_enabled() || old(samples)@.len() == 0 ==> {
                &&& final(samples)@ == old(samples)@
                &&& final(self).pending() == old(self).pending()
            },
            old(self).is_enabled() && old(samples)@.len() > 0 ==> {
                let combined = old(self).pending() + old(samples)@;
                let cut = whole_frames_len(combined.len() as int, old(self).frame_size() as int);
                &&& final(samples)@ == combined.take(cut)
                &&& final(self).pending() == combined.skip(cut)
            },
    {
        if !self.enabled || samples.len() == 0 {
            return;
        }
        let mut combined: Vec<T> = Vec::new();
        combined.append(&mut self.leftover);
        combined.append(samples);
        let len = combined.len();
        let frames = len / self.frame_size;
        assert(frames * self.frame_size <= len) by (nonlinear_arith)
            requires
                self.frame_size > 0,
                frames == len / self.frame_size,
        ;
        let processed = frames * self.frame_size;
        let rest = combined.split_off(processed);
        self.leftover = rest;
        *samples = combined;
        assert(old(self).pending() + old(samples)@ == combined@ + rest@);
    }

    /// Drops the pending samples.
    pub fn reset(&mut self)
        ensures
            final(self).is_enabled() == old(self).is_enabled(),
            final(self).frame_size() == old(self).frame_size(),
            final(self).pending() == Seq::<T>::empty(),
    {
        self.leftover.clear();
    }

    /// Whether framing is applied.
    pub fn enabled(&self) -> (b: bool)
        ensures
            b == self.is_enabled(),
    {
        self.enabled
    }

    /// Number of samples waiting for the next buffer.
    pub fn pending_len(&self) -> (n: usize)
        ensures
            n == self.pending().len(),
    {
        self.leftover.len()
    }
}

} // verus!

verus! {

/// Framing loses and invents no sample, in order: the released samples
/// followed by the new pending ones are exactly the old pending samples
/// followed by the buffer; the released part is a whole number of frames
/// and what is held back is less than one frame.
pub proof fn lemma_framing_conserves_samples<T>(pending: Seq<T>, buffer: Seq<T>, frame_size: int)
    requires
        frame_size > 0,
    ensures
        ({
            let combined = pending + buffer;
            let cut = whole_frames_len(combined.len() as int, frame_size);
            &&& combined.take(cut) + combined.skip(cut) == pending + buffer
            &&& (combined.take(cut).len() as int) % frame_size == 0
            &&& combined.skip(cut).len() < frame_size
        }),
{
    let combined = pending + buffer;
    let len = combined.len() as int;
    let cut = whole_frames_len(len, frame_size);
    assert(0 <= cut <= len && len - cut < frame_size && cut % frame_size == 0) by (nonlinear_arith)
        requires
            frame_size > 0,
            len >= 0,
            cut == len / frame_size * frame_size,
    {
        vstd::arithmetic::div_mod::lemma_fundamental_div_mod(len, frame_size);
        vstd::arithmetic::div_mod::lemma_mod_multiples_basic(len / frame_size, frame_size);
    }
    assert(combined.take(cut) + combined.skip(cut) =~= combined);
}

/// Released samples and pending samples after feeding `buffers` in order
/// to an enabled aligner for frames of `frame_size` that held `pending`.
pub open spec fn run_framing<T>(frame_size: int, pending: Seq<T>, buffers: Seq<Seq<T>>) -> (Seq<T>, Seq<T>)
    decreases buffers.len(),
{
    if buffers.len() == 0 {
        (seq![], pending)
    } else {
        let (released, held) = run_framing(frame_size, pending, buffers.drop_last());
        let buffer = buffers.last();
        if buffer.len() == 0 {
            (released, held)
        } else {
            let combined = held + buffer;
            let cut = whole_frames_len(combined.len() as int, frame_size);
            (released + combined.take(cut), combined.skip(cut))
        }
    }
}

/// Concatenation of a sequence of buffers.
pub open spec fn concat_all<T>(buffers: Seq<Seq<T>>) -> Seq<T>
    decreases buffers.len(),
{
    if buffers.len() == 0 {
        seq![]
    } else {
        concat_all(buffers.drop_last()) + buffers.last()
    }
}

/// Over any sequence of buffers, framing delays samples but never drops,
/// duplicates or reorders them: everything released, followed by what is
/// still pending, is the initially pending samples followed by all the
/// buffers; less than one frame is ever pending.
pub proof fn lemma_framing_run_conserves_samples<T>(
    frame_size: int,
    pending: Seq<T>,
    buffers: Seq<Seq<T>>,
)
    requires
        frame_size > 0,
        pending.len() < frame_size,
    ensures
        ({
            let (released, held) = run_framing(frame_size, pending, buffers);
            &&& released + held == pending + concat_all(buffers)
            &&& held.len() < frame_size
        }),
    decreases buffers.len(),
{
    if buffers.len() > 0 {
        let init = buffers.drop_last();
        lemma_framing_run_conserves_samples(frame_size, pending, init);
        let (released, held) = run_framing(frame_size, pending, init);
        let buffer = buffers.last();
        if buffer.len() == 0 {
            assert(concat_all(buffers) =~= concat_all(init));
        } else {
            let combined = held + buffer;
            lemma_framing_conserves_samples(held, buffer, frame_size);
            let cut = whole_frames_len(combined.len() as int, frame_size);
            assert(released + combined.take(cut) + combined.skip(cut) =~= released + combined);
            assert(pending + concat_all(buffers) =~= pending + concat_all(init) + buffer);
            assert(released + combined =~= released + held + buffer);
        }
    }
}

/// Lengths over a run from an empty aligner: after buffers holding `n`
/// samples in all, exactly the `n / frame_size` whole frames have been
/// released and the other `n % frame_size` samples are pending. So a call
/// that brings the total from `m` to `n` samples releases
/// `whole_frames_len(n) - whole_frames_len(m)` of them.
pub proof fn lemma_framing_run_lengths<T>(frame_size: int, buffers: Seq<Seq<T>>)
    requires
        frame_size > 0,
    ensures
        ({
            let (released, held) = run_framing(frame_size, Seq::<T>::empty(), buffers);
            let n = concat_all(buffers).len() as int;
            &&& released.len() == whole_frames_len(n, frame_size)
            &&& held.len() == n % frame_size
        }),
    decreases buffers.len(),
{
    if buffers.len() == 0 {
        assert(concat_all(buffers).len() == 0);
        assert(0int / frame_size == 0 && 0int % frame_size == 0) by (nonlinear_arith)
            requires
                frame_size > 0,
        ;
    } else {
        let init = buffers.drop_last();
        lemma_framing_run_lengths(frame_size, init);
        let (released, held) = run_framing(frame_size, Seq::<T>::empty(), init);
        let buffer = buffers.last();
        let m = concat_all(init).len() as int;
        let n = concat_all(buffers).len() as int;
        assert(concat_all(buffers) == concat_all(init) + buffer);
        assert(n == m + buffer.len());
        if buffer.len() == 0 {
        } else {
            let combined = held + buffer;
            let c = combined.len() as int;
            let q = m / frame_size;
            let r = m % frame_size;
            let q2 = c / frame_size;
            let r2 = c % frame_size;
            assert(m == q * frame_size + r && 0 <= r < frame_size) by {
                vstd::arithmetic::div_mod::lemma_fundamental_div_mod(m, frame_size);
            }
            assert(c == q2 * frame_size + r2 && 0 <= r2 < frame_size) by {
                vstd::arithmetic::div_mod::lemma_fundamental_div_mod(c, frame_size);
            }
            assert(n == (q + q2) * frame_size + r2) by (nonlinear_arith)
                requires
                    n == m + buffer.len(),
                    c == r + buffer.len(),
                    m == q * frame_size + r,
                    c == q2 * frame_size + r2,
            ;
            vstd::arithmetic::div_mod::lemma_fundamental_div_mod_converse(n, frame_size, q + q2, r2);
            let cut = whole_frames_len(c, frame_size);
            lemma_framing_conserves_samples(held, buffer, frame_size);
            assert(cut == q2 * frame_size);
            assert(combined.take(cut).len() == cut);
            assert(combined.skip(cut).len() == r2);
            assert((q + q2) * frame_size == q * frame_size + q2 * frame_size) by (nonlinear_arith);
            assert(released.len() == q * frame_size);
            assert(run_framing(frame_size, Seq::<T>::empty(), buffers) == (
                released + combined.take(cut),
                combined.skip(cut),
            ));
        }
    }
}

} // verus!
