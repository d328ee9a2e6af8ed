//! The audio on its way to the loop: samples in, frames out, the oldest lost where nobody takes
//! them.

use std::collections::VecDeque;

use vstd::prelude::*;

verus! {

/// Ten minutes of mono audio at 16 kHz.
pub const DEFAULT_RING_CAP: usize = 9_600_000;

/// Samples waiting for the loop, oldest first, never more than the capacity.
pub struct AudioRing {
    samples: VecDeque<i16>,
    cap: usize,
}

/// The ring as a value.
pub struct RingView {
    pub samples: Seq<i16>,
    pub cap: int,
}

impl RingView {
    /// With more samples: the newest are kept, as many as there is room for.
    pub open spec fn pushed(self, more: Seq<i16>) -> RingView {
        let all = self.samples + more;
        RingView {
            samples: if all.len() > self.cap {
                all.skip(all.len() - self.cap)
            } else {
                all
            },
            ..self
        }
    }

    /// How many samples a frame of `n` gets: all that wait, where they are fewer.
    pub open spec fn frame_len(self, n: int) -> int {
        if n <= self.samples.len() {
            n
        } else {
            self.samples.len() as int
        }
    }
}

impl View for AudioRing {
    type V = RingView;

    closed spec fn view(&self) -> RingView {
        RingView { samples: self.samples@, cap: self.cap as int }
    }
}

impl AudioRing {
    /// An empty ring for `cap` samples.
    pub fn new(cap: usize) -> (r: Self)
        ensures
            r@ == (RingView { samples: Seq::empty(), cap: cap as int }),
    {
        AudioRing { samples: VecDeque::new(), cap }
    }

    fn make_room(&mut self)
        ensures
            final(self)@ == old(self)@.pushed(Seq::empty()),
    {
        let ghost all = self@.samples;
        proof {
            assert(all + Seq::<i16>::empty() =~= all);
            assert(all.skip(0) =~= all);
        }
        while self.samples.len() > self.cap
            invariant
                self.cap == old(self)@.cap,
                self.samples@.len() <= all.len(),
                self.samples@.len() >= self.cap || self.samples@ == all,
                self.samples@ == all.skip(all.len() - self.samples@.len()),
            decreases self.samples@.len(),
        {
            let ghost now = self.samples@;
            let _ = self.samples.pop_front();
            proof {
                assert(self.samples@ =~= now.skip(1));
                assert(self.samples@ =~= all.skip(all.len() - self.samples@.len()));
            }
        }
    }

    /// Takes samples in; where they are more than fit, the oldest are lost.
    pub fn push(&mut self, more: &[i16])
        ensures
            final(self)@ == old(self)@.pushed(more@),
            final(self)@.samples.len() <= final(self)@.cap,
    {
        let mut i: usize = 0;
        proof {
            assert(self@.samples =~= old(self)@.samples + more@.take(0));
        }
        while i < more.len()
            invariant
                0 <= i <= more.len(),
                self.cap == old(self)@.cap,
                self@.samples == old(self)@.samples + more@.take(i as int),
            decreases more.len() - i,
        {
            self.samples.push_back(more[i]);
            i = i + 1;
            proof {
                assert(self@.samples =~= old(self)@.samples + more@.take(i as int));
            }
        }
        proof {
            assert(more@.take(more@.len() as int) =~= more@);
            let all = self@.samples;
            assert(all + Seq::<i16>::empty() =~= all);
        }
        self.make_room();
    }

    /// Do a frame's samples wait?
    pub fn has_frame(&self, n: usize) -> (r: bool)
        ensures
            r == (self@.samples.len() >= n),
    {
        self.samples.len() >= n
    }

    /// Takes the oldest samples out, a frame of them or as many as there are.
    pub fn drain(&mut self, n: usize) -> (r: Vec<i16>)
        ensures
            r@ == old(self)@.samples.take(old(self)@.frame_len(n as int)),
            final(self)@ == (RingView {
                samples: old(self)@.samples.skip(old(self)@.frame_len(n as int)),
                ..old(self)@
            }),
    {
        let ghost all = self@.samples;
        let mut out: Vec<i16> = Vec::new();
        proof {
            assert(all.skip(0) =~= all);
            assert(all.take(0) =~= Seq::empty());
        }
        while out.len() < n && self.samples.len() > 0
            invariant
                out@.len() <= n,
                out@.len() <= all.len(),
                out@ == all.take(out@.len() as int),
                self@.samples == all.skip(out@.len() as int),
                self.cap == old(self)@.cap,
            decreases self.samples@.len(),
        {
            let ghost k = out@.len() as int;
            match self.samples.pop_front() {
                Some(s) => {
                    out.push(s);
                },
                None => {},
            }
            proof {
                assert(out@ =~= all.take(k + 1));
                assert(self.samples@ =~= all.skip(k + 1));
            }
        }
        out
    }

    /// How many samples wait.
    pub fn len(&self) -> (r: usize)
        ensures
            r == self@.samples.len(),
    {
        self.samples.len()
    }
}

/// Law: what comes out is what went in, in order: a frame taken from a ring that had room for the
/// samples begins with what waited before, and goes on with what came.
pub proof fn law_samples_come_out_in_order(v: RingView, more: Seq<i16>, n: int)
    requires
        v.samples.len() + more.len() <= v.cap,
        0 <= n,
    ensures
        ({
            let w = v.pushed(more);
            w.samples.take(w.frame_len(n)) + w.samples.skip(w.frame_len(n)) == v.samples + more
        }),
{
    let w = v.pushed(more);
    assert(w.samples.take(w.frame_len(n)) + w.samples.skip(w.frame_len(n)) =~= v.samples + more);
}

/// Law: the ring holds the newest samples, as many as it can, in the order in which they came,
/// however they were handed in.
pub proof fn law_the_newest_samples_stay(v: RingView, a: Seq<i16>, b: Seq<i16>)
    requires
        v.cap >= 0,
    ensures
        v.pushed(a).pushed(b).samples == v.pushed(a + b).samples,
        v.pushed(a).samples.len() <= v.cap || v.pushed(a).samples.len() == 0,
        ({
            let all = v.samples + a;
            let kept = v.pushed(a).samples;
            &&& kept == all.skip(all.len() - kept.len())
            &&& kept.len() == if all.len() > v.cap {
                v.cap
            } else {
                all.len() as int
            }
        }),
{
    let all = v.samples + a;
    let whole = v.samples + (a + b);
    assert(all + b =~= whole);
    assert(all.skip(0) =~= all);
    let w = v.pushed(a).samples + b;
    assert(w =~= whole.skip(whole.len() - w.len()));
    assert(v.pushed(a).pushed(b).samples =~= v.pushed(a + b).samples);
}

/// Law: a frame is as long as was asked for where that much is there, and all there is otherwise.
pub proof fn law_a_frame_is_what_is_there(v: RingView, n: int)
    requires
        n >= 0,
    ensures
        n <= v.samples.len() ==> v.frame_len(n) == n,
        n > v.samples.len() ==> v.frame_len(n) == v.samples.len(),
{
}

/// Law: a frame that is taken out is the oldest audio, and the rest stays in its order.
pub proof fn law_the_oldest_audio_is_taken_first(ring: &mut AudioRing, n: usize, r: Vec<i16>)
    requires
        call_ensures(AudioRing::drain, (ring, n), r),
    ensures
        r@ + final(ring)@.samples == old(ring)@.samples,
        r@.len() == if n <= old(ring)@.samples.len() {
            n as int
        } else {
            old(ring)@.samples.len() as int
        },
        final(ring)@.cap == old(ring)@.cap,
{
    assert(r@ + final(ring)@.samples =~= old(ring)@.samples);
}

} // verus!
