//! The hot store of sentence audio: clips by id, bounded by a number of samples, oldest out
//! first. Nothing here touches the disk.

use std::sync::Arc;

use vstd::prelude::*;

use crate::types::AudioId;

verus! {

/// Ten minutes of mono audio at 16 kHz.
pub const DEFAULT_CAP_SAMPLES: usize = 9_600_000;

/// A clip and its id.
struct Clip {
    id: AudioId,
    pcm: Arc<Vec<i16>>,
}

/// Clips by id, oldest first. The samples held never exceed the cap.
pub struct AudioStore {
    clips: Vec<Clip>,
    next_id: AudioId,
    /// Samples held by all clips together.
    total: usize,
    cap_samples: usize,
}

/// The clips of a store with their ids, oldest first.
pub type ClipSeq = Seq<(AudioId, Seq<i16>)>;

/// The store as a value.
pub struct StoreView {
    pub clips: ClipSeq,
    pub next_id: int,
    pub cap: int,
}

/// All samples of the clips.
pub open spec fn samples(clips: ClipSeq) -> int
    decreases clips.len(),
{
    if clips.len() == 0 {
        0
    } else {
        samples(clips.drop_last()) + clips.last().1.len()
    }
}

/// The clips left when the oldest are dropped until at most `cap` samples remain.
pub open spec fn newest_within(clips: ClipSeq, cap: int) -> ClipSeq
    decreases clips.len(),
{
    if clips.len() > 0 && samples(clips) > cap {
        newest_within(clips.skip(1), cap)
    } else {
        clips
    }
}

/// The audio held for `id`; nothing where the id is not held.
pub open spec fn audio_of(clips: ClipSeq, id: AudioId) -> Seq<i16>
    decreases clips.len(),
{
    if clips.len() == 0 {
        Seq::empty()
    } else if clips.last().0 == id {
        clips.last().1
    } else {
        audio_of(clips.drop_last(), id)
    }
}

/// The audio of several ids, in the order of the ids.
pub open spec fn audio_of_all(clips: ClipSeq, ids: Seq<AudioId>) -> Seq<i16>
    decreases ids.len(),
{
    if ids.len() == 0 {
        Seq::empty()
    } else {
        audio_of_all(clips, ids.drop_last()) + audio_of(clips, ids.last())
    }
}

/// The clips without the one of `id`.
pub open spec fn without(clips: ClipSeq, id: AudioId) -> ClipSeq
    decreases clips.len(),
{
    if clips.len() == 0 {
        clips
    } else if clips.last().0 == id {
        without(clips.drop_last(), id)
    } else {
        without(clips.drop_last(), id).push(clips.last())
    }
}

/// The clips without those of the given ids.
pub open spec fn without_all(clips: ClipSeq, ids: Seq<AudioId>) -> ClipSeq
    decreases ids.len(),
{
    if ids.len() == 0 {
        clips
    } else {
        without(without_all(clips, ids.drop_last()), ids.last())
    }
}

/// Ids increase from clip to clip.
pub open spec fn ids_increase(clips: ClipSeq) -> bool {
    forall|i: int, j: int| 0 <= i < j < clips.len() ==> clips[i].0 < clips[j].0
}

impl StoreView {
    /// Ids increase and were handed out; the samples held are within the cap.
    pub open spec fn wf(self) -> bool {
        &&& ids_increase(self.clips)
        &&& forall|i: int| 0 <= i < self.clips.len() ==> (#[trigger] self.clips[i]).0 < self.next_id
        &&& samples(self.clips) <= self.cap
        &&& 0 <= self.next_id <= u64::MAX
        &&& 0 <= self.cap <= usize::MAX
    }

    /// The store with one more clip, and no more clips than fit.
    pub open spec fn inserted(self, pcm: Seq<i16>) -> StoreView {
        StoreView {
            clips: newest_within(self.clips.push((self.next_id as u64, pcm)), self.cap),
            next_id: self.next_id + 1,
            ..self
        }
    }
}

spec fn clip_views(v: Seq<Clip>) -> ClipSeq {
    Seq::new(v.len(), |i: int| (v[i].id, v[i].pcm@))
}

impl View for AudioStore {
    type V = StoreView;

    closed spec fn view(&self) -> StoreView {
        StoreView {
            clips: clip_views(self.clips@),
            next_id: self.next_id as int,
            cap: self.cap_samples as int,
        }
    }
}

proof fn lemma_samples_skip_first(clips: ClipSeq)
    requires
        clips.len() > 0,
    ensures
        samples(clips) == clips[0].1.len() + samples(clips.skip(1)),
    decreases clips.len(),
{
    if clips.len() == 1 {
        assert(clips.drop_last() =~= clips.skip(1));
    } else {
        lemma_samples_skip_first(clips.drop_last());
        assert(clips.drop_last().skip(1) =~= clips.skip(1).drop_last());
    }
}

proof fn lemma_samples_remove(clips: ClipSeq, i: int)
    requires
        0 <= i < clips.len(),
    ensures
        samples(clips) == samples(clips.remove(i)) + clips[i].1.len(),
    decreases clips.len(),
{
    if i == clips.len() - 1 {
        assert(clips.remove(i) =~= clips.drop_last());
    } else {
        lemma_samples_remove(clips.drop_last(), i);
        assert(clips.remove(i).drop_last() =~= clips.drop_last().remove(i));
        assert(clips.remove(i).last() == clips.last());
    }
}

proof fn lemma_samples_nonneg(clips: ClipSeq)
    ensures
        samples(clips) >= 0,
    decreases clips.len(),
{
    if clips.len() > 0 {
        lemma_samples_nonneg(clips.drop_last());
    }
}

proof fn lemma_without_absent(clips: ClipSeq, id: AudioId)
    requires
        forall|i: int| 0 <= i < clips.len() ==> (#[trigger] clips[i]).0 != id,
    ensures
        without(clips, id) == clips,
        audio_of(clips, id) == Seq::<i16>::empty(),
    decreases clips.len(),
{
    if clips.len() > 0 {
        assert(clips[clips.len() - 1].0 != id);
        let t = clips.drop_last();
        assert forall|i: int| 0 <= i < t.len() implies (#[trigger] t[i]).0 != id by {
            assert(t[i] == clips[i]);
        }
        lemma_without_absent(t, id);
        assert(t.push(clips.last()) =~= clips);
    }
}

proof fn lemma_without_at(clips: ClipSeq, i: int)
    requires
        0 <= i < clips.len(),
        ids_increase(clips),
    ensures
        without(clips, clips[i].0) == clips.remove(i),
        audio_of(clips, clips[i].0) == clips[i].1,
        ids_increase(clips.remove(i)),
    decreases clips.len(),
{
    let id = clips[i].0;
    let t = clips.drop_last();
    assert forall|a: int, b: int| 0 <= a < b < clips.remove(i).len() implies clips.remove(i)[a].0
        < clips.remove(i)[b].0 by {
        let x = if a < i {
            a
        } else {
            a + 1
        };
        let y = if b < i {
            b
        } else {
            b + 1
        };
        assert(clips.remove(i)[a] == clips[x]);
        assert(clips.remove(i)[b] == clips[y]);
    }
    if i == clips.len() - 1 {
        assert forall|k: int| 0 <= k < t.len() implies (#[trigger] t[k]).0 != id by {
            assert(t[k] == clips[k]);
            assert(clips[k].0 < clips[i].0);
        }
        lemma_without_absent(t, id);
        assert(clips.remove(i) =~= t);
    } else {
        assert(clips[i].0 < clips[clips.len() - 1].0);
        assert(t[i] == clips[i]);
        assert forall|a: int, b: int| 0 <= a < b < t.len() implies t[a].0 < t[b].0 by {
            assert(t[a] == clips[a] && t[b] == clips[b]);
        }
        lemma_without_at(t, i);
        assert(t.remove(i).push(clips.last()) =~= clips.remove(i));
    }
}

impl AudioStore {
    /// An empty store for at most `cap_samples` samples.
    pub fn new(cap_samples: usize) -> (r: Self)
        ensures
            r@ == (StoreView { clips: Seq::empty(), next_id: 0, cap: cap_samples as int }),
            r@.wf(),
            r.inv(),
    {
        let r = AudioStore { clips: Vec::new(), next_id: 0, total: 0, cap_samples };
        proof {
            assert(r@.clips =~= Seq::empty());
        }
        r
    }

    /// The running total is the samples held.
    pub closed spec fn inv(&self) -> bool {
        self.total == samples(clip_views(self.clips@))
    }

    /// Samples held by all clips together.
    pub fn total_samples(&self) -> (r: usize)
        requires
            self.inv(),
        ensures
            r == samples(self@.clips),
    {
        self.total
    }

    /// The id that the next clip will get.
    pub fn next_id(&self) -> (r: AudioId)
        ensures
            r == self@.next_id,
    {
        self.next_id
    }

    /// Stores a clip and returns its id. The oldest clips leave while more than the cap is held.
    /// The allocation is shared with the caller.
    pub fn insert(&mut self, pcm: Arc<Vec<i16>>) -> (r: AudioId)
        requires
            old(self)@.wf(),
            old(self).inv(),
            old(self)@.next_id < u64::MAX,
            samples(old(self)@.clips) + pcm@.len() <= usize::MAX,
        ensures
            r == old(self)@.next_id,
            final(self)@ == old(self)@.inserted(pcm@),
            final(self)@.wf(),
            final(self).inv(),
    {
        let id: u64 = self.next_id;
        let ghost before = self@;
        let ghost all = before.clips.push((id, pcm@));
        self.next_id = id + 1;
        self.total = self.total + pcm.len();
        self.clips.push(Clip { id, pcm });
        proof {
            assert(clip_views(self.clips@) =~= all);
            assert(all.drop_last() =~= before.clips);
        }
        while self.total > self.cap_samples
            invariant
                self.total == samples(clip_views(self.clips@)),
                self.cap_samples == before.cap,
                self.next_id == before.next_id + 1,
                newest_within(all, before.cap) == newest_within(
                    clip_views(self.clips@),
                    before.cap,
                ),
                ids_increase(clip_views(self.clips@)),
                forall|i: int|
                    0 <= i < self.clips@.len() ==> (#[trigger] clip_views(self.clips@)[i]).0
                        < before.next_id + 1,
            decreases self.clips@.len(),
        {
            let ghost now = clip_views(self.clips@);
            proof {
                assert(now.len() > 0);
                lemma_samples_skip_first(now);
                lemma_samples_nonneg(now.skip(1));
            }
            let first = self.clips.remove(0);
            self.total = self.total - first.pcm.len();
            proof {
                assert(clip_views(self.clips@) =~= now.skip(1));
            }
        }
        proof {
            assert(self@.clips =~= newest_within(all, before.cap));
        }
        id
    }

    fn position(&self, id: AudioId) -> (r: Option<usize>)
        ensures
            match r {
                Some(i) => i < self.clips@.len() && self.clips@[i as int].id == id,
                None => forall|i: int|
                    0 <= i < self@.clips.len() ==> (#[trigger] self@.clips[i]).0 != id,
            },
    {
        let mut i: usize = 0;
        while i < self.clips.len()
            invariant
                0 <= i <= self.clips.len(),
                forall|j: int| 0 <= j < i ==> (#[trigger] self@.clips[j]).0 != id,
            decreases self.clips.len() - i,
        {
            if self.clips[i].id == id {
                return Some(i);
            }
            i = i + 1;
        }
        None
    }

    /// The audio of the given ids, one after the other. Ids that are not held add nothing.
    pub fn concat(&self, ids: &[AudioId]) -> (r: Vec<i16>)
        requires
            self@.wf(),
        ensures
            r@ == audio_of_all(self@.clips, ids@),
    {
        let mut out: Vec<i16> = Vec::new();
        let mut k: usize = 0;
        while k < ids.len()
            invariant
                0 <= k <= ids.len(),
                self@.wf(),
                out@ == audio_of_all(self@.clips, ids@.take(k as int)),
            decreases ids.len() - k,
        {
            let id: u64 = ids[k];
            let found = self.position(id);
            proof {
                assert(ids@.take(k + 1).drop_last() =~= ids@.take(k as int));
                match found {
                    Some(i) => {
                        assert(self@.clips[i as int].0 == id);
                        lemma_without_at(self@.clips, i as int);
                    },
                    None => {
                        lemma_without_absent(self@.clips, id);
                    },
                }
            }
            match found {
                Some(i) => {
                    let pcm: &Vec<i16> = &self.clips[i].pcm;
                    out.extend_from_slice(pcm.as_slice());
                    proof {
                        assert(out@ =~= audio_of_all(self@.clips, ids@.take(k + 1)));
                    }
                },
                None => {
                    proof {
                        assert(out@ =~= audio_of_all(self@.clips, ids@.take(k + 1)));
                    }
                },
            }
            k = k + 1;
        }
        proof {
            assert(ids@.take(ids@.len() as int) =~= ids@);
        }
        out
    }

    /// Drops the clips of the given ids. Ids that are not held are ignored.
    pub fn evict(&mut self, ids: &[AudioId])
        requires
            old(self)@.wf(),
            old(self).inv(),
        ensures
            final(self)@ == (StoreView {
                clips: without_all(old(self)@.clips, ids@),
                ..old(self)@
            }),
            final(self)@.wf(),
            final(self).inv(),
    {
        let ghost start = self@;
        let mut k: usize = 0;
        while k < ids.len()
            invariant
                0 <= k <= ids.len(),
                self@.wf(),
                self.inv(),
                self@.next_id == start.next_id,
                self@.cap == start.cap,
                self@.clips == without_all(start.clips, ids@.take(k as int)),
            decreases ids.len() - k,
        {
            let id: u64 = ids[k];
            let ghost now = self@.clips;
            proof {
                assert(ids@.take(k + 1).drop_last() =~= ids@.take(k as int));
            }
            let found = self.position(id);
            match found {
                Some(i) => {
                    proof {
                        assert(now[i as int].0 == id);
                        lemma_without_at(now, i as int);
                        lemma_samples_remove(now, i as int);
                        lemma_samples_nonneg(now.remove(i as int));
                        assert forall|j: int| 0 <= j < now.remove(i as int).len() implies (
                        #[trigger] now.remove(i as int)[j]).0 < start.next_id by {
                            let x = if j < i {
                                j
                            } else {
                                j + 1
                            };
                            assert(now.remove(i as int)[j] == now[x]);
                        }
                    }
                    let gone = self.clips.remove(i);
                    self.total = self.total - gone.pcm.len();
                    proof {
                        assert(clip_views(self.clips@) =~= now.remove(i as int));
                    }
                },
                None => {
                    proof {
                        lemma_without_absent(now, id);
                    }
                },
            }
            k = k + 1;
        }
        proof {
            assert(ids@.take(ids@.len() as int) =~= ids@);
        }
    }
}

proof fn lemma_audio_of_without(clips: ClipSeq, gone: AudioId, id: AudioId)
    ensures
        audio_of(without(clips, gone), id) == (if id == gone {
            Seq::<i16>::empty()
        } else {
            audio_of(clips, id)
        }),
    decreases clips.len(),
{
    if clips.len() > 0 {
        lemma_audio_of_without(clips.drop_last(), gone, id);
        if clips.last().0 != gone {
            let w = without(clips.drop_last(), gone).push(clips.last());
            assert(w.drop_last() =~= without(clips.drop_last(), gone));
        }
    }
}

/// Law: an evicted clip contributes nothing any more, and eviction leaves every other clip as it
/// was.
pub proof fn law_evict_forgets_exactly(v: StoreView, ids: Seq<AudioId>, id: AudioId)
    ensures
        audio_of(without_all(v.clips, ids), id) == (if ids.contains(id) {
            Seq::<i16>::empty()
        } else {
            audio_of(v.clips, id)
        }),
    decreases ids.len(),
{
    if ids.len() > 0 {
        let rest = ids.drop_last();
        law_evict_forgets_exactly(v, rest, id);
        lemma_audio_of_without(without_all(v.clips, rest), ids.last(), id);
        if ids.contains(id) && ids.last() != id {
            let k = choose|k: int| 0 <= k < ids.len() && ids[k] == id;
            assert(rest[k] == id);
        }
        if rest.contains(id) {
            let k = choose|k: int| 0 <= k < rest.len() && rest[k] == id;
            assert(ids[k] == id);
        }
        assert(ids.contains(ids.last())) by {
            assert(ids[ids.len() - 1] == ids.last());
        }
    }
}

proof fn lemma_newest_within_keeps_last(clips: ClipSeq, cap: int)
    requires
        clips.len() > 0,
        clips.last().1.len() <= cap,
    ensures
        newest_within(clips, cap).len() > 0,
        newest_within(clips, cap).last() == clips.last(),
    decreases clips.len(),
{
    if samples(clips) > cap {
        if clips.len() == 1 {
            assert(samples(clips.drop_last()) == 0);
        }
        lemma_newest_within_keeps_last(clips.skip(1), cap);
    }
}

/// Law: a clip that fits the cap can be read back under its id right after it was stored.
pub proof fn law_stored_clip_reads_back(v: StoreView, pcm: Seq<i16>)
    requires
        v.wf(),
        v.next_id < u64::MAX,
        pcm.len() <= v.cap,
    ensures
        audio_of(v.inserted(pcm).clips, v.next_id as u64) == pcm,
{
    let all = v.clips.push((v.next_id as u64, pcm));
    lemma_newest_within_keeps_last(all, v.cap);
}

/// Law: where everything fits, a new clip displaces none.
pub proof fn law_room_means_no_eviction(v: StoreView, pcm: Seq<i16>)
    requires
        v.wf(),
        samples(v.clips) + pcm.len() <= v.cap,
    ensures
        v.inserted(pcm).clips == v.clips.push((v.next_id as u64, pcm)),
{
    assert(v.clips.push((v.next_id as u64, pcm)).drop_last() =~= v.clips);
}

/// Law: what is displaced is the oldest: the clips that stay are a tail of all clips in order.
pub proof fn law_oldest_leave_first(clips: ClipSeq, cap: int)
    ensures
        exists|k: int|
            0 <= k <= clips.len() && newest_within(clips, cap) == #[trigger] clips.skip(k),
    decreases clips.len(),
{
    if clips.len() > 0 && samples(clips) > cap {
        law_oldest_leave_first(clips.skip(1), cap);
        let k = choose|k: int|
            0 <= k <= clips.len() - 1 && newest_within(clips.skip(1), cap)
                == #[trigger] clips.skip(1).skip(k);
        assert(clips.skip(1).skip(k) =~= clips.skip(k + 1));
    } else {
        assert(clips.skip(0) =~= clips);
    }
}

/// Law: the audio of several clips is that of each, in the order asked for.
pub proof fn law_audio_is_in_the_order_asked_for(
    clips: ClipSeq,
    a: Seq<AudioId>,
    b: Seq<AudioId>,
    id: AudioId,
)
    ensures
        audio_of_all(clips, a + b) == audio_of_all(clips, a) + audio_of_all(clips, b),
        audio_of_all(clips, seq![id]) == audio_of(clips, id),
        audio_of_all(clips, Seq::empty()).len() == 0,
    decreases b.len(),
{
    assert(seq![id].drop_last() =~= Seq::<AudioId>::empty());
    assert(audio_of_all(clips, Seq::<AudioId>::empty()) =~= Seq::<i16>::empty());
    assert(audio_of_all(clips, seq![id]) =~= audio_of(clips, id));
    if b.len() == 0 {
        assert(a + b =~= a);
    } else {
        assert((a + b).drop_last() =~= a + b.drop_last());
        law_audio_is_in_the_order_asked_for(clips, a, b.drop_last(), id);
    }
    assert(audio_of_all(clips, a + b) =~= audio_of_all(clips, a) + audio_of_all(clips, b));
}

/// Law: a clip that is held is found by its id, and where none has the id there is no audio.
pub proof fn law_clips_are_found_by_id(clips: ClipSeq, i: int, id: AudioId)
    requires
        ids_increase(clips),
    ensures
        0 <= i < clips.len() ==> audio_of(clips, clips[i].0) == clips[i].1,
        (forall|k: int| 0 <= k < clips.len() ==> (#[trigger] clips[k]).0 != id) ==> audio_of(
            clips,
            id,
        ).len() == 0,
    decreases clips.len(),
{
    if clips.len() > 0 {
        let rest = clips.drop_last();
        law_clips_are_found_by_id(rest, i, id);
        if 0 <= i < rest.len() {
            assert(rest[i] == clips[i]);
        }
        if forall|k: int| 0 <= k < clips.len() ==> (#[trigger] clips[k]).0 != id {
            assert(clips[clips.len() - 1].0 != id);
            assert forall|k: int| 0 <= k < rest.len() implies (#[trigger] rest[k]).0 != id by {
                assert(clips[k].0 != id);
            }
        }
    }
}

/// Law: what is held is counted clip by clip.
pub proof fn law_samples_add_up(a: ClipSeq, b: ClipSeq, clip: (AudioId, Seq<i16>))
    ensures
        samples(a + b) == samples(a) + samples(b),
        samples(seq![clip]) == clip.1.len(),
    decreases b.len(),
{
    assert(seq![clip].drop_last() =~= Seq::<(AudioId, Seq<i16>)>::empty());
    assert(samples(Seq::<(AudioId, Seq<i16>)>::empty()) == 0);
    if b.len() == 0 {
        assert(a + b =~= a);
    } else {
        assert((a + b).drop_last() =~= a + b.drop_last());
        law_samples_add_up(a, b.drop_last(), clip);
    }
}

/// Law: no clip leaves without need. What stays is the longest run of newest clips that the cap
/// allows.
pub proof fn law_as_much_as_fits_is_kept(clips: ClipSeq, cap: int, k: int)
    requires
        cap >= 0,
        0 <= k <= clips.len(),
    ensures
        samples(newest_within(clips, cap)) <= cap,
        samples(clips.skip(k)) <= cap ==> newest_within(clips, cap).len() >= clips.len() - k,
        newest_within(clips, cap) == clips.skip(clips.len() - newest_within(clips, cap).len()),
    decreases clips.len(),
{
    if clips.len() > 0 && samples(clips) > cap {
        let rest = clips.skip(1);
        let kept = newest_within(rest, cap);
        if k > 0 {
            law_as_much_as_fits_is_kept(rest, cap, k - 1);
            assert(rest.skip(k - 1) =~= clips.skip(k));
        } else {
            law_as_much_as_fits_is_kept(rest, cap, 0);
            assert(clips.skip(0) =~= clips);
        }
        assert(kept.len() <= rest.len()) by {
            law_oldest_leave_first(rest, cap);
        }
        assert(rest.skip(rest.len() - kept.len()) =~= clips.skip(clips.len() - kept.len()));
    } else {
        assert(clips.skip(0) =~= clips);
        assert(clips.len() == 0 ==> samples(clips) == 0);
    }
}

/// Law: every clip gets a number of its own, one after the other.
pub proof fn law_clips_are_numbered(v: StoreView, pcm: Seq<i16>)
    ensures
        v.inserted(pcm).next_id == v.next_id + 1,
        v.inserted(pcm).cap == v.cap,
{
}

/// Law: the clips that stay behind after one is dropped are the others, in their order.
pub proof fn law_dropping_keeps_the_others_in_order(clips: ClipSeq, id: AudioId)
    ensures
        without(clips, id) == clips.filter(|c: (AudioId, Seq<i16>)| c.0 != id),
    decreases clips.len(),
{
    reveal(Seq::filter);
    if clips.len() > 0 {
        law_dropping_keeps_the_others_in_order(clips.drop_last(), id);
    }
}

/// Law: what was stored is read back by its id, and several clips in the order asked for.
pub proof fn law_a_clip_is_read_back(
    s: &mut AudioStore,
    t: AudioStore,
    pcm: Arc<Vec<i16>>,
    ids: &[AudioId],
    id: AudioId,
    r: Vec<i16>,
)
    requires
        old(s)@.wf(),
        old(s)@.next_id < u64::MAX,
        pcm@.len() <= old(s)@.cap,
        call_ensures(AudioStore::insert, (s, pcm), id),
        t == *final(s),
        ids@ == seq![id],
        call_ensures(AudioStore::concat, (&t, ids), r),
    ensures
        r@ == pcm@,
        id == old(s)@.next_id,
{
    law_stored_clip_reads_back(old(s)@, pcm@);
    law_audio_is_in_the_order_asked_for(t@.clips, Seq::empty(), Seq::empty(), id);
}

} // verus!
