//! The archive of recordings: recent clips stay in memory, all of them go to date-named WAV
//! files. Which file is written when, and what leaves memory, is decided here; the writing
//! itself is done by the caller.

use vstd::prelude::*;
use vstd::string::*;

use crate::clock::{clock_text, day_text, format_clock, format_day, LocalTime};
use crate::text::{
    join_path, law_padding_keeps_the_number, number_of, path_under, zero_padded, zero_padded_text,
};
use crate::wav::{
    file_audio_us, fits_header, lasting, lasting_us, opt_int, pcm_to_wav, wav_duration_us, wav_file,
};

verus! {

/// Settings of the archive.
#[derive(Debug)]
pub struct ArchiveConfig {
    /// Root of the recordings; each day has a directory below it.
    pub dir: String,
    /// How many clips stay in memory.
    pub hot_capacity: usize,
    /// How often the flusher runs.
    pub flush_every_ms: u64,
    /// Samples per second of every clip.
    pub sample_rate: u32,
}

impl Default for ArchiveConfig {
    fn default() -> (r: Self)
        ensures
            r.dir@ == "data/recordings"@,
            r.hot_capacity == 30,
            r.flush_every_ms == 10_000,
            r.sample_rate == 16_000,
    {
        ArchiveConfig {
            dir: "data/recordings".to_owned(),
            hot_capacity: 30,
            flush_every_ms: 10_000,
            sample_rate: 16_000,
        }
    }
}

/// What is known of a clip.
#[derive(Debug)]
pub struct ClipMeta {
    pub seq: u64,
    /// When it was recorded; 0 where only its file is known.
    pub at_us: i64,
    /// `None` where there is no sample rate to tell it by.
    pub duration_us: Option<u128>,
    /// Is it still in memory?
    pub hot: bool,
    pub path: String,
}

struct Clip {
    seq: u64,
    pcm: Vec<i16>,
    at_us: i64,
    path: String,
    flushed: bool,
}

struct Flushed {
    seq: u64,
    path: String,
}

/// The archive's state.
pub struct AudioArchive {
    cfg: ArchiveConfig,
    /// Clips in memory, by increasing number.
    hot: Vec<Clip>,
    /// Files written, by increasing number.
    flushed: Vec<Flushed>,
}

/// A clip in memory as a value.
pub struct ClipView {
    pub seq: u64,
    pub pcm: Seq<i16>,
    pub at_us: i64,
    pub path: Seq<char>,
    pub flushed: bool,
}

/// The archive as a value.
pub struct ArchiveView {
    pub dir: Seq<char>,
    pub capacity: int,
    pub sample_rate: int,
    pub hot: Seq<ClipView>,
    pub flushed: Seq<(u64, Seq<char>)>,
}

/// The directory of the day and the name of the file of a clip.
pub open spec fn rel_path(t: LocalTime, seq: u64) -> (Seq<char>, Seq<char>) {
    (day_text(t), clock_text(t) + "_"@ + zero_padded(seq as nat, 4) + ".wav"@)
}

/// The directory of the day and the name of the file of a clip recorded at `t`.
pub fn clip_rel_path(t: LocalTime, seq: u64) -> (r: (String, String))
    ensures
        (r.0@, r.1@) == rel_path(t, seq),
{
    let mut name = format_clock(t);
    name.append("_");
    name.append(zero_padded_text(seq, 4).as_str());
    name.append(".wav");
    (format_day(t), name)
}

/// Clips in order of their numbers.
pub open spec fn hot_sorted(hot: Seq<ClipView>) -> bool {
    forall|i: int, j: int| 0 <= i < j < hot.len() ==> hot[i].seq < hot[j].seq
}

/// Files in order of their numbers.
pub open spec fn flushed_sorted(flushed: Seq<(u64, Seq<char>)>) -> bool {
    forall|i: int, j: int| 0 <= i < j < flushed.len() ==> flushed[i].0 < flushed[j].0
}

/// Is a clip of that number in memory?
pub open spec fn in_hot(hot: Seq<ClipView>, seq: u64) -> bool {
    exists|i: int| 0 <= i < hot.len() && (#[trigger] hot[i]).seq == seq
}

/// Is a file of that number known?
pub open spec fn in_flushed(flushed: Seq<(u64, Seq<char>)>, seq: u64) -> bool {
    exists|i: int| 0 <= i < flushed.len() && (#[trigger] flushed[i]).0 == seq
}

/// The clips with `c` among them, in its place.
pub open spec fn hot_with(hot: Seq<ClipView>, c: ClipView) -> Seq<ClipView>
    decreases hot.len(),
{
    if hot.len() == 0 || hot.last().seq < c.seq {
        hot.push(c)
    } else if hot.last().seq == c.seq {
        hot.drop_last().push(c)
    } else {
        hot_with(hot.drop_last(), c).push(hot.last())
    }
}

/// The files with one more among them, in its place.
pub open spec fn flushed_with(flushed: Seq<(u64, Seq<char>)>, seq: u64, path: Seq<char>) -> Seq<
    (u64, Seq<char>),
>
    decreases flushed.len(),
{
    if flushed.len() == 0 || flushed.last().0 < seq {
        flushed.push((seq, path))
    } else if flushed.last().0 == seq {
        flushed.drop_last().push((seq, path))
    } else {
        flushed_with(flushed.drop_last(), seq, path).push(flushed.last())
    }
}

/// The clips with the one of that number marked as written.
pub open spec fn marked(hot: Seq<ClipView>, seq: u64) -> Seq<ClipView> {
    Seq::new(
        hot.len(),
        |i: int|
            if hot[i].seq == seq {
                ClipView { flushed: true, ..hot[i] }
            } else {
                hot[i]
            },
    )
}

impl ArchiveView {
    /// Both lists are in order.
    pub open spec fn wf(self) -> bool {
        &&& hot_sorted(self.hot)
        &&& flushed_sorted(self.flushed)
    }

    /// With one more recording in memory, not written yet.
    pub open spec fn pushed(self, seq: u64, at_us: i64, pcm: Seq<i16>, path: Seq<char>) -> ArchiveView {
        ArchiveView {
            hot: hot_with(self.hot, ClipView { seq, pcm, at_us, path, flushed: false }),
            ..self
        }
    }

    /// Is more in memory than fits?
    pub open spec fn overfull(self) -> bool {
        self.hot.len() > self.capacity
    }

    /// The oldest clip has left memory; its file stays known.
    pub open spec fn oldest_evicted(self) -> ArchiveView {
        ArchiveView {
            hot: self.hot.skip(1),
            flushed: flushed_with(self.flushed, self.hot[0].seq, self.hot[0].path),
            ..self
        }
    }

    /// The oldest clips that were written have left memory, as long as more is in it than fits.
    pub open spec fn written_evicted(self) -> ArchiveView
        decreases self.hot.len(),
    {
        if self.overfull() && self.hot.len() > 0 && self.hot[0].flushed {
            self.oldest_evicted().written_evicted()
        } else {
            self
        }
    }

    /// How many clips are in memory only.
    pub open spec fn unwritten(self) -> int {
        count_unwritten(self.hot)
    }
}

/// How many clips are not written yet.
pub open spec fn count_unwritten(hot: Seq<ClipView>) -> int
    decreases hot.len(),
{
    if hot.len() == 0 {
        0
    } else {
        count_unwritten(hot.drop_last()) + (if hot.last().flushed {
            0int
        } else {
            1int
        })
    }
}

spec fn clip_views(v: Seq<Clip>) -> Seq<ClipView> {
    Seq::new(
        v.len(),
        |i: int|
            ClipView {
                seq: v[i].seq,
                pcm: v[i].pcm@,
                at_us: v[i].at_us,
                path: v[i].path@,
                flushed: v[i].flushed,
            },
    )
}

spec fn flushed_views(v: Seq<Flushed>) -> Seq<(u64, Seq<char>)> {
    Seq::new(v.len(), |i: int| (v[i].seq, v[i].path@))
}

impl View for AudioArchive {
    type V = ArchiveView;

    closed spec fn view(&self) -> ArchiveView {
        ArchiveView {
            dir: self.cfg.dir@,
            capacity: self.cfg.hot_capacity as int,
            sample_rate: self.cfg.sample_rate as int,
            hot: clip_views(self.hot@),
            flushed: flushed_views(self.flushed@),
        }
    }
}

/// What has to happen before everything in memory fits.
pub enum Overflow {
    /// Nothing.
    Fits,
    /// The oldest clip is to be written, and [`AudioArchive::evict_written`] called once it is.
    Write { seq: u64, path: String, wav: Vec<u8> },
}

/// Where a recording can be heard.
pub enum Playback {
    /// The WAV file from memory.
    Bytes(Vec<u8>),
    /// A file that was written.
    File(String),
    /// No such recording.
    Unknown,
}

proof fn lemma_hot_with_at(hot: Seq<ClipView>, c: ClipView, k: int)
    requires
        0 <= k <= hot.len(),
        hot_sorted(hot),
        forall|i: int| 0 <= i < k ==> (#[trigger] hot[i]).seq < c.seq,
        forall|i: int| k <= i < hot.len() ==> (#[trigger] hot[i]).seq >= c.seq,
    ensures
        k < hot.len() && hot[k].seq == c.seq ==> hot_with(hot, c) == hot.update(k, c),
        !(k < hot.len() && hot[k].seq == c.seq) ==> hot_with(hot, c) == hot.insert(k, c),
    decreases hot.len(),
{
    if hot.len() == 0 || hot.last().seq < c.seq {
        if hot.len() > 0 {
            assert(hot[hot.len() - 1].seq < c.seq);
        }
        assert(k == hot.len());
        assert(hot_with(hot, c) =~= hot.insert(k, c));
    } else if hot.last().seq == c.seq {
        assert(k == hot.len() - 1) by {
            if k < hot.len() - 1 {
                assert(hot[k].seq < hot[hot.len() - 1].seq);
                assert(hot[k].seq >= c.seq);
            }
        }
        assert(hot_with(hot, c) =~= hot.update(k, c));
    } else {
        let t = hot.drop_last();
        assert(k < hot.len()) by {
            if k == hot.len() {
                assert(hot[hot.len() - 1].seq < c.seq);
            }
        }
        assert forall|i: int, j: int| 0 <= i < j < t.len() implies t[i].seq < t[j].seq by {
            assert(t[i] == hot[i] && t[j] == hot[j]);
        }
        assert forall|i: int| 0 <= i < k implies (#[trigger] t[i]).seq < c.seq by {
            assert(t[i] == hot[i]);
        }
        assert forall|i: int| k <= i < t.len() implies (#[trigger] t[i]).seq >= c.seq by {
            assert(t[i] == hot[i]);
        }
        lemma_hot_with_at(t, c, k);
        if k < t.len() && t[k].seq == c.seq {
            assert(t.update(k, c).push(hot.last()) =~= hot.update(k, c));
        } else {
            assert(!(k < hot.len() && hot[k].seq == c.seq));
            assert(t.insert(k, c).push(hot.last()) =~= hot.insert(k, c));
        }
    }
}

proof fn lemma_hot_with_sorted(hot: Seq<ClipView>, c: ClipView)
    requires
        hot_sorted(hot),
    ensures
        hot_sorted(hot_with(hot, c)),
        forall|s: u64|
            #![trigger in_hot(hot_with(hot, c), s)]
            in_hot(hot_with(hot, c), s) <==> in_hot(hot, s) || s == c.seq,
        forall|i: int|
            0 <= i < hot_with(hot, c).len() ==> (#[trigger] hot_with(hot, c)[i]) == c || exists|j: int|
                0 <= j < hot.len() && hot[j] == hot_with(hot, c)[i],
        hot_with(hot, c).len() <= hot.len() + 1,
    decreases hot.len(),
{
    let r = hot_with(hot, c);
    if hot.len() == 0 || hot.last().seq < c.seq {
        assert(r == hot.push(c));
        assert(r[hot.len() as int] == c);
        assert forall|s: u64| in_hot(r, s) <==> in_hot(hot, s) || s == c.seq by {
            if in_hot(hot, s) {
                let i = choose|i: int| 0 <= i < hot.len() && (#[trigger] hot[i]).seq == s;
                assert(r[i].seq == s);
            }
            if in_hot(r, s) {
                let i = choose|i: int| 0 <= i < r.len() && (#[trigger] r[i]).seq == s;
                if i < hot.len() {
                    assert(hot[i].seq == s);
                }
            }
        }
        assert forall|i: int, j: int| 0 <= i < j < r.len() implies r[i].seq < r[j].seq by {
            if j == hot.len() {
                if i < hot.len() - 1 {
                    assert(hot[i].seq < hot[hot.len() - 1].seq);
                }
            }
        }
        assert forall|i: int| 0 <= i < r.len() implies (#[trigger] r[i]) == c || exists|j: int|
            0 <= j < hot.len() && hot[j] == r[i] by {
            if i < hot.len() {
                assert(hot[i] == r[i]);
            }
        }
    } else if hot.last().seq == c.seq {
        let t = hot.drop_last();
        assert(r == t.push(c));
        assert(r[t.len() as int] == c);
        assert(hot[hot.len() - 1].seq == c.seq);
        assert forall|s: u64| in_hot(r, s) <==> in_hot(hot, s) || s == c.seq by {
            if in_hot(hot, s) {
                let i = choose|i: int| 0 <= i < hot.len() && (#[trigger] hot[i]).seq == s;
                assert(r[i].seq == s);
            }
            if in_hot(r, s) {
                let i = choose|i: int| 0 <= i < r.len() && (#[trigger] r[i]).seq == s;
                assert(hot[i].seq == s);
            }
        }
        assert forall|i: int, j: int| 0 <= i < j < r.len() implies r[i].seq < r[j].seq by {
            assert(hot[i].seq < hot[j].seq);
        }
        assert forall|i: int| 0 <= i < r.len() implies (#[trigger] r[i]) == c || exists|j: int|
            0 <= j < hot.len() && hot[j] == r[i] by {
            if i < t.len() {
                assert(hot[i] == r[i]);
            }
        }
    } else {
        let t = hot.drop_last();
        let u = hot_with(t, c);
        assert forall|i: int, j: int| 0 <= i < j < t.len() implies t[i].seq < t[j].seq by {
            assert(t[i] == hot[i] && t[j] == hot[j]);
        }
        lemma_hot_with_sorted(t, c);
        assert(r == u.push(hot.last()));
        assert forall|s: u64| in_hot(r, s) <==> in_hot(hot, s) || s == c.seq by {
            if in_hot(hot, s) {
                let i = choose|i: int| 0 <= i < hot.len() && (#[trigger] hot[i]).seq == s;
                if i < t.len() {
                    assert(t[i].seq == s);
                    assert(in_hot(t, s));
                    assert(in_hot(u, s));
                    let k = choose|k: int| 0 <= k < u.len() && (#[trigger] u[k]).seq == s;
                    assert(r[k].seq == s);
                } else {
                    assert(r[u.len() as int].seq == s);
                }
            }
            if s == c.seq {
                assert(in_hot(u, s));
                let k = choose|k: int| 0 <= k < u.len() && (#[trigger] u[k]).seq == s;
                assert(r[k].seq == s);
            }
            if in_hot(r, s) {
                let k = choose|k: int| 0 <= k < r.len() && (#[trigger] r[k]).seq == s;
                if k < u.len() {
                    assert(u[k].seq == s);
                    assert(in_hot(u, s));
                    if in_hot(t, s) {
                        let i = choose|i: int| 0 <= i < t.len() && (#[trigger] t[i]).seq == s;
                        assert(hot[i].seq == s);
                    }
                } else {
                    assert(hot[hot.len() - 1].seq == s);
                }
            }
        }
        assert forall|i: int, j: int| 0 <= i < j < r.len() implies r[i].seq < r[j].seq by {
            if j < u.len() {
                assert(u[i].seq < u[j].seq);
            } else {
                assert(r[i] == u[i]);
                if u[i] != c {
                    let k = choose|k: int| 0 <= k < t.len() && t[k] == u[i];
                    assert(hot[k].seq < hot[hot.len() - 1].seq);
                }
            }
        }
        assert forall|i: int| 0 <= i < r.len() implies (#[trigger] r[i]) == c || exists|j: int|
            0 <= j < hot.len() && hot[j] == r[i] by {
            if i < u.len() {
                assert(r[i] == u[i]);
                if u[i] != c {
                    let k = choose|k: int| 0 <= k < t.len() && t[k] == u[i];
                    assert(hot[k] == r[i]);
                }
            } else {
                assert(hot[hot.len() - 1] == r[i]);
            }
        }
    }
}

proof fn lemma_insert_sorted(flushed: Seq<(u64, Seq<char>)>, x: (u64, Seq<char>), k: int)
    requires
        0 <= k <= flushed.len(),
        flushed_sorted(flushed),
        forall|i: int| 0 <= i < k ==> (#[trigger] flushed[i]).0 < x.0,
        k < flushed.len() ==> flushed[k].0 > x.0,
    ensures
        flushed_sorted(flushed.insert(k, x)),
{
    let r = flushed.insert(k, x);
    assert forall|i: int, j: int| 0 <= i < j < r.len() implies r[i].0 < r[j].0 by {
        let a = if i < k { i } else { i - 1 };
        let b = if j < k { j } else { j - 1 };
        if i != k && j != k {
            assert(r[i] == flushed[a] && r[j] == flushed[b]);
        } else if i == k {
            assert(r[j] == flushed[b]);
            if b > k {
                assert(flushed[k].0 < flushed[b].0);
            }
        } else {
            assert(r[i] == flushed[i]);
        }
    }
}

proof fn lemma_flushed_with_at(flushed: Seq<(u64, Seq<char>)>, seq: u64, path: Seq<char>, k: int)
    requires
        0 <= k <= flushed.len(),
        flushed_sorted(flushed),
        forall|i: int| 0 <= i < k ==> (#[trigger] flushed[i]).0 < seq,
        forall|i: int| k <= i < flushed.len() ==> (#[trigger] flushed[i]).0 >= seq,
    ensures
        k < flushed.len() && flushed[k].0 == seq ==> flushed_with(flushed, seq, path)
            == flushed.update(k, (seq, path)),
        !(k < flushed.len() && flushed[k].0 == seq) ==> flushed_with(flushed, seq, path)
            == flushed.insert(k, (seq, path)),
        flushed_sorted(flushed_with(flushed, seq, path)),
    decreases flushed.len(),
{
    let r = flushed_with(flushed, seq, path);
    if !(k < flushed.len() && flushed[k].0 == seq) {
        lemma_insert_sorted(flushed, (seq, path), k);
    }
    if flushed.len() == 0 || flushed.last().0 < seq {
        if flushed.len() > 0 {
            assert(flushed[flushed.len() - 1].0 < seq);
        }
        assert(k == flushed.len());
        assert(r =~= flushed.insert(k, (seq, path)));
    } else if flushed.last().0 == seq {
        assert(k == flushed.len() - 1) by {
            if k < flushed.len() - 1 {
                assert(flushed[k].0 < flushed[flushed.len() - 1].0);
                assert(flushed[k].0 >= seq);
            }
        }
        assert(r =~= flushed.update(k, (seq, path)));
    } else {
        let t = flushed.drop_last();
        assert(k < flushed.len()) by {
            if k == flushed.len() {
                assert(flushed[flushed.len() - 1].0 < seq);
            }
        }
        assert forall|i: int, j: int| 0 <= i < j < t.len() implies t[i].0 < t[j].0 by {
            assert(t[i] == flushed[i] && t[j] == flushed[j]);
        }
        assert forall|i: int| 0 <= i < k implies (#[trigger] t[i]).0 < seq by {
            assert(t[i] == flushed[i]);
        }
        assert forall|i: int| k <= i < t.len() implies (#[trigger] t[i]).0 >= seq by {
            assert(t[i] == flushed[i]);
        }
        lemma_flushed_with_at(t, seq, path, k);
        if k < t.len() && t[k].0 == seq {
            assert(r =~= flushed.update(k, (seq, path)));
        } else {
            assert(r =~= flushed.insert(k, (seq, path)));
        }
    }
}

impl AudioArchive {
    /// An empty archive.
    pub fn new(cfg: ArchiveConfig) -> (r: Self)
        ensures
            r@.wf(),
            r@ == (ArchiveView {
                dir: cfg.dir@,
                capacity: cfg.hot_capacity as int,
                sample_rate: cfg.sample_rate as int,
                hot: Seq::empty(),
                flushed: Seq::empty(),
            }),
    {
        let r = AudioArchive { cfg, hot: Vec::new(), flushed: Vec::new() };
        proof {
            assert(r@.hot =~= Seq::empty());
            assert(r@.flushed =~= Seq::empty());
        }
        r
    }

    /// The first place at or after which clips have numbers of at least `seq`.
    fn hot_slot(&self, seq: u64) -> (r: usize)
        requires
            self@.wf(),
        ensures
            r <= self@.hot.len(),
            forall|i: int| 0 <= i < r ==> (#[trigger] self@.hot[i]).seq < seq,
            forall|i: int| r <= i < self@.hot.len() ==> (#[trigger] self@.hot[i]).seq >= seq,
    {
        let mut k: usize = 0;
        while k < self.hot.len() && self.hot[k].seq < seq
            invariant
                k <= self.hot.len(),
                forall|i: int| 0 <= i < k ==> (#[trigger] self@.hot[i]).seq < seq,
            decreases self.hot.len() - k,
        {
            k = k + 1;
        }
        proof {
            assert forall|i: int| k <= i < self@.hot.len() implies (#[trigger] self@.hot[i]).seq
                >= seq by {
                assert(self@.hot[k as int].seq >= seq);
                if i > k {
                    assert(self@.hot[k as int].seq < self@.hot[i].seq);
                }
            }
        }
        k
    }

    fn note_file(&mut self, seq: u64, path: String)
        requires
            old(self)@.wf(),
        ensures
            final(self)@.wf(),
            final(self)@ == (ArchiveView {
                flushed: flushed_with(old(self)@.flushed, seq, path@),
                ..old(self)@
            }),
    {
        let ghost before = self@.flushed;
        let mut k: usize = 0;
        while k < self.flushed.len() && self.flushed[k].seq < seq
            invariant
                k <= self.flushed.len(),
                self@.flushed == before,
                self@ == old(self)@,
                forall|i: int| 0 <= i < k ==> (#[trigger] before[i]).0 < seq,
            decreases self.flushed.len() - k,
        {
            k = k + 1;
        }
        proof {
            assert forall|i: int| k <= i < before.len() implies (#[trigger] before[i]).0 >= seq by {
                assert(before[k as int].0 >= seq);
                if i > k {
                    assert(before[k as int].0 < before[i].0);
                }
            }
            lemma_flushed_with_at(before, seq, path@, k as int);
        }
        let ghost p = path@;
        if k < self.flushed.len() && self.flushed[k].seq == seq {
            self.flushed.set(k, Flushed { seq, path });
            proof {
                assert(self@.flushed =~= before.update(k as int, (seq, p)));
            }
        } else {
            self.flushed.insert(k, Flushed { seq, path });
            proof {
                assert(self@.flushed =~= before.insert(k as int, (seq, p)));
            }
        }
        proof {
            assert(self@.hot =~= old(self)@.hot);
        }
    }

    /// Takes a recording made at `t` into memory and returns the path of its file, which is not
    /// written yet. Whether something has to be written first is asked with
    /// [`AudioArchive::overflow`].
    pub fn push(&mut self, seq: u64, at_us: i64, pcm: Vec<i16>, t: LocalTime) -> (r: String)
        requires
            old(self)@.wf(),
        ensures
            final(self)@.wf(),
            r@ == path_under(path_under(old(self)@.dir, rel_path(t, seq).0), rel_path(t, seq).1),
            final(self)@ == old(self)@.pushed(seq, at_us, pcm@, r@),
            final(self)@ == old(self)@.stepped(
                ArchiveStep::Push((Recording { seq, at_us, pcm: pcm@, path: r@ })),
            ),
    {
        let (day, name) = clip_rel_path(t, seq);
        let day_dir = join_path(self.cfg.dir.as_str(), day.as_str());
        let path = join_path(day_dir.as_str(), name.as_str());
        let ghost before = self@.hot;
        let k: usize = self.hot_slot(seq);
        let clip = Clip { seq, pcm, at_us, path: path.clone(), flushed: false };
        let ghost c = ClipView { seq, pcm: pcm@, at_us, path: path@, flushed: false };
        proof {
            lemma_hot_with_at(before, c, k as int);
            lemma_hot_with_sorted(before, c);
        }
        if k < self.hot.len() && self.hot[k].seq == seq {
            self.hot.set(k, clip);
            proof {
                assert(self@.hot =~= before.update(k as int, c));
            }
        } else {
            self.hot.insert(k, clip);
            proof {
                assert(self@.hot =~= before.insert(k as int, c));
            }
        }
        proof {
            assert(self@.flushed =~= old(self)@.flushed);
        }
        path
    }

    /// Lets the oldest clips that were written leave memory while more is in it than fits, and
    /// says whether an unwritten one is now in the way. A clip that is not written never leaves.
    pub fn overflow(&mut self) -> (r: Overflow)
        requires
            old(self)@.wf(),
            forall|i: int|
                0 <= i < old(self)@.hot.len() ==> fits_header(
                    (#[trigger] old(self)@.hot[i]).pcm.len() as int,
                    old(self)@.sample_rate,
                ),
        ensures
            final(self)@.wf(),
            final(self)@ == old(self)@.written_evicted(),
            final(self)@ == old(self)@.stepped(ArchiveStep::MakeRoom),
            match r {
                Overflow::Fits => !final(self)@.overfull(),
                Overflow::Write { seq, path, wav } => {
                    &&& final(self)@.overfull()
                    &&& final(self)@.hot.len() > 0
                    &&& !final(self)@.hot[0].flushed
                    &&& seq == final(self)@.hot[0].seq
                    &&& path@ == final(self)@.hot[0].path
                    &&& wav@ == wav_file(final(self)@.hot[0].pcm, final(self)@.sample_rate)
                },
            },
    {
        let ghost target = self@.written_evicted();
        while self.hot.len() > self.cfg.hot_capacity && self.hot[0].flushed
            invariant
                self@.wf(),
                self@.written_evicted() == target,
                self@.sample_rate == old(self)@.sample_rate,
                forall|i: int|
                    0 <= i < self@.hot.len() ==> fits_header(
                        (#[trigger] self@.hot[i]).pcm.len() as int,
                        self@.sample_rate,
                    ),
            decreases self.hot.len(),
        {
            let ghost now = self@;
            let gone = self.hot.remove(0);
            proof {
                assert(self@.hot =~= now.hot.skip(1));
                assert(self@.flushed =~= now.flushed);
                assert forall|i: int, j: int| 0 <= i < j < self@.hot.len() implies self@.hot[i].seq
                    < self@.hot[j].seq by {
                    assert(self@.hot[i] == now.hot[i + 1] && self@.hot[j] == now.hot[j + 1]);
                }
                assert forall|i: int| 0 <= i < self@.hot.len() implies fits_header(
                    (#[trigger] self@.hot[i]).pcm.len() as int,
                    self@.sample_rate,
                ) by {
                    assert(self@.hot[i] == now.hot[i + 1]);
                }
            }
            self.note_file(gone.seq, gone.path);
            proof {
                assert(self@ == now.oldest_evicted());
            }
        }
        if self.hot.len() > self.cfg.hot_capacity {
            proof {
                assert(fits_header(self@.hot[0].pcm.len() as int, self@.sample_rate));
            }
            let wav = pcm_to_wav(self.hot[0].pcm.as_slice(), self.cfg.sample_rate);
            Overflow::Write { seq: self.hot[0].seq, path: self.hot[0].path.clone(), wav }
        } else {
            Overflow::Fits
        }
    }

    /// The oldest clip was just written: it leaves memory and its file is noted. Says whether
    /// there was such a clip with that number.
    pub fn evict_written(&mut self, seq: u64) -> (r: bool)
        requires
            old(self)@.wf(),
        ensures
            final(self)@.wf(),
            r == (old(self)@.hot.len() > 0 && old(self)@.hot[0].seq == seq),
            final(self)@ == old(self)@.stepped(ArchiveStep::Evict(seq)),
    {
        if self.hot.len() == 0 || self.hot[0].seq != seq {
            return false;
        }
        let ghost now = self@;
        let gone = self.hot.remove(0);
        proof {
            assert(self@.hot =~= now.hot.skip(1));
            assert(self@.flushed =~= now.flushed);
            assert forall|i: int, j: int| 0 <= i < j < self@.hot.len() implies self@.hot[i].seq
                < self@.hot[j].seq by {
                assert(self@.hot[i] == now.hot[i + 1] && self@.hot[j] == now.hot[j + 1]);
            }
        }
        self.note_file(gone.seq, gone.path);
        true
    }

    /// Where a recording can be heard: memory first, then its file.
    pub fn wav(&self, seq: u64) -> (r: Playback)
        requires
            self@.wf(),
            forall|i: int|
                0 <= i < self@.hot.len() && (#[trigger] self@.hot[i]).seq == seq ==> fits_header(
                    self@.hot[i].pcm.len() as int,
                    self@.sample_rate,
                ),
        ensures
            match r {
                Playback::Bytes(b) => exists|i: int|
                    {
                        &&& 0 <= i < self@.hot.len()
                        &&& (#[trigger] self@.hot[i]).seq == seq
                        &&& b@ == wav_file(self@.hot[i].pcm, self@.sample_rate)
                    },
                Playback::File(p) => !in_hot(self@.hot, seq) && exists|i: int|
                    0 <= i < self@.flushed.len() && #[trigger] self@.flushed[i] == (seq, p@),
                Playback::Unknown => !in_hot(self@.hot, seq) && !in_flushed(self@.flushed, seq),
            },
    {
        let mut i: usize = 0;
        while i < self.hot.len()
            invariant
                0 <= i <= self.hot.len(),
                forall|j: int| 0 <= j < i ==> (#[trigger] self@.hot[j]).seq != seq,
                forall|j: int|
                    0 <= j < self@.hot.len() && (#[trigger] self@.hot[j]).seq == seq ==> fits_header(
                        self@.hot[j].pcm.len() as int,
                        self@.sample_rate,
                    ),
            decreases self.hot.len() - i,
        {
            if self.hot[i].seq == seq {
                proof {
                    assert(self@.hot[i as int].seq == seq);
                }
                return Playback::Bytes(
                    pcm_to_wav(self.hot[i].pcm.as_slice(), self.cfg.sample_rate),
                );
            }
            i = i + 1;
        }
        let mut k: usize = 0;
        while k < self.flushed.len()
            invariant
                0 <= k <= self.flushed.len(),
                !in_hot(self@.hot, seq),
                forall|j: int| 0 <= j < k ==> (#[trigger] self@.flushed[j]).0 != seq,
            decreases self.flushed.len() - k,
        {
            if self.flushed[k].seq == seq {
                proof {
                    assert(self@.flushed[k as int] == (seq, self.flushed@[k as int].path@));
                }
                return Playback::File(self.flushed[k].path.clone());
            }
            k = k + 1;
        }
        Playback::Unknown
    }

    /// The numbers of the clips that are not written yet, in order.
    pub fn pending_seqs(&self) -> (r: Vec<u64>)
        ensures
            r@ == unwritten_seqs(self@.hot),
    {
        let mut out: Vec<u64> = Vec::new();
        let mut i: usize = 0;
        while i < self.hot.len()
            invariant
                0 <= i <= self.hot.len(),
                out@ == unwritten_seqs(self@.hot.take(i as int)),
            decreases self.hot.len() - i,
        {
            proof {
                assert(self@.hot.take(i + 1).drop_last() =~= self@.hot.take(i as int));
            }
            if !self.hot[i].flushed {
                out.push(self.hot[i].seq);
            }
            i = i + 1;
        }
        proof {
            assert(self@.hot.take(self@.hot.len() as int) =~= self@.hot);
        }
        out
    }

    /// The path and the bytes of a clip that is to be written.
    pub fn clip_file(&self, seq: u64) -> (r: Option<(String, Vec<u8>)>)
        requires
            forall|i: int|
                0 <= i < self@.hot.len() && (#[trigger] self@.hot[i]).seq == seq ==> fits_header(
                    self@.hot[i].pcm.len() as int,
                    self@.sample_rate,
                ),
        ensures
            r is Some == in_hot(self@.hot, seq),
            r matches Some(f) ==> exists|i: int|
                {
                    &&& 0 <= i < self@.hot.len()
                    &&& (#[trigger] self@.hot[i]).seq == seq
                    &&& f.0@ == self@.hot[i].path
                    &&& f.1@ == wav_file(self@.hot[i].pcm, self@.sample_rate)
                },
    {
        let mut i: usize = 0;
        while i < self.hot.len()
            invariant
                0 <= i <= self.hot.len(),
                forall|j: int| 0 <= j < i ==> (#[trigger] self@.hot[j]).seq != seq,
                forall|j: int|
                    0 <= j < self@.hot.len() && (#[trigger] self@.hot[j]).seq == seq ==> fits_header(
                        self@.hot[j].pcm.len() as int,
                        self@.sample_rate,
                    ),
            decreases self.hot.len() - i,
        {
            if self.hot[i].seq == seq {
                proof {
                    assert(self@.hot[i as int].seq == seq);
                }
                return Some(
                    (
                        self.hot[i].path.clone(),
                        pcm_to_wav(self.hot[i].pcm.as_slice(), self.cfg.sample_rate),
                    ),
                );
            }
            i = i + 1;
        }
        None
    }

    /// A clip in memory was just written: it is marked, and its file is noted. It stays in
    /// memory. Says whether there is such a clip.
    pub fn mark_flushed(&mut self, seq: u64) -> (r: bool)
        requires
            old(self)@.wf(),
        ensures
            final(self)@.wf(),
            r == in_hot(old(self)@.hot, seq),
            final(self)@ == old(self)@.stepped(ArchiveStep::Flush(seq)),
    {
        let ghost before = self@;
        let mut i: usize = 0;
        while i < self.hot.len()
            invariant
                0 <= i <= self.hot.len(),
                self@ == before,
                before == old(self)@,
                before.wf(),
                forall|j: int| 0 <= j < i ==> (#[trigger] before.hot[j]).seq != seq,
            decreases self.hot.len() - i,
        {
            if self.hot[i].seq == seq {
                let path = self.hot[i].path.clone();
                let mut clip = self.hot.remove(i);
                clip.flushed = true;
                self.hot.insert(i, clip);
                proof {
                    assert(before.hot[i as int].seq == seq);
                    let k = choose|k: int|
                        0 <= k < before.hot.len() && (#[trigger] before.hot[k]).seq == seq;
                    assert(k == i) by {
                        if k < i {
                            assert(before.hot[k].seq < before.hot[i as int].seq);
                        } else if k > i {
                            assert(before.hot[i as int].seq < before.hot[k].seq);
                        }
                    }
                    assert forall|j: int| 0 <= j < before.hot.len() implies self@.hot[j] == marked(
                        before.hot,
                        seq,
                    )[j] by {
                        if j > i {
                            assert(before.hot[i as int].seq < before.hot[j].seq);
                        }
                    }
                    assert(self@.hot =~= marked(before.hot, seq));
                    assert(self@.flushed =~= before.flushed);
                    assert forall|a: int, b: int| 0 <= a < b < self@.hot.len() implies self@.hot[a].seq
                        < self@.hot[b].seq by {
                        assert(before.hot[a].seq < before.hot[b].seq);
                    }
                }
                self.note_file(seq, path);
                return true;
            }
            i = i + 1;
        }
        false
    }

    /// How many clips are in memory only.
    pub fn pending(&self) -> (r: usize)
        ensures
            r == self@.unwritten(),
    {
        let mut n: usize = 0;
        let mut i: usize = 0;
        while i < self.hot.len()
            invariant
                0 <= i <= self.hot.len(),
                n <= i,
                n == count_unwritten(self@.hot.take(i as int)),
            decreases self.hot.len() - i,
        {
            proof {
                assert(self@.hot.take(i + 1).drop_last() =~= self@.hot.take(i as int));
            }
            if !self.hot[i].flushed {
                n = n + 1;
            }
            i = i + 1;
        }
        proof {
            assert(self@.hot.take(self@.hot.len() as int) =~= self@.hot);
        }
        n
    }

    /// The paths of the files written, in order of their numbers.
    pub fn flushed_paths(&self) -> (r: Vec<String>)
        ensures
            r@.len() == self@.flushed.len(),
            forall|i: int| 0 <= i < r@.len() ==> (#[trigger] r@[i])@ == self@.flushed[i].1,
    {
        let mut out: Vec<String> = Vec::new();
        let mut i: usize = 0;
        while i < self.flushed.len()
            invariant
                0 <= i <= self.flushed.len(),
                out@.len() == i,
                forall|j: int| 0 <= j < i ==> (#[trigger] out@[j])@ == self@.flushed[j].1,
            decreases self.flushed.len() - i,
        {
            out.push(self.flushed[i].path.clone());
            i = i + 1;
        }
        out
    }
}

/// The numbers of the clips that are not written yet.
pub open spec fn unwritten_seqs(hot: Seq<ClipView>) -> Seq<u64>
    decreases hot.len(),
{
    if hot.len() == 0 {
        Seq::empty()
    } else if hot.last().flushed {
        unwritten_seqs(hot.drop_last())
    } else {
        unwritten_seqs(hot.drop_last()).push(hot.last().seq)
    }
}


/// What is known of a clip, as a value.
pub struct MetaView {
    pub seq: u64,
    pub at_us: i64,
    pub duration_us: Option<int>,
    pub hot: bool,
    pub path: Seq<char>,
}

impl View for ClipMeta {
    type V = MetaView;

    open spec fn view(&self) -> MetaView {
        MetaView {
            seq: self.seq,
            at_us: self.at_us,
            duration_us: opt_int(self.duration_us),
            hot: self.hot,
            path: self.path@,
        }
    }
}

/// A list of metadata as values.
pub open spec fn meta_views(v: Seq<ClipMeta>) -> Seq<MetaView> {
    Seq::new(v.len(), |i: int| v[i]@)
}

/// What is known of a clip in memory.
pub open spec fn hot_meta(c: ClipView, sr: int) -> MetaView {
    MetaView {
        seq: c.seq,
        at_us: c.at_us,
        duration_us: lasting_us(c.pcm.len() as int, sr),
        hot: true,
        path: c.path,
    }
}

/// What is known of a clip of which only the file is left, of that many bytes.
pub open spec fn file_meta(f: (u64, Seq<char>), bytes: u64, sr: int) -> MetaView {
    MetaView {
        seq: f.0,
        at_us: 0,
        duration_us: file_audio_us(bytes as int, sr),
        hot: false,
        path: f.1,
    }
}

/// All clips, in memory or written, in order of their numbers; of one that is both, memory
/// knows more.
pub open spec fn listing(
    hot: Seq<ClipView>,
    flushed: Seq<(u64, Seq<char>)>,
    sizes: Seq<u64>,
    sr: int,
) -> Seq<MetaView>
    decreases hot.len() + flushed.len(),
{
    if hot.len() == 0 && flushed.len() == 0 {
        Seq::empty()
    } else if flushed.len() == 0 || (hot.len() > 0 && hot.last().seq > flushed.last().0) {
        listing(hot.drop_last(), flushed, sizes, sr).push(hot_meta(hot.last(), sr))
    } else if hot.len() > 0 && hot.last().seq == flushed.last().0 {
        listing(hot.drop_last(), flushed.drop_last(), sizes, sr).push(hot_meta(hot.last(), sr))
    } else {
        listing(hot, flushed.drop_last(), sizes, sr).push(
            file_meta(flushed.last(), sizes[flushed.len() - 1], sr),
        )
    }
}

impl AudioArchive {
    /// All clips of this run in order of their numbers. `sizes` are the sizes of the files in the
    /// order of [`AudioArchive::flushed_paths`].
    pub fn list(&self, sizes: &Vec<u64>) -> (r: Vec<ClipMeta>)
        requires
            self@.wf(),
            sizes@.len() == self@.flushed.len(),
        ensures
            meta_views(r@) == listing(self@.hot, self@.flushed, sizes@, self@.sample_rate),
    {
        let ghost h = self@.hot;
        let ghost f = self@.flushed;
        let ghost sr = self@.sample_rate;
        let mut out: Vec<ClipMeta> = Vec::new();
        let mut i: usize = 0;
        let mut j: usize = 0;
        proof {
            assert(meta_views(out@) =~= listing(h.take(0), f.take(0), sizes@, sr));
        }
        while i < self.hot.len() || j < self.flushed.len()
            invariant
                self@.wf(),
                h == self@.hot,
                f == self@.flushed,
                sr == self@.sample_rate,
                sizes@.len() == f.len(),
                0 <= i <= self.hot.len(),
                0 <= j <= self.flushed.len(),
                i < h.len() && j > 0 ==> f[j - 1].0 < h[i as int].seq,
                j < f.len() && i > 0 ==> h[i - 1].seq < f[j as int].0,
                meta_views(out@) == listing(h.take(i as int), f.take(j as int), sizes@, sr),
            decreases (self.hot.len() - i) + (self.flushed.len() - j),
        {
            let take_hot = j >= self.flushed.len() || (i < self.hot.len() && self.hot[i].seq
                <= self.flushed[j].seq);
            let ghost before = meta_views(out@);
            if take_hot {
                let both = j < self.flushed.len() && self.flushed[j].seq == self.hot[i].seq;
                let duration_us = lasting(self.hot[i].pcm.len(), self.cfg.sample_rate);
                out.push(
                    ClipMeta {
                        seq: self.hot[i].seq,
                        at_us: self.hot[i].at_us,
                        duration_us,
                        hot: true,
                        path: self.hot[i].path.clone(),
                    },
                );
                proof {
                    assert(meta_views(out@) =~= before.push(hot_meta(h[i as int], sr)));
                    assert(h.take(i + 1).drop_last() =~= h.take(i as int));
                    assert(h.take(i + 1).last() == h[i as int]);
                    if both {
                        assert(f.take(j + 1).drop_last() =~= f.take(j as int));
                        assert(f.take(j + 1).last() == f[j as int]);
                    } else if j > 0 {
                        assert(f.take(j as int).last() == f[j - 1]);
                    }
                    if i + 1 < h.len() {
                        assert(h[i as int].seq < h[i + 1].seq);
                    }
                    if both && j + 1 < f.len() {
                        assert(f[j as int].0 < f[j + 1].0);
                    }
                }
                i = i + 1;
                if both {
                    j = j + 1;
                }
            } else {
                out.push(
                    ClipMeta {
                        seq: self.flushed[j].seq,
                        at_us: 0,
                        duration_us: wav_duration_us(sizes[j], self.cfg.sample_rate),
                        hot: false,
                        path: self.flushed[j].path.clone(),
                    },
                );
                proof {
                    assert(meta_views(out@) =~= before.push(
                        file_meta(f[j as int], sizes@[j as int], sr),
                    ));
                    assert(f.take(j + 1).drop_last() =~= f.take(j as int));
                    assert(f.take(j + 1).last() == f[j as int]);
                    if i > 0 {
                        assert(h.take(i as int).last() == h[i - 1]);
                    }
                    if j + 1 < f.len() {
                        assert(f[j as int].0 < f[j + 1].0);
                    }
                }
                j = j + 1;
            }
        }
        proof {
            assert(h.take(h.len() as int) =~= h);
            assert(f.take(f.len() as int) =~= f);
        }
        out
    }
}

proof fn lemma_in_flushed_with(flushed: Seq<(u64, Seq<char>)>, seq: u64, path: Seq<char>, s: u64)
    ensures
        in_flushed(flushed_with(flushed, seq, path), s) <==> in_flushed(flushed, s) || s == seq,
    decreases flushed.len(),
{
    let r = flushed_with(flushed, seq, path);
    if flushed.len() == 0 || flushed.last().0 < seq {
        assert(r[flushed.len() as int].0 == seq);
        if in_flushed(flushed, s) {
            let i = choose|i: int| 0 <= i < flushed.len() && (#[trigger] flushed[i]).0 == s;
            assert(r[i].0 == s);
        }
        if in_flushed(r, s) && s != seq {
            let i = choose|i: int| 0 <= i < r.len() && (#[trigger] r[i]).0 == s;
            assert(flushed[i].0 == s);
        }
    } else if flushed.last().0 == seq {
        assert(r[flushed.len() - 1].0 == seq);
        if in_flushed(flushed, s) {
            let i = choose|i: int| 0 <= i < flushed.len() && (#[trigger] flushed[i]).0 == s;
            assert(r[i].0 == s);
        }
        if in_flushed(r, s) && s != seq {
            let i = choose|i: int| 0 <= i < r.len() && (#[trigger] r[i]).0 == s;
            assert(flushed[i].0 == s);
        }
    } else {
        let t = flushed.drop_last();
        let u = flushed_with(t, seq, path);
        lemma_in_flushed_with(t, seq, path, s);
        assert(r == u.push(flushed.last()));
        if in_flushed(flushed, s) {
            let i = choose|i: int| 0 <= i < flushed.len() && (#[trigger] flushed[i]).0 == s;
            if i < t.len() {
                assert(t[i].0 == s);
                let k = choose|k: int| 0 <= k < u.len() && (#[trigger] u[k]).0 == s;
                assert(r[k].0 == s);
            } else {
                assert(r[u.len() as int].0 == s);
            }
        }
        if s == seq {
            let k = choose|k: int| 0 <= k < u.len() && (#[trigger] u[k]).0 == s;
            assert(r[k].0 == s);
        }
        if in_flushed(r, s) && s != seq {
            let k = choose|k: int| 0 <= k < r.len() && (#[trigger] r[k]).0 == s;
            if k < u.len() {
                assert(u[k].0 == s);
                let i = choose|i: int| 0 <= i < t.len() && (#[trigger] t[i]).0 == s;
                assert(flushed[i].0 == s);
            } else {
                assert(flushed[flushed.len() - 1].0 == s);
            }
        }
    }
}

/// Law: no recording is lost. Taking one in, and letting the oldest leave memory, keep every
/// recording known before either in memory or as a file.
pub proof fn law_no_recording_is_lost(
    v: ArchiveView,
    seq: u64,
    at_us: i64,
    pcm: Seq<i16>,
    path: Seq<char>,
    s: u64,
)
    requires
        v.wf(),
        in_hot(v.hot, s) || in_flushed(v.flushed, s),
    ensures
        in_hot(v.pushed(seq, at_us, pcm, path).hot, s) || in_flushed(
            v.pushed(seq, at_us, pcm, path).flushed,
            s,
        ),
        v.hot.len() > 0 ==> in_hot(v.oldest_evicted().hot, s) || in_flushed(
            v.oldest_evicted().flushed,
            s,
        ),
{
    lemma_hot_with_sorted(v.hot, ClipView { seq, pcm, at_us, path, flushed: false });
    if v.hot.len() > 0 {
        lemma_in_flushed_with(v.flushed, v.hot[0].seq, v.hot[0].path, s);
        if in_hot(v.hot, s) {
            let i = choose|i: int| 0 <= i < v.hot.len() && (#[trigger] v.hot[i]).seq == s;
            if i > 0 {
                assert(v.oldest_evicted().hot[i - 1].seq == s);
            }
        }
    }
}

/// Law: a clip that is not written never leaves memory on its own: what making room removes was
/// written, each of it.
pub proof fn law_unwritten_clips_stay(v: ArchiveView, i: int)
    requires
        0 <= i < v.hot.len(),
        !v.hot[i].flushed,
    ensures
        exists|k: int|
            0 <= k < v.written_evicted().hot.len() && #[trigger] v.written_evicted().hot[k]
                == v.hot[i],
    decreases v.hot.len(),
{
    if v.overfull() && v.hot[0].flushed {
        let w = v.oldest_evicted();
        assert(w.hot[i - 1] == v.hot[i]);
        law_unwritten_clips_stay(w, i - 1);
        assert(v.written_evicted() == w.written_evicted());
        let k = choose|k: int|
            0 <= k < w.written_evicted().hot.len() && #[trigger] w.written_evicted().hot[k]
                == w.hot[i - 1];
        assert(v.written_evicted().hot[k] == v.hot[i]);
    } else {
        assert(v.written_evicted().hot[i] == v.hot[i]);
    }
}

/// A recording as it was taken in.
pub struct Recording {
    pub seq: u64,
    pub at_us: i64,
    pub pcm: Seq<i16>,
    pub path: Seq<char>,
}

/// What happens to an archive.
pub enum ArchiveStep {
    /// A recording is taken in: [`AudioArchive::push`].
    Push(Recording),
    /// Room is made: [`AudioArchive::overflow`].
    MakeRoom,
    /// The file of that number was written to make room: [`AudioArchive::evict_written`].
    Evict(u64),
    /// The file of that number was written: [`AudioArchive::mark_flushed`].
    Flush(u64),
}

/// The path of the clip of that number in memory.
pub open spec fn hot_path(hot: Seq<ClipView>, seq: u64) -> Seq<char> {
    hot[choose|i: int| 0 <= i < hot.len() && (#[trigger] hot[i]).seq == seq].path
}

impl ArchiveView {
    /// After one step.
    pub open spec fn stepped(self, step: ArchiveStep) -> ArchiveView {
        match step {
            ArchiveStep::Push(r) => self.pushed(r.seq, r.at_us, r.pcm, r.path),
            ArchiveStep::MakeRoom => self.written_evicted(),
            ArchiveStep::Evict(seq) => if self.hot.len() > 0 && self.hot[0].seq == seq {
                self.oldest_evicted()
            } else {
                self
            },
            ArchiveStep::Flush(seq) => if in_hot(self.hot, seq) {
                ArchiveView {
                    hot: marked(self.hot, seq),
                    flushed: flushed_with(self.flushed, seq, hot_path(self.hot, seq)),
                    ..self
                }
            } else {
                self
            },
        }
    }
}

/// An archive after some steps.
pub open spec fn stepped_all(v: ArchiveView, steps: Seq<ArchiveStep>) -> ArchiveView
    decreases steps.len(),
{
    if steps.len() == 0 {
        v
    } else {
        stepped_all(v, steps.drop_last()).stepped(steps.last())
    }
}

/// The recordings that were taken in, by their numbers.
pub open spec fn taken_in(steps: Seq<ArchiveStep>) -> Map<u64, Recording>
    decreases steps.len(),
{
    if steps.len() == 0 {
        Map::empty()
    } else {
        let before = taken_in(steps.drop_last());
        match steps.last() {
            ArchiveStep::Push(r) => before.insert(r.seq, r),
            _ => before,
        }
    }
}

/// The numbers whose files were written.
pub open spec fn written_files(steps: Seq<ArchiveStep>) -> Set<u64>
    decreases steps.len(),
{
    if steps.len() == 0 {
        Set::empty()
    } else {
        let before = written_files(steps.drop_last());
        match steps.last() {
            ArchiveStep::Evict(seq) => before.insert(seq),
            ArchiveStep::Flush(seq) => before.insert(seq),
            _ => before,
        }
    }
}

/// No number is given to two recordings.
pub open spec fn numbers_differ(steps: Seq<ArchiveStep>) -> bool
    decreases steps.len(),
{
    steps.len() > 0 ==> {
        &&& numbers_differ(steps.drop_last())
        &&& steps.last() matches ArchiveStep::Push(r) ==> !taken_in(
            steps.drop_last(),
        ).contains_key(r.seq)
    }
}

/// The clip of a recording in memory.
pub open spec fn clip_of(r: Recording, flushed: bool) -> ClipView {
    ClipView { seq: r.seq, pcm: r.pcm, at_us: r.at_us, path: r.path, flushed }
}

impl ArchiveView {
    /// Nothing is lost and nothing made up: every recording is in memory or its file was written,
    /// and what is known is of recordings, each under its own path.
    pub open spec fn keeps(self, all: Map<u64, Recording>, written: Set<u64>) -> bool {
        &&& self.wf()
        &&& forall|i: int|
            0 <= i < self.hot.len() ==> {
                let c = #[trigger] self.hot[i];
                &&& all.contains_key(c.seq)
                &&& c == clip_of(all[c.seq], c.flushed)
                &&& c.flushed ==> written.contains(c.seq)
            }
        &&& forall|i: int|
            0 <= i < self.flushed.len() ==> {
                let f = #[trigger] self.flushed[i];
                &&& all.contains_key(f.0)
                &&& f.1 == all[f.0].path
                &&& written.contains(f.0)
            }
        &&& forall|s: u64| #[trigger]
            all.contains_key(s) ==> in_hot(self.hot, s) || in_flushed(self.flushed, s)
    }
}

proof fn lemma_flushed_with_entries(flushed: Seq<(u64, Seq<char>)>, seq: u64, path: Seq<char>)
    requires
        flushed_sorted(flushed),
    ensures
        flushed_sorted(flushed_with(flushed, seq, path)),
        forall|i: int|
            0 <= i < flushed_with(flushed, seq, path).len() ==> (#[trigger] flushed_with(
                flushed,
                seq,
                path,
            )[i]) == (seq, path) || exists|j: int|
                0 <= j < flushed.len() && flushed[j] == flushed_with(flushed, seq, path)[i],
    decreases flushed.len(),
{
    let r = flushed_with(flushed, seq, path);
    let t = if flushed.len() > 0 {
        flushed.drop_last()
    } else {
        flushed
    };
    assert forall|i: int, j: int| 0 <= i < j < t.len() implies t[i].0 < t[j].0 by {
        assert(t[i] == flushed[i] && t[j] == flushed[j]);
    }
    if flushed.len() == 0 || flushed.last().0 < seq {
        assert forall|i: int, j: int| 0 <= i < j < r.len() implies r[i].0 < r[j].0 by {
            if j == flushed.len() && i < flushed.len() - 1 {
                assert(flushed[i].0 < flushed[flushed.len() - 1].0);
            }
        }
        assert forall|i: int| 0 <= i < r.len() implies (#[trigger] r[i]) == (seq, path) || exists|j: int|
            0 <= j < flushed.len() && flushed[j] == r[i] by {
            if i < flushed.len() {
                assert(flushed[i] == r[i]);
            }
        }
    } else if flushed.last().0 == seq {
        assert forall|i: int, j: int| 0 <= i < j < r.len() implies r[i].0 < r[j].0 by {
            assert(flushed[i].0 < flushed[j].0);
        }
        assert forall|i: int| 0 <= i < r.len() implies (#[trigger] r[i]) == (seq, path) || exists|j: int|
            0 <= j < flushed.len() && flushed[j] == r[i] by {
            if i < t.len() {
                assert(flushed[i] == r[i]);
            }
        }
    } else {
        lemma_flushed_with_entries(t, seq, path);
        let u = flushed_with(t, seq, path);
        assert(r == u.push(flushed.last()));
        assert forall|i: int| 0 <= i < u.len() implies (#[trigger] u[i]).0 < flushed.last().0 by {
            if u[i] != (seq, path) {
                let j = choose|j: int| 0 <= j < t.len() && t[j] == u[i];
                assert(flushed[j].0 < flushed[flushed.len() - 1].0);
            }
        }
        assert forall|i: int, j: int| 0 <= i < j < r.len() implies r[i].0 < r[j].0 by {
            if j == u.len() {
                assert(u[i].0 < flushed.last().0);
            }
        }
        assert forall|i: int| 0 <= i < r.len() implies (#[trigger] r[i]) == (seq, path) || exists|j: int|
            0 <= j < flushed.len() && flushed[j] == r[i] by {
            if i < u.len() {
                if u[i] != (seq, path) {
                    let j = choose|j: int| 0 <= j < t.len() && t[j] == u[i];
                    assert(flushed[j] == r[i]);
                }
            } else {
                assert(flushed[flushed.len() - 1] == r[i]);
            }
        }
    }
}

proof fn lemma_noted(
    v: ArchiveView,
    all: Map<u64, Recording>,
    written: Set<u64>,
    seq: u64,
)
    requires
        v.keeps(all, written),
        all.contains_key(seq),
        written.contains(seq),
    ensures
        (ArchiveView {
            flushed: flushed_with(v.flushed, seq, all[seq].path),
            ..v
        }).keeps(all, written),
{
    let path = all[seq].path;
    let w = ArchiveView { flushed: flushed_with(v.flushed, seq, path), ..v };
    lemma_flushed_with_entries(v.flushed, seq, path);
    assert forall|i: int| 0 <= i < w.flushed.len() implies {
        let f = #[trigger] w.flushed[i];
        &&& all.contains_key(f.0)
        &&& f.1 == all[f.0].path
        &&& written.contains(f.0)
    } by {
        if w.flushed[i] != (seq, path) {
            let j = choose|j: int| 0 <= j < v.flushed.len() && v.flushed[j] == w.flushed[i];
            assert(v.flushed[j] == w.flushed[i]);
        }
    }
    assert forall|s: u64| #[trigger] all.contains_key(s) implies in_hot(w.hot, s) || in_flushed(
        w.flushed,
        s,
    ) by {
        lemma_in_flushed_with(v.flushed, seq, path, s);
    }
}

proof fn lemma_oldest_evicted(v: ArchiveView, all: Map<u64, Recording>, written: Set<u64>)
    requires
        v.keeps(all, written),
        v.hot.len() > 0,
        written.contains(v.hot[0].seq),
    ensures
        v.oldest_evicted().keeps(all, written),
{
    let seq = v.hot[0].seq;
    lemma_noted(v, all, written, seq);
    let n = ArchiveView { flushed: flushed_with(v.flushed, seq, all[seq].path), ..v };
    let w = v.oldest_evicted();
    assert(w.flushed == n.flushed);
    assert forall|i: int, j: int| 0 <= i < j < w.hot.len() implies w.hot[i].seq < w.hot[j].seq by {
        assert(w.hot[i] == v.hot[i + 1] && w.hot[j] == v.hot[j + 1]);
    }
    assert forall|i: int| 0 <= i < w.hot.len() implies {
        let c = #[trigger] w.hot[i];
        &&& all.contains_key(c.seq)
        &&& c == clip_of(all[c.seq], c.flushed)
        &&& c.flushed ==> written.contains(c.seq)
    } by {
        assert(w.hot[i] == v.hot[i + 1]);
    }
    assert forall|s: u64| #[trigger] all.contains_key(s) implies in_hot(w.hot, s) || in_flushed(
        w.flushed,
        s,
    ) by {
        lemma_in_flushed_with(v.flushed, seq, all[seq].path, s);
        if in_hot(v.hot, s) && s != seq {
            let i = choose|i: int| 0 <= i < v.hot.len() && (#[trigger] v.hot[i]).seq == s;
            assert(w.hot[i - 1].seq == s);
        }
    }
}

proof fn lemma_written_evicted(v: ArchiveView, all: Map<u64, Recording>, written: Set<u64>)
    requires
        v.keeps(all, written),
    ensures
        v.written_evicted().keeps(all, written),
        v.written_evicted().overfull() && v.written_evicted().hot.len() > 0
            ==> !v.written_evicted().hot[0].flushed,
    decreases v.hot.len(),
{
    if v.overfull() && v.hot.len() > 0 && v.hot[0].flushed {
        lemma_oldest_evicted(v, all, written);
        lemma_written_evicted(v.oldest_evicted(), all, written);
    }
}

proof fn lemma_pushed(
    v: ArchiveView,
    all: Map<u64, Recording>,
    written: Set<u64>,
    r: Recording,
)
    requires
        v.keeps(all, written),
        !all.contains_key(r.seq),
    ensures
        v.stepped(ArchiveStep::Push(r)).keeps(all.insert(r.seq, r), written),
{
    let c = clip_of(r, false);
    let w = v.pushed(r.seq, r.at_us, r.pcm, r.path);
    let m = all.insert(r.seq, r);
    lemma_hot_with_sorted(v.hot, c);
    assert(w.hot == hot_with(v.hot, c));
    assert forall|i: int| 0 <= i < w.hot.len() implies {
        let d = #[trigger] w.hot[i];
        &&& m.contains_key(d.seq)
        &&& d == clip_of(m[d.seq], d.flushed)
        &&& d.flushed ==> written.contains(d.seq)
    } by {
        if w.hot[i] != c {
            let j = choose|j: int| 0 <= j < v.hot.len() && v.hot[j] == hot_with(v.hot, c)[i];
            assert(v.hot[j] == w.hot[i]);
        }
    }
    assert forall|i: int| 0 <= i < w.flushed.len() implies {
        let f = #[trigger] w.flushed[i];
        &&& m.contains_key(f.0)
        &&& f.1 == m[f.0].path
        &&& written.contains(f.0)
    } by {
        assert(w.flushed[i] == v.flushed[i]);
    }
    assert forall|s: u64| #[trigger] m.contains_key(s) implies in_hot(w.hot, s) || in_flushed(
        w.flushed,
        s,
    ) by {
        assert(in_hot(hot_with(v.hot, c), s) <==> in_hot(v.hot, s) || s == c.seq);
        if s != r.seq {
            assert(all.contains_key(s));
        }
    }
}

proof fn lemma_flushed_step(
    v: ArchiveView,
    all: Map<u64, Recording>,
    written: Set<u64>,
    seq: u64,
)
    requires
        v.keeps(all, written),
        in_hot(v.hot, seq),
        written.contains(seq),
    ensures
        v.stepped(ArchiveStep::Flush(seq)).keeps(all, written),
{
    let k = choose|i: int| 0 <= i < v.hot.len() && (#[trigger] v.hot[i]).seq == seq;
    assert(v.hot[k].path == all[seq].path);
    lemma_noted(v, all, written, seq);
    let n = ArchiveView { flushed: flushed_with(v.flushed, seq, all[seq].path), ..v };
    let w = v.stepped(ArchiveStep::Flush(seq));
    assert(w.flushed == n.flushed);
    assert forall|i: int, j: int| 0 <= i < j < w.hot.len() implies w.hot[i].seq < w.hot[j].seq by {
        assert(v.hot[i].seq < v.hot[j].seq);
    }
    assert forall|i: int| 0 <= i < w.hot.len() implies {
        let c = #[trigger] w.hot[i];
        &&& all.contains_key(c.seq)
        &&& c == clip_of(all[c.seq], c.flushed)
        &&& c.flushed ==> written.contains(c.seq)
    } by {
        assert(w.hot[i].seq == v.hot[i].seq);
    }
    assert forall|s: u64| #[trigger] all.contains_key(s) implies in_hot(w.hot, s) || in_flushed(
        w.flushed,
        s,
    ) by {
        if in_hot(v.hot, s) {
            let i = choose|i: int| 0 <= i < v.hot.len() && (#[trigger] v.hot[i]).seq == s;
            assert(w.hot[i].seq == s);
        } else {
            assert(in_flushed(n.flushed, s));
        }
    }
}

proof fn lemma_keeps_more(v: ArchiveView, all: Map<u64, Recording>, written: Set<u64>, seq: u64)
    requires
        v.keeps(all, written),
    ensures
        v.keeps(all, written.insert(seq)),
{
}

/// Law: audio is never lost. Whatever is taken in, written and left unwritten, in whatever order:
/// every recording is in memory, whole and under its path, or its file was written to that path.
/// Nothing leaves memory before its file was written.
pub proof fn law_every_recording_is_kept(start: ArchiveView, steps: Seq<ArchiveStep>)
    requires
        start.hot.len() == 0,
        start.flushed.len() == 0,
        numbers_differ(steps),
    ensures
        stepped_all(start, steps).keeps(taken_in(steps), written_files(steps)),
    decreases steps.len(),
{
    if steps.len() > 0 {
        let rest = steps.drop_last();
        law_every_recording_is_kept(start, rest);
        let v = stepped_all(start, rest);
        let all = taken_in(rest);
        let written = written_files(rest);
        match steps.last() {
            ArchiveStep::Push(r) => {
                lemma_pushed(v, all, written, r);
            },
            ArchiveStep::MakeRoom => {
                lemma_written_evicted(v, all, written);
            },
            ArchiveStep::Evict(seq) => {
                lemma_keeps_more(v, all, written, seq);
                if v.hot.len() > 0 && v.hot[0].seq == seq {
                    lemma_oldest_evicted(v, all, written.insert(seq));
                }
            },
            ArchiveStep::Flush(seq) => {
                lemma_keeps_more(v, all, written, seq);
                if in_hot(v.hot, seq) {
                    lemma_flushed_step(v, all, written.insert(seq), seq);
                }
            },
        }
    }
}

/// Law: clips leave memory with the lowest number first. What a step takes out of memory has a
/// lower number than all that stays.
pub proof fn law_lowest_numbers_leave_first(v: ArchiveView, step: ArchiveStep, s: u64)
    requires
        v.wf(),
        in_hot(v.hot, s),
        !in_hot(v.stepped(step).hot, s),
    ensures
        forall|i: int|
            0 <= i < v.stepped(step).hot.len() ==> (#[trigger] v.stepped(step).hot[i]).seq > s,
{
    let w = v.stepped(step);
    let k = choose|i: int| 0 <= i < v.hot.len() && (#[trigger] v.hot[i]).seq == s;
    match step {
        ArchiveStep::Push(r) => {
            lemma_hot_with_sorted(v.hot, clip_of(r, false));
            assert(in_hot(hot_with(v.hot, clip_of(r, false)), s));
        },
        ArchiveStep::MakeRoom => {
            lemma_written_evicted_is_a_tail(v);
            let n = v.hot.len() - w.hot.len();
            assert(w.hot == v.hot.skip(n));
            if k >= n {
                assert(w.hot[k - n].seq == s);
            }
            assert forall|i: int| 0 <= i < w.hot.len() implies (#[trigger] w.hot[i]).seq > s by {
                assert(w.hot[i] == v.hot[i + n]);
                assert(v.hot[k].seq < v.hot[i + n].seq);
            }
        },
        ArchiveStep::Evict(seq) => {
            if k > 0 {
                assert(w.hot[k - 1].seq == s || w.hot[k].seq == s);
            }
            assert forall|i: int| 0 <= i < w.hot.len() implies (#[trigger] w.hot[i]).seq > s by {
                assert(w.hot[i] == v.hot[i + 1]);
                assert(v.hot[0].seq < v.hot[i + 1].seq);
            }
        },
        ArchiveStep::Flush(seq) => {
            assert(w.hot[k].seq == s);
        },
    }
}

proof fn lemma_written_evicted_is_a_tail(v: ArchiveView)
    ensures
        v.written_evicted().hot.len() <= v.hot.len(),
        v.written_evicted().hot == v.hot.skip(v.hot.len() - v.written_evicted().hot.len()),
    decreases v.hot.len(),
{
    if v.overfull() && v.hot.len() > 0 && v.hot[0].flushed {
        let o = v.oldest_evicted();
        lemma_written_evicted_is_a_tail(o);
        let n = o.written_evicted().hot.len();
        assert(o.hot.skip(o.hot.len() - n) =~= v.hot.skip(v.hot.len() - n));
    } else {
        assert(v.hot.skip(0) =~= v.hot);
    }
}

/// Law: once room was made, no more is in memory than fits, unless the clip of the lowest number
/// was not written: then it stays.
pub proof fn law_memory_is_bounded(v: ArchiveView)
    requires
        v.capacity >= 0,
    ensures
        ({
            let w = v.stepped(ArchiveStep::MakeRoom);
            w.hot.len() <= v.capacity || !w.hot[0].flushed
        }),
    decreases v.hot.len(),
{
    if v.overfull() && v.hot.len() > 0 && v.hot[0].flushed {
        law_memory_is_bounded(v.oldest_evicted());
    }
}

/// Law: the path of a recording is its day's directory and a name that tells its time and number:
/// the number stands between the underscore and the ending, and reads back.
pub proof fn law_paths_tell_day_time_and_number(t: LocalTime, seq: u64)
    ensures
        rel_path(t, seq).0 == day_text(t),
        ({
            let name = rel_path(t, seq).1;
            let digits = name.subrange(clock_text(t).len() as int + 1, name.len() - 4);
            &&& name.len() >= clock_text(t).len() + 5
            &&& name.take(clock_text(t).len() as int) == clock_text(t)
            &&& name[clock_text(t).len() as int] == '_'
            &&& digits.len() >= 4
            &&& number_of(digits) == seq
            &&& name.skip(name.len() - 4) == ".wav"@
        }),
{
    reveal_strlit("_");
    reveal_strlit(".wav");
    let name = rel_path(t, seq).1;
    let time = clock_text(t);
    let digits = zero_padded(seq as nat, 4);
    law_padding_keeps_the_number(seq as nat, 4);
    assert(name.take(time.len() as int) =~= time);
    assert(name.subrange(time.len() as int + 1, name.len() - 4) =~= digits);
    assert(name.skip(name.len() - 4) =~= ".wav"@);
}

/// Law: what is still to be written are the clips in memory without a file, in their order, and
/// their count is how many of them there are.
pub proof fn law_pending_are_those_without_a_file(hot: Seq<ClipView>)
    ensures
        unwritten_seqs(hot) == hot.filter(|c: ClipView| !c.flushed).map_values(|c: ClipView| c.seq),
        count_unwritten(hot) == hot.filter(|c: ClipView| !c.flushed).len(),
    decreases hot.len(),
{
    reveal(Seq::filter);
    if hot.len() > 0 {
        law_pending_are_those_without_a_file(hot.drop_last());
    }
    assert(unwritten_seqs(hot) =~= hot.filter(|c: ClipView| !c.flushed).map_values(
        |c: ClipView| c.seq,
    ));
}

/// The entry of a recording in the listing: from memory where it is there, from its file
/// otherwise.
pub open spec fn listed_as(
    m: MetaView,
    hot: Seq<ClipView>,
    flushed: Seq<(u64, Seq<char>)>,
    sizes: Seq<u64>,
    sr: int,
) -> bool {
    ||| exists|i: int|
        0 <= i < hot.len() && m == (MetaView {
            seq: (#[trigger] hot[i]).seq,
            at_us: hot[i].at_us,
            duration_us: lasting_us(hot[i].pcm.len() as int, sr),
            hot: true,
            path: hot[i].path,
        })
    ||| !in_hot(hot, m.seq) && exists|j: int|
        0 <= j < flushed.len() && m == (MetaView {
            seq: (#[trigger] flushed[j]).0,
            at_us: 0,
            duration_us: file_audio_us(sizes[j] as int, sr),
            hot: false,
            path: flushed[j].1,
        })
}

/// Law: the listing has every recording once, by increasing number: as it is in memory where it is
/// still there, else as its file says.
pub proof fn law_the_listing_is_complete(
    hot: Seq<ClipView>,
    flushed: Seq<(u64, Seq<char>)>,
    sizes: Seq<u64>,
    sr: int,
    s: u64,
)
    requires
        hot_sorted(hot),
        flushed_sorted(flushed),
    ensures
        ({
            let all = listing(hot, flushed, sizes, sr);
            &&& forall|i: int, j: int| 0 <= i < j < all.len() ==> all[i].seq < all[j].seq
            &&& forall|i: int|
                0 <= i < all.len() ==> listed_as(#[trigger] all[i], hot, flushed, sizes, sr)
            &&& (exists|i: int| 0 <= i < all.len() && (#[trigger] all[i]).seq == s) <==> (in_hot(
                hot,
                s,
            ) || in_flushed(flushed, s))
        }),
    decreases hot.len() + flushed.len(),
{
    let all = listing(hot, flushed, sizes, sr);
    if hot.len() == 0 && flushed.len() == 0 {
    } else {
        let takes_hot = hot.len() > 0 && (flushed.len() == 0 || hot.last().seq >= flushed.last().0);
        let takes_file = flushed.len() > 0 && (hot.len() == 0 || hot.last().seq <= flushed.last().0);
        let h = if takes_hot {
            hot.drop_last()
        } else {
            hot
        };
        let f = if takes_file {
            flushed.drop_last()
        } else {
            flushed
        };
        let rest = listing(h, f, sizes, sr);
        let m = all.last();
        law_the_listing_is_complete(h, f, sizes, sr, s);
        assert(all == rest.push(m));
        assert(m.seq == if takes_hot {
            hot.last().seq
        } else {
            flushed.last().0
        });
        assert forall|k: int| 0 <= k < h.len() implies (#[trigger] h[k]).seq < m.seq by {
            assert(h[k] == hot[k]);
        }
        assert forall|k: int| 0 <= k < f.len() implies (#[trigger] f[k]).0 < m.seq by {
            assert(f[k] == flushed[k]);
        }
        assert forall|i: int| 0 <= i < rest.len() implies (#[trigger] rest[i]).seq < m.seq && listed_as(
            rest[i],
            hot,
            flushed,
            sizes,
            sr,
        ) by {
            let e = rest[i];
            assert(listed_as(e, h, f, sizes, sr));
            lemma_listed_before(e, h, f, hot, flushed, sizes, sr, m.seq);
        }
        assert(listed_as(m, hot, flushed, sizes, sr)) by {
            if takes_hot {
                assert(hot[hot.len() - 1].seq == m.seq);
            } else {
                assert(flushed[flushed.len() - 1].0 == m.seq);
                if in_hot(hot, m.seq) {
                    let k = choose|k: int| 0 <= k < hot.len() && (#[trigger] hot[k]).seq == m.seq;
                    assert(hot[k].seq <= hot.last().seq);
                }
            }
        }
        assert forall|i: int| 0 <= i < all.len() implies listed_as(
            #[trigger] all[i],
            hot,
            flushed,
            sizes,
            sr,
        ) by {
            if i < rest.len() {
                assert(all[i] == rest[i]);
            }
        }
        assert forall|i: int, j: int| 0 <= i < j < all.len() implies all[i].seq < all[j].seq by {
            assert(all[i] == rest[i]);
            if j < rest.len() {
                assert(all[j] == rest[j]);
            }
        }
        lemma_listed_numbers(all, rest, m, hot, h, flushed, f, takes_hot, takes_file, s);
    }
}

proof fn lemma_listed_before(
    e: MetaView,
    h: Seq<ClipView>,
    f: Seq<(u64, Seq<char>)>,
    hot: Seq<ClipView>,
    flushed: Seq<(u64, Seq<char>)>,
    sizes: Seq<u64>,
    sr: int,
    last: u64,
)
    requires
        listed_as(e, h, f, sizes, sr),
        h == hot || (hot.len() > 0 && h == hot.drop_last() && hot.last().seq == last),
        f == flushed || (flushed.len() > 0 && f == flushed.drop_last()),
        forall|k: int| 0 <= k < h.len() ==> (#[trigger] h[k]).seq < last,
        forall|k: int| 0 <= k < f.len() ==> (#[trigger] f[k]).0 < last,
    ensures
        e.seq < last,
        listed_as(e, hot, flushed, sizes, sr),
{
    if exists|i: int|
        0 <= i < h.len() && e == (MetaView {
            seq: (#[trigger] h[i]).seq,
            at_us: h[i].at_us,
            duration_us: lasting_us(h[i].pcm.len() as int, sr),
            hot: true,
            path: h[i].path,
        }) {
        let i = choose|i: int|
            0 <= i < h.len() && e == (MetaView {
                seq: (#[trigger] h[i]).seq,
                at_us: h[i].at_us,
                duration_us: lasting_us(h[i].pcm.len() as int, sr),
                hot: true,
                path: h[i].path,
            });
        assert(hot[i] == h[i]);
    } else {
        let j = choose|j: int|
            0 <= j < f.len() && e == (MetaView {
                seq: (#[trigger] f[j]).0,
                at_us: 0,
                duration_us: file_audio_us(sizes[j] as int, sr),
                hot: false,
                path: f[j].1,
            });
        assert(flushed[j] == f[j]);
        assert(f[j].0 < last);
        if in_hot(hot, e.seq) {
            let k = choose|k: int| 0 <= k < hot.len() && (#[trigger] hot[k]).seq == e.seq;
            assert(k < h.len());
            assert(h[k] == hot[k]);
            assert(in_hot(h, e.seq));
        }
    }
}

proof fn lemma_listed_numbers(
    all: Seq<MetaView>,
    rest: Seq<MetaView>,
    m: MetaView,
    hot: Seq<ClipView>,
    h: Seq<ClipView>,
    flushed: Seq<(u64, Seq<char>)>,
    f: Seq<(u64, Seq<char>)>,
    takes_hot: bool,
    takes_file: bool,
    s: u64,
)
    requires
        all == rest.push(m),
        takes_hot || takes_file,
        takes_hot ==> hot.len() > 0 && h == hot.drop_last() && hot.last().seq == m.seq,
        !takes_hot ==> h == hot,
        takes_file ==> flushed.len() > 0 && f == flushed.drop_last() && flushed.last().0 == m.seq,
        !takes_file ==> f == flushed,
        (exists|i: int| 0 <= i < rest.len() && (#[trigger] rest[i]).seq == s) <==> (in_hot(h, s)
            || in_flushed(f, s)),
    ensures
        (exists|i: int| 0 <= i < all.len() && (#[trigger] all[i]).seq == s) <==> (in_hot(hot, s)
            || in_flushed(flushed, s)),
{
    if exists|i: int| 0 <= i < all.len() && (#[trigger] all[i]).seq == s {
        let i = choose|i: int| 0 <= i < all.len() && (#[trigger] all[i]).seq == s;
        if i < rest.len() {
            assert(rest[i].seq == s);
            if in_hot(h, s) {
                let k = choose|k: int| 0 <= k < h.len() && (#[trigger] h[k]).seq == s;
                assert(hot[k].seq == s);
            } else {
                let k = choose|k: int| 0 <= k < f.len() && (#[trigger] f[k]).0 == s;
                assert(flushed[k].0 == s);
            }
        } else if takes_hot {
            assert(hot[hot.len() - 1].seq == s);
        } else {
            assert(flushed[flushed.len() - 1].0 == s);
        }
    }
    if s == m.seq {
        assert(all[all.len() - 1].seq == s);
    } else {
        if in_hot(hot, s) {
            let k = choose|k: int| 0 <= k < hot.len() && (#[trigger] hot[k]).seq == s;
            assert(k < h.len() && h[k].seq == s);
        }
        if in_flushed(flushed, s) {
            let k = choose|k: int| 0 <= k < flushed.len() && (#[trigger] flushed[k]).0 == s;
            assert(k < f.len() && f[k].0 == s);
        }
        if in_hot(h, s) || in_flushed(f, s) {
            let i = choose|i: int| 0 <= i < rest.len() && (#[trigger] rest[i]).seq == s;
            assert(all[i].seq == s);
        }
    }
}

/// Law: a recording taken in is in memory as it was given, until then without a file, and the
/// others stay as they are.
pub proof fn law_a_recording_is_taken_in_whole(
    v: ArchiveView,
    seq: u64,
    at_us: i64,
    pcm: Seq<i16>,
    path: Seq<char>,
)
    ensures
        ({
            let w = v.pushed(seq, at_us, pcm, path);
            &&& exists|i: int|
                0 <= i < w.hot.len() && #[trigger] w.hot[i] == (ClipView {
                    seq,
                    pcm,
                    at_us,
                    path,
                    flushed: false,
                })
            &&& w.flushed == v.flushed
            &&& w.capacity == v.capacity
            &&& w.sample_rate == v.sample_rate
            &&& w.dir == v.dir
        }),
{
    let c = ClipView { seq, pcm, at_us, path, flushed: false };
    let w = v.pushed(seq, at_us, pcm, path);
    lemma_hot_with_holds(v.hot, c);
    let i = choose|i: int| 0 <= i < hot_with(v.hot, c).len() && #[trigger] hot_with(v.hot, c)[i] == c;
    assert(w.hot[i] == c);
}

proof fn lemma_hot_with_holds(hot: Seq<ClipView>, c: ClipView)
    ensures
        exists|i: int| 0 <= i < hot_with(hot, c).len() && #[trigger] hot_with(hot, c)[i] == c,
    decreases hot.len(),
{
    let all = hot_with(hot, c);
    if hot.len() == 0 || hot.last().seq < c.seq || hot.last().seq == c.seq {
        assert(all[all.len() - 1] == c);
    } else {
        lemma_hot_with_holds(hot.drop_last(), c);
        let rest = hot_with(hot.drop_last(), c);
        let i = choose|i: int| 0 <= i < rest.len() && #[trigger] rest[i] == c;
        assert(all[i] == c);
    }
}

/// Law: nothing leaves memory while there is room, and no more leaves than has to.
pub proof fn law_nothing_leaves_while_there_is_room(v: ArchiveView)
    requires
        v.capacity >= 0,
    ensures
        v.hot.len() <= v.capacity ==> v.stepped(ArchiveStep::MakeRoom) == v,
        v.hot.len() > v.capacity ==> v.stepped(ArchiveStep::MakeRoom).hot.len() >= v.capacity,
    decreases v.hot.len(),
{
    if v.overfull() && v.hot.len() > 0 && v.hot[0].flushed {
        law_nothing_leaves_while_there_is_room(v.oldest_evicted());
    }
}

/// Law: a recording in memory is played from memory, as the file it would be; one that is not is
/// played from its file, where it has one; and any other is unknown.
pub proof fn law_a_recording_is_played_from_where_it_is(
    a: AudioArchive,
    seq: u64,
    r: Playback,
)
    requires
        a@.wf(),
        call_ensures(AudioArchive::wav, (&a, seq), r),
    ensures
        r is Bytes <==> in_hot(a@.hot, seq),
        r is File <==> !in_hot(a@.hot, seq) && in_flushed(a@.flushed, seq),
        r is Unknown <==> !in_hot(a@.hot, seq) && !in_flushed(a@.flushed, seq),
        r matches Playback::Bytes(b) ==> forall|i: int|
            0 <= i < a@.hot.len() && (#[trigger] a@.hot[i]).seq == seq ==> b@ == wav_file(
                a@.hot[i].pcm,
                a@.sample_rate,
            ),
        r matches Playback::File(p) ==> forall|i: int|
            0 <= i < a@.flushed.len() && (#[trigger] a@.flushed[i]).0 == seq ==> a@.flushed[i].1
                == p@,
{
    match r {
        Playback::Bytes(b) => {
            let k = choose|k: int|
                {
                    &&& 0 <= k < a@.hot.len()
                    &&& (#[trigger] a@.hot[k]).seq == seq
                    &&& b@ == wav_file(a@.hot[k].pcm, a@.sample_rate)
                };
            assert forall|i: int| 0 <= i < a@.hot.len() && (#[trigger] a@.hot[i]).seq
                == seq implies b@ == wav_file(a@.hot[i].pcm, a@.sample_rate) by {
                assert(i == k);
            }
        },
        Playback::File(p) => {
            let k = choose|k: int|
                0 <= k < a@.flushed.len() && #[trigger] a@.flushed[k] == (seq, p@);
            assert(a@.flushed[k].0 == seq);
            assert forall|i: int| 0 <= i < a@.flushed.len() && (#[trigger] a@.flushed[i]).0
                == seq implies a@.flushed[i].1 == p@ by {
                assert(i == k);
            }
        },
        Playback::Unknown => {},
    }
}

/// Law: the clip that has to be written to make room is the one with the lowest number, and it is
/// written as it was recorded, to the path it was given.
pub proof fn law_the_oldest_is_written_to_make_room(a: &mut AudioArchive, r: Overflow)
    requires
        call_ensures(AudioArchive::overflow, (a,), r),
    ensures
        r matches Overflow::Write { seq, path, wav } ==> {
            let w = final(a)@;
            &&& w.hot.len() > w.capacity
            &&& seq == w.hot[0].seq
            &&& path@ == w.hot[0].path
            &&& wav@ == wav_file(w.hot[0].pcm, w.sample_rate)
            &&& forall|i: int| 0 < i < w.hot.len() ==> (#[trigger] w.hot[i]).seq > seq
        },
        r is Fits ==> final(a)@.hot.len() <= final(a)@.capacity,
{
}

/// Law: what is known of the clips is seen one for one, in its order, and as many are still to be
/// written as have no file yet.
pub proof fn law_clips_are_listed_as_they_are(v: Seq<ClipMeta>, a: ArchiveView, i: int)
    requires
        0 <= i < v.len(),
    ensures
        meta_views(v).len() == v.len(),
        meta_views(v)[i].seq == v[i].seq,
        meta_views(v)[i].at_us == v[i].at_us,
        meta_views(v)[i].hot == v[i].hot,
        meta_views(v)[i].path == v[i].path@,
        v[i].duration_us matches Some(us) ==> meta_views(v)[i].duration_us == Some(us as int),
        a.unwritten() == a.hot.filter(|c: ClipView| !c.flushed).len(),
{
    law_pending_are_those_without_a_file(a.hot);
}

/// Law: a recording goes below the archive's directory, into the directory of its day, under its
/// time and number; it is in memory as it was given.
pub proof fn law_a_recording_goes_to_its_day(
    a: &mut AudioArchive,
    seq: u64,
    at_us: i64,
    pcm: Vec<i16>,
    t: LocalTime,
    r: String,
)
    requires
        call_ensures(AudioArchive::push, (a, seq, at_us, pcm, t), r),
    ensures
        r@ == path_under(
            path_under(old(a)@.dir, day_text(t)),
            clock_text(t) + "_"@ + zero_padded(seq as nat, 4) + ".wav"@,
        ),
        exists|i: int|
            0 <= i < final(a)@.hot.len() && #[trigger] final(a)@.hot[i] == (ClipView {
                seq,
                pcm: pcm@,
                at_us,
                path: r@,
                flushed: false,
            }),
{
    law_a_recording_is_taken_in_whole(old(a)@, seq, at_us, pcm@, r@);
}

/// Law: a clip whose file was written stays known by that file: marking it changes its mark alone,
/// and taking it out of memory leaves its path behind.
pub proof fn law_a_written_clip_stays_known(
    a: &mut AudioArchive,
    b: &mut AudioArchive,
    seq: u64,
    marked_it: bool,
    evicted: bool,
    i: int,
)
    requires
        old(a)@.wf(),
        call_ensures(AudioArchive::mark_flushed, (a, seq), marked_it),
        *old(b) == *final(a),
        call_ensures(AudioArchive::evict_written, (b, seq), evicted),
        0 <= i < old(a)@.hot.len(),
    ensures
        marked_it <==> in_hot(old(a)@.hot, seq),
        final(a)@.hot.len() == old(a)@.hot.len(),
        old(a)@.hot[i].seq == seq ==> final(a)@.hot[i] == (ClipView {
            flushed: true,
            ..old(a)@.hot[i]
        }),
        old(a)@.hot[i].seq != seq ==> final(a)@.hot[i] == old(a)@.hot[i],
        evicted <==> final(a)@.hot.len() > 0 && final(a)@.hot[0].seq == seq,
        evicted ==> in_flushed(final(b)@.flushed, seq) && !in_hot(final(b)@.hot, seq),
{
    if evicted {
        lemma_in_flushed_with(final(a)@.flushed, seq, final(a)@.hot[0].path, seq);
        let w = final(b)@;
        if in_hot(w.hot, seq) {
            let k = choose|k: int| 0 <= k < w.hot.len() && (#[trigger] w.hot[k]).seq == seq;
            assert(w.hot[k] == final(a)@.hot[k + 1]);
            assert(final(a)@.hot[0].seq < final(a)@.hot[k + 1].seq);
        }
    }
}

proof fn lemma_flushed_with_holds(flushed: Seq<(u64, Seq<char>)>, seq: u64, path: Seq<char>)
    ensures
        exists|i: int|
            0 <= i < flushed_with(flushed, seq, path).len() && #[trigger] flushed_with(
                flushed,
                seq,
                path,
            )[i] == (seq, path),
    decreases flushed.len(),
{
    let all = flushed_with(flushed, seq, path);
    if flushed.len() == 0 || flushed.last().0 <= seq {
        assert(all[all.len() - 1] == (seq, path));
    } else {
        lemma_flushed_with_holds(flushed.drop_last(), seq, path);
        let rest = flushed_with(flushed.drop_last(), seq, path);
        let i = choose|i: int| 0 <= i < rest.len() && #[trigger] rest[i] == (seq, path);
        assert(all[i] == (seq, path));
    }
}

/// Law: a clip that leaves memory is known from then on by the file it was written to, and by no
/// other, also where its number had one before.
pub proof fn law_the_latest_file_counts(v: ArchiveView, i: int)
    requires
        v.wf(),
        v.hot.len() > 0,
    ensures
        ({
            let w = v.oldest_evicted();
            let seq = v.hot[0].seq;
            &&& in_flushed(w.flushed, seq)
            &&& 0 <= i < w.flushed.len() && w.flushed[i].0 == seq ==> w.flushed[i].1 == v.hot[0].path
            &&& w.hot == v.hot.skip(1)
            &&& flushed_sorted(w.flushed)
        }),
{
    let seq = v.hot[0].seq;
    let path = v.hot[0].path;
    let all = v.oldest_evicted().flushed;
    lemma_flushed_with_entries(v.flushed, seq, path);
    lemma_flushed_with_holds(v.flushed, seq, path);
    let k = choose|k: int| 0 <= k < all.len() && #[trigger] all[k] == (seq, path);
    assert(all[k].0 == seq);
    if 0 <= i < all.len() && all[i].0 == seq {
        assert(i == k);
    }
}

} // verus!
