//! The decisions of the consume loop. The loop itself (waiting for audio, talking to the
//! streaming worker) runs outside; each turn of it asks the [`Brain`] what follows from what
//! happened and carries out the answer.

use std::sync::Arc;

use vstd::prelude::*;
use vstd::string::*;

use crate::audio_store::{
    audio_of, audio_of_all, law_evict_forgets_exactly, law_stored_clip_reads_back, samples,
    without_all, AudioStore, StoreView,
};
use crate::pipeline::tracker::{ParagraphTracker, TrackerView};
use crate::text::concatenated;
use crate::types::{
    concat_streaming, event_views, streaming_texts, AudioId, EventView, ParagraphId, ParagraphView,
    SentenceId, SettledParagraph, Stage1Event, VadParagraph, VadSentence,
};

verus! {

/// A streaming session whose partial has not changed for this long is dropped.
pub const STALE_SESSION_RESET_US: i64 = 8_000_000;

/// For this long after the last voiced frame speech counts as under way although no partial text
/// has come yet.
pub const VOICE_SETTLE_MARGIN_US: i64 = 600_000;

/// While a flush waits for the end of a sentence, it is looked at again after this long.
pub const FLUSH_RETRY_US: u64 = 50_000;

/// Is someone speaking: is there partial text, or was there voice a moment ago?
pub open spec fn speaking_at(partial_nonempty: bool, last_voice_us: int, now_us: int) -> bool {
    partial_nonempty || now_us - last_voice_us < VOICE_SETTLE_MARGIN_US
}

/// Is someone speaking?
pub fn speech_pending(partial_nonempty: bool, last_voice_us: i64, now_us: i64) -> (r: bool)
    ensures
        r == speaking_at(partial_nonempty, last_voice_us as int, now_us as int),
{
    partial_nonempty || (now_us as i128) - (last_voice_us as i128) < VOICE_SETTLE_MARGIN_US as i128
}

/// What the consume loop knows of the streaming session's last partial.
#[derive(Clone, Copy)]
pub struct PartialMirror {
    pub nonempty: bool,
    pub last_change_us: i64,
}

impl PartialMirror {
    /// No partial yet.
    pub fn empty(now_us: i64) -> (r: Self)
        ensures
            !r.nonempty,
            r.last_change_us == now_us,
    {
        PartialMirror { nonempty: false, last_change_us: now_us }
    }
}

/// What the streaming worker hands over at the end of a sentence. `pcm` is `None` where no
/// streaming recogniser is configured.
pub struct StreamFinal {
    pub text: String,
    pub pcm: Option<Vec<i16>>,
    pub fed: u32,
}

/// What a turn of the loop does first.
#[derive(Clone, Copy, Debug, PartialEq, Eq, Structural)]
pub enum Phase {
    /// Deep sleep was asked for: leave the loop.
    Exit,
    /// The source is paused: wait for audio and drop it.
    AwaitAudio,
    /// Go on with the time-driven checks.
    Tick,
}

/// The switches decide how a turn begins; sleep goes before pause.
pub fn phase(running: bool, active: bool) -> (r: Phase)
    ensures
        !running ==> r == Phase::Exit,
        running && !active ==> r == Phase::AwaitAudio,
        running && active ==> r == Phase::Tick,
{
    if !running {
        Phase::Exit
    } else if !active {
        Phase::AwaitAudio
    } else {
        Phase::Tick
    }
}

/// The audio ids of the sentences.
pub open spec fn audio_ids(sentences: Seq<VadSentence>) -> Seq<AudioId> {
    Seq::new(sentences.len(), |i: int| sentences[i].audio_id)
}

/// The paragraph built from closed sentences: their audio from the store, their streaming texts
/// in a row, no batch text yet.
pub open spec fn closed_paragraph(id: ParagraphId, sentences: Seq<VadSentence>, store: StoreView) -> ParagraphView {
    ParagraphView {
        id,
        sentences,
        start_us: sentences[0].start_us,
        end_us: sentences.last().end_us,
        streaming: streaming_texts(sentences),
        batch: None,
        pcm: audio_of_all(store.clips, audio_ids(sentences)),
        batch_asr_ms: 0,
    }
}

/// Were the ids of all clips of the sentences handed out before `next_id`?
pub open spec fn clips_known(sentences: Seq<VadSentence>, next_id: int) -> bool {
    forall|i: int| 0 <= i < sentences.len() ==> (#[trigger] sentences[i]).audio_id < next_id
}

/// The store after the clips of the sentences were released.
pub open spec fn released(store: StoreView, sentences: Seq<VadSentence>) -> StoreView {
    StoreView { clips: without_all(store.clips, audio_ids(sentences)), ..store }
}

fn collect_audio_ids(sentences: &Vec<VadSentence>) -> (r: Vec<AudioId>)
    ensures
        r@ == audio_ids(sentences@),
{
    let mut ids: Vec<AudioId> = Vec::new();
    let mut i: usize = 0;
    while i < sentences.len()
        invariant
            0 <= i <= sentences.len(),
            ids@ == audio_ids(sentences@.take(i as int)),
        decreases sentences.len() - i,
    {
        ids.push(sentences[i].audio_id);
        i = i + 1;
        proof {
            assert(ids@ =~= audio_ids(sentences@.take(i as int)));
        }
    }
    proof {
        assert(sentences@.take(sentences@.len() as int) =~= sentences@);
    }
    ids
}

/// Turns a closed paragraph into its event: joins its clips once and releases them from the
/// store. A paragraph without sentences gives no event and leaves the store alone.
pub fn emit_paragraph_edge(settled: SettledParagraph, store: &mut AudioStore, sr: u32) -> (r: Option<
    Stage1Event,
>)
    requires
        old(store)@.wf(),
        old(store).inv(),
    ensures
        final(store)@.wf(),
        final(store).inv(),
        settled.sentences@.len() == 0 ==> r is None && final(store)@ == old(store)@,
        settled.sentences@.len() > 0 ==> {
            &&& r matches Some(e)
            &&& e@ == (EventView::Edge {
                paragraph: closed_paragraph(
                    settled.paragraph_id,
                    settled.sentences@,
                    old(store)@,
                ),
                sr,
            })
            &&& final(store)@ == released(old(store)@, settled.sentences@)
        },
{
    let n: usize = settled.sentences.len();
    if n == 0 {
        return None;
    }
    let ids = collect_audio_ids(&settled.sentences);
    let pcm = Arc::new(store.concat(ids.as_slice()));
    let streaming_text = concat_streaming(settled.sentences.as_slice());
    let start_us: i64 = settled.sentences[0].start_us;
    let end_us: i64 = settled.sentences[n - 1].end_us;
    let paragraph = VadParagraph {
        id: settled.paragraph_id,
        sentences: settled.sentences,
        start_us,
        end_us,
        streaming_text,
        batch_text: None,
        pcm,
        batch_asr_ms: 0,
    };
    store.evict(ids.as_slice());
    Some(Stage1Event::ParagraphEdge { paragraph, sr })
}

/// The state of the consume loop.
pub struct Brain {
    tracker: ParagraphTracker,
    mirror: PartialMirror,
    cur_sentence: SentenceId,
    /// Onset of the sentence under way, 0 where none was seen.
    onset_at: i64,
    store: AudioStore,
    sr: u32,
}

/// The state of the consume loop as a value.
pub struct BrainView {
    pub tracker: TrackerView,
    pub nonempty: bool,
    pub last_change: int,
    pub cur_sentence: SentenceId,
    pub onset_at: i64,
    pub store: StoreView,
    pub sr: u32,
}

/// What a look at the clock came to.
pub struct TickOutcome {
    /// The paragraph that was closed, if any.
    pub edge: Option<Stage1Event>,
    /// The streaming session is to be reset.
    pub reset_session: bool,
    /// The flush request was dealt with.
    pub flush_done: bool,
    /// Someone was speaking.
    pub speaking: bool,
    /// There was partial text when the turn began.
    pub partial_live: bool,
}

/// The audio of a sentence: what the streaming session heard, else the fallback.
pub open spec fn sentence_pcm(stream: StreamFinal, fallback: Seq<i16>) -> Seq<i16> {
    match stream.pcm {
        Some(p) => p@,
        None => fallback,
    }
}

/// When a sentence of `len` samples that ended at `end_us` began: at its onset where one was
/// seen, else as long before its end as its audio lasts, but not before the clock's origin.
pub open spec fn sentence_start(onset: int, end_us: int, len: int, sr: int) -> int {
    if onset > 0 {
        onset
    } else if end_us - len * 1_000_000 / sr > 0 {
        end_us - len * 1_000_000 / sr
    } else {
        0
    }
}

impl BrainView {
    /// All parts are well-formed, the sample rate is one, and the clips of the open sentences
    /// have ids that were handed out.
    pub open spec fn wf(self) -> bool {
        &&& self.tracker.wf()
        &&& self.store.wf()
        &&& self.sr > 0
        &&& self.tracker.open matches Some(w) ==> clips_known(w.sentences, self.store.next_id)
    }

    /// There is an id for one more clip, and room to count its samples.
    pub open spec fn has_room(self, len: int) -> bool {
        &&& self.store.next_id < u64::MAX
        &&& samples(self.store.clips) + len <= usize::MAX
    }

    /// Does a flush close the open paragraph?
    pub open spec fn flushes(self, now: int, last_voice: int, flush: bool) -> bool {
        flush && !speaking_at(self.nonempty, last_voice, now) && self.tracker.can_force()
    }

    /// Does a look at the clock close a paragraph that has sentences?
    pub open spec fn closes(self, now: int, last_voice: int, flush: bool) -> bool {
        ||| self.flushes(now, last_voice, flush)
        ||| {
            &&& self.tracker.run_out(now, speaking_at(self.nonempty, last_voice, now))
            &&& (self.tracker.open->0).sentences.len() > 0
        }
    }

    /// Has the partial been standing for too long?
    pub open spec fn stale(self, now: int) -> bool {
        self.nonempty && now - self.last_change >= STALE_SESSION_RESET_US
    }

    /// After a look at the clock.
    pub open spec fn ticked(self, now: int, last_voice: int, flush: bool) -> BrainView {
        let closes = self.closes(now, last_voice, flush);
        BrainView {
            tracker: if self.flushes(now, last_voice, flush) {
                self.tracker.closed()
            } else {
                self.tracker.ticked(now, speaking_at(self.nonempty, last_voice, now))
            },
            store: if closes {
                released(self.store, (self.tracker.open->0).sentences)
            } else {
                self.store
            },
            nonempty: self.nonempty && !closes && !self.stale(now),
            ..self
        }
    }

    /// The sentence that ends now.
    pub open spec fn finished(self, stream: StreamFinal, end_us: i64, fallback: Seq<i16>) -> VadSentence {
        VadSentence {
            id: self.cur_sentence,
            audio_id: self.store.next_id as u64,
            start_us: sentence_start(
                self.onset_at as int,
                end_us as int,
                sentence_pcm(stream, fallback).len() as int,
                self.sr as int,
            ) as i64,
            end_us,
            streaming_text: stream.text,
            batch_text: None,
        }
    }

    /// After the end of a sentence.
    pub open spec fn with_sentence(
        self,
        stream: StreamFinal,
        end_us: i64,
        fallback: Seq<i16>,
        clock: int,
    ) -> BrainView {
        let s = self.finished(stream, end_us, fallback);
        let stored = self.store.inserted(sentence_pcm(stream, fallback));
        BrainView {
            tracker: self.tracker.with_eos(s, clock),
            store: if self.tracker.gap_closes(s.start_us as int) {
                released(stored, (self.tracker.open->0).sentences)
            } else {
                stored
            },
            onset_at: 0,
            ..self
        }
    }

    /// What the end of a sentence reports: first the paragraph that the gap closed, if any, then
    /// the sentence's final streaming text, if any, then the sentence with all of its paragraph.
    pub open spec fn sentence_events(
        self,
        stream: StreamFinal,
        end_us: i64,
        fallback: Seq<i16>,
        clock: int,
    ) -> Seq<EventView> {
        let s = self.finished(stream, end_us, fallback);
        let stored = self.store.inserted(sentence_pcm(stream, fallback));
        let open = self.tracker.with_eos(s, clock).open->0;
        let edge = if self.tracker.gap_closes(s.start_us as int) {
            seq![
                EventView::Edge {
                    paragraph: closed_paragraph(
                        (self.tracker.open->0).id as u64,
                        (self.tracker.open->0).sentences,
                        stored,
                    ),
                    sr: self.sr,
                },
            ]
        } else {
            Seq::empty()
        };
        let fragment = if stream.text@.len() > 0 {
            seq![
                EventView::Fragment {
                    paragraph_id: open.id as u64,
                    sentence_id: s.id,
                    text: stream.text@,
                    at_us: end_us,
                },
            ]
        } else {
            Seq::empty()
        };
        let batch = seq![
            EventView::Batch {
                paragraph_id: open.id as u64,
                sentences: open.sentences,
                sr: self.sr,
            },
        ];
        edge + fragment + batch
    }
}

impl View for Brain {
    type V = BrainView;

    closed spec fn view(&self) -> BrainView {
        BrainView {
            tracker: self.tracker@,
            nonempty: self.mirror.nonempty,
            last_change: self.mirror.last_change_us as int,
            cur_sentence: self.cur_sentence,
            onset_at: self.onset_at,
            store: self.store@,
            sr: self.sr,
        }
    }
}

impl Brain {
    /// A loop that has heard nothing yet.
    pub fn new(merge_gap_us: i64, cap_samples: usize, sr: u32, now_us: i64) -> (r: Self)
        requires
            sr > 0,
        ensures
            r@.wf(),
            r.inv(),
            r@ == (BrainView {
                tracker: TrackerView::initial(merge_gap_us as int),
                nonempty: false,
                last_change: now_us as int,
                cur_sentence: 0,
                onset_at: 0,
                store: StoreView { clips: Seq::empty(), next_id: 0, cap: cap_samples as int },
                sr,
            }),
    {
        Brain {
            tracker: ParagraphTracker::new(merge_gap_us),
            mirror: PartialMirror::empty(now_us),
            cur_sentence: 0,
            onset_at: 0,
            store: AudioStore::new(cap_samples),
            sr,
        }
    }

    /// The store's running total is right.
    pub closed spec fn inv(&self) -> bool {
        self.store.inv()
    }

    /// The store of the sentences' clips. A clip is held from the end of its sentence until its
    /// paragraph is closed.
    pub fn audio_store(&self) -> (r: &AudioStore)
        ensures
            r@ == self@.store,
    {
        &self.store
    }

    /// Is there room for one more clip of `len` samples?
    pub fn room_for(&self, len: usize) -> (r: bool)
        requires
            self@.wf(),
            self.inv(),
        ensures
            r == self@.has_room(len as int),
    {
        self.store.next_id() < u64::MAX && self.store.total_samples() <= usize::MAX - len
    }

    /// Is an id left for one more sentence?
    pub fn can_start_sentence(&self) -> (r: bool)
        ensures
            r == (self@.tracker.next_sentence < u64::MAX),
    {
        self.tracker.next_sentence_id() < u64::MAX
    }

    /// A partial came back from the streaming worker: `text` is the new partial where it changed
    /// and is not empty, `nonempty` whether the session now holds one. A changed partial is
    /// reported under the ids that the sentence being spoken will get.
    pub fn fold_stream_out(&mut self, text: Option<String>, nonempty: bool, at_us: i64) -> (r: Option<
        Stage1Event,
    >)
        requires
            old(self)@.wf(),
            old(self).inv(),
        ensures
            final(self)@.wf(),
            final(self).inv(),
            final(self)@ == (BrainView {
                nonempty,
                last_change: if text is Some {
                    at_us as int
                } else {
                    old(self)@.last_change
                },
                ..old(self)@
            }),
            r is Some == text is Some,
            text matches Some(t) ==> (r->0)@ == (EventView::Fragment {
                paragraph_id: old(self)@.tracker.next_ids().0 as u64,
                sentence_id: old(self)@.tracker.next_ids().1 as u64,
                text: t@,
                at_us,
            }),
    {
        self.mirror.nonempty = nonempty;
        match text {
            Some(t) => {
                self.mirror.last_change_us = at_us;
                let (paragraph_id, sentence_id) = self.tracker.prospective();
                Some(Stage1Event::StreamFragment { paragraph_id, sentence_id, text: t, at_us })
            },
            None => None,
        }
    }

    /// The time-driven checks of one turn: an explicit flush, the merge gap, the stale session.
    pub fn tick(&mut self, now_us: i64, last_voice_us: i64, flush: bool) -> (r: TickOutcome)
        requires
            old(self)@.wf(),
            old(self).inv(),
        ensures
            final(self)@.wf(),
            final(self).inv(),
            final(self)@ == old(self)@.ticked(now_us as int, last_voice_us as int, flush),
            r.speaking == speaking_at(
                old(self)@.nonempty,
                last_voice_us as int,
                now_us as int,
            ),
            r.partial_live == old(self)@.nonempty,
            r.edge is Some == old(self)@.closes(now_us as int, last_voice_us as int, flush),
            r.edge matches Some(e) ==> e@ == (EventView::Edge {
                paragraph: closed_paragraph(
                    (old(self)@.tracker.open->0).id as u64,
                    (old(self)@.tracker.open->0).sentences,
                    old(self)@.store,
                ),
                sr: old(self)@.sr,
            }),
            r.reset_session == (old(self)@.closes(now_us as int, last_voice_us as int, flush)
                || old(self)@.stale(now_us as int)),
            r.flush_done == (flush && !r.speaking && (old(self)@.tracker.can_force()
                || old(self)@.tracker.open is None)),
    {
        let partial_live = self.mirror.nonempty;
        let speaking = speech_pending(partial_live, last_voice_us, now_us);
        let mut edge: Option<Stage1Event> = None;
        let mut reset_session = false;
        let mut flush_done = false;
        let ghost before = self@;
        if flush && !speaking {
            match self.tracker.force_settle() {
                Some(settled) => {
                    flush_done = true;
                    edge = emit_paragraph_edge(settled, &mut self.store, self.sr);
                    reset_session = true;
                    self.mirror.nonempty = false;
                },
                None => {
                    if !self.tracker.has_open_paragraph() {
                        flush_done = true;
                    }
                },
            }
        }
        match self.tracker.check_settle(now_us, speaking) {
            Some(settled) => {
                edge = emit_paragraph_edge(settled, &mut self.store, self.sr);
                reset_session = true;
                self.mirror.nonempty = false;
            },
            None => {},
        }
        if self.mirror.nonempty && (now_us as i128) - (self.mirror.last_change_us as i128)
            >= STALE_SESSION_RESET_US as i128 {
            reset_session = true;
            self.mirror.nonempty = false;
        }
        TickOutcome { edge, reset_session, flush_done, speaking, partial_live }
    }

    /// How long to wait for audio at most before the next look at the clock; `None` where
    /// nothing is due.
    pub fn next_wake_at(&self, now_us: i64, speaking: bool, flush_pending: bool) -> (r: Option<u128>)
        ensures
            match r {
                Some(d) => wake_after(self@, now_us as int, speaking, flush_pending) == Some(
                    d as int,
                ),
                None => wake_after(self@, now_us as int, speaking, flush_pending) is None,
            },
    {
        let mut wake: Option<u128> = None;
        if flush_pending {
            wake = Some(FLUSH_RETRY_US as u128);
        }
        match self.tracker.settle_deadline(now_us, speaking) {
            Some(d) => {
                let d: u128 = if d > FLUSH_RETRY_US as i128 {
                    d as u128
                } else {
                    FLUSH_RETRY_US as u128
                };
                wake = Some(earlier_of(wake, d));
            },
            None => {},
        }
        if self.mirror.nonempty {
            let left: i128 = STALE_SESSION_RESET_US as i128 - ((now_us as i128) - (
            self.mirror.last_change_us as i128));
            let d: u128 = if left > 0 {
                left as u128
            } else {
                0
            };
            wake = Some(earlier_of(wake, d));
        }
        wake
    }

    /// Speech set in: the paragraph opens and the sentence's onset is noted.
    pub fn on_onset(&mut self, at_us: i64)
        requires
            old(self)@.wf(),
            old(self).inv(),
        ensures
            final(self)@.wf(),
            final(self).inv(),
            exists|clock: u64|
                final(self)@ == (BrainView {
                    tracker: #[trigger] old(self)@.tracker.opened(at_us as int, clock as int),
                    onset_at: at_us,
                    ..old(self)@
                }),
    {
        self.tracker.on_speech_onset(at_us);
        self.onset_at = at_us;
    }

    /// A start of speech: the sentence under way gets its id.
    pub fn on_sos(&mut self, now_us: i64)
        requires
            old(self)@.wf(),
            old(self).inv(),
            old(self)@.tracker.next_sentence < u64::MAX,
        ensures
            final(self)@.wf(),
            final(self).inv(),
            exists|clock: u64|
                final(self)@ == (BrainView {
                    tracker: #[trigger] old(self)@.tracker.with_sos(now_us as int, clock as int),
                    cur_sentence: old(self)@.tracker.next_sentence as u64,
                    ..old(self)@
                }),
    {
        self.cur_sentence = self.tracker.on_sos(now_us);
    }

    /// The session is about to be taken over at the end of a sentence.
    pub fn begin_finalize(&mut self)
        requires
            old(self)@.wf(),
            old(self).inv(),
        ensures
            final(self)@.wf(),
            final(self).inv(),
            final(self)@ == (BrainView { nonempty: false, ..old(self)@ }),
    {
        self.mirror.nonempty = false;
    }

    /// The end of a sentence, `clock` being what the wall clock reads: its audio goes to the
    /// store, the tracker places it, and the events follow in their order.
    pub fn finalize_sentence_at(
        &mut self,
        stream: StreamFinal,
        end_us: i64,
        fallback_pcm: Vec<i16>,
        clock: u64,
    ) -> (r: Vec<Stage1Event>)
        requires
            old(self)@.wf(),
            old(self).inv(),
            old(self)@.has_room(sentence_pcm(stream, fallback_pcm@).len() as int),
        ensures
            final(self)@.wf(),
            final(self).inv(),
            final(self)@ == old(self)@.with_sentence(
                stream,
                end_us,
                fallback_pcm@,
                clock as int,
            ),
            event_views(r@) == old(self)@.sentence_events(
                stream,
                end_us,
                fallback_pcm@,
                clock as int,
            ),
    {
        let ghost before = self@;
        let ghost heard = sentence_pcm(stream, fallback_pcm@);
        let StreamFinal { text, pcm, fed: _ } = stream;
        let heard_pcm: Vec<i16> = match pcm {
            Some(p) => p,
            None => fallback_pcm,
        };
        let start_us: i64 = start_of(self.onset_at, end_us, heard_pcm.len(), self.sr);
        self.onset_at = 0;
        let has_text = !text.as_str().is_empty();
        let fragment_text = text.clone();
        let audio_id: AudioId = self.store.insert(Arc::new(heard_pcm));
        let sentence = VadSentence {
            id: self.cur_sentence,
            audio_id,
            start_us,
            end_us,
            streaming_text: text,
            batch_text: None,
        };
        let ghost s = before.finished(stream, end_us, fallback_pcm@);
        proof {
            assert(sentence == s);
        }
        let sentence_id: SentenceId = self.cur_sentence;
        let (settled, paragraph_id, sentences) = self.tracker.on_eos_at(sentence, clock);
        let mut events: Vec<Stage1Event> = Vec::new();
        match settled {
            Some(p) => {
                match emit_paragraph_edge(p, &mut self.store, self.sr) {
                    Some(e) => {
                        events.push(e);
                    },
                    None => {},
                }
            },
            None => {},
        }
        if has_text {
            events.push(
                Stage1Event::StreamFragment {
                    paragraph_id,
                    sentence_id,
                    text: fragment_text,
                    at_us: end_us,
                },
            );
        }
        events.push(Stage1Event::Batch { paragraph_id, sentences, sr: self.sr });
        proof {
            assert(event_views(events@) =~= before.sentence_events(
                stream,
                end_us,
                fallback_pcm@,
                clock as int,
            ));
        }
        events
    }

    /// The end of a sentence.
    pub fn finalize_sentence(&mut self, stream: StreamFinal, end_us: i64, fallback_pcm: Vec<i16>) -> (r:
        Vec<Stage1Event>)
        requires
            old(self)@.wf(),
            old(self).inv(),
            old(self)@.has_room(sentence_pcm(stream, fallback_pcm@).len() as int),
        ensures
            final(self)@.wf(),
            final(self).inv(),
            exists|clock: u64|
                {
                    &&& final(self)@ == #[trigger] old(self)@.with_sentence(
                        stream,
                        end_us,
                        fallback_pcm@,
                        clock as int,
                    )
                    &&& event_views(r@) == old(self)@.sentence_events(
                        stream,
                        end_us,
                        fallback_pcm@,
                        clock as int,
                    )
                },
    {
        let clock: u64 = crate::clock::unix_micros();
        self.finalize_sentence_at(stream, end_us, fallback_pcm, clock)
    }
}

pub(crate) fn start_of(onset: i64, end_us: i64, len: usize, sr: u32) -> (r: i64)
    requires
        sr > 0,
    ensures
        r == sentence_start(onset as int, end_us as int, len as int, sr as int),
{
    if onset > 0 {
        return onset;
    }
    let heard: u128 = (len as u128) * 1_000_000 / (sr as u128);
    proof {
        assert(heard <= len * 1_000_000) by (nonlinear_arith)
            requires
                heard == len * 1_000_000 / (sr as int),
                sr > 0,
        ;
    }
    let start: i128 = (end_us as i128) - (heard as i128);
    if start > 0 {
        start as i64
    } else {
        0
    }
}

/// The earlier of two waits, where there may be none yet.
pub open spec fn sooner(a: Option<int>, b: int) -> int {
    match a {
        Some(x) => if x <= b {
            x
        } else {
            b
        },
        None => b,
    }
}

pub(crate) fn earlier_of(a: Option<u128>, b: u128) -> (r: u128)
    ensures
        r == sooner(
            match a {
                Some(x) => Some(x as int),
                None => None,
            },
            b as int,
        ),
{
    match a {
        Some(x) => if x <= b {
            x
        } else {
            b
        },
        None => b,
    }
}

/// When the loop has to look at the clock again: soon while a flush is pending, when the open
/// paragraph runs out (but not sooner than a flush is retried), when the partial goes stale.
pub open spec fn wake_after(v: BrainView, now: int, speaking: bool, flush_pending: bool) -> Option<int> {
    let flush: Option<int> = if flush_pending {
        Some(FLUSH_RETRY_US as int)
    } else {
        None
    };
    let settle: Option<int> = match v.tracker.deadline(now, speaking) {
        Some(d) => Some(
            sooner(
                flush,
                if d > FLUSH_RETRY_US {
                    d
                } else {
                    FLUSH_RETRY_US as int
                },
            ),
        ),
        None => flush,
    };
    if v.nonempty {
        let left = STALE_SESSION_RESET_US - (now - v.last_change);
        Some(
            sooner(
                settle,
                if left > 0 {
                    left
                } else {
                    0
                },
            ),
        )
    } else {
        settle
    }
}

/// The paragraph that an event speaks of.
pub open spec fn paragraph_of(e: EventView) -> ParagraphId {
    match e {
        EventView::Fragment { paragraph_id, .. } => paragraph_id,
        EventView::Batch { paragraph_id, .. } => paragraph_id,
        EventView::Edge { paragraph, .. } => paragraph.id,
    }
}

/// Law: while someone speaks, a look at the clock closes nothing and releases nothing, not even
/// on request, however late it is.
pub proof fn law_speech_is_never_cut(v: BrainView, now: int, last_voice: int, flush: bool)
    requires
        speaking_at(v.nonempty, last_voice, now),
    ensures
        !v.closes(now, last_voice, flush),
        v.ticked(now, last_voice, flush).tracker == v.tracker,
        v.ticked(now, last_voice, flush).store == v.store,
{
}

/// Law: a request closes a paragraph with completed sentences at once when nobody speaks and no
/// sentence is under way, without waiting for the merge gap.
pub proof fn law_flush_does_not_wait(v: BrainView, now: int, last_voice: int)
    requires
        !speaking_at(v.nonempty, last_voice, now),
        v.tracker.open matches Some(w) && !w.active && w.sentences.len() > 0,
    ensures
        v.closes(now, last_voice, true),
        v.ticked(now, last_voice, true).tracker.open is None,
{
}

/// Law: closing a paragraph releases the clips of its sentences, and no other clip.
pub proof fn law_closing_releases_its_clips(
    v: BrainView,
    now: int,
    last_voice: int,
    flush: bool,
    id: AudioId,
)
    requires
        v.closes(now, last_voice, flush),
    ensures
        audio_of(v.ticked(now, last_voice, flush).store.clips, id) == (if audio_ids(
            (v.tracker.open->0).sentences,
        ).contains(id) {
            Seq::<i16>::empty()
        } else {
            audio_of(v.store.clips, id)
        }),
{
    law_evict_forgets_exactly(v.store, audio_ids((v.tracker.open->0).sentences), id);
}

/// Law: the clip of a sentence is there once the sentence is reported, even where the gap before
/// it closes a paragraph and releases its clips, as long as the clip alone fits the store.
pub proof fn law_a_new_clip_outlives_the_closing(
    v: BrainView,
    stream: StreamFinal,
    end_us: i64,
    fallback: Seq<i16>,
    clock: int,
)
    requires
        v.wf(),
        v.has_room(sentence_pcm(stream, fallback).len() as int),
        sentence_pcm(stream, fallback).len() <= v.store.cap,
    ensures
        ({
            let s = v.finished(stream, end_us, fallback);
            audio_of(v.with_sentence(stream, end_us, fallback, clock).store.clips, s.audio_id)
                == sentence_pcm(stream, fallback)
        }),
{
    let s = v.finished(stream, end_us, fallback);
    let pcm = sentence_pcm(stream, fallback);
    law_stored_clip_reads_back(v.store, pcm);
    if v.tracker.gap_closes(s.start_us as int) {
        let gone = (v.tracker.open->0).sentences;
        law_evict_forgets_exactly(v.store.inserted(pcm), audio_ids(gone), s.audio_id);
        assert(!audio_ids(gone).contains(s.audio_id)) by {
            if audio_ids(gone).contains(s.audio_id) {
                let k = choose|k: int|
                    0 <= k < audio_ids(gone).len() && audio_ids(gone)[k] == s.audio_id;
                assert(gone[k].audio_id < v.store.next_id);
            }
        }
    }
}

/// Law: where a gap closes a paragraph, its closing is the first event, and every event after it
/// speaks of a paragraph with a larger id.
pub proof fn law_closing_comes_before_the_next(
    v: BrainView,
    stream: StreamFinal,
    end_us: i64,
    fallback: Seq<i16>,
    clock: u64,
)
    requires
        v.wf(),
        v.tracker.last_id < u64::MAX,
        v.tracker.gap_closes(v.finished(stream, end_us, fallback).start_us as int),
    ensures
        ({
            let events = v.sentence_events(stream, end_us, fallback, clock as int);
            &&& events.len() >= 2
            &&& events[0] is Edge
            &&& paragraph_of(events[0]) == (v.tracker.open->0).id
            &&& forall|i: int|
                1 <= i < events.len() ==> paragraph_of(#[trigger] events[i]) > paragraph_of(
                    events[0],
                )
        }),
{
}

/// Law: a partial is reported under the id that its sentence's paragraph really has, once speech
/// has set in.
pub proof fn law_partials_carry_the_real_id(v: BrainView, at: int, clock: u64)
    requires
        v.wf(),
    ensures
        ({
            let t = v.tracker.opened(at, clock as int);
            t.next_ids().0 == (t.open->0).id
        }),
{
}

/// Law: a closed paragraph is its sentences: it begins with the first and ends with the last, its
/// streaming text is theirs in speaking order, and so is its audio; it has no batch text yet.
pub proof fn law_a_closed_paragraph_is_its_sentences(
    id: ParagraphId,
    sentences: Seq<VadSentence>,
    store: StoreView,
)
    requires
        sentences.len() > 0,
    ensures
        ({
            let p = closed_paragraph(id, sentences, store);
            &&& p.id == id
            &&& p.sentences == sentences
            &&& p.start_us == sentences[0].start_us
            &&& p.end_us == sentences[sentences.len() - 1].end_us
            &&& p.streaming == concatenated(sentences.map_values(|s: VadSentence| s.streaming_text@))
            &&& p.pcm == sentences.map_values(
                |s: VadSentence| audio_of(store.clips, s.audio_id),
            ).flatten()
            &&& p.batch is None
            &&& p.batch_asr_ms == 0
        }),
{
    lemma_texts_and_audio(sentences, store);
}

proof fn lemma_texts_and_audio(sentences: Seq<VadSentence>, store: StoreView)
    ensures
        streaming_texts(sentences) == concatenated(
            sentences.map_values(|s: VadSentence| s.streaming_text@),
        ),
        audio_of_all(store.clips, audio_ids(sentences)) == sentences.map_values(
            |s: VadSentence| audio_of(store.clips, s.audio_id),
        ).flatten(),
    decreases sentences.len(),
{
    let said = sentences.map_values(|s: VadSentence| s.streaming_text@);
    let heard = sentences.map_values(|s: VadSentence| audio_of(store.clips, s.audio_id));
    if sentences.len() == 0 {
        assert(audio_ids(sentences) =~= Seq::<AudioId>::empty());
        assert(heard =~= Seq::<Seq<i16>>::empty());
        heard.lemma_flatten_and_flatten_alt_are_equivalent();
    } else {
        let rest = sentences.drop_last();
        lemma_texts_and_audio(rest, store);
        let before = rest.map_values(|s: VadSentence| audio_of(store.clips, s.audio_id));
        assert(said.drop_last() =~= rest.map_values(|s: VadSentence| s.streaming_text@));
        assert(heard.drop_last() =~= before);
        assert(audio_ids(sentences).drop_last() =~= audio_ids(rest));
        heard.lemma_flatten_and_flatten_alt_are_equivalent();
        before.lemma_flatten_and_flatten_alt_are_equivalent();
    }
}

/// Law: quiet is counted from the last words. Once nobody speaks, no sentence is under way and
/// nothing is asked for, the paragraph is closed exactly if the merge gap has passed since the end
/// of its last sentence, and it stands as it is until then.
pub proof fn law_quiet_is_counted_from_the_last_words(v: BrainView, now: int, last_voice: int)
    requires
        v.tracker.open matches Some(w) && w.sentences.len() > 0 && !w.active,
        !v.nonempty,
        now - last_voice >= 600_000,
    ensures
        ({
            let said = (v.tracker.open->0).sentences;
            let quiet = now - said[said.len() - 1].end_us;
            &&& v.closes(now, last_voice, false) <==> quiet >= v.tracker.merge_gap
            &&& quiet < v.tracker.merge_gap ==> v.ticked(now, last_voice, false).tracker == v.tracker
            &&& quiet >= v.tracker.merge_gap ==> v.ticked(now, last_voice, false).tracker.open is None
        }),
{
}

/// Law: someone is speaking while there is live text, or while their voice was heard less than
/// the margin ago.
pub proof fn law_speaking_is_text_or_voice(nonempty: bool, last_voice: int, now: int)
    ensures
        nonempty ==> speaking_at(nonempty, last_voice, now),
        !nonempty ==> (speaking_at(nonempty, last_voice, now) <==> now - last_voice < 600_000),
{
}

/// Law: a sentence is what was heard and said: it begins at the onset that was seen, or as long
/// before its end as its audio lasts; its audio is what the streaming session heard, or the
/// detector's where there is none; its text is the session's.
pub proof fn law_a_sentence_is_what_was_heard(
    v: BrainView,
    stream: StreamFinal,
    end_us: i64,
    fallback: Seq<i16>,
)
    requires
        v.wf(),
    ensures
        ({
            let s = v.finished(stream, end_us, fallback);
            let pcm = sentence_pcm(stream, fallback);
            let lasts = pcm.len() as int * 1_000_000 / v.sr as int;
            &&& s.id == v.cur_sentence
            &&& s.end_us == end_us
            &&& s.streaming_text == stream.text
            &&& s.batch_text is None
            &&& stream.pcm matches Some(p) ==> pcm == p@
            &&& stream.pcm is None ==> pcm == fallback
            &&& v.onset_at > 0 ==> s.start_us == v.onset_at
            &&& v.onset_at <= 0 && lasts <= end_us ==> s.start_us == end_us - lasts
            &&& v.onset_at <= 0 && lasts > end_us ==> s.start_us == 0
        }),
{
    let n = sentence_pcm(stream, fallback).len() as int;
    let sr = v.sr as int;
    assert(n * 1_000_000 / sr >= 0) by (nonlinear_arith)
        requires
            n >= 0,
            sr > 0,
    ;
}

/// Law: a sentence is announced once with its text, where it has one, and then the open paragraph
/// with all of its sentences, this one last; both carry the id of that paragraph.
pub proof fn law_a_sentence_is_announced(
    v: BrainView,
    stream: StreamFinal,
    end_us: i64,
    fallback: Seq<i16>,
    clock: u64,
)
    requires
        v.wf(),
        v.tracker.last_id < u64::MAX,
    ensures
        ({
            let s = v.finished(stream, end_us, fallback);
            let events = v.sentence_events(stream, end_us, fallback, clock as int);
            let open = v.with_sentence(stream, end_us, fallback, clock as int).tracker.open->0;
            let last = events[events.len() - 1];
            &&& events.len() > 0
            &&& open.sentences.len() > 0
            &&& open.sentences[open.sentences.len() - 1] == s
            &&& last == (EventView::Batch {
                paragraph_id: open.id as u64,
                sentences: open.sentences,
                sr: v.sr,
            })
            &&& stream.text@.len() > 0 ==> events.len() >= 2 && events[events.len() - 2] == (
            EventView::Fragment {
                paragraph_id: open.id as u64,
                sentence_id: v.cur_sentence,
                text: stream.text@,
                at_us: end_us,
            })
            &&& forall|i: int|
                0 <= i < events.len() && (#[trigger] events[i]) is Edge ==> i == 0
                    && v.tracker.gap_closes(s.start_us as int)
        }),
{
}

/// Law: live text that has not changed for eight seconds is given up.
pub proof fn law_stale_text_is_given_up(v: BrainView, now: int, last_voice: int, flush: bool)
    ensures
        v.nonempty && now - v.last_change >= 8_000_000 ==> !v.ticked(now, last_voice, flush).nonempty,
        v.nonempty && now - v.last_change < 8_000_000 ==> v.ticked(now, last_voice, flush).nonempty,
        !v.nonempty ==> !v.ticked(now, last_voice, flush).nonempty,
{
}

/// Law: the next wake-up is no later than anything that is due: a request is looked at again after
/// 50 ms, stale text given up in time, and a paragraph closed no later than its deadline or 50 ms
/// from now; and where nothing is due there is none.
pub proof fn law_the_next_wake_up_misses_nothing(
    v: BrainView,
    now: int,
    speaking: bool,
    flush_pending: bool,
)
    ensures
        ({
            let w = wake_after(v, now, speaking, flush_pending);
            let d = v.tracker.deadline(now, speaking);
            &&& flush_pending ==> (w matches Some(x) && x <= 50_000)
            &&& v.nonempty ==> (w matches Some(x) && (x <= 0 || x <= 8_000_000 - (now
                - v.last_change)))
            &&& d matches Some(y) ==> (w matches Some(x) && (x <= y || x <= 50_000))
            &&& !flush_pending && !v.nonempty ==> (w is Some <==> d is Some)
            &&& w matches Some(x) ==> {
                ||| flush_pending && x == 50_000
                ||| v.nonempty && (x == 0 || x == 8_000_000 - (now - v.last_change))
                ||| d is Some && (x == 50_000 || x == d->0)
            }
        }),
{
}

/// Law: an onset counts for one sentence only: the next one without an onset of its own is timed by
/// its audio.
pub proof fn law_an_onset_counts_once(
    v: BrainView,
    stream: StreamFinal,
    end_us: i64,
    fallback: Seq<i16>,
    clock: int,
)
    ensures
        v.with_sentence(stream, end_us, fallback, clock).onset_at == 0,
        v.with_sentence(stream, end_us, fallback, clock).sr == v.sr,
        v.with_sentence(stream, end_us, fallback, clock).nonempty == v.nonempty,
{
}

/// Law: a paragraph that is closed is told once, with all of its sentences, and its audio is let go.
pub proof fn law_a_settled_paragraph_is_told_whole(
    settled: SettledParagraph,
    store: &mut AudioStore,
    sr: u32,
    r: Option<Stage1Event>,
    id: AudioId,
)
    requires
        call_ensures(emit_paragraph_edge, (settled, store, sr), r),
    ensures
        r is Some <==> settled.sentences@.len() > 0,
        r matches Some(e) ==> (e@ matches EventView::Edge { paragraph, sr: rate } && rate == sr
            && paragraph.id == settled.paragraph_id && paragraph.sentences
            == settled.sentences@ && paragraph.start_us == settled.sentences@[0].start_us
            && paragraph.end_us == settled.sentences@[settled.sentences@.len() - 1].end_us
            && paragraph.pcm == audio_of_all(
            old(store)@.clips,
            Seq::new(settled.sentences@.len(), |i: int| settled.sentences@[i].audio_id),
        )),
        audio_of(final(store)@.clips, id) == (if r is Some && audio_ids(
            settled.sentences@,
        ).contains(id) {
            Seq::<i16>::empty()
        } else {
            audio_of(old(store)@.clips, id)
        }),
{
    law_evict_forgets_exactly(old(store)@, audio_ids(settled.sentences@), id);
    assert(audio_ids(settled.sentences@) =~= Seq::new(
        settled.sentences@.len(),
        |i: int| settled.sentences@[i].audio_id,
    ));
}

/// Law: live text is told as it came, under the ids that its sentence will have; where nothing is
/// told, nothing has changed.
pub proof fn law_live_text_is_told_under_its_ids(
    b: &mut Brain,
    text: Option<String>,
    nonempty: bool,
    at_us: i64,
    r: Option<Stage1Event>,
)
    requires
        call_ensures(Brain::fold_stream_out, (b, text, nonempty, at_us), r),
        old(b)@.tracker.open is Some,
        old(b)@.wf(),
    ensures
        r is Some <==> text is Some,
        text matches Some(t) ==> ((r->0)@ matches EventView::Fragment {
            paragraph_id,
            sentence_id,
            text: told,
            at_us: at,
        } && paragraph_id == (old(b)@.tracker.open->0).id && sentence_id
            == old(b)@.tracker.next_sentence && told == t@ && at == at_us),
        text is Some ==> final(b)@.last_change == at_us,
        text is None ==> final(b)@.last_change == old(b)@.last_change,
        final(b)@.nonempty == nonempty,
        final(b)@.tracker == old(b)@.tracker,
{
}

/// Law: the loop leaves when told to, waits while the source is paused, and looks at the time
/// otherwise.
pub proof fn law_the_loop_goes_by_its_switches(running: bool, active: bool, r: Phase)
    requires
        call_ensures(phase, (running, active), r),
    ensures
        r == Phase::Exit <==> !running,
        r == Phase::AwaitAudio <==> running && !active,
        r == Phase::Tick <==> running && active,
{
}

/// Law: a request to close is dealt with exactly if nobody speaks and there is either a paragraph to
/// close or none at all; the session is reset where a paragraph was closed or its text went stale.
pub proof fn law_a_request_is_dealt_with_in_silence(
    b: &mut Brain,
    now: i64,
    last_voice: i64,
    flush: bool,
    r: TickOutcome,
)
    requires
        call_ensures(Brain::tick, (b, now, last_voice, flush), r),
        old(b)@.wf(),
    ensures
        r.speaking <==> old(b)@.nonempty || now - last_voice < 600_000,
        r.flush_done <==> flush && !r.speaking && (old(b)@.tracker.open is None || (
        old(b)@.tracker.open matches Some(w) && w.sentences.len() > 0 && !w.active)),
        r.flush_done && old(b)@.tracker.open is Some ==> r.edge is Some,
        r.speaking ==> r.edge is None,
        r.edge is Some ==> final(b)@.tracker.open is None && r.reset_session,
        r.edge is None ==> (r.reset_session <==> old(b)@.nonempty && now - old(b)@.last_change
            >= 8_000_000),
        r.edge matches Some(e) ==> (e@ matches EventView::Edge { paragraph, .. } && paragraph.sentences
            == (old(b)@.tracker.open->0).sentences && paragraph.id == (old(b)@.tracker.open->0).id),
{
}

/// Law: a sentence that starts has the next number, and its onset is when speech set in.
pub proof fn law_a_started_sentence_has_the_next_number(
    b: &mut Brain,
    c: &mut Brain,
    onset: i64,
    now: i64,
)
    requires
        call_ensures(Brain::on_onset, (b, onset), ()),
        *old(c) == *final(b),
        call_ensures(Brain::on_sos, (c, now), ()),
        old(b)@.tracker.next_sentence < u64::MAX,
        old(b)@.wf(),
    ensures
        final(b)@.onset_at == onset,
        final(c)@.onset_at == onset,
        final(c)@.cur_sentence == old(b)@.tracker.next_sentence,
        final(c)@.tracker.next_sentence == old(b)@.tracker.next_sentence + 1,
        final(c)@.tracker.open matches Some(w) && w.active,
        final(c)@.store == old(b)@.store,
{
}

/// Law: a gap that closes a paragraph lets its audio go, and only that; the audio of the new
/// sentence is taken in either way.
pub proof fn law_a_gap_lets_the_closed_audio_go(
    v: BrainView,
    stream: StreamFinal,
    end_us: i64,
    fallback: Seq<i16>,
    clock: int,
    id: AudioId,
)
    requires
        v.tracker.open matches Some(w) && w.sentences.len() > 0,
    ensures
        ({
            let said = (v.tracker.open->0).sentences;
            let s = v.finished(stream, end_us, fallback);
            let gap = s.start_us - said[said.len() - 1].end_us;
            let taken = v.store.inserted(sentence_pcm(stream, fallback)).clips;
            let held = v.with_sentence(stream, end_us, fallback, clock).store.clips;
            &&& gap >= v.tracker.merge_gap ==> audio_of(held, id) == (if Seq::new(
                said.len(),
                |i: int| said[i].audio_id,
            ).contains(id) {
                Seq::<i16>::empty()
            } else {
                audio_of(taken, id)
            })
            &&& gap < v.tracker.merge_gap ==> held == taken
        }),
{
    let said = (v.tracker.open->0).sentences;
    law_evict_forgets_exactly(v.store.inserted(sentence_pcm(stream, fallback)), audio_ids(said), id);
    assert(audio_ids(said) =~= Seq::new(said.len(), |i: int| said[i].audio_id));
}

} // verus!
