//! The loop itself, as decisions: each turn asks what follows from the time, from a frame or from
//! an edge of speech. The detector and the recogniser are asked by the caller, who also keeps the
//! queue of audio.

use std::sync::Arc;

use vstd::prelude::*;
use vstd::string::*;

use crate::audio_store::{
    audio_of, law_evict_forgets_exactly, law_stored_clip_reads_back, samples, AudioStore, StoreView,
};
use crate::pipeline::consume;
use crate::pipeline::consume::{
    audio_ids, clips_known, closed_paragraph, earlier_of, released, sentence_start, sooner, start_of,
    FLUSH_RETRY_US, STALE_SESSION_RESET_US,
};
use crate::pipeline::stream::all_samples;
use crate::recognizer::jobs::{BatchJob, JobView};
use crate::recognizer::tracker::{ParagraphTracker, TrackState};
use crate::text::same;
use crate::types::{
    AudioId, EventView, ParagraphId, SentenceId, SettledParagraph, Stage1Event, VadSentence,
};

verus! {

/// A partial is decoded after this many frames.
pub const PARTIAL_EVERY_FRAMES: u32 = 15;

/// So many frames from before the onset are kept.
pub const LEAD_IN_FRAMES: usize = 16;

/// A queue that stays empty for longer, in microseconds, while someone speaks means that the
/// source is gone.
pub const STARVED_US: i64 = 2_000_000;

/// While the source is gone, silence is fed at most this often, in microseconds.
pub const SILENCE_EVERY_US: i64 = 100_000;

/// What the loop hands out, in this order: an event for the caller, or a job for the worker.
pub enum LoopOut {
    Event(Stage1Event),
    Job(BatchJob),
}

/// What the loop hands out as a value.
pub enum OutView {
    Event(EventView),
    Job(JobView),
}

impl View for LoopOut {
    type V = OutView;

    open spec fn view(&self) -> OutView {
        match self {
            LoopOut::Event(e) => OutView::Event(e@),
            LoopOut::Job(j) => OutView::Job(j@),
        }
    }
}

/// A list of what was handed out, as values.
pub open spec fn out_views(v: Seq<LoopOut>) -> Seq<OutView> {
    Seq::new(v.len(), |i: int| v[i]@)
}

/// What a closed paragraph leads to: its event, then the pass over all of it. One sentence alone
/// has been passed over already.
pub open spec fn edge_outputs(
    id: ParagraphId,
    sentences: Seq<VadSentence>,
    store: StoreView,
    sr: u32,
    batch_jobs: bool,
) -> Seq<OutView> {
    if sentences.len() == 0 {
        Seq::empty()
    } else {
        let paragraph = closed_paragraph(id, sentences, store);
        let event = seq![OutView::Event(EventView::Edge { paragraph, sr })];
        if sentences.len() > 1 && batch_jobs {
            event.push(
                OutView::Job(JobView::Paragraph { paragraph_id: id, pcm: paragraph.pcm, sr }),
            )
        } else {
            event
        }
    }
}

/// Turns a closed paragraph into its event and its job: joins its clips once and releases them
/// from the store. A paragraph without sentences vanishes.
pub fn emit_paragraph_edge(
    settled: SettledParagraph,
    store: &mut AudioStore,
    sr: u32,
    batch_jobs: bool,
) -> (r: Vec<LoopOut>)
    requires
        old(store)@.wf(),
        old(store).inv(),
    ensures
        final(store)@.wf(),
        final(store).inv(),
        out_views(r@) == edge_outputs(
            settled.paragraph_id,
            settled.sentences@,
            old(store)@,
            sr,
            batch_jobs,
        ),
        final(store)@ == if settled.sentences@.len() == 0 {
            old(store)@
        } else {
            released(old(store)@, settled.sentences@)
        },
{
    let id: ParagraphId = settled.paragraph_id;
    let several = settled.sentences.len() > 1;
    let ghost expected = edge_outputs(id, settled.sentences@, store@, sr, batch_jobs);
    let mut out: Vec<LoopOut> = Vec::new();
    match consume::emit_paragraph_edge(settled, store, sr) {
        Some(e) => {
            let job = match &e {
                Stage1Event::ParagraphEdge { paragraph, sr: _ } => if several && batch_jobs {
                    Some(
                        BatchJob::Paragraph { paragraph_id: id, pcm: paragraph.pcm.clone(), sr },
                    )
                } else {
                    None
                },
                _ => None,
            };
            out.push(LoopOut::Event(e));
            match job {
                Some(j) => {
                    out.push(LoopOut::Job(j));
                },
                None => {},
            }
        },
        None => {},
    }
    proof {
        assert(out_views(out@) =~= expected);
    }
    out
}

/// One streaming session.
struct Session {
    frames_since_partial: u32,
    last_partial: String,
    last_change_us: i64,
    pcm: Vec<i16>,
}

/// A session as a value.
pub struct SessionState {
    pub frames: int,
    pub partial: Seq<char>,
    pub last_change: int,
    pub pcm: Seq<i16>,
}

impl SessionState {
    /// A session that has heard nothing.
    pub open spec fn fresh(now: int) -> SessionState {
        SessionState { frames: 0, partial: Seq::empty(), last_change: now, pcm: Seq::empty() }
    }
}

impl Session {
    spec fn state(self) -> SessionState {
        SessionState {
            frames: self.frames_since_partial as int,
            partial: self.last_partial@,
            last_change: self.last_change_us as int,
            pcm: self.pcm@,
        }
    }

    fn fresh(now_us: i64) -> (r: Self)
        ensures
            r.state() == SessionState::fresh(now_us as int),
    {
        Session {
            frames_since_partial: 0,
            last_partial: String::new(),
            last_change_us: now_us,
            pcm: Vec::new(),
        }
    }
}

/// The state of the loop.
pub struct SingleLoop {
    tracker: ParagraphTracker,
    /// `None` where no streaming recogniser is configured.
    session: Option<Session>,
    empty_since_us: Option<i64>,
    last_silence_us: i64,
    lead_in: Vec<Vec<i16>>,
    speech_active: bool,
    cur_sentence: SentenceId,
    store: AudioStore,
    sr: u32,
    batch_jobs: bool,
}

/// The state of the loop as a value.
pub struct LoopView {
    pub tracker: TrackState,
    pub session: Option<SessionState>,
    pub empty_since: Option<int>,
    pub last_silence: int,
    pub lead_in: Seq<Vec<i16>>,
    pub speech_active: bool,
    pub cur_sentence: SentenceId,
    pub store: StoreView,
    pub sr: u32,
    pub batch_jobs: bool,
}

/// What a look at the clock came to.
pub struct LoopTick {
    /// What it leads to.
    pub out: Vec<LoopOut>,
    /// The recogniser has to start a new session.
    pub new_session: bool,
    /// The flush request was dealt with.
    pub flush_done: bool,
    /// Someone was speaking.
    pub speaking: bool,
}

/// Where the next frame comes from.
#[derive(Clone, Copy, Debug, PartialEq, Eq, Structural)]
pub enum FrameStep {
    /// From the queue.
    Take,
    /// It is silence, to bring the detector to an end.
    Silence,
    /// From the queue, which is waited for: so many microseconds at most, or without end.
    Wait(Option<u128>),
}

/// What a frame leads to.
pub struct FeedStep {
    /// The frames that the recogniser is given, in this order.
    pub accept: Vec<Vec<i16>>,
    /// The recogniser is asked for a partial then.
    pub decode: bool,
}

impl LoopView {
    /// All parts are well-formed, the kept frames are few, a partial is not overdue, and the clips
    /// of the open sentences have ids that were handed out.
    pub open spec fn wf(self) -> bool {
        &&& self.tracker.wf()
        &&& self.store.wf()
        &&& self.sr > 0
        &&& self.lead_in.len() <= LEAD_IN_FRAMES
        &&& self.session matches Some(s) ==> 0 <= s.frames < PARTIAL_EVERY_FRAMES
        &&& self.tracker.open matches Some(w) ==> clips_known(w.sentences, self.store.next_id)
    }

    /// There is an id for one more clip, and room to count its samples.
    pub open spec fn has_room(self, len: int) -> bool {
        &&& self.store.next_id < u64::MAX
        &&& samples(self.store.clips) + len <= usize::MAX
    }

    /// Is there partial text?
    pub open spec fn speaking(self) -> bool {
        self.session matches Some(s) && s.partial.len() > 0
    }

    /// A new session where there is one at all.
    pub open spec fn renewed(self, now: int) -> Option<SessionState> {
        match self.session {
            Some(_) => Some(SessionState::fresh(now)),
            None => None,
        }
    }

    /// Does a look at the clock close the open paragraph, on request or because it has run out?
    pub open spec fn closes(self, now: int, flush: bool) -> bool {
        ||| flush && !self.speaking() && self.tracker.can_force()
        ||| self.tracker.run_out(now, self.speaking())
    }

    /// Has the partial been standing for too long?
    pub open spec fn stale(self, now: int) -> bool {
        self.speaking() && now - (self.session->0).last_change >= STALE_SESSION_RESET_US
    }

    /// After a look at the clock.
    pub open spec fn ticked(self, now: int, flush: bool) -> LoopView {
        if self.closes(now, flush) {
            LoopView {
                tracker: self.tracker.closed(),
                store: released(self.store, (self.tracker.open->0).sentences),
                session: self.renewed(now),
                ..self
            }
        } else if self.stale(now) {
            LoopView { session: self.renewed(now), ..self }
        } else {
            self
        }
    }

    /// What a look at the clock leads to.
    pub open spec fn tick_outputs(self, now: int, flush: bool) -> Seq<OutView> {
        if self.closes(now, flush) {
            edge_outputs(
                (self.tracker.open->0).id,
                (self.tracker.open->0).sentences,
                self.store,
                self.sr,
                self.batch_jobs,
            )
        } else {
            Seq::empty()
        }
    }

    /// The frames that the recogniser hears with `frame`: at the onset, those kept from before it
    /// as well.
    pub open spec fn heard(self, frame: Vec<i16>) -> Seq<Vec<i16>> {
        if self.speech_active {
            seq![frame]
        } else {
            self.lead_in.push(frame)
        }
    }

    /// Frames since the last partial, once a voiced frame has been heard.
    pub open spec fn frames_now(self) -> int {
        if self.speech_active {
            (self.session->0).frames + 1
        } else {
            1
        }
    }

    /// After a frame.
    pub open spec fn fed(self, frame: Vec<i16>, detected: bool) -> LoopView {
        match self.session {
            None => self,
            Some(s) => if detected {
                LoopView {
                    session: Some(
                        SessionState {
                            frames: if self.frames_now() >= PARTIAL_EVERY_FRAMES {
                                0
                            } else {
                                self.frames_now()
                            },
                            pcm: s.pcm + all_samples(self.heard(frame)),
                            ..s
                        },
                    ),
                    lead_in: if self.speech_active {
                        self.lead_in
                    } else {
                        Seq::empty()
                    },
                    speech_active: true,
                    ..self
                }
            } else {
                LoopView {
                    lead_in: if self.lead_in.len() < LEAD_IN_FRAMES {
                        self.lead_in.push(frame)
                    } else {
                        self.lead_in.push(frame).skip(1)
                    },
                    speech_active: false,
                    ..self
                }
            },
        }
    }

    /// The audio of the sentence that ends now.
    pub open spec fn sentence_audio(self, fallback: Seq<i16>) -> Seq<i16> {
        match self.session {
            Some(s) => s.pcm,
            None => fallback,
        }
    }

    /// The sentence that ends now. Its onset is as long before its end as its audio lasts.
    pub open spec fn finished(self, text: String, end_us: i64, fallback: Seq<i16>) -> VadSentence {
        VadSentence {
            id: self.cur_sentence,
            audio_id: self.store.next_id as u64,
            start_us: sentence_start(
                0,
                end_us as int,
                self.sentence_audio(fallback).len() as int,
                self.sr as int,
            ) as i64,
            end_us,
            streaming_text: text,
            batch_text: None,
        }
    }

    /// After the end of a sentence.
    pub open spec fn with_sentence(
        self,
        text: String,
        end_us: i64,
        fallback: Seq<i16>,
        now: int,
        nanos: u64,
    ) -> LoopView {
        let s = self.finished(text, end_us, fallback);
        let stored = self.store.inserted(self.sentence_audio(fallback));
        LoopView {
            tracker: self.tracker.with_eos(s, nanos),
            session: self.renewed(now),
            store: if self.tracker.gap_closes(s.start_us as int) {
                released(stored, (self.tracker.open->0).sentences)
            } else {
                stored
            },
            ..self
        }
    }

    /// What the end of a sentence leads to: first what the gap closed, then the sentence's
    /// streaming text where it has one, then the sentence with all of its paragraph, and last its
    /// batch pass, so that no result can come before its sentence is known.
    pub open spec fn sentence_outputs(
        self,
        text: String,
        end_us: i64,
        fallback: Seq<i16>,
        nanos: u64,
    ) -> Seq<OutView> {
        let s = self.finished(text, end_us, fallback);
        let stored = self.store.inserted(self.sentence_audio(fallback));
        let open = self.tracker.with_eos(s, nanos).open->0;
        let edge = if self.tracker.gap_closes(s.start_us as int) {
            edge_outputs(
                (self.tracker.open->0).id,
                (self.tracker.open->0).sentences,
                stored,
                self.sr,
                self.batch_jobs,
            )
        } else {
            Seq::empty()
        };
        let fragment = if text@.len() > 0 {
            seq![
                OutView::Event(
                    EventView::Fragment {
                        paragraph_id: open.id,
                        sentence_id: s.id,
                        text: text@,
                        at_us: end_us,
                    },
                ),
            ]
        } else {
            Seq::empty()
        };
        let batch = seq![
            OutView::Event(
                EventView::Batch { paragraph_id: open.id, sentences: open.sentences, sr: self.sr },
            ),
        ];
        let job = if self.batch_jobs {
            seq![
                OutView::Job(
                    JobView::Sentence {
                        paragraph_id: open.id,
                        sentence_id: s.id,
                        pcm: self.sentence_audio(fallback),
                        sr: self.sr,
                    },
                ),
            ]
        } else {
            Seq::empty()
        };
        edge + fragment + batch + job
    }

    /// When the loop has to look at the clock again.
    pub open spec fn wake_after(self, now: int, speaking: bool, flush_pending: bool) -> Option<int> {
        let flush: Option<int> = if flush_pending {
            Some(FLUSH_RETRY_US as int)
        } else {
            None
        };
        let settle: Option<int> = match self.tracker.deadline(now, speaking) {
            Some(d) => Some(
                sooner(
                    flush,
                    if d > FLUSH_RETRY_US {
                        d
                    } else {
                        FLUSH_RETRY_US as int
                    },
                ),
            ),
            None => flush,
        };
        if self.speaking() {
            let stale = Some(
                sooner(settle, at_least_zero(STALE_SESSION_RESET_US - (now - (self.session->0).last_change))),
            );
            match self.empty_since {
                Some(since) => Some(sooner(stale, at_least_zero(STARVED_US - (now - since)))),
                None => stale,
            }
        } else {
            settle
        }
    }

    /// Since when the queue has been empty, where it is at `now`.
    pub open spec fn empty_from(self, now: int) -> int {
        match self.empty_since {
            Some(t) => t,
            None => now,
        }
    }

    /// Is the source gone in the middle of speech?
    pub open spec fn starving(self, now: int) -> bool {
        now - self.empty_from(now) > STARVED_US && self.speaking()
    }
}

/// A wait that is never negative.
pub open spec fn at_least_zero(x: int) -> int {
    if x > 0 {
        x
    } else {
        0
    }
}

fn wait_left(total: i64, now_us: i64, since_us: i64) -> (r: u128)
    ensures
        r == at_least_zero(total - (now_us - since_us)),
{
    let left: i128 = (total as i128) - ((now_us as i128) - (since_us as i128));
    if left > 0 {
        left as u128
    } else {
        0
    }
}

impl View for SingleLoop {
    type V = LoopView;

    closed spec fn view(&self) -> LoopView {
        LoopView {
            tracker: self.tracker@,
            session: match self.session {
                Some(s) => Some(s.state()),
                None => None,
            },
            empty_since: match self.empty_since_us {
                Some(t) => Some(t as int),
                None => None,
            },
            last_silence: self.last_silence_us as int,
            lead_in: self.lead_in@,
            speech_active: self.speech_active,
            cur_sentence: self.cur_sentence,
            store: self.store@,
            sr: self.sr,
            batch_jobs: self.batch_jobs,
        }
    }
}

impl SingleLoop {
    /// The store's running total is right.
    pub closed spec fn inv(&self) -> bool {
        self.store.inv()
    }

    /// A loop that has heard nothing yet.
    pub fn new(
        merge_gap_us: i64,
        cap_samples: usize,
        sr: u32,
        has_stream: bool,
        batch_jobs: bool,
        now_us: i64,
    ) -> (r: Self)
        requires
            sr > 0,
        ensures
            r@.wf(),
            r.inv(),
            r@ == (LoopView {
                tracker: TrackState::initial(merge_gap_us as int),
                session: if has_stream {
                    Some(SessionState::fresh(now_us as int))
                } else {
                    None
                },
                empty_since: None,
                last_silence: now_us as int,
                lead_in: Seq::empty(),
                speech_active: false,
                cur_sentence: 0,
                store: StoreView { clips: Seq::empty(), next_id: 0, cap: cap_samples as int },
                sr,
                batch_jobs,
            }),
    {
        SingleLoop {
            tracker: ParagraphTracker::new(merge_gap_us),
            session: if has_stream {
                Some(Session::fresh(now_us))
            } else {
                None
            },
            empty_since_us: None,
            last_silence_us: now_us,
            lead_in: Vec::new(),
            speech_active: false,
            cur_sentence: 0,
            store: AudioStore::new(cap_samples),
            sr,
            batch_jobs,
        }
    }

    /// Is there room for one more clip of `len` samples?
    pub fn room_for(&self, len: usize) -> (r: bool)
        requires
            self@.wf(),
            self.inv(),
        ensures
            r == self@.has_room(len as int),
    {
        self.store.next_id() < u64::MAX && self.store.total_samples() <= usize::MAX - len
    }

    /// How many samples the sentence under way has, where a streaming session counts them.
    pub fn heard_samples(&self) -> (r: Option<usize>)
        ensures
            match self@.session {
                Some(s) => r == Some(s.pcm.len() as usize) && s.pcm.len() <= usize::MAX,
                None => r is None,
            },
    {
        match &self.session {
            Some(s) => Some(s.pcm.len()),
            None => None,
        }
    }

    /// Is an id left for one more sentence?
    pub fn can_start_sentence(&self) -> (r: bool)
        ensures
            r == (self@.tracker.next_sentence < u64::MAX),
    {
        self.tracker.next_sentence_id() < u64::MAX
    }

    fn has_partial(&self) -> (r: bool)
        ensures
            r == self@.speaking(),
    {
        match &self.session {
            Some(s) => !s.last_partial.as_str().is_empty(),
            None => false,
        }
    }

    fn renew(&mut self, now_us: i64)
        ensures
            final(self)@ == (LoopView { session: old(self)@.renewed(now_us as int), ..old(self)@ }),
            final(self).inv() == old(self).inv(),
    {
        if self.session.is_some() {
            self.session = Some(Session::fresh(now_us));
        }
    }

    /// The time-driven checks of one turn: an explicit flush, the merge gap, the stale session.
    pub fn tick(&mut self, now_us: i64, flush: bool) -> (r: LoopTick)
        requires
            old(self)@.wf(),
            old(self).inv(),
        ensures
            final(self)@.wf(),
            final(self).inv(),
            final(self)@ == old(self)@.ticked(now_us as int, flush),
            out_views(r.out@) == old(self)@.tick_outputs(now_us as int, flush),
            r.new_session == ((old(self)@.closes(now_us as int, flush) || old(self)@.stale(
                now_us as int,
            )) && old(self)@.session is Some),
            r.speaking == old(self)@.speaking(),
            r.flush_done == (flush && !old(self)@.speaking() && (old(self)@.tracker.can_force()
                || old(self)@.tracker.open is None)),
    {
        let speaking = self.has_partial();
        let mut out: Vec<LoopOut> = Vec::new();
        let mut flush_done = false;
        let mut renewed = false;
        let ghost before = self@;
        if flush && !speaking {
            match self.tracker.force_settle() {
                Some(settled) => {
                    flush_done = true;
                    out = emit_paragraph_edge(settled, &mut self.store, self.sr, self.batch_jobs);
                    self.renew(now_us);
                    renewed = true;
                },
                None => {
                    if !self.tracker.has_open_paragraph() {
                        flush_done = true;
                    }
                },
            }
        }
        match self.tracker.check_settle(now_us, speaking) {
            Some(settled) => {
                out = emit_paragraph_edge(settled, &mut self.store, self.sr, self.batch_jobs);
                self.renew(now_us);
                renewed = true;
            },
            None => {},
        }
        let stale = match &self.session {
            Some(s) => !s.last_partial.as_str().is_empty() && (now_us as i128) - (
            s.last_change_us as i128) >= STALE_SESSION_RESET_US as i128,
            None => false,
        };
        if stale {
            self.renew(now_us);
            renewed = true;
        }
        proof {
            if !before.closes(now_us as int, flush) {
                assert(out_views(out@) =~= Seq::empty());
            }
        }
        LoopTick { out, new_session: renewed && self.session.is_some(), flush_done, speaking }
    }

    /// How long to wait for audio at most before the next look at the clock; `None` where
    /// nothing is due.
    pub fn next_wake_at(&self, now_us: i64, speaking: bool, flush_pending: bool) -> (r: Option<u128>)
        ensures
            match r {
                Some(d) => self@.wake_after(now_us as int, speaking, flush_pending) == Some(
                    d as int,
                ),
                None => self@.wake_after(now_us as int, speaking, flush_pending) is None,
            },
    {
        let mut wake: Option<u128> = None;
        if flush_pending {
            wake = Some(FLUSH_RETRY_US as u128);
        }
        match self.tracker.settle_deadline(now_us, speaking) {
            Some(d) => {
                let d: u128 = if d > FLUSH_RETRY_US as i128 {
                    d as u128
                } else {
                    FLUSH_RETRY_US as u128
                };
                wake = Some(earlier_of(wake, d));
            },
            None => {},
        }
        match &self.session {
            Some(s) => {
                if !s.last_partial.as_str().is_empty() {
                    let d: u128 = wait_left(STALE_SESSION_RESET_US, now_us, s.last_change_us);
                    wake = Some(earlier_of(wake, d));
                    match self.empty_since_us {
                        Some(since) => {
                            let d: u128 = wait_left(STARVED_US, now_us, since);
                            wake = Some(earlier_of(wake, d));
                        },
                        None => {},
                    }
                }
            },
            None => {},
        }
        wake
    }

    /// Where the next frame comes from. A queue that is empty is waited for; once the source has
    /// been gone for long enough in the middle of speech, silence is fed now and again.
    pub fn drain_frame(&mut self, has_frame: bool, now_us: i64, wake_at: Option<u128>) -> (r: FrameStep)
        requires
            old(self)@.wf(),
            old(self).inv(),
        ensures
            final(self)@.wf(),
            final(self).inv(),
            has_frame ==> r == FrameStep::Take && final(self)@ == (LoopView {
                empty_since: None,
                ..old(self)@
            }),
            !has_frame ==> {
                let from = old(self)@.empty_from(now_us as int);
                let silent = old(self)@.starving(now_us as int) && now_us - old(self)@.last_silence
                    >= SILENCE_EVERY_US;
                &&& final(self)@ == (LoopView {
                    empty_since: Some(from),
                    last_silence: if silent {
                        now_us as int
                    } else {
                        old(self)@.last_silence
                    },
                    ..old(self)@
                })
                &&& r == if silent {
                    FrameStep::Silence
                } else if old(self)@.starving(now_us as int) {
                    FrameStep::Wait(Some(SILENCE_EVERY_US as u128))
                } else {
                    FrameStep::Wait(wake_at)
                }
            },
    {
        if has_frame {
            self.empty_since_us = None;
            return FrameStep::Take;
        }
        let since: i64 = match self.empty_since_us {
            Some(t) => t,
            None => now_us,
        };
        self.empty_since_us = Some(since);
        if (now_us as i128) - (since as i128) > STARVED_US as i128 && self.has_partial() {
            if (now_us as i128) - (self.last_silence_us as i128) >= SILENCE_EVERY_US as i128 {
                self.last_silence_us = now_us;
                FrameStep::Silence
            } else {
                FrameStep::Wait(Some(SILENCE_EVERY_US as u128))
            }
        } else {
            FrameStep::Wait(wake_at)
        }
    }

    /// The wait is over; where a frame came, the queue is not empty any more.
    pub fn on_waited(&mut self, got_frame: bool)
        requires
            old(self)@.wf(),
            old(self).inv(),
        ensures
            final(self)@.wf(),
            final(self).inv(),
            final(self)@ == (LoopView {
                empty_since: if got_frame {
                    None
                } else {
                    old(self)@.empty_since
                },
                ..old(self)@
            }),
    {
        if got_frame {
            self.empty_since_us = None;
        }
    }

    /// A frame, and whether the detector hears speech in it. Voiced frames go to the recogniser,
    /// at the onset after those kept from before it; others are kept for the next onset. The
    /// session notes exactly what the recogniser hears.
    pub fn feed_streaming(&mut self, frame: Vec<i16>, detected: bool) -> (r: FeedStep)
        requires
            old(self)@.wf(),
            old(self).inv(),
        ensures
            final(self)@.wf(),
            final(self).inv(),
            final(self)@ == old(self)@.fed(frame, detected),
            r.accept@ == if old(self)@.session is Some && detected {
                old(self)@.heard(frame)
            } else {
                Seq::empty()
            },
            r.decode == (old(self)@.session is Some && detected && old(self)@.frames_now()
                >= PARTIAL_EVERY_FRAMES),
    {
        let mut accept: Vec<Vec<i16>> = Vec::new();
        let mut decode = false;
        let ghost before = self@;
        match self.session.take() {
            Some(mut s) => {
                if detected {
                    if !self.speech_active {
                        accept.append(&mut self.lead_in);
                        s.frames_since_partial = 0;
                        proof {
                            assert(accept@ =~= before.lead_in);
                            assert(self.lead_in@ =~= Seq::empty());
                        }
                    }
                    accept.push(frame);
                    proof {
                        assert(accept@ =~= before.heard(frame));
                    }
                    let mut i: usize = 0;
                    while i < accept.len()
                        invariant
                            0 <= i <= accept.len(),
                            before.session is Some,
                            s.pcm@ == (before.session->0).pcm + all_samples(
                                accept@.take(i as int),
                            ),
                            s.last_partial@ == (before.session->0).partial,
                            s.last_change_us == (before.session->0).last_change,
                            s.frames_since_partial == if before.speech_active {
                                (before.session->0).frames
                            } else {
                                0
                            },
                        decreases accept.len() - i,
                    {
                        proof {
                            assert(accept@.take(i + 1).drop_last() =~= accept@.take(i as int));
                        }
                        s.pcm.extend_from_slice(accept[i].as_slice());
                        proof {
                            assert(s.pcm@ =~= (before.session->0).pcm + all_samples(
                                accept@.take(i + 1),
                            ));
                        }
                        i = i + 1;
                    }
                    proof {
                        assert(accept@.take(accept@.len() as int) =~= accept@);
                    }
                    s.frames_since_partial = s.frames_since_partial + 1;
                    if s.frames_since_partial >= PARTIAL_EVERY_FRAMES {
                        decode = true;
                        s.frames_since_partial = 0;
                    }
                } else {
                    self.lead_in.push(frame);
                    if self.lead_in.len() > LEAD_IN_FRAMES {
                        let _ = self.lead_in.remove(0);
                        proof {
                            assert(self.lead_in@ =~= before.lead_in.push(frame).skip(1));
                        }
                    }
                }
                self.speech_active = detected;
                self.session = Some(s);
            },
            None => {},
        }
        FeedStep { accept, decode }
    }

    /// The recogniser's partial. One that is not empty and new is reported under the ids that are
    /// announced for the sentence being spoken.
    pub fn on_partial(&mut self, partial: String, at_us: i64, now_us: i64) -> (r: Option<Stage1Event>)
        requires
            old(self)@.wf(),
            old(self).inv(),
        ensures
            final(self)@.wf(),
            final(self).inv(),
            ({
                let news = old(self)@.session is Some && partial@.len() > 0 && partial@ != (
                old(self)@.session->0).partial;
                &&& news == old(self)@.news(partial@)
                &&& final(self)@ == old(self)@.with_partial(partial@, now_us as int)
                &&& r is Some == news
                &&& !news ==> final(self)@ == old(self)@
                &&& news ==> final(self)@ == (LoopView {
                    session: Some(
                        SessionState {
                            partial: partial@,
                            last_change: now_us as int,
                            ..old(self)@.session->0
                        },
                    ),
                    ..old(self)@
                }) && (r->0)@ == (EventView::Fragment {
                    paragraph_id: old(self)@.tracker.next_ids().0,
                    sentence_id: old(self)@.tracker.next_ids().1 as u64,
                    text: partial@,
                    at_us,
                })
            }),
    {
        let ghost before = self@;
        match self.session.take() {
            Some(mut s) => {
                if partial.as_str().is_empty() || same(partial.as_str(), s.last_partial.as_str()) {
                    self.session = Some(s);
                    proof {
                        assert(self@ == before);
                    }
                    None
                } else {
                    s.last_partial = partial.clone();
                    s.last_change_us = now_us;
                    self.session = Some(s);
                    let (paragraph_id, sentence_id) = self.tracker.prospective();
                    Some(
                        Stage1Event::StreamFragment { paragraph_id, sentence_id, text: partial, at_us },
                    )
                }
            },
            None => None,
        }
    }

    /// A start of speech, the clock standing at `nanos` within its second.
    pub fn on_sos_at(&mut self, nanos: u64)
        requires
            old(self)@.wf(),
            old(self).inv(),
            old(self)@.tracker.next_sentence < u64::MAX,
        ensures
            final(self)@.wf(),
            final(self).inv(),
            final(self)@ == (LoopView {
                tracker: old(self)@.tracker.with_sos(nanos),
                cur_sentence: old(self)@.tracker.next_sentence as u64,
                ..old(self)@
            }),
    {
        self.cur_sentence = self.tracker.on_sos_at(nanos);
    }

    /// A start of speech.
    pub fn on_sos(&mut self)
        requires
            old(self)@.wf(),
            old(self).inv(),
            old(self)@.tracker.next_sentence < u64::MAX,
        ensures
            final(self)@.wf(),
            final(self).inv(),
            exists|nanos: u64|
                final(self)@ == (LoopView {
                    tracker: #[trigger] old(self)@.tracker.with_sos(nanos),
                    cur_sentence: old(self)@.tracker.next_sentence as u64,
                    ..old(self)@
                }),
    {
        let nanos: u64 = crate::clock::subsec_nanos();
        self.on_sos_at(nanos);
    }

    /// The end of a sentence, the clock standing at `nanos` within its second. `text` is what the
    /// recogniser makes of the session, empty where there is none; `fallback_pcm` is the audio as
    /// the detector cut it. A sentence without text is kept: the batch pass may hear more.
    pub fn finalize_sentence_at(
        &mut self,
        text: String,
        end_us: i64,
        fallback_pcm: Vec<i16>,
        now_us: i64,
        nanos: u64,
    ) -> (r: Vec<LoopOut>)
        requires
            old(self)@.wf(),
            old(self).inv(),
            old(self)@.has_room(old(self)@.sentence_audio(fallback_pcm@).len() as int),
        ensures
            final(self)@.wf(),
            final(self).inv(),
            final(self)@ == old(self)@.with_sentence(
                text,
                end_us,
                fallback_pcm@,
                now_us as int,
                nanos,
            ),
            out_views(r@) == old(self)@.sentence_outputs(text, end_us, fallback_pcm@, nanos),
    {
        let ghost before = self@;
        let ghost fallback = fallback_pcm@;
        let had_session = self.session.is_some();
        let heard: Vec<i16> = match self.session.take() {
            Some(s) => s.pcm,
            None => fallback_pcm,
        };
        if had_session {
            self.session = Some(Session::fresh(now_us));
        }
        let start_us: i64 = start_of(0, end_us, heard.len(), self.sr);
        let pcm = Arc::new(heard);
        let audio_id: AudioId = self.store.insert(pcm.clone());
        let has_text = !text.as_str().is_empty();
        let fragment_text = text.clone();
        let sentence_id: SentenceId = self.cur_sentence;
        let sentence = VadSentence {
            id: sentence_id,
            audio_id,
            start_us,
            end_us,
            streaming_text: text,
            batch_text: None,
        };
        proof {
            assert(sentence == before.finished(text, end_us, fallback));
        }
        let (settled, paragraph_id, sentences) = self.tracker.on_eos_at(sentence, nanos);
        let mut out: Vec<LoopOut> = match settled {
            Some(p) => emit_paragraph_edge(p, &mut self.store, self.sr, self.batch_jobs),
            None => Vec::new(),
        };
        if has_text {
            out.push(
                LoopOut::Event(
                    Stage1Event::StreamFragment {
                        paragraph_id,
                        sentence_id,
                        text: fragment_text,
                        at_us: end_us,
                    },
                ),
            );
        }
        out.push(LoopOut::Event(Stage1Event::Batch { paragraph_id, sentences, sr: self.sr }));
        if self.batch_jobs {
            out.push(
                LoopOut::Job(BatchJob::Sentence { paragraph_id, sentence_id, pcm, sr: self.sr }),
            );
        }
        proof {
            assert(out_views(out@) =~= before.sentence_outputs(text, end_us, fallback, nanos));
        }
        out
    }

    /// The end of a sentence.
    pub fn finalize_sentence(
        &mut self,
        text: String,
        end_us: i64,
        fallback_pcm: Vec<i16>,
        now_us: i64,
    ) -> (r: Vec<LoopOut>)
        requires
            old(self)@.wf(),
            old(self).inv(),
            old(self)@.has_room(old(self)@.sentence_audio(fallback_pcm@).len() as int),
        ensures
            final(self)@.wf(),
            final(self).inv(),
            exists|nanos: u64|
                {
                    &&& final(self)@ == #[trigger] old(self)@.with_sentence(
                        text,
                        end_us,
                        fallback_pcm@,
                        now_us as int,
                        nanos,
                    )
                    &&& out_views(r@) == old(self)@.sentence_outputs(
                        text,
                        end_us,
                        fallback_pcm@,
                        nanos,
                    )
                },
    {
        let nanos: u64 = crate::clock::subsec_nanos();
        self.finalize_sentence_at(text, end_us, fallback_pcm, now_us, nanos)
    }
}

/// Law: while someone speaks, a look at the clock closes nothing and releases nothing, not even
/// on request.
pub proof fn law_speech_holds_the_loop(v: LoopView, now: int, flush: bool)
    requires
        v.speaking(),
    ensures
        !v.closes(now, flush),
        v.ticked(now, flush).tracker == v.tracker,
        v.ticked(now, flush).store == v.store,
{
}

/// Law: a closed paragraph of several sentences is passed over once, after its event and with all
/// of its audio; one of a single sentence is not.
pub proof fn law_one_pass_for_each_paragraph(
    id: ParagraphId,
    sentences: Seq<VadSentence>,
    store: StoreView,
    sr: u32,
)
    requires
        sentences.len() > 0,
    ensures
        edge_outputs(id, sentences, store, sr, true)[0] is Event,
        sentences.len() == 1 ==> edge_outputs(id, sentences, store, sr, true).len() == 1,
        sentences.len() > 1 ==> {
            let out = edge_outputs(id, sentences, store, sr, true);
            &&& out.len() == 2
            &&& out[1] == OutView::Job(
                JobView::Paragraph {
                    paragraph_id: id,
                    pcm: closed_paragraph(id, sentences, store).pcm,
                    sr,
                },
            )
        },
{
}

/// Law: every sentence is passed over once, with exactly the audio that the streaming session
/// heard, and only after it was reported.
pub proof fn law_one_pass_for_each_sentence(
    v: LoopView,
    text: String,
    end_us: i64,
    fallback: Seq<i16>,
    nanos: u64,
)
    requires
        v.batch_jobs,
        v.session is Some,
    ensures
        ({
            let out = v.sentence_outputs(text, end_us, fallback, nanos);
            &&& out.len() >= 2
            &&& out[out.len() - 2] matches OutView::Event(EventView::Batch { .. })
            &&& out.last() matches OutView::Job(JobView::Sentence { sentence_id, pcm, .. })
            &&& sentence_id == v.cur_sentence
            &&& pcm == (v.session->0).pcm
        }),
{
}

/// Law: the clip of a sentence is there once the sentence is reported, even where the gap before
/// it closes a paragraph and releases its clips, as long as the clip alone fits the store.
pub proof fn law_a_new_clip_outlives_the_closing(
    v: LoopView,
    text: String,
    end_us: i64,
    fallback: Seq<i16>,
    now: int,
    nanos: u64,
)
    requires
        v.wf(),
        v.has_room(v.sentence_audio(fallback).len() as int),
        v.sentence_audio(fallback).len() <= v.store.cap,
    ensures
        audio_of(
            v.with_sentence(text, end_us, fallback, now, nanos).store.clips,
            v.finished(text, end_us, fallback).audio_id,
        ) == v.sentence_audio(fallback),
{
    let s = v.finished(text, end_us, fallback);
    let pcm = v.sentence_audio(fallback);
    law_stored_clip_reads_back(v.store, pcm);
    if v.tracker.gap_closes(s.start_us as int) {
        let gone = (v.tracker.open->0).sentences;
        law_evict_forgets_exactly(v.store.inserted(pcm), audio_ids(gone), s.audio_id);
        assert(!audio_ids(gone).contains(s.audio_id)) by {
            if audio_ids(gone).contains(s.audio_id) {
                let k = choose|k: int|
                    0 <= k < audio_ids(gone).len() && audio_ids(gone)[k] == s.audio_id;
                assert(gone[k].audio_id < v.store.next_id);
            }
        }
    }
}

impl LoopView {
    /// Is a partial text worth telling?
    pub open spec fn news(self, partial: Seq<char>) -> bool {
        self.session matches Some(s) && partial.len() > 0 && partial != s.partial
    }

    /// After a partial text.
    pub open spec fn with_partial(self, partial: Seq<char>, now: int) -> LoopView {
        if self.news(partial) {
            LoopView {
                session: Some(SessionState { partial, last_change: now, ..self.session->0 }),
                ..self
            }
        } else {
            self
        }
    }
}

/// Law: a partial text is told once: the same text again is no news, and neither is an empty one,
/// which leaves the text before it standing; while a text stands someone is speaking.
pub proof fn law_partials_are_told_once(v: LoopView, t: Seq<char>, now: int, later: int)
    requires
        v.session is Some,
    ensures
        t.len() > 0 ==> !v.with_partial(t, now).news(t),
        t.len() > 0 ==> v.with_partial(t, now).speaking(),
        t.len() == 0 ==> !v.news(t) && v.with_partial(t, now) == v,
        t.len() > 0 ==> v.with_partial(t, now).with_partial(t, later) == v.with_partial(t, now),
        v.news(t) ==> !v.with_partial(t, now).stale(now),
{
}

/// Law: quiet is counted from the last words. Where nobody speaks, no sentence is under way and
/// nothing is asked for, the paragraph is closed exactly if the merge gap has passed since the end
/// of its last sentence.
pub proof fn law_quiet_is_counted_from_the_last_words(v: LoopView, now: int)
    requires
        v.tracker.open matches Some(w) && w.sentences.len() > 0 && !w.active,
        !v.speaking(),
    ensures
        ({
            let said = (v.tracker.open->0).sentences;
            let quiet = now - said[said.len() - 1].end_us;
            &&& v.closes(now, false) <==> quiet >= v.tracker.merge_gap
            &&& quiet < v.tracker.merge_gap ==> v.ticked(now, false) == v && v.tick_outputs(
                now,
                false,
            ).len() == 0
            &&& quiet >= v.tracker.merge_gap ==> v.ticked(now, false).tracker.open is None
                && v.tick_outputs(now, false).len() > 0
        }),
{
}

/// Law: what closes a paragraph tells all of it: the paragraph with its sentences, and its whole
/// audio for the pass over it.
pub proof fn law_a_closed_paragraph_is_told_whole(
    id: ParagraphId,
    sentences: Seq<VadSentence>,
    store: StoreView,
    sr: u32,
    batch_jobs: bool,
)
    requires
        sentences.len() > 0,
    ensures
        ({
            let out = edge_outputs(id, sentences, store, sr, batch_jobs);
            &&& out[0] matches OutView::Event(EventView::Edge { paragraph, sr: rate })
            &&& rate == sr
            &&& paragraph.id == id
            &&& paragraph.sentences == sentences
            &&& paragraph.start_us == sentences[0].start_us
            &&& paragraph.end_us == sentences[sentences.len() - 1].end_us
            &&& out.len() == (if sentences.len() > 1 && batch_jobs {
                2int
            } else {
                1int
            })
            &&& out.len() == 2 ==> out[1] == OutView::Job(
                JobView::Paragraph { paragraph_id: id, pcm: paragraph.pcm, sr },
            )
        }),
{
}

/// The loop after some frames, each with speech in it or not.
pub open spec fn fed_all(v: LoopView, frames: Seq<(Vec<i16>, bool)>) -> LoopView
    decreases frames.len(),
{
    if frames.len() == 0 {
        v
    } else {
        fed_all(v, frames.drop_last()).fed(frames.last().0, frames.last().1)
    }
}

/// Law: what is kept from before speech are the last frames without it, sixteen at most, in the
/// order in which they came; the recogniser hears none of them yet.
pub proof fn law_the_last_quiet_frames_are_kept(v: LoopView, frames: Seq<(Vec<i16>, bool)>)
    requires
        v.session is Some,
        v.lead_in.len() == 0,
        forall|i: int| 0 <= i < frames.len() ==> !(#[trigger] frames[i]).1,
    ensures
        ({
            let w = fed_all(v, frames);
            let kept = w.lead_in;
            &&& w.session == v.session
            &&& kept.len() == if frames.len() > 16 {
                16int
            } else {
                frames.len() as int
            }
            &&& forall|i: int|
                0 <= i < kept.len() ==> #[trigger] kept[i] == frames[frames.len() - kept.len() + i].0
        }),
    decreases frames.len(),
{
    if frames.len() > 0 {
        let rest = frames.drop_last();
        assert forall|i: int| 0 <= i < rest.len() implies !(#[trigger] rest[i]).1 by {
            assert(rest[i] == frames[i]);
        }
        law_the_last_quiet_frames_are_kept(v, rest);
        let before = fed_all(v, rest);
        let w = fed_all(v, frames);
        assert(!frames[frames.len() - 1].1);
        assert forall|i: int| 0 <= i < w.lead_in.len() implies #[trigger] w.lead_in[i]
            == frames[frames.len() - w.lead_in.len() + i].0 by {
            if i < w.lead_in.len() - 1 {
                let k = if before.lead_in.len() < 16 {
                    i
                } else {
                    i + 1
                };
                assert(w.lead_in[i] == before.lead_in[k]);
            }
        }
    }
}

/// Law: where speech sets in, the recogniser first hears what was kept from before it, then the
/// frame, and nothing is kept any more; while it lasts, it hears each frame once.
pub proof fn law_speech_is_heard_with_its_lead_in(v: LoopView, frame: Vec<i16>)
    requires
        v.session is Some,
    ensures
        ({
            let w = v.fed(frame, true);
            &&& w.session matches Some(s)
            &&& w.speech_active
            &&& v.speech_active ==> s.pcm == (v.session->0).pcm + frame@ && w.lead_in == v.lead_in
            &&& !v.speech_active ==> s.pcm == (v.session->0).pcm + all_samples(v.lead_in) + frame@
                && w.lead_in.len() == 0
            &&& s.partial == (v.session->0).partial
            &&& s.last_change == (v.session->0).last_change
        }),
        ({
            let w = v.fed(frame, false);
            w.session == v.session && !w.speech_active
        }),
        (LoopView { session: None, ..v }).fed(frame, true) == (LoopView { session: None, ..v }),
{
    let one = seq![frame];
    assert(one.drop_last() =~= Seq::<Vec<i16>>::empty());
    assert(all_samples(Seq::<Vec<i16>>::empty()) =~= Seq::<i16>::empty());
    assert(all_samples(one) =~= frame@);
    let all = v.lead_in.push(frame);
    assert(all.drop_last() =~= v.lead_in);
    let before = (v.session->0).pcm;
    assert(before + (all_samples(v.lead_in) + frame@) =~= before + all_samples(v.lead_in) + frame@);
}

/// Law: while speech lasts, a partial is decoded on every fifteenth of its frames, counted from its
/// onset.
pub proof fn law_partials_come_every_fifteen_frames(v: LoopView, frames: Seq<(Vec<i16>, bool)>)
    requires
        v.session is Some,
        !v.speech_active,
        frames.len() > 0,
        forall|i: int| 0 <= i < frames.len() ==> (#[trigger] frames[i]).1,
    ensures
        ({
            let before = fed_all(v, frames.drop_last());
            &&& before.frames_now() >= 15 <==> frames.len() % 15 == 0
            &&& fed_all(v, frames).session matches Some(s) && s.frames == frames.len() % 15
            &&& fed_all(v, frames).speech_active
        }),
    decreases frames.len(),
{
    let rest = frames.drop_last();
    assert(frames[frames.len() - 1].1);
    if rest.len() > 0 {
        assert forall|i: int| 0 <= i < rest.len() implies (#[trigger] rest[i]).1 by {
            assert(rest[i] == frames[i]);
        }
        law_partials_come_every_fifteen_frames(v, rest);
        let n = rest.len() as int;
        assert((n + 1) % 15 == (if n % 15 == 14 {
            0
        } else {
            n % 15 + 1
        }));
    } else {
        assert(fed_all(v, rest) == v);
    }
}

/// Law: a sentence is what was heard and said: it ends when it ended, begins as long before as its
/// audio lasts, and its audio is what the session heard, or the detector's where there is none.
pub proof fn law_a_sentence_is_what_was_heard(
    v: LoopView,
    text: String,
    end_us: i64,
    fallback: Seq<i16>,
)
    requires
        v.wf(),
    ensures
        ({
            let s = v.finished(text, end_us, fallback);
            let pcm = v.sentence_audio(fallback);
            let lasts = pcm.len() as int * 1_000_000 / v.sr as int;
            &&& s.id == v.cur_sentence
            &&& s.end_us == end_us
            &&& s.streaming_text == text
            &&& s.batch_text is None
            &&& v.session matches Some(heard) ==> pcm == heard.pcm
            &&& v.session is None ==> pcm == fallback
            &&& lasts <= end_us ==> s.start_us == end_us - lasts
            &&& lasts > end_us ==> s.start_us == 0
        }),
{
    let n = v.sentence_audio(fallback).len() as int;
    let sr = v.sr as int;
    assert(n * 1_000_000 / sr >= 0) by (nonlinear_arith)
        requires
            n >= 0,
            sr > 0,
    ;
}

/// Law: after a sentence the session starts over, and the sentence is the last of the open
/// paragraph.
pub proof fn law_a_sentence_is_the_last_of_its_paragraph(
    v: LoopView,
    text: String,
    end_us: i64,
    fallback: Seq<i16>,
    now: int,
    nanos: u64,
)
    ensures
        ({
            let w = v.with_sentence(text, end_us, fallback, now, nanos);
            &&& w.tracker.open matches Some(o)
            &&& o.sentences.len() > 0
            &&& o.sentences[o.sentences.len() - 1] == v.finished(text, end_us, fallback)
            &&& !o.active
            &&& !w.speaking()
            &&& v.session is Some ==> (w.session matches Some(s) && s.pcm.len() == 0 && s.frames == 0
                && s.last_change == now)
            &&& v.session is None ==> w.session is None
        }),
{
}

/// Law: live text that has not changed for eight seconds is given up, and nothing else with it.
pub proof fn law_stale_text_is_given_up(v: LoopView, now: int)
    requires
        v.speaking(),
    ensures
        now - (v.session->0).last_change >= 8_000_000 ==> !v.ticked(now, false).speaking()
            && v.ticked(now, false).tracker == v.tracker,
        now - (v.session->0).last_change < 8_000_000 ==> v.ticked(now, false) == v,
{
}

/// Law: the source starves a speaker exactly if nothing has come for more than two seconds while
/// there is live text.
pub proof fn law_starving_takes_two_seconds(v: LoopView, now: int)
    ensures
        v.starving(now) <==> v.speaking() && (v.empty_since matches Some(t) && now - t > 2_000_000),
{
}

/// Law: the next wake-up is no later than anything that is due, and is one of those times.
pub proof fn law_the_next_wake_up_misses_nothing(
    v: LoopView,
    now: int,
    speaking: bool,
    flush_pending: bool,
)
    ensures
        ({
            let w = v.wake_after(now, speaking, flush_pending);
            let d = v.tracker.deadline(now, speaking);
            &&& flush_pending ==> (w matches Some(x) && x <= 50_000)
            &&& v.speaking() ==> (w matches Some(x) && (x <= 0 || x <= 8_000_000 - (now - (
            v.session->0).last_change)))
            &&& v.speaking() && v.empty_since is Some ==> (w matches Some(x) && (x <= 0 || x
                <= 2_000_000 - (now - v.empty_since->0)))
            &&& d matches Some(y) ==> (w matches Some(x) && (x <= y || x <= 50_000))
            &&& !flush_pending && !v.speaking() ==> (w is Some <==> d is Some)
            &&& w matches Some(x) ==> {
                ||| flush_pending && x == 50_000
                ||| v.speaking() && (x == 0 || x == 8_000_000 - (now - (v.session->0).last_change))
                ||| v.speaking() && v.empty_since is Some && x == 2_000_000 - (now
                    - v.empty_since->0)
                ||| d is Some && (x == 50_000 || x == d->0)
            }
        }),
{
}

/// Law: what the loop puts out is seen one for one, in its order.
pub proof fn law_outputs_are_seen_as_they_are(v: Seq<LoopOut>, i: int)
    requires
        0 <= i < v.len(),
    ensures
        out_views(v).len() == v.len(),
        v[i] matches LoopOut::Event(e) ==> out_views(v)[i] == OutView::Event(e@),
        v[i] matches LoopOut::Job(j) ==> out_views(v)[i] == OutView::Job(j@),
{
}

/// Law: the recogniser is given the frames of speech, after what was kept where it sets in, and is
/// asked for a partial on every fifteenth; a quiet frame it is not given.
pub proof fn law_the_recogniser_is_given_the_speech(
    l: &mut SingleLoop,
    frame: Vec<i16>,
    detected: bool,
    r: FeedStep,
)
    requires
        call_ensures(SingleLoop::feed_streaming, (l, frame, detected), r),
        old(l)@.session is Some,
    ensures
        !detected ==> r.accept@.len() == 0 && !r.decode && final(l)@.session == old(l)@.session,
        detected && old(l)@.speech_active ==> r.accept@ == seq![frame],
        detected && !old(l)@.speech_active ==> r.accept@ == old(l)@.lead_in.push(frame),
        detected && old(l)@.speech_active ==> (r.decode <==> (old(l)@.session->0).frames + 1 >= 15),
        detected && !old(l)@.speech_active ==> !r.decode,
{
}

/// Law: what is waiting is taken; a speaker whom the source starves is fed silence, ten times a
/// second at most, and otherwise the loop waits.
pub proof fn law_a_starved_speaker_is_fed_silence(
    l: &mut SingleLoop,
    has_frame: bool,
    now: i64,
    wake_at: Option<u128>,
    r: FrameStep,
)
    requires
        call_ensures(SingleLoop::drain_frame, (l, has_frame, now, wake_at), r),
    ensures
        r == FrameStep::Take <==> has_frame,
        has_frame ==> final(l)@.empty_since is None,
        !has_frame ==> (r == FrameStep::Silence <==> old(l)@.starving(now as int) && now
            - old(l)@.last_silence >= 100_000),
        r == FrameStep::Silence ==> final(l)@.last_silence == now,
        !has_frame && !old(l)@.starving(now as int) ==> r == FrameStep::Wait(wake_at),
        !has_frame && old(l)@.empty_since is None ==> final(l)@.empty_since == Some(now as int),
        !has_frame && old(l)@.empty_since is Some ==> final(l)@.empty_since == old(l)@.empty_since,
{
}

/// Law: a partial text is told as it came, under the ids its sentence will have.
pub proof fn law_a_partial_is_told_under_its_ids(
    l: &mut SingleLoop,
    partial: String,
    at_us: i64,
    now: i64,
    r: Option<Stage1Event>,
)
    requires
        call_ensures(SingleLoop::on_partial, (l, partial, at_us, now), r),
        old(l)@.session is Some,
        old(l)@.tracker.open is Some,
    ensures
        r is Some <==> partial@.len() > 0 && partial@ != (old(l)@.session->0).partial,
        r matches Some(e) ==> (e@ matches EventView::Fragment {
            paragraph_id,
            text,
            at_us: at,
            ..
        } && paragraph_id == (old(l)@.tracker.open->0).id && text == partial@ && at == at_us),
        r is Some ==> final(l)@.speaking(),
{
}

/// Law: a request to close is dealt with exactly if there is no live text and there is either a
/// paragraph to close or none at all; the recogniser starts over where a paragraph was closed or the
/// text went stale.
pub proof fn law_a_request_is_dealt_with_in_silence(
    l: &mut SingleLoop,
    now: i64,
    flush: bool,
    r: LoopTick,
)
    requires
        call_ensures(SingleLoop::tick, (l, now, flush), r),
        old(l)@.session is Some,
    ensures
        r.speaking <==> (old(l)@.session->0).partial.len() > 0,
        r.flush_done <==> flush && !r.speaking && (old(l)@.tracker.open is None || (
        old(l)@.tracker.open matches Some(w) && w.sentences.len() > 0 && !w.active)),
        r.flush_done && old(l)@.tracker.open is Some ==> final(l)@.tracker.open is None && r.out@.len()
            > 0,
        r.speaking ==> r.out@.len() == 0 && (r.new_session <==> now - (
        old(l)@.session->0).last_change >= 8_000_000),
        r.out@.len() > 0 ==> r.new_session && final(l)@.tracker.open is None,
{
    assert(out_views(r.out@).len() == r.out@.len());
}

/// Law: a sentence that starts has the next number.
pub proof fn law_a_started_sentence_has_the_next_number(l: &mut SingleLoop, nanos: u64)
    requires
        call_ensures(SingleLoop::on_sos_at, (l, nanos), ()),
    ensures
        final(l)@.cur_sentence == old(l)@.tracker.next_sentence,
        final(l)@.tracker.next_sentence == old(l)@.tracker.next_sentence + 1,
        final(l)@.tracker.open matches Some(w) && w.active,
        final(l)@.store == old(l)@.store,
{
}

/// Law: closing a paragraph lets its audio go, and only that, whether the clock or a gap closes it;
/// the audio of a new sentence is taken in either way.
pub proof fn law_closing_lets_the_audio_go(
    v: LoopView,
    text: String,
    end_us: i64,
    fallback: Seq<i16>,
    now: int,
    flush: bool,
    nanos: u64,
    id: AudioId,
)
    requires
        v.tracker.open matches Some(w) && w.sentences.len() > 0,
    ensures
        ({
            let said = (v.tracker.open->0).sentences;
            let ids = Seq::new(said.len(), |i: int| said[i].audio_id);
            let held = v.ticked(now, flush).store.clips;
            &&& v.closes(now, flush) ==> audio_of(held, id) == (if ids.contains(id) {
                Seq::<i16>::empty()
            } else {
                audio_of(v.store.clips, id)
            })
            &&& !v.closes(now, flush) ==> held == v.store.clips
        }),
        ({
            let said = (v.tracker.open->0).sentences;
            let ids = Seq::new(said.len(), |i: int| said[i].audio_id);
            let gap = v.finished(text, end_us, fallback).start_us - said[said.len() - 1].end_us;
            let taken = v.store.inserted(v.sentence_audio(fallback)).clips;
            let held = v.with_sentence(text, end_us, fallback, now, nanos).store.clips;
            &&& gap >= v.tracker.merge_gap ==> audio_of(held, id) == (if ids.contains(id) {
                Seq::<i16>::empty()
            } else {
                audio_of(taken, id)
            })
            &&& gap < v.tracker.merge_gap ==> held == taken
        }),
{
    let said = (v.tracker.open->0).sentences;
    law_evict_forgets_exactly(v.store, audio_ids(said), id);
    law_evict_forgets_exactly(v.store.inserted(v.sentence_audio(fallback)), audio_ids(said), id);
    assert(audio_ids(said) =~= Seq::new(said.len(), |i: int| said[i].audio_id));
}

/// Law: a sentence is announced with its text, where it has one, then with the open paragraph and all
/// of its sentences, this one last, and then handed to the batch pass with its own audio, where such
/// passes are made.
pub proof fn law_a_sentence_is_announced(
    v: LoopView,
    text: String,
    end_us: i64,
    fallback: Seq<i16>,
    now: int,
    nanos: u64,
)
    ensures
        ({
            let out = v.sentence_outputs(text, end_us, fallback, nanos);
            let open = v.with_sentence(text, end_us, fallback, now, nanos).tracker.open->0;
            let jobs = if v.batch_jobs {
                1int
            } else {
                0int
            };
            let n = out.len() - jobs;
            &&& n >= 1
            &&& out[n - 1] == OutView::Event(
                EventView::Batch { paragraph_id: open.id, sentences: open.sentences, sr: v.sr },
            )
            &&& text@.len() > 0 ==> n >= 2 && out[n - 2] == OutView::Event(
                EventView::Fragment {
                    paragraph_id: open.id,
                    sentence_id: v.cur_sentence,
                    text: text@,
                    at_us: end_us,
                },
            )
            &&& v.batch_jobs ==> out[n] == OutView::Job(
                JobView::Sentence {
                    paragraph_id: open.id,
                    sentence_id: v.cur_sentence,
                    pcm: v.sentence_audio(fallback),
                    sr: v.sr,
                },
            )
        }),
{
    let s = v.finished(text, end_us, fallback);
    let stored = v.store.inserted(v.sentence_audio(fallback));
    let open = v.tracker.with_eos(s, nanos).open->0;
    let edge = if v.tracker.gap_closes(s.start_us as int) {
        edge_outputs(
            (v.tracker.open->0).id,
            (v.tracker.open->0).sentences,
            stored,
            v.sr,
            v.batch_jobs,
        )
    } else {
        Seq::empty()
    };
    let told = OutView::Event(
        EventView::Fragment {
            paragraph_id: open.id,
            sentence_id: s.id,
            text: text@,
            at_us: end_us,
        },
    );
    let all = OutView::Event(
        EventView::Batch { paragraph_id: open.id, sentences: open.sentences, sr: v.sr },
    );
    let pass = OutView::Job(
        JobView::Sentence {
            paragraph_id: open.id,
            sentence_id: s.id,
            pcm: v.sentence_audio(fallback),
            sr: v.sr,
        },
    );
    lemma_announced(edge, told, all, pass, text@.len() > 0, v.batch_jobs);
}

proof fn lemma_announced(
    edge: Seq<OutView>,
    told: OutView,
    all: OutView,
    pass: OutView,
    says: bool,
    jobs: bool,
)
    ensures
        ({
            let out = edge + (if says {
                seq![told]
            } else {
                Seq::empty()
            }) + seq![all] + (if jobs {
                seq![pass]
            } else {
                Seq::empty()
            });
            let n = out.len() - (if jobs {
                1int
            } else {
                0int
            });
            &&& n >= 1
            &&& out[n - 1] == all
            &&& says ==> n >= 2 && out[n - 2] == told
            &&& jobs ==> out[n] == pass
        }),
{
}

} // verus!
