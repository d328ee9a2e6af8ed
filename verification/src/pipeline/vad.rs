//! The speech detector of the live pipeline: an engine that looks at frames, and what has to be
//! remembered of its answers.

use vstd::prelude::*;

use crate::models::VadEvent;
use crate::vad::{
    frame_samples, is_loud, loud, prefix_samples, reports, EnergyVad, EnergyView, VadConfig,
};

verus! {

/// Looks at one frame after the other.
pub trait VadEngine: Sized {
    /// From this engine a frame can lead to the engine `after` with these events. An engine that
    /// says nothing of itself may lead to any.
    open spec fn pushed(&self, frame: Seq<i16>, after: &Self, events: Seq<VadEvent>) -> bool {
        true
    }

    /// Takes a frame and reports the edges of speech that it brought.
    fn push_frame(&mut self, frame: &[i16]) -> (r: Vec<VadEvent>)
        ensures
            old(self).pushed(frame@, &*final(self), r@),
    ;

    /// Did the last frame hold speech?
    fn detected(&self) -> bool;
}

/// The engine that is built in: it goes by loudness.
pub struct EnergyEngine {
    vad: EnergyVad,
    threshold: u32,
    detected: bool,
}

/// The built-in engine as a value.
pub struct EngineView {
    pub vad: EnergyView,
    pub threshold: int,
    /// Was the last frame loud?
    pub detected: bool,
}

impl View for EnergyEngine {
    type V = EngineView;

    closed spec fn view(&self) -> EngineView {
        EngineView {
            vad: self.vad@,
            threshold: self.threshold as int,
            detected: self.detected,
        }
    }
}

impl EnergyEngine {
    /// An engine that has heard nothing.
    pub fn new(cfg: VadConfig) -> (r: Self)
        requires
            frame_samples(cfg) <= usize::MAX,
            prefix_samples(cfg) <= usize::MAX,
        ensures
            r@ == (EngineView {
                vad: EnergyView::quiet(cfg),
                threshold: cfg.rms_threshold as int,
                detected: false,
            }),
    {
        EnergyEngine { vad: EnergyVad::new(cfg), threshold: cfg.rms_threshold, detected: false }
    }
}

impl VadEngine for EnergyEngine {
    open spec fn pushed(&self, frame: Seq<i16>, after: &Self, events: Seq<VadEvent>) -> bool {
        let judged = is_loud(frame, self@.threshold);
        let edge = self@.vad.edge(frame, judged);
        &&& after@ == (EngineView {
            vad: self@.vad.after(frame, judged),
            detected: judged,
            ..self@
        })
        &&& events.len() == if edge is Some {
            1int
        } else {
            0int
        }
        &&& edge is Some ==> reports(Some(events[0]), edge)
    }

    fn push_frame(&mut self, frame: &[i16]) -> (r: Vec<VadEvent>) {
        self.detected = loud(frame, self.threshold);
        let mut events: Vec<VadEvent> = Vec::new();
        match self.vad.push_judged(frame, self.detected) {
            Some(e) => {
                events.push(e);
            },
            None => {},
        }
        events
    }

    fn detected(&self) -> (r: bool)
        ensures
            r == self@.detected,
    {
        self.detected
    }
}

/// A detector of the pipeline: frames to edges of speech, with the last voiced time.
pub trait Stage0VAD {
    /// Takes a frame at a time of the wall clock.
    fn feed(&mut self, frame: &[i16], now_us: i64) -> Vec<VadEvent>;

    /// Did the last frame hold speech?
    fn detected(&self) -> bool;

    /// When speech was last detected; before the origin of the clock where it never was.
    fn last_voice_at(&self) -> i64;
}

/// The time before the first speech.
pub const NEVER_US: i64 = -1_000_000;

/// The default detector.
pub struct SileroVAD<E: VadEngine> {
    engine: E,
    last_detected: bool,
    last_voice_us: i64,
}

/// What a detector remembers.
pub struct VoiceView {
    pub detected: bool,
    pub last_voice: int,
}

impl<E: VadEngine> View for SileroVAD<E> {
    type V = VoiceView;

    closed spec fn view(&self) -> VoiceView {
        VoiceView { detected: self.last_detected, last_voice: self.last_voice_us as int }
    }
}

impl<E: VadEngine> SileroVAD<E> {
    /// The engine that is asked.
    pub closed spec fn engine(&self) -> E {
        self.engine
    }

    /// A detector that has seen nothing.
    pub fn new(engine: E) -> (r: Self)
        ensures
            r@ == (VoiceView { detected: false, last_voice: NEVER_US as int }),
            r.engine() == engine,
    {
        SileroVAD { engine, last_detected: false, last_voice_us: NEVER_US }
    }

    /// Notes what the engine said of a frame at `now_us`.
    pub fn note(&mut self, detected: bool, now_us: i64)
        ensures
            final(self)@ == (VoiceView {
                detected,
                last_voice: if detected {
                    now_us as int
                } else {
                    old(self)@.last_voice
                },
            }),
            final(self).engine() == old(self).engine(),
    {
        self.last_detected = detected;
        if detected {
            self.last_voice_us = now_us;
        }
    }
}

impl<E: VadEngine> Stage0VAD for SileroVAD<E> {
    /// The engine is given the frame, its events are handed on, and what it then says of speech
    /// is noted.
    fn feed(&mut self, frame: &[i16], now_us: i64) -> (r: Vec<VadEvent>)
        ensures
            old(self).engine().pushed(frame@, &final(self).engine(), r@),
            call_ensures(E::detected, (&final(self).engine(),), final(self)@.detected),
            final(self)@.last_voice == (if final(self)@.detected {
                now_us as int
            } else {
                old(self)@.last_voice
            }),
    {
        let events = self.engine.push_frame(frame);
        let detected = self.engine.detected();
        self.note(detected, now_us);
        events
    }

    fn detected(&self) -> (r: bool)
        ensures
            r == self@.detected,
    {
        self.last_detected
    }

    fn last_voice_at(&self) -> (r: i64)
        ensures
            r == self@.last_voice,
    {
        self.last_voice_us
    }
}

/// Law: the last voice is the last time at which speech was detected.
pub proof fn law_the_last_voice_is_remembered<E: VadEngine>(
    v: &mut SileroVAD<E>,
    detected: bool,
    now_us: i64,
)
    requires
        call_ensures(SileroVAD::<E>::note, (v, detected, now_us), ()),
    ensures
        detected ==> final(v)@.last_voice == now_us,
        !detected ==> final(v)@.last_voice == old(v)@.last_voice,
        final(v)@.detected == detected,
{
}

/// Law: an energy detector hears speech in a frame exactly if the frame is loud, and reports the
/// edges that its frames bring, each with its audio.
pub proof fn law_loud_frames_are_speech(
    e: EnergyEngine,
    frame: Seq<i16>,
    after: EnergyEngine,
    events: Seq<VadEvent>,
)
    requires
        e.pushed(frame, &after, events),
    ensures
        after@.detected <==> is_loud(frame, e@.threshold),
        after@.threshold == e@.threshold,
        events.len() <= 1,
        events.len() == 1 && e@.vad.speaking ==> events[0].kind == crate::models::VadEventKind::EndOfSpeech
            && events[0].pcm@ == e@.vad.buffer + frame && !after@.vad.speaking,
        events.len() == 1 && !e@.vad.speaking ==> events[0].kind == crate::models::VadEventKind::StartOfSpeech
            && after@.vad.speaking,
        events.len() == 0 ==> after@.vad.speaking == e@.vad.speaking,
{
}

} // verus!
