//! A voice detector that goes by loudness alone, and a segmenter on top of it that has each
//! utterance recognised once it is over.

use vstd::prelude::*;
use vstd::string::*;

use crate::models::{AsrProvider, ProviderError, VadEvent, VadEventKind};
use crate::types::opt_view;
use crate::wav::{lasting, lasting_us, opt_int};

verus! {

/// What a segmenter reports.
#[derive(Clone, Copy, Debug, PartialEq, Eq, Structural)]
pub enum SpeechEventKind {
    StartOfSpeech,
    Interim,
    Final,
    EndOfSpeech,
}

/// A report of the segmenter.
#[derive(Clone, Debug)]
pub struct SpeechEvent {
    pub kind: SpeechEventKind,
    /// What was recognised.
    pub text: Option<String>,
    /// How long the utterance lasted, in microseconds; `None` where there is no sample rate to
    /// tell it by.
    pub duration_us: Option<u128>,
}

/// How the detector cuts.
#[derive(Clone, Copy, Debug, PartialEq, Eq, Structural)]
pub struct VadConfig {
    pub sample_rate: u32,
    pub frame_ms: u32,
    /// A frame whose root mean square is at least this is loud.
    pub rms_threshold: u32,
    /// So much loudness without a break starts an utterance.
    pub min_speech_ms: u32,
    /// So much silence without a break ends it.
    pub min_silence_ms: u32,
    /// So much of what came before the utterance is kept with it.
    pub prefix_pad_ms: u32,
}

impl Default for VadConfig {
    fn default() -> (r: Self)
        ensures
            r == (VadConfig {
                sample_rate: 16_000,
                frame_ms: 20,
                rms_threshold: 500,
                min_speech_ms: 50,
                min_silence_ms: 550,
                prefix_pad_ms: 300,
            }),
    {
        VadConfig {
            sample_rate: 16_000,
            frame_ms: 20,
            rms_threshold: 500,
            min_speech_ms: 50,
            min_silence_ms: 550,
            prefix_pad_ms: 300,
        }
    }
}

/// The samples of a frame.
pub open spec fn frame_samples(cfg: VadConfig) -> int {
    cfg.sample_rate * cfg.frame_ms / 1000
}

/// The samples kept from before an utterance: those of whole frames.
pub open spec fn prefix_samples(cfg: VadConfig) -> int {
    let ms = if cfg.frame_ms == 0 {
        1
    } else {
        cfg.frame_ms as int
    };
    frame_samples(cfg) * (cfg.prefix_pad_ms as int / ms)
}

/// The squares of the samples, added up.
pub open spec fn energy(frame: Seq<i16>) -> int
    decreases frame.len(),
{
    if frame.len() == 0 {
        0
    } else {
        energy(frame.drop_last()) + frame.last() * frame.last()
    }
}

/// Is the root mean square of the frame at least the threshold? That of no samples is 0.
pub open spec fn is_loud(frame: Seq<i16>, threshold: int) -> bool {
    if frame.len() == 0 {
        threshold <= 0
    } else {
        energy(frame) >= threshold * threshold * frame.len()
    }
}

/// Is the root mean square of the frame at least the threshold?
pub fn loud(frame: &[i16], threshold: u32) -> (r: bool)
    ensures
        r == is_loud(frame@, threshold as int),
{
    let n: usize = frame.len();
    if n == 0 {
        return threshold == 0;
    }
    let mut sum: u128 = 0;
    let mut i: usize = 0;
    while i < n
        invariant
            0 <= i <= n,
            n == frame@.len(),
            sum == energy(frame@.take(i as int)),
            sum <= i * 0x4000_0000,
        decreases n - i,
    {
        let s: i64 = frame[i] as i64;
        proof {
            assert(0 <= s * s <= 0x4000_0000) by (nonlinear_arith)
                requires
                    -0x8000 <= s <= 0x7fff,
            ;
            assert(frame@.take(i + 1).drop_last() =~= frame@.take(i as int));
        }
        let square: i64 = s * s;
        sum = sum + square as u128;
        i = i + 1;
    }
    proof {
        assert(frame@.take(n as int) =~= frame@);
        assert(threshold * threshold <= 0xffff_ffff * 0xffff_ffff) by (nonlinear_arith)
            requires
                0 <= threshold <= 0xffff_ffff,
        ;
        assert(threshold * threshold * n <= 0xffff_ffff * 0xffff_ffff * 0xffff_ffff_ffff_ffff)
            by (nonlinear_arith)
            requires
                0 <= threshold * threshold <= 0xffff_ffff * 0xffff_ffff,
                0 <= n <= 0xffff_ffff_ffff_ffff,
        ;
    }
    let t: u128 = (threshold as u128) * (threshold as u128);
    sum >= t * (n as u128)
}

/// A voice detector that goes by loudness. It takes some loudness to start an utterance and some
/// silence to end it.
pub struct EnergyVad {
    cfg: VadConfig,
    speaking: bool,
    speech_ms: u32,
    silence_ms: u32,
    buffer: Vec<i16>,
    prefix: Vec<i16>,
    prefix_cap: usize,
}

/// The detector as a value.
pub struct EnergyView {
    pub cfg: VadConfig,
    pub speaking: bool,
    /// Loudness without a break so far.
    pub speech_ms: int,
    /// Silence without a break so far.
    pub silence_ms: int,
    /// The utterance so far.
    pub buffer: Seq<i16>,
    /// The last samples from before it.
    pub prefix: Seq<i16>,
    /// At most so many of them.
    pub prefix_cap: nat,
}

/// What a frame leads to.
pub enum EdgeView {
    Start,
    End(Seq<i16>),
}

/// The last `cap` samples.
pub open spec fn tail(s: Seq<i16>, cap: int) -> Seq<i16> {
    if s.len() > cap {
        s.skip(s.len() - cap)
    } else {
        s
    }
}

/// A count of milliseconds that stops at its largest value.
pub open spec fn counted(ms: int, more: int) -> int {
    if ms + more > u32::MAX {
        u32::MAX as int
    } else {
        ms + more
    }
}

impl EnergyView {
    /// A detector that has heard nothing.
    pub open spec fn quiet(cfg: VadConfig) -> EnergyView {
        EnergyView {
            cfg,
            speaking: false,
            speech_ms: 0,
            silence_ms: 0,
            buffer: Seq::empty(),
            prefix: Seq::empty(),
            prefix_cap: prefix_samples(cfg) as nat,
        }
    }

    /// The utterance with a frame more, where there is one.
    pub open spec fn grown(self, frame: Seq<i16>) -> Seq<i16> {
        if self.speaking {
            self.buffer + frame
        } else {
            self.buffer
        }
    }

    /// The samples from before the utterance with a frame more, where it does not start with it.
    pub open spec fn kept(self, frame: Seq<i16>) -> Seq<i16> {
        if self.speaking {
            self.prefix
        } else {
            tail(self.prefix + frame, self.prefix_cap as int)
        }
    }

    /// Does a loud frame start an utterance?
    pub open spec fn starts(self) -> bool {
        !self.speaking && counted(self.speech_ms, self.cfg.frame_ms as int)
            >= self.cfg.min_speech_ms
    }

    /// Does a silent frame end one?
    pub open spec fn ends(self) -> bool {
        self.speaking && counted(self.silence_ms, self.cfg.frame_ms as int)
            >= self.cfg.min_silence_ms
    }

    /// After a frame.
    pub open spec fn after(self, frame: Seq<i16>, is_loud: bool) -> EnergyView {
        if is_loud {
            let heard = EnergyView {
                speech_ms: counted(self.speech_ms, self.cfg.frame_ms as int),
                silence_ms: 0,
                buffer: self.grown(frame),
                prefix: self.kept(frame),
                ..self
            };
            if self.starts() {
                EnergyView {
                    speaking: true,
                    buffer: self.prefix + frame,
                    prefix: Seq::empty(),
                    ..heard
                }
            } else {
                heard
            }
        } else {
            let heard = EnergyView {
                speech_ms: 0,
                silence_ms: counted(self.silence_ms, self.cfg.frame_ms as int),
                buffer: self.grown(frame),
                prefix: self.kept(frame),
                ..self
            };
            if self.ends() {
                EnergyView {
                    speaking: false,
                    buffer: Seq::empty(),
                    prefix: Seq::empty(),
                    ..heard
                }
            } else {
                heard
            }
        }
    }

    /// The edge that a frame brings.
    pub open spec fn edge(self, frame: Seq<i16>, is_loud: bool) -> Option<EdgeView> {
        if is_loud && self.starts() {
            Some(EdgeView::Start)
        } else if !is_loud && self.ends() {
            Some(EdgeView::End(self.grown(frame)))
        } else {
            None
        }
    }
}

/// `e` reports the edge.
pub open spec fn reports(e: Option<VadEvent>, edge: Option<EdgeView>) -> bool {
    match edge {
        None => e is None,
        Some(EdgeView::Start) => {
            &&& e matches Some(ev)
            &&& ev.kind == VadEventKind::StartOfSpeech
            &&& ev.pcm@.len() == 0
        },
        Some(EdgeView::End(pcm)) => {
            &&& e matches Some(ev)
            &&& ev.kind == VadEventKind::EndOfSpeech
            &&& ev.pcm@ == pcm
        },
    }
}

impl View for EnergyVad {
    type V = EnergyView;

    closed spec fn view(&self) -> EnergyView {
        EnergyView {
            cfg: self.cfg,
            speaking: self.speaking,
            speech_ms: self.speech_ms as int,
            silence_ms: self.silence_ms as int,
            buffer: self.buffer@,
            prefix: self.prefix@,
            prefix_cap: self.prefix_cap as nat,
        }
    }
}

impl EnergyVad {
    /// A detector that has heard nothing.
    pub fn new(cfg: VadConfig) -> (r: Self)
        requires
            frame_samples(cfg) <= usize::MAX,
            prefix_samples(cfg) <= usize::MAX,
        ensures
            r@ == EnergyView::quiet(cfg),
    {
        let ms: u32 = if cfg.frame_ms == 0 {
            1
        } else {
            cfg.frame_ms
        };
        proof {
            assert(cfg.sample_rate * cfg.frame_ms <= 0xffff_ffff * 0xffff_ffff) by (nonlinear_arith)
                requires
                    0 <= cfg.sample_rate <= 0xffff_ffff,
                    0 <= cfg.frame_ms <= 0xffff_ffff,
            ;
        }
        let per_frame: usize = ((cfg.sample_rate as u64) * (cfg.frame_ms as u64) / 1000) as usize;
        let frames: u32 = cfg.prefix_pad_ms / ms;
        let prefix_cap: usize = per_frame * (frames as usize);
        EnergyVad {
            cfg,
            speaking: false,
            speech_ms: 0,
            silence_ms: 0,
            buffer: Vec::new(),
            prefix: Vec::new(),
            prefix_cap,
        }
    }

    /// Takes a frame that is loud or not, and reports the edge that it brings. The end of an
    /// utterance carries all of it.
    pub fn push_judged(&mut self, frame: &[i16], is_loud: bool) -> (r: Option<VadEvent>)
        ensures
            final(self)@ == old(self)@.after(frame@, is_loud),
            reports(r, old(self)@.edge(frame@, is_loud)),
    {
        let ghost before = self@;
        if is_loud {
            self.silence_ms = 0;
            self.speech_ms = self.speech_ms.saturating_add(self.cfg.frame_ms);
            if !self.speaking && self.speech_ms >= self.cfg.min_speech_ms {
                self.speaking = true;
                self.buffer.clear();
                self.buffer.append(&mut self.prefix);
                self.buffer.extend_from_slice(frame);
                proof {
                    assert(self.buffer@ =~= before.prefix + frame@);
                    assert(self.prefix@ =~= Seq::empty());
                }
                return Some(VadEvent { kind: VadEventKind::StartOfSpeech, pcm: Vec::new() });
            }
        } else {
            self.speech_ms = 0;
            self.silence_ms = self.silence_ms.saturating_add(self.cfg.frame_ms);
        }
        if self.speaking {
            self.buffer.extend_from_slice(frame);
            proof {
                assert(self.buffer@ =~= before.grown(frame@));
            }
        } else {
            self.prefix.extend_from_slice(frame);
            proof {
                assert(self.prefix@ =~= before.prefix + frame@);
            }
            if self.prefix.len() > self.prefix_cap {
                let drop: usize = self.prefix.len() - self.prefix_cap;
                let rest = self.prefix.split_off(drop);
                self.prefix = rest;
                proof {
                    assert(self.prefix@ =~= (before.prefix + frame@).skip(drop as int));
                }
            }
            proof {
                assert(self.prefix@ =~= before.kept(frame@));
            }
        }
        if !is_loud && self.speaking && self.silence_ms >= self.cfg.min_silence_ms {
            self.speaking = false;
            let mut pcm: Vec<i16> = Vec::new();
            std::mem::swap(&mut pcm, &mut self.buffer);
            self.prefix.clear();
            proof {
                assert(self.prefix@ =~= Seq::empty());
                assert(self.buffer@ =~= Seq::empty());
            }
            return Some(VadEvent { kind: VadEventKind::EndOfSpeech, pcm });
        }
        None
    }

    /// Takes a frame and reports the edge that it brings.
    pub fn push_frame(&mut self, frame: &[i16]) -> (r: Option<VadEvent>)
        ensures
            final(self)@ == old(self)@.after(
                frame@,
                is_loud(frame@, old(self)@.cfg.rms_threshold as int),
            ),
            reports(
                r,
                old(self)@.edge(frame@, is_loud(frame@, old(self)@.cfg.rms_threshold as int)),
            ),
    {
        let judged = loud(frame, self.cfg.rms_threshold);
        self.push_judged(frame, judged)
    }
}

/// Recognises nothing.
pub struct StubAsr;

impl AsrProvider for StubAsr {
    fn recognize(&self, _pcm: &[i16], _sample_rate: u32) -> (r: Result<String, ProviderError>)
        ensures
            r matches Ok(t) && t@.len() == 0,
    {
        Ok(String::new())
    }
}

/// Frames in, utterances out.
pub struct VadSegmenter<A: AsrProvider> {
    vad: EnergyVad,
    asr: A,
    sample_rate: u32,
}

/// The segmenter as a value.
pub struct SegmenterView<A> {
    pub vad: EnergyView,
    pub asr: A,
    pub sample_rate: u32,
}

/// The text of a recognition, where it succeeded and is not empty.
pub open spec fn spoken(res: Result<String, ProviderError>) -> Option<Seq<char>> {
    match res {
        Ok(t) => if t@.len() == 0 {
            None
        } else {
            Some(t@)
        },
        Err(_) => None,
    }
}

/// The one report of an utterance that is over.
pub fn final_event(samples: usize, sample_rate: u32, res: Result<String, ProviderError>) -> (r:
    SpeechEvent)
    ensures
        r.kind == SpeechEventKind::Final,
        opt_view(r.text) == spoken(res),
        opt_int(r.duration_us) == lasting_us(samples as int, sample_rate as int),
{
    let text = match res {
        Ok(t) => if t.as_str().is_empty() {
            None
        } else {
            Some(t)
        },
        Err(_) => None,
    };
    SpeechEvent { kind: SpeechEventKind::Final, text, duration_us: lasting(samples, sample_rate) }
}

impl<A: AsrProvider> VadSegmenter<A> {
    /// The segmenter as a value.
    pub closed spec fn state(&self) -> SegmenterView<A> {
        SegmenterView { vad: self.vad@, asr: self.asr, sample_rate: self.sample_rate }
    }

    /// A segmenter that has heard nothing.
    pub fn new(cfg: VadConfig, asr: A) -> (r: Self)
        requires
            frame_samples(cfg) <= usize::MAX,
            prefix_samples(cfg) <= usize::MAX,
        ensures
            r.state() == (SegmenterView {
                vad: EnergyView::quiet(cfg),
                asr,
                sample_rate: cfg.sample_rate,
            }),
    {
        VadSegmenter { vad: EnergyVad::new(cfg), asr, sample_rate: cfg.sample_rate }
    }

    /// Takes a frame. The start of speech is reported; at its end the recogniser is given all of
    /// the utterance once, and what it says is reported.
    pub fn push_frame(&mut self, frame: &[i16]) -> (r: Vec<SpeechEvent>)
        ensures
            ({
                let s = old(self).state();
                let judged = is_loud(frame@, s.vad.cfg.rms_threshold as int);
                &&& final(self).state() == (SegmenterView { vad: s.vad.after(frame@, judged), ..s })
                &&& match s.vad.edge(frame@, judged) {
                    None => r@.len() == 0,
                    Some(EdgeView::Start) => {
                        &&& r@.len() == 1
                        &&& r@[0].kind == SpeechEventKind::StartOfSpeech
                        &&& r@[0].text is None
                        &&& r@[0].duration_us == Some(0u128)
                    },
                    Some(EdgeView::End(audio)) => {
                        &&& r@.len() == 1
                        &&& r@[0].kind == SpeechEventKind::Final
                        &&& opt_int(r@[0].duration_us) == lasting_us(
                            audio.len() as int,
                            s.sample_rate as int,
                        )
                        &&& exists|pcm: &[i16], res: Result<String, ProviderError>|
                            {
                                &&& pcm@ == audio
                                &&& #[trigger] call_ensures(
                                    A::recognize,
                                    (&s.asr, pcm, s.sample_rate),
                                    res,
                                )
                                &&& opt_view(r@[0].text) == spoken(res)
                            }
                    },
                }
            }),
    {
        let mut out: Vec<SpeechEvent> = Vec::new();
        match self.vad.push_frame(frame) {
            Some(ev) => {
                match ev.kind {
                    VadEventKind::StartOfSpeech => {
                        out.push(
                            SpeechEvent {
                                kind: SpeechEventKind::StartOfSpeech,
                                text: None,
                                duration_us: Some(0),
                            },
                        );
                    },
                    VadEventKind::EndOfSpeech => {
                        let pcm: &[i16] = ev.pcm.as_slice();
                        let res = self.asr.recognize(pcm, self.sample_rate);
                        let ghost answer = res;
                        proof {
                            assert(call_ensures(
                                A::recognize,
                                (&self.asr, pcm, self.sample_rate),
                                answer,
                            ));
                        }
                        out.push(final_event(pcm.len(), self.sample_rate, res));
                        proof {
                            assert(opt_view(out@[0].text) == spoken(answer));
                        }
                    },
                }
            },
            None => {},
        }
        out
    }
}

/// How long to wait before an utterance counts as over.
#[derive(Clone, Copy, Debug, PartialEq, Eq, Structural)]
pub struct Endpointing {
    pub min_delay_ms: u32,
    pub max_delay_ms: u32,
}

impl Default for Endpointing {
    fn default() -> (r: Self)
        ensures
            r == (Endpointing { min_delay_ms: 500, max_delay_ms: 3000 }),
    {
        Endpointing { min_delay_ms: 500, max_delay_ms: 3000 }
    }
}

/// Law: silence alone brings no edge and starts nothing, however long it lasts.
pub proof fn law_silence_starts_nothing(v: EnergyView, frame: Seq<i16>)
    requires
        !v.speaking,
    ensures
        v.edge(frame, false) is None,
        !v.after(frame, false).speaking,
{
}

/// Law: starts and ends take turns: an utterance starts only out of silence and ends only while
/// it lasts.
pub proof fn law_edges_alternate(v: EnergyView, frame: Seq<i16>, is_loud: bool)
    ensures
        v.edge(frame, is_loud) == Some(EdgeView::Start) ==> !v.speaking && v.after(
            frame,
            is_loud,
        ).speaking,
        v.edge(frame, is_loud) matches Some(EdgeView::End(_)) ==> v.speaking && !v.after(
            frame,
            is_loud,
        ).speaking,
        v.edge(frame, is_loud) is None ==> v.after(frame, is_loud).speaking == v.speaking,
{
}

/// Law: nothing of an utterance is lost: while it lasts, every frame is added to it, and at its
/// end all of it is handed out.
pub proof fn law_the_utterance_is_whole(v: EnergyView, frame: Seq<i16>, is_loud: bool)
    requires
        v.speaking,
    ensures
        v.edge(frame, is_loud) is None ==> v.after(frame, is_loud).buffer == v.buffer + frame,
        v.edge(frame, is_loud) matches Some(e) ==> e == EdgeView::End(v.buffer + frame),
{
}

/// The detector after some frames, each loud or not.
pub open spec fn after_all(v: EnergyView, frames: Seq<(Seq<i16>, bool)>) -> EnergyView
    decreases frames.len(),
{
    if frames.len() == 0 {
        v
    } else {
        after_all(v, frames.drop_last()).after(frames.last().0, frames.last().1)
    }
}

/// The samples of some frames, one after the other.
pub open spec fn pushed_audio(frames: Seq<(Seq<i16>, bool)>) -> Seq<i16>
    decreases frames.len(),
{
    if frames.len() == 0 {
        Seq::empty()
    } else {
        pushed_audio(frames.drop_last()) + frames.last().0
    }
}

/// `s` ends with `t`.
pub open spec fn ends_with(s: Seq<i16>, t: Seq<i16>) -> bool {
    t.len() <= s.len() && t == s.skip(s.len() - t.len())
}

impl EnergyView {
    /// What is held: the utterance, or what came right before it.
    pub open spec fn held(self) -> Seq<i16> {
        if self.speaking {
            self.buffer
        } else {
            self.prefix
        }
    }
}

proof fn lemma_held_is_the_end(v: EnergyView, frames: Seq<(Seq<i16>, bool)>)
    requires
        v.held().len() == 0,
    ensures
        ends_with(pushed_audio(frames), after_all(v, frames).held()),
    decreases frames.len(),
{
    if frames.len() == 0 {
        assert(pushed_audio(frames).skip(0) =~= v.held());
    } else {
        let rest = frames.drop_last();
        let w = after_all(v, rest);
        let (frame, is_loud) = frames.last();
        lemma_held_is_the_end(v, rest);
        let all = pushed_audio(rest) + frame;
        let whole = w.held() + frame;
        let n = w.after(frame, is_loud).held();
        assert(whole =~= all.skip(all.len() - whole.len()));
        if n.len() == 0 {
            assert(n =~= all.skip(all.len() as int));
        } else {
            assert(n =~= whole.skip(whole.len() - n.len()));
            assert(n =~= all.skip(all.len() - n.len()));
        }
    }
}

/// Law: an utterance is contiguous audio, each sample once: from a detector that holds nothing,
/// whatever was heard, what an end hands out is the end of all that was pushed.
pub proof fn law_the_utterance_is_contiguous(
    v: EnergyView,
    frames: Seq<(Seq<i16>, bool)>,
    frame: Seq<i16>,
    is_loud: bool,
)
    requires
        v.held().len() == 0,
    ensures
        after_all(v, frames).edge(frame, is_loud) matches Some(EdgeView::End(pcm)) ==> ends_with(
            pushed_audio(frames) + frame,
            pcm,
        ),
{
    lemma_held_is_the_end(v, frames);
    let held = after_all(v, frames).held();
    let all = pushed_audio(frames) + frame;
    assert(held + frame =~= all.skip(all.len() - held.len() - frame.len()));
}

/// Law: a single loud frame among silence does not start an utterance where more is asked for.
pub proof fn law_a_click_is_not_speech(v: EnergyView, frame: Seq<i16>)
    requires
        v.speech_ms == 0,
        v.cfg.frame_ms < v.cfg.min_speech_ms,
    ensures
        v.edge(frame, true) is None,
        v.after(frame, true).speaking == v.speaking,
{
}

/// The last `k` frames are all of one kind, loud or not, and the one before them, where there is
/// one, is of the other.
pub open spec fn ends_in_run(frames: Seq<(Seq<i16>, bool)>, k: int, is_loud: bool) -> bool {
    &&& 0 <= k <= frames.len()
    &&& forall|i: int| frames.len() - k <= i < frames.len() ==> (#[trigger] frames[i]).1 == is_loud
    &&& k < frames.len() ==> frames[frames.len() - k - 1].1 != is_loud
}

/// The detector of a configuration, fed some frames, has counted the run at their end.
proof fn lemma_counts_the_run(cfg: VadConfig, frames: Seq<(Seq<i16>, bool)>, k: int, is_loud: bool)
    requires
        ends_in_run(frames, k, is_loud),
    ensures
        after_all(EnergyView::quiet(cfg), frames).cfg == cfg,
        ({
            let ms = k * cfg.frame_ms;
            let v = after_all(EnergyView::quiet(cfg), frames);
            (if is_loud {
                v.speech_ms
            } else {
                v.silence_ms
            }) == (if ms > u32::MAX {
                u32::MAX as int
            } else {
                ms
            })
        }),
    decreases frames.len(),
{
    if frames.len() == 0 {
        assert(k * cfg.frame_ms == 0) by (nonlinear_arith)
            requires
                k == 0,
        ;
    } else {
        let rest = frames.drop_last();
        if k == 0 {
            assert(frames.last().1 != is_loud);
            assert(k * cfg.frame_ms == 0) by (nonlinear_arith)
                requires
                    k == 0,
            ;
            lemma_keeps_cfg(EnergyView::quiet(cfg), frames);
        } else {
            assert(frames[frames.len() - 1].1 == is_loud);
            assert forall|i: int| rest.len() - (k - 1) <= i < rest.len() implies (
            #[trigger] rest[i]).1 == is_loud by {
                assert(rest[i] == frames[i]);
            }
            if k - 1 < rest.len() {
                assert(rest[rest.len() - (k - 1) - 1] == frames[frames.len() - k - 1]);
            }
            lemma_counts_the_run(cfg, rest, k - 1, is_loud);
            assert(k * cfg.frame_ms == (k - 1) * cfg.frame_ms + cfg.frame_ms) by (nonlinear_arith);
            assert(0 <= (k - 1) * cfg.frame_ms) by (nonlinear_arith)
                requires
                    k >= 1,
                    0 <= cfg.frame_ms,
            ;
        }
    }
}

proof fn lemma_keeps_cfg(v: EnergyView, frames: Seq<(Seq<i16>, bool)>)
    ensures
        after_all(v, frames).cfg == v.cfg,
        after_all(v, frames).prefix_cap == v.prefix_cap,
    decreases frames.len(),
{
    if frames.len() > 0 {
        lemma_keeps_cfg(v, frames.drop_last());
    }
}

/// Law: an utterance ends only after unbroken silence. Where the last `k` frames, the newest
/// among them, are silent and the one before them is loud, the newest ends an utterance exactly
/// if one is under way and the `k` frames last as long as is asked for: silence from before the
/// last loud frame does not count.
pub proof fn law_an_end_takes_unbroken_silence(
    cfg: VadConfig,
    heard: Seq<(Seq<i16>, bool)>,
    frame: Seq<i16>,
    k: int,
)
    requires
        ends_in_run(heard.push((frame, false)), k, false),
    ensures
        ({
            let v = after_all(EnergyView::quiet(cfg), heard);
            v.edge(frame, false) is Some <==> v.speaking && k * cfg.frame_ms >= cfg.min_silence_ms
        }),
{
    let all = heard.push((frame, false));
    assert(all[all.len() - 1].1 == false);
    lemma_counts_the_run(cfg, all, k, false);
    assert(all.drop_last() =~= heard);
    lemma_keeps_cfg(EnergyView::quiet(cfg), heard);
}

/// Law: an utterance starts only after unbroken loudness. Where the last `k` frames, the newest
/// among them, are loud and the one before them is silent, the newest starts an utterance exactly
/// if none is under way and the `k` frames last as long as is asked for.
pub proof fn law_a_start_takes_unbroken_loudness(
    cfg: VadConfig,
    heard: Seq<(Seq<i16>, bool)>,
    frame: Seq<i16>,
    k: int,
)
    requires
        ends_in_run(heard.push((frame, true)), k, true),
    ensures
        ({
            let v = after_all(EnergyView::quiet(cfg), heard);
            v.edge(frame, true) is Some <==> !v.speaking && k * cfg.frame_ms >= cfg.min_speech_ms
        }),
{
    let all = heard.push((frame, true));
    assert(all[all.len() - 1].1 == true);
    lemma_counts_the_run(cfg, all, k, true);
    assert(all.drop_last() =~= heard);
    lemma_keeps_cfg(EnergyView::quiet(cfg), heard);
}

/// Law: one silent frame right after a loud one ends nothing where more silence is asked for.
pub proof fn law_a_pause_is_not_the_end(
    v: EnergyView,
    loud_frame: Seq<i16>,
    frame: Seq<i16>,
)
    requires
        v.cfg.frame_ms < v.cfg.min_silence_ms,
    ensures
        v.after(loud_frame, true).edge(frame, false) is None,
        v.after(loud_frame, true).after(frame, false).speaking == v.after(
            loud_frame,
            true,
        ).speaking,
{
}

/// The detector heard all of the frames without an utterance.
pub open spec fn never_spoke(v: EnergyView, frames: Seq<(Seq<i16>, bool)>) -> bool {
    forall|i: int| 0 <= i <= frames.len() ==> !(#[trigger] after_all(v, frames.take(i))).speaking
}

proof fn lemma_lead_in_length(v: EnergyView, frames: Seq<(Seq<i16>, bool)>)
    requires
        v.held().len() == 0,
        never_spoke(v, frames),
    ensures
        after_all(v, frames).prefix.len() == (if pushed_audio(frames).len() > v.prefix_cap {
            v.prefix_cap
        } else {
            pushed_audio(frames).len()
        }),
    decreases frames.len(),
{
    assert(frames.take(frames.len() as int) =~= frames);
    if frames.len() > 0 {
        let rest = frames.drop_last();
        assert forall|i: int| 0 <= i <= rest.len() implies !(#[trigger] after_all(
            v,
            rest.take(i),
        )).speaking by {
            assert(rest.take(i) =~= frames.take(i));
        }
        assert(rest.take(rest.len() as int) =~= rest);
        assert(!after_all(v, rest).speaking);
        lemma_lead_in_length(v, rest);
        lemma_keeps_cfg(v, rest);
    } else {
        assert(!after_all(v, frames.take(0)).speaking);
    }
}

/// Law: an utterance has its lead-in. The first one starts with the last samples from before its
/// first reported frame, as many as are kept or, where fewer were heard, all of them, followed by
/// that frame.
pub proof fn law_an_utterance_has_its_lead_in(
    cfg: VadConfig,
    heard: Seq<(Seq<i16>, bool)>,
    frame: Seq<i16>,
)
    requires
        never_spoke(EnergyView::quiet(cfg), heard),
        after_all(EnergyView::quiet(cfg), heard).edge(frame, true) is Some,
        prefix_samples(cfg) >= 0,
    ensures
        ({
            let before = pushed_audio(heard);
            let lead: int = if before.len() > prefix_samples(cfg) {
                prefix_samples(cfg)
            } else {
                before.len() as int
            };
            after_all(EnergyView::quiet(cfg), heard).after(frame, true).buffer == before.skip(
                before.len() - lead,
            ) + frame
        }),
{
    let v = EnergyView::quiet(cfg);
    lemma_lead_in_length(v, heard);
    lemma_held_is_the_end(v, heard);
    assert(heard.take(heard.len() as int) =~= heard);
    assert(!after_all(v, heard).speaking);
}

/// Law: the lead-in is as long as is asked for, where frames have a whole number of samples and
/// the padding a whole number of frames; it is always a whole number of frames.
pub proof fn law_the_lead_in_is_whole_frames(cfg: VadConfig)
    requires
        cfg.frame_ms > 0,
    ensures
        prefix_samples(cfg) == frame_samples(cfg) * (cfg.prefix_pad_ms as int / cfg.frame_ms as int),
        frame_samples(cfg) * 1000 == cfg.sample_rate * cfg.frame_ms && cfg.prefix_pad_ms as int
            % cfg.frame_ms as int == 0 ==> prefix_samples(cfg) * 1000 == cfg.sample_rate
            * cfg.prefix_pad_ms,
{
    let q = cfg.prefix_pad_ms as int / cfg.frame_ms as int;
    if frame_samples(cfg) * 1000 == cfg.sample_rate * cfg.frame_ms && cfg.prefix_pad_ms as int
        % cfg.frame_ms as int == 0 {
        let f = frame_samples(cfg);
        let rate = cfg.sample_rate as int;
        let ms = cfg.frame_ms as int;
        let pad = cfg.prefix_pad_ms as int;
        assert(pad == q * ms) by (nonlinear_arith)
            requires
                q == pad / ms,
                pad % ms == 0,
                ms > 0,
        ;
        assert((f * q) * 1000 == rate * pad) by (nonlinear_arith)
            requires
                f * 1000 == rate * ms,
                pad == q * ms,
        ;
    }
}

/// Law: the energy of two stretches of audio is that of the one and that of the other.
pub proof fn law_energy_adds_up(a: Seq<i16>, b: Seq<i16>)
    ensures
        energy(a + b) == energy(a) + energy(b),
    decreases b.len(),
{
    if b.len() == 0 {
        assert(a + b =~= a);
    } else {
        assert((a + b).drop_last() =~= a + b.drop_last());
        law_energy_adds_up(a, b.drop_last());
    }
}

/// Law: a frame whose samples are all at one level, whatever their signs, is loud exactly if that
/// level reaches the threshold.
pub proof fn law_loudness_is_the_level(frame: Seq<i16>, level: int, threshold: int)
    requires
        frame.len() > 0,
        level >= 0,
        threshold >= 0,
        forall|i: int| 0 <= i < frame.len() ==> (#[trigger] frame[i] == level || frame[i] == -level),
    ensures
        is_loud(frame, threshold) <==> level >= threshold,
{
    lemma_level_energy(frame, level);
    let n = frame.len() as int;
    if level >= threshold {
        assert(level * level * n >= threshold * threshold * n) by (nonlinear_arith)
            requires
                level >= threshold,
                threshold >= 0,
                n > 0,
        ;
    } else {
        assert(level * level < threshold * threshold) by (nonlinear_arith)
            requires
                0 <= level < threshold,
        ;
        assert((level * level) * n < (threshold * threshold) * n) by (nonlinear_arith)
            requires
                level * level < threshold * threshold,
                n > 0,
        ;
    }
}

proof fn lemma_level_energy(frame: Seq<i16>, level: int)
    requires
        forall|i: int| 0 <= i < frame.len() ==> (#[trigger] frame[i] == level || frame[i] == -level),
    ensures
        energy(frame) == level * level * frame.len(),
    decreases frame.len(),
{
    let n = frame.len() as int;
    if n == 0 {
        assert(level * level * n == 0) by (nonlinear_arith)
            requires
                n == 0,
        ;
    } else {
        let rest = frame.drop_last();
        assert forall|i: int| 0 <= i < rest.len() implies (#[trigger] rest[i] == level || rest[i]
            == -level) by {
            assert(rest[i] == frame[i]);
        }
        lemma_level_energy(rest, level);
        let s = frame[n - 1] as int;
        assert(s * s == level * level) by (nonlinear_arith)
            requires
                s == level || s == -level,
        ;
        assert(level * level * n == level * level * (n - 1) + level * level) by (nonlinear_arith);
    }
}

/// Law: what was recognised is reported as it is, and nothing where there was no text.
pub proof fn law_the_text_is_what_was_recognised(t: String)
    ensures
        t@.len() > 0 ==> spoken(Ok(t)) == Some(t@),
        t@.len() == 0 ==> spoken(Ok(t)) is None,
{
}

/// Law: the end of an utterance is reported with all of its audio, and only on a silent frame while
/// it lasts; its start is reported on a loud frame, and before that there is none.
pub proof fn law_edges_are_reported_with_their_audio(
    v: &mut EnergyVad,
    frame: &[i16],
    is_loud: bool,
    r: Option<VadEvent>,
)
    requires
        call_ensures(EnergyVad::push_judged, (v, frame, is_loud), r),
    ensures
        r matches Some(e) ==> (e.kind == VadEventKind::EndOfSpeech ==> old(v)@.speaking && !is_loud
            && e.pcm@ == old(v)@.buffer + frame@ && !final(v)@.speaking),
        r matches Some(e) ==> (e.kind == VadEventKind::StartOfSpeech ==> !old(v)@.speaking && is_loud
            && e.pcm@.len() == 0 && final(v)@.speaking),
        r is None ==> final(v)@.speaking == old(v)@.speaking,
{
}

/// Law: a loud frame ends the silence before it, so that the frame after it ends nothing where more
/// silence is asked for than it brings.
pub proof fn law_a_loud_frame_ends_the_silence(
    v: &mut EnergyVad,
    w: &mut EnergyVad,
    a: &[i16],
    b: &[i16],
    first: Option<VadEvent>,
    second: Option<VadEvent>,
)
    requires
        call_ensures(EnergyVad::push_judged, (v, a, true), first),
        *old(w) == *final(v),
        call_ensures(EnergyVad::push_judged, (w, b, false), second),
        old(v)@.cfg.frame_ms < old(v)@.cfg.min_silence_ms,
    ensures
        second is None,
        final(w)@.speaking == final(v)@.speaking,
{
}

/// Law: no sample belongs to two utterances: once one has ended, nothing of it is held for the next.
pub proof fn law_utterances_do_not_overlap(v: EnergyView, frame: Seq<i16>, is_loud: bool)
    ensures
        v.edge(frame, is_loud) matches Some(EdgeView::End(_)) ==> v.after(frame, is_loud).held().len()
            == 0,
        v.edge(frame, is_loud) == Some(EdgeView::Start) ==> v.after(frame, is_loud).prefix.len() == 0
            && v.after(frame, is_loud).buffer == v.prefix + frame,
        v.after(frame, is_loud).cfg == v.cfg,
{
}

/// Law: a segmenter reports the start of speech, and its end once, with the length of the utterance
/// and what the recogniser made of all of it; any other frame it takes in silence.
pub proof fn law_an_utterance_is_recognised_once<A: AsrProvider>(
    s: &mut VadSegmenter<A>,
    frame: &[i16],
    r: Vec<SpeechEvent>,
    word: Seq<char>,
)
    requires
        call_ensures(VadSegmenter::<A>::push_frame, (s, frame), r),
        forall|pcm: &[i16], res: Result<String, ProviderError>|
            #[trigger] call_ensures(
                A::recognize,
                (&old(s).state().asr, pcm, old(s).state().sample_rate),
                res,
            ) ==> (res matches Ok(t) && t@ == word),
        word.len() > 0,
    ensures
        ({
            let v = old(s).state().vad;
            let judged = is_loud(frame@, v.cfg.rms_threshold as int);
            &&& v.edge(frame@, judged) is None <==> r@.len() == 0
            &&& r@.len() <= 1
            &&& v.speaking && r@.len() == 1 ==> r@[0].kind == SpeechEventKind::Final && (
            r@[0].text matches Some(t) && t@ == word) && opt_int(r@[0].duration_us) == lasting_us(
                (v.buffer + frame@).len() as int,
                old(s).state().sample_rate as int,
            )
            &&& !v.speaking && r@.len() == 1 ==> r@[0].kind == SpeechEventKind::StartOfSpeech
                && r@[0].text is None
        }),
{
}

} // verus!
