//! The streaming session's bookkeeping: what it has heard, when to decode, which partials are
//! news. The recogniser itself is asked by the worker around it.

use vstd::prelude::*;
use vstd::string::*;

use crate::pipeline::consume::StreamFinal;
use crate::text::same;

verus! {

/// A partial is decoded after this many frames.
pub const PARTIAL_EVERY_FRAMES: u32 = 9;

/// What the streaming worker is told.
pub enum StreamCmd {
    /// Speech set in: hear the frames from before it.
    Onset { at: i64, lead_in: Vec<Vec<i16>> },
    /// One frame of speech.
    Feed(Vec<i16>),
    /// Start over.
    Reset,
    /// The sentence ended: hand over what was heard and start over.
    Finalize,
}

/// What the streaming worker reports of a decoding step: the partial where it is news, and
/// whether the session holds one at all.
pub struct PartialOut {
    pub text: Option<String>,
    pub nonempty: bool,
}

/// One streaming session.
pub struct ActiveSession {
    frames_since_partial: u32,
    last_partial: String,
    fed: u32,
    /// Exactly the audio that the recogniser heard.
    pcm: Vec<i16>,
}

/// A session as a value.
pub struct SessionView {
    pub frames_since_partial: int,
    pub last_partial: Seq<char>,
    pub fed: int,
    pub pcm: Seq<i16>,
}

impl SessionView {
    /// A session that has heard nothing.
    pub open spec fn fresh() -> SessionView {
        SessionView {
            frames_since_partial: 0,
            last_partial: Seq::empty(),
            fed: 0,
            pcm: Seq::empty(),
        }
    }

    /// No frame counts towards the next partial that was not heard.
    pub open spec fn wf(self) -> bool {
        self.frames_since_partial <= self.fed
    }
}

impl View for ActiveSession {
    type V = SessionView;

    closed spec fn view(&self) -> SessionView {
        SessionView {
            frames_since_partial: self.frames_since_partial as int,
            last_partial: self.last_partial@,
            fed: self.fed as int,
            pcm: self.pcm@,
        }
    }
}

/// The samples of some frames, one after the other.
pub open spec fn all_samples(frames: Seq<Vec<i16>>) -> Seq<i16>
    decreases frames.len(),
{
    if frames.len() == 0 {
        Seq::empty()
    } else {
        all_samples(frames.drop_last()) + frames.last()@
    }
}

/// What happens to a session.
pub enum SessionStep {
    /// Speech sets in, with the frames from before it.
    Onset(Seq<Vec<i16>>),
    /// One frame of speech.
    Feed(Vec<i16>),
    /// A partial was decoded.
    Partial(Seq<char>),
}

impl SessionView {
    /// Is a partial to be decoded now?
    pub open spec fn due(self) -> bool {
        self.frames_since_partial >= PARTIAL_EVERY_FRAMES
    }

    /// Is a partial text worth telling?
    pub open spec fn news(self, partial: Seq<char>) -> bool {
        partial.len() > 0 && partial != self.last_partial
    }

    /// After a step.
    pub open spec fn stepped(self, step: SessionStep) -> SessionView {
        match step {
            SessionStep::Onset(lead_in) => SessionView {
                frames_since_partial: 0,
                fed: self.fed + lead_in.len(),
                pcm: self.pcm + all_samples(lead_in),
                ..self
            },
            SessionStep::Feed(frame) => SessionView {
                frames_since_partial: self.frames_since_partial + 1,
                fed: self.fed + 1,
                pcm: self.pcm + frame@,
                ..self
            },
            SessionStep::Partial(text) => SessionView {
                frames_since_partial: 0,
                last_partial: if self.news(text) {
                    text
                } else {
                    self.last_partial
                },
                ..self
            },
        }
    }
}

impl ActiveSession {
    /// A session that has heard nothing.
    pub fn new() -> (r: Self)
        ensures
            r@ == SessionView::fresh(),
    {
        ActiveSession {
            frames_since_partial: 0,
            last_partial: String::new(),
            fed: 0,
            pcm: Vec::new(),
        }
    }

    /// How many frames may still be counted.
    pub fn room(&self) -> (r: u32)
        ensures
            r == u32::MAX - self@.fed,
    {
        u32::MAX - self.fed
    }

    /// Speech set in: the kept frames are heard, and the decoding rhythm starts over.
    pub fn on_onset(&mut self, lead_in: &Vec<Vec<i16>>)
        requires
            old(self)@.fed + lead_in@.len() <= u32::MAX,
        ensures
            final(self)@.wf(),
            final(self)@ == (SessionView {
                frames_since_partial: 0,
                fed: old(self)@.fed + lead_in@.len(),
                pcm: old(self)@.pcm + all_samples(lead_in@),
                ..old(self)@
            }),
            final(self)@ == old(self)@.stepped(SessionStep::Onset(lead_in@)),
    {
        let ghost heard = self@.pcm;
        let mut i: usize = 0;
        proof {
            assert(heard + all_samples(lead_in@.take(0)) =~= heard);
        }
        while i < lead_in.len()
            invariant
                0 <= i <= lead_in.len(),
                self@.pcm == heard + all_samples(lead_in@.take(i as int)),
                self@.fed == old(self)@.fed + i,
                self@.last_partial == old(self)@.last_partial,
                old(self)@.fed + lead_in@.len() <= u32::MAX,
            decreases lead_in.len() - i,
        {
            self.pcm.extend_from_slice(lead_in[i].as_slice());
            self.fed = self.fed + 1;
            i = i + 1;
            proof {
                assert(lead_in@.take(i as int).drop_last() =~= lead_in@.take(i - 1));
                assert(self@.pcm =~= heard + all_samples(lead_in@.take(i as int)));
            }
        }
        proof {
            assert(lead_in@.take(lead_in@.len() as int) =~= lead_in@);
        }
        self.frames_since_partial = 0;
    }

    /// One frame was heard. Says whether a partial is to be decoded now.
    pub fn on_feed(&mut self, frame: &Vec<i16>) -> (r: bool)
        requires
            old(self)@.wf(),
            old(self)@.fed < u32::MAX,
        ensures
            final(self)@.wf(),
            final(self)@ == (SessionView {
                frames_since_partial: old(self)@.frames_since_partial + 1,
                fed: old(self)@.fed + 1,
                pcm: old(self)@.pcm + frame@,
                ..old(self)@
            }),
            r == (old(self)@.frames_since_partial + 1 >= PARTIAL_EVERY_FRAMES),
            final(self)@ == old(self)@.stepped(SessionStep::Feed(*frame)),
            r == final(self)@.due(),
    {
        self.pcm.extend_from_slice(frame.as_slice());
        proof {
            assert(self.pcm@ =~= old(self)@.pcm + frame@);
        }
        self.fed = self.fed + 1;
        self.frames_since_partial = self.frames_since_partial + 1;
        self.frames_since_partial >= PARTIAL_EVERY_FRAMES
    }

    /// A partial was decoded: it is news where it is not empty and differs from the last. An
    /// empty decode leaves the last partial standing.
    pub fn on_partial(&mut self, partial: String) -> (r: PartialOut)
        ensures
            final(self)@.wf(),
            ({
                let news = partial@.len() > 0 && partial@ != old(self)@.last_partial;
                &&& r.text is Some == news
                &&& r.text matches Some(t) ==> t@ == partial@
                &&& final(self)@ == (SessionView {
                    frames_since_partial: 0,
                    last_partial: if news {
                        partial@
                    } else {
                        old(self)@.last_partial
                    },
                    ..old(self)@
                })
                &&& r.nonempty == (final(self)@.last_partial.len() > 0)
                &&& news == old(self)@.news(partial@)
                &&& final(self)@ == old(self)@.stepped(SessionStep::Partial(partial@))
            }),
    {
        let news = !partial.as_str().is_empty() && !same(
            partial.as_str(),
            self.last_partial.as_str(),
        );
        let mut text: Option<String> = None;
        if news {
            self.last_partial = partial.clone();
            text = Some(partial);
        }
        self.frames_since_partial = 0;
        PartialOut { text, nonempty: !self.last_partial.as_str().is_empty() }
    }

    /// Starts over.
    pub fn reset(&mut self)
        ensures
            final(self)@ == SessionView::fresh(),
    {
        *self = ActiveSession::new();
    }

    /// The sentence ended with the definitive `text`: hands over exactly the audio that was
    /// heard, and starts over.
    pub fn finalize(&mut self, text: String) -> (r: StreamFinal)
        ensures
            r.text == text,
            r.pcm matches Some(p) && p@ == old(self)@.pcm,
            r.fed == old(self)@.fed,
            final(self)@ == SessionView::fresh(),
    {
        let fed: u32 = self.fed;
        let mut pcm: Vec<i16> = Vec::new();
        std::mem::swap(&mut pcm, &mut self.pcm);
        *self = ActiveSession::new();
        StreamFinal { text, pcm: Some(pcm), fed }
    }
}

/// What is handed over where no streaming recogniser is configured, or its worker is gone.
pub fn no_stream_final() -> (r: StreamFinal)
    ensures
        r.text@ == Seq::<char>::empty(),
        r.pcm is None,
        r.fed == 0,
{
    StreamFinal { text: String::new(), pcm: None, fed: 0 }
}

/// Law: the samples of two runs of frames are the one's followed by the other's.
pub proof fn law_frames_are_heard_in_order(a: Seq<Vec<i16>>, b: Seq<Vec<i16>>, frame: Vec<i16>)
    ensures
        all_samples(a + b) == all_samples(a) + all_samples(b),
        all_samples(seq![frame]) == frame@,
{
    assert(seq![frame].drop_last() =~= Seq::<Vec<i16>>::empty());
    assert(all_samples(Seq::<Vec<i16>>::empty()) =~= Seq::<i16>::empty());
    assert(all_samples(seq![frame]) =~= frame@);
    lemma_joined_frames(a, b);
}

/// A session after some steps.
pub open spec fn stepped_all(v: SessionView, steps: Seq<SessionStep>) -> SessionView
    decreases steps.len(),
{
    if steps.len() == 0 {
        v
    } else {
        stepped_all(v, steps.drop_last()).stepped(steps.last())
    }
}

/// The frames that come with some steps, in order.
pub open spec fn frames_in(steps: Seq<SessionStep>) -> Seq<Vec<i16>>
    decreases steps.len(),
{
    if steps.len() == 0 {
        Seq::empty()
    } else {
        frames_in(steps.drop_last()) + (match steps.last() {
            SessionStep::Onset(lead_in) => lead_in,
            SessionStep::Feed(frame) => seq![frame],
            SessionStep::Partial(_) => Seq::empty(),
        })
    }
}

/// Law: a session's audio is exactly what it heard: every frame once, in order, those from before
/// the speech before the speech; and it counts them all.
pub proof fn law_the_audio_is_what_was_heard(steps: Seq<SessionStep>)
    ensures
        stepped_all(SessionView::fresh(), steps).pcm == all_samples(frames_in(steps)),
        stepped_all(SessionView::fresh(), steps).fed == frames_in(steps).len(),
    decreases steps.len(),
{
    if steps.len() > 0 {
        let rest = steps.drop_last();
        law_the_audio_is_what_was_heard(rest);
        let heard = frames_in(rest);
        match steps.last() {
            SessionStep::Onset(lead_in) => {
                lemma_joined_frames(heard, lead_in);
            },
            SessionStep::Feed(frame) => {
                let one = seq![frame];
                assert((heard + one).drop_last() =~= heard);
            },
            SessionStep::Partial(_) => {
                assert(heard + Seq::<Vec<i16>>::empty() =~= heard);
            },
        }
    }
}

proof fn lemma_joined_frames(a: Seq<Vec<i16>>, b: Seq<Vec<i16>>)
    ensures
        all_samples(a + b) == all_samples(a) + all_samples(b),
    decreases b.len(),
{
    if b.len() == 0 {
        assert(a + b =~= a);
    } else {
        assert((a + b).drop_last() =~= a + b.drop_last());
        lemma_joined_frames(a, b.drop_last());
    }
    assert(all_samples(a + b) =~= all_samples(a) + all_samples(b));
}

/// The frames, one step each.
pub open spec fn feeds(frames: Seq<Vec<i16>>) -> Seq<SessionStep> {
    Seq::new(frames.len(), |i: int| SessionStep::Feed(frames[i]))
}

/// Law: a partial is due once nine frames were heard since the last one, or since speech set in,
/// and not before.
pub proof fn law_partials_are_due_after_nine_frames(
    v: SessionView,
    lead_in: Seq<Vec<i16>>,
    text: Seq<char>,
    frames: Seq<Vec<i16>>,
)
    ensures
        stepped_all(v.stepped(SessionStep::Onset(lead_in)), feeds(frames)).due() <==> frames.len()
            >= 9,
        stepped_all(v.stepped(SessionStep::Partial(text)), feeds(frames)).due() <==> frames.len()
            >= 9,
{
    lemma_feeds_count(v.stepped(SessionStep::Onset(lead_in)), frames);
    lemma_feeds_count(v.stepped(SessionStep::Partial(text)), frames);
}

proof fn lemma_feeds_count(v: SessionView, frames: Seq<Vec<i16>>)
    ensures
        stepped_all(v, feeds(frames)).frames_since_partial == v.frames_since_partial + frames.len(),
    decreases frames.len(),
{
    if frames.len() > 0 {
        assert(feeds(frames).drop_last() =~= feeds(frames.drop_last()));
        lemma_feeds_count(v, frames.drop_last());
    }
}

/// Law: a partial text is told once: the same text again is no news, and neither is an empty one,
/// which leaves the text before it standing.
pub proof fn law_partials_are_told_once(v: SessionView, t: Seq<char>)
    ensures
        t.len() > 0 ==> !v.stepped(SessionStep::Partial(t)).news(t),
        t.len() > 0 ==> v.stepped(SessionStep::Partial(t)).last_partial == t,
        t.len() == 0 ==> !v.news(t) && v.stepped(SessionStep::Partial(t)).last_partial
            == v.last_partial,
        t.len() > 0 && t != v.last_partial ==> v.news(t),
{
}

/// Law: the end of a sentence hands over its definitive text and exactly the audio that was heard,
/// and the session starts over.
pub proof fn law_the_end_hands_over_what_was_heard(s: &mut ActiveSession, text: String, r: StreamFinal)
    requires
        call_ensures(ActiveSession::finalize, (s, text), r),
    ensures
        r.text == text,
        r.pcm matches Some(p) && p@ == old(s)@.pcm,
        r.fed == old(s)@.fed,
        final(s)@.pcm.len() == 0 && final(s)@.fed == 0 && final(s)@.last_partial.len() == 0
            && final(s)@.frames_since_partial == 0,
{
}

/// Law: a partial text is told exactly if it says something that the last one did not; there is live
/// text once one was told.
pub proof fn law_a_partial_is_told_where_it_is_news(s: &mut ActiveSession, t: String, r: PartialOut)
    requires
        call_ensures(ActiveSession::on_partial, (s, t), r),
    ensures
        r.text is Some <==> t@.len() > 0 && t@ != old(s)@.last_partial,
        r.text matches Some(x) ==> x@ == t@ && final(s)@.last_partial == t@,
        r.text is None ==> final(s)@.last_partial == old(s)@.last_partial,
        r.nonempty <==> final(s)@.last_partial.len() > 0,
        final(s)@.pcm == old(s)@.pcm,
{
}

} // verus!
