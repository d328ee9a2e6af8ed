//! The audio front end: cutting the incoming samples into frames, gating them by detected
//! speech, and queueing what the consume loop has to know of each frame.

use std::collections::VecDeque;

use vstd::prelude::*;

use crate::models::VadEvent;
use crate::pipeline::stream::{all_samples, StreamCmd};

verus! {

/// Samples per frame: 32 ms.
pub const WINDOW: usize = 512;

/// Frames before the onset that are fed to the streaming session when speech sets in.
pub const LEAD_IN_FRAMES: usize = 16;

/// Frames that may wait for the consume loop: ten minutes.
pub const FRONT_Q_CAP: usize = 18_750;

/// A source that was silent for longer than this during speech is taken to have stopped.
pub const STARVE_AFTER_US: u64 = 2_000_000;

/// At most one frame of silence is made up in this time.
pub const STARVE_EVERY_US: u64 = 100_000;

/// Samples in, frames out.
pub struct Reframer {
    pending: Vec<i16>,
}

impl View for Reframer {
    type V = Seq<i16>;

    closed spec fn view(&self) -> Seq<i16> {
        self.pending@
    }
}

impl Reframer {
    /// Nothing pending.
    pub fn new() -> (r: Self)
        ensures
            r@ == Seq::<i16>::empty(),
    {
        Reframer { pending: Vec::new() }
    }

    /// Takes a chunk of any size and hands out all full frames. No sample is lost, doubled or
    /// moved: the frames followed by what stays pending are what was pending followed by the
    /// chunk.
    pub fn push(&mut self, chunk: &[i16]) -> (r: Vec<Vec<i16>>)
        ensures
            all_samples(r@) + final(self)@ == old(self)@ + chunk@,
            forall|i: int| 0 <= i < r@.len() ==> (#[trigger] r@[i])@.len() == WINDOW,
            final(self)@.len() < WINDOW,
    {
        let ghost whole = self.pending@ + chunk@;
        self.pending.extend_from_slice(chunk);
        proof {
            assert(self.pending@ =~= whole);
        }
        let mut frames: Vec<Vec<i16>> = Vec::new();
        proof {
            assert(all_samples(frames@) + self.pending@ =~= whole);
        }
        while self.pending.len() >= WINDOW
            invariant
                all_samples(frames@) + self.pending@ == whole,
                forall|i: int| 0 <= i < frames@.len() ==> (#[trigger] frames@[i])@.len() == WINDOW,
            decreases self.pending@.len(),
        {
            let ghost before = frames@;
            let ghost waiting = self.pending@;
            let rest = self.pending.split_off(WINDOW);
            let mut frame = rest;
            std::mem::swap(&mut frame, &mut self.pending);
            frames.push(frame);
            proof {
                assert(frame@ =~= waiting.take(WINDOW as int));
                assert(self.pending@ =~= waiting.skip(WINDOW as int));
                assert(frames@.drop_last() =~= before);
                assert(all_samples(frames@) =~= all_samples(before) + frame@);
                assert(all_samples(frames@) + self.pending@ =~= whole);
            }
        }
        frames
    }
}

/// Decides for each frame whether it goes to the streaming session.
pub struct Gate {
    speech_active: bool,
    lead_in: Vec<Vec<i16>>,
}

/// Its state as a value: whether the last frame was speech, and the frames kept for the next
/// onset.
pub struct GateView {
    pub speech_active: bool,
    pub lead_in: Seq<Seq<i16>>,
}

/// Frames as sample sequences.
pub open spec fn frame_views(frames: Seq<Vec<i16>>) -> Seq<Seq<i16>> {
    Seq::new(frames.len(), |i: int| frames[i]@)
}

/// The last frames, at most [`LEAD_IN_FRAMES`], with one more.
pub open spec fn lead_in_with(lead_in: Seq<Seq<i16>>, frame: Seq<i16>) -> Seq<Seq<i16>> {
    let all = lead_in.push(frame);
    if all.len() > LEAD_IN_FRAMES {
        all.skip(1)
    } else {
        all
    }
}

impl View for Gate {
    type V = GateView;

    closed spec fn view(&self) -> GateView {
        GateView { speech_active: self.speech_active, lead_in: frame_views(self.lead_in@) }
    }
}

/// What becomes of a frame.
pub struct GateOut {
    /// The time of onset, on the frame at which speech sets in.
    pub onset: Option<i64>,
    /// What the streaming session is told, in order.
    pub commands: Vec<StreamCmd>,
}

impl GateView {
    /// After a frame.
    pub open spec fn stepped(self, frame: Seq<i16>, detected: bool) -> GateView {
        GateView {
            speech_active: detected,
            lead_in: if !detected {
                lead_in_with(self.lead_in, frame)
            } else if self.speech_active {
                self.lead_in
            } else {
                Seq::empty()
            },
        }
    }

    /// The frames that the session is handed on a frame.
    pub open spec fn handed(self, frame: Seq<i16>, detected: bool) -> Seq<Seq<i16>> {
        if !detected {
            Seq::empty()
        } else if self.speech_active {
            seq![frame]
        } else {
            self.lead_in.push(frame)
        }
    }
}

/// The frames that come with some commands, in order.
pub open spec fn frames_of(commands: Seq<StreamCmd>) -> Seq<Seq<i16>>
    decreases commands.len(),
{
    if commands.len() == 0 {
        Seq::empty()
    } else {
        frames_of(commands.drop_last()) + (match commands.last() {
            StreamCmd::Onset { lead_in, .. } => frame_views(lead_in@),
            StreamCmd::Feed(frame) => seq![frame@],
            _ => Seq::empty(),
        })
    }
}

impl Gate {
    /// No speech yet, nothing kept.
    pub fn new() -> (r: Self)
        ensures
            r@ == (GateView { speech_active: false, lead_in: Seq::empty() }),
    {
        let r = Gate { speech_active: false, lead_in: Vec::new() };
        proof {
            assert(r@.lead_in =~= Seq::empty());
        }
        r
    }

    /// One frame while the streaming session listens. Where speech sets in, the session first
    /// hears the frames kept from before; speech goes through; silence is kept for the next
    /// onset, up to the bound.
    pub fn on_frame(&mut self, frame: Vec<i16>, detected: bool, now_us: i64) -> (r: GateOut)
        requires
            old(self)@.lead_in.len() <= LEAD_IN_FRAMES,
        ensures
            final(self)@.lead_in.len() <= LEAD_IN_FRAMES,
            final(self)@.speech_active == detected,
            r.onset is Some == (detected && !old(self)@.speech_active),
            r.onset matches Some(at) ==> at == now_us,
            !detected ==> r.commands@.len() == 0 && final(self)@.lead_in == lead_in_with(
                old(self)@.lead_in,
                frame@,
            ),
            detected && old(self)@.speech_active ==> {
                &&& r.commands@.len() == 1
                &&& r.commands@[0] == StreamCmd::Feed(frame)
                &&& final(self)@.lead_in == old(self)@.lead_in
            },
            detected && !old(self)@.speech_active ==> {
                &&& r.commands@.len() == 2
                &&& r.commands@[0] matches StreamCmd::Onset { at, lead_in }
                &&& at == now_us
                &&& frame_views(lead_in@) == old(self)@.lead_in
                &&& r.commands@[1] == StreamCmd::Feed(frame)
                &&& final(self)@.lead_in == Seq::<Seq<i16>>::empty()
            },
            final(self)@ == old(self)@.stepped(frame@, detected),
            frames_of(r.commands@) == old(self)@.handed(frame@, detected),
    {
        let ghost before = self@.lead_in;
        let ghost whole = frame@;
        let mut onset: Option<i64> = None;
        let mut commands: Vec<StreamCmd> = Vec::new();
        if detected {
            if !self.speech_active {
                onset = Some(now_us);
                let mut lead_in: Vec<Vec<i16>> = Vec::new();
                std::mem::swap(&mut lead_in, &mut self.lead_in);
                commands.push(StreamCmd::Onset { at: now_us, lead_in });
                proof {
                    assert(self@.lead_in =~= Seq::empty());
                }
            }
            commands.push(StreamCmd::Feed(frame));
        } else {
            let ghost f = frame@;
            self.lead_in.push(frame);
            proof {
                assert(self@.lead_in =~= before.push(f));
            }
            if self.lead_in.len() > LEAD_IN_FRAMES {
                let _ = self.lead_in.remove(0);
                proof {
                    assert(self@.lead_in =~= before.push(f).skip(1));
                }
            }
        }
        self.speech_active = detected;
        proof {
            reveal_with_fuel(frames_of, 3);
            assert(frames_of(commands@) =~= old(self)@.handed(whole, detected));
        }
        GateOut { onset, commands }
    }

    /// The consume loop sleeps: nothing is forwarded, and the next speech starts afresh.
    pub fn on_sleep(&mut self)
        ensures
            final(self)@ == (GateView { speech_active: false, lead_in: Seq::empty() }),
    {
        self.speech_active = false;
        self.lead_in.clear();
        proof {
            assert(self@.lead_in =~= Seq::empty());
        }
    }

    /// One frame: gated while the session listens, dropped while the loop sleeps, and of no
    /// interest where no streaming recogniser is configured.
    pub fn route(
        &mut self,
        frame: Vec<i16>,
        detected: bool,
        has_stream: bool,
        port_open: bool,
        now_us: i64,
    ) -> (r: GateOut)
        requires
            old(self)@.lead_in.len() <= LEAD_IN_FRAMES,
        ensures
            final(self)@.lead_in.len() <= LEAD_IN_FRAMES,
            !has_stream ==> final(self)@ == old(self)@ && r.onset is None && r.commands@.len() == 0,
            has_stream && !port_open ==> {
                &&& final(self)@ == (GateView { speech_active: false, lead_in: Seq::empty() })
                &&& r.onset is None
                &&& r.commands@.len() == 0
            },
            has_stream && port_open ==> {
                &&& final(self)@.speech_active == detected
                &&& r.onset is Some == (detected && !old(self)@.speech_active)
                &&& r.onset matches Some(at) ==> at == now_us
                &&& !detected ==> r.commands@.len() == 0 && final(self)@.lead_in == lead_in_with(
                    old(self)@.lead_in,
                    frame@,
                )
                &&& detected ==> r.commands@.len() > 0 && r.commands@.last() == StreamCmd::Feed(
                    frame,
                ) && r.commands@.len() == (if old(self)@.speech_active {
                    1int
                } else {
                    2int
                })
                &&& detected && old(self)@.speech_active ==> final(self)@.lead_in == old(
                    self,
                )@.lead_in
                &&& detected && !old(self)@.speech_active ==> {
                    &&& r.commands@[0] matches StreamCmd::Onset { at, lead_in }
                    &&& at == now_us
                    &&& frame_views(lead_in@) == old(self)@.lead_in
                    &&& final(self)@.lead_in == Seq::<Seq<i16>>::empty()
                }
            },
    {
        if !has_stream {
            return GateOut { onset: None, commands: Vec::new() };
        }
        if !port_open {
            self.on_sleep();
            return GateOut { onset: None, commands: Vec::new() };
        }
        self.on_frame(frame, detected, now_us)
    }
}

/// What the consume loop has to know of one frame.
pub struct FrontEvent {
    pub detected: bool,
    pub events: Vec<VadEvent>,
    pub onset: Option<i64>,
}

/// The queue with one more event; a full one loses its oldest first.
pub open spec fn queued(q: Seq<FrontEvent>, e: FrontEvent) -> Seq<FrontEvent> {
    (if q.len() >= FRONT_Q_CAP {
        q.skip(1)
    } else {
        q
    }).push(e)
}

/// The queue after some events, one after the other.
pub open spec fn queued_all(q: Seq<FrontEvent>, events: Seq<FrontEvent>) -> Seq<FrontEvent>
    decreases events.len(),
{
    if events.len() == 0 {
        q
    } else {
        queued(queued_all(q, events.drop_last()), events.last())
    }
}

/// Law: whatever comes, of frames and of silence, the queue never outgrows its capacity, and what
/// came last is the last to leave.
pub proof fn law_the_queue_is_bounded(q: Seq<FrontEvent>, events: Seq<FrontEvent>)
    requires
        q.len() <= FRONT_Q_CAP,
    ensures
        queued_all(q, events).len() <= FRONT_Q_CAP,
        events.len() > 0 ==> queued_all(q, events).last() == events.last(),
    decreases events.len(),
{
    if events.len() > 0 {
        law_the_queue_is_bounded(q, events.drop_last());
    }
}

/// Frames waiting for the consume loop, oldest first.
pub struct FrontQueue {
    queue: VecDeque<FrontEvent>,
}

impl View for FrontQueue {
    type V = Seq<FrontEvent>;

    closed spec fn view(&self) -> Seq<FrontEvent> {
        self.queue@
    }
}

impl FrontQueue {
    /// An empty queue.
    pub fn new() -> (r: Self)
        ensures
            r@ == Seq::<FrontEvent>::empty(),
    {
        FrontQueue { queue: VecDeque::new() }
    }

    /// Appends a frame; a full queue loses its oldest.
    pub fn push(&mut self, e: FrontEvent)
        ensures
            final(self)@ == queued(old(self)@, e),
            old(self)@.len() <= FRONT_Q_CAP ==> final(self)@.len() <= FRONT_Q_CAP,
    {
        if self.queue.len() >= FRONT_Q_CAP {
            let _ = self.queue.pop_front();
            proof {
                assert(self.queue@ =~= old(self)@.skip(1));
            }
        }
        self.queue.push_back(e);
    }

    /// Appends the events of a made-up frame of silence, where it has any; a full queue loses its
    /// oldest. Says whether there is something new.
    pub fn push_silence(&mut self, events: Vec<VadEvent>) -> (r: bool)
        ensures
            r == (events@.len() > 0),
            !r ==> final(self)@ == old(self)@,
            r ==> final(self)@ == queued(
                old(self)@,
                (FrontEvent { detected: false, events, onset: None }),
            ),
            old(self)@.len() <= FRONT_Q_CAP ==> final(self)@.len() <= FRONT_Q_CAP,
    {
        if events.len() > 0 {
            self.push(FrontEvent { detected: false, events, onset: None });
            true
        } else {
            false
        }
    }

    /// Takes the oldest frame.
    pub fn pop(&mut self) -> (r: Option<FrontEvent>)
        ensures
            old(self)@.len() == 0 ==> r is None && final(self)@ == old(self)@,
            old(self)@.len() > 0 ==> r == Some(old(self)@[0]) && final(self)@ == old(self)@.skip(1),
    {
        let r = self.queue.pop_front();
        proof {
            if old(self)@.len() > 0 {
                assert(self.queue@ =~= old(self)@.skip(1));
            }
        }
        r
    }

    /// How many frames wait.
    pub fn len(&self) -> (r: usize)
        ensures
            r == self@.len(),
    {
        self.queue.len()
    }
}

/// Is a frame of silence to be made up: no data for too long, a partial still standing, and no
/// such frame a moment ago?
pub fn starved(since_data_us: u64, since_feed_us: u64, partial_live: bool) -> (r: bool)
    ensures
        r == (since_data_us > STARVE_AFTER_US && partial_live && since_feed_us >= STARVE_EVERY_US),
{
    since_data_us > STARVE_AFTER_US && partial_live && since_feed_us >= STARVE_EVERY_US
}

/// Law: the queue is first in, first out: what is in it are the newest events, in the order in
/// which they came, as many as it holds.
pub proof fn law_the_queue_keeps_the_newest_in_order(q: Seq<FrontEvent>, events: Seq<FrontEvent>)
    requires
        q.len() <= FRONT_Q_CAP,
    ensures
        ({
            let all = q + events;
            queued_all(q, events) == if all.len() > FRONT_Q_CAP {
                all.skip(all.len() - FRONT_Q_CAP)
            } else {
                all
            }
        }),
    decreases events.len(),
{
    let all = q + events;
    if events.len() == 0 {
        assert(all =~= q);
    } else {
        let rest = events.drop_last();
        law_the_queue_keeps_the_newest_in_order(q, rest);
        let before = q + rest;
        assert(before.push(events.last()) =~= all);
        if all.len() > FRONT_Q_CAP {
            assert(queued_all(q, events) =~= all.skip(all.len() - FRONT_Q_CAP));
        } else {
            assert(queued_all(q, events) =~= all);
        }
    }
}

/// What has become of a gate after some frames, each with speech in it or not.
pub open spec fn gate_all(v: GateView, frames: Seq<(Seq<i16>, bool)>) -> GateView
    decreases frames.len(),
{
    if frames.len() == 0 {
        v
    } else {
        gate_all(v, frames.drop_last()).stepped(frames.last().0, frames.last().1)
    }
}

/// The frames that the session is handed over some frames.
pub open spec fn handed_all(v: GateView, frames: Seq<(Seq<i16>, bool)>) -> Seq<Seq<i16>>
    decreases frames.len(),
{
    if frames.len() == 0 {
        Seq::empty()
    } else {
        handed_all(v, frames.drop_last()) + gate_all(v, frames.drop_last()).handed(
            frames.last().0,
            frames.last().1,
        )
    }
}

/// Law: nothing is lost or doubled on the way to the session. While no pause is longer than what is
/// kept, the frames handed over, followed by those kept, are all frames in their order.
pub proof fn law_the_session_hears_every_frame_once(frames: Seq<(Seq<i16>, bool)>)
    requires
        forall|i: int|
            0 <= i < frames.len() && !frames[i].1 ==> (#[trigger] gate_all(
                GateView { speech_active: false, lead_in: Seq::empty() },
                frames.take(i),
            )).lead_in.len() < 16,
    ensures
        ({
            let v = GateView { speech_active: false, lead_in: Seq::empty() };
            &&& handed_all(v, frames) + gate_all(v, frames).lead_in == frames.map_values(
                |f: (Seq<i16>, bool)| f.0,
            )
            &&& gate_all(v, frames).speech_active ==> gate_all(v, frames).lead_in.len() == 0
        }),
    decreases frames.len(),
{
    let v = GateView { speech_active: false, lead_in: Seq::empty() };
    let all = frames.map_values(|f: (Seq<i16>, bool)| f.0);
    if frames.len() == 0 {
        assert(handed_all(v, frames) + gate_all(v, frames).lead_in =~= all);
    } else {
        let rest = frames.drop_last();
        let n = frames.len() - 1;
        assert forall|i: int| 0 <= i < rest.len() && !rest[i].1 implies (#[trigger] gate_all(
            v,
            rest.take(i),
        )).lead_in.len() < 16 by {
            assert(rest[i] == frames[i]);
            assert(rest.take(i) =~= frames.take(i));
            assert(gate_all(v, frames.take(i)).lead_in.len() < 16);
        }
        law_the_session_hears_every_frame_once(rest);
        let before = rest.map_values(|f: (Seq<i16>, bool)| f.0);
        let w = gate_all(v, rest);
        assert(frames.take(n) =~= rest);
        assert(all =~= before.push(frames.last().0));
        if !frames.last().1 {
            assert(gate_all(v, frames.take(n)).lead_in.len() < 16);
            assert(handed_all(v, frames) =~= handed_all(v, rest));
        }
        assert(handed_all(v, frames) + gate_all(v, frames).lead_in =~= all);
    }
}

/// Law: what is kept for the next onset are the last quiet frames, sixteen at most, in their order.
pub proof fn law_the_last_quiet_frames_are_kept(v: GateView, frames: Seq<(Seq<i16>, bool)>)
    requires
        v.lead_in.len() == 0,
        forall|i: int| 0 <= i < frames.len() ==> !(#[trigger] frames[i]).1,
    ensures
        ({
            let kept = gate_all(v, frames).lead_in;
            &&& kept.len() == if frames.len() > 16 {
                16int
            } else {
                frames.len() as int
            }
            &&& forall|i: int|
                0 <= i < kept.len() ==> #[trigger] kept[i] == frames[frames.len() - kept.len() + i].0
            &&& handed_all(v, frames).len() == 0
        }),
    decreases frames.len(),
{
    if frames.len() > 0 {
        let rest = frames.drop_last();
        assert forall|i: int| 0 <= i < rest.len() implies !(#[trigger] rest[i]).1 by {
            assert(rest[i] == frames[i]);
        }
        law_the_last_quiet_frames_are_kept(v, rest);
        assert(!frames[frames.len() - 1].1);
        let before = gate_all(v, rest).lead_in;
        let kept = gate_all(v, frames).lead_in;
        assert forall|i: int| 0 <= i < kept.len() implies #[trigger] kept[i] == frames[frames.len()
            - kept.len() + i].0 by {
            if i < kept.len() - 1 {
                let k = if before.len() < 16 {
                    i
                } else {
                    i + 1
                };
                assert(kept[i] == before[k]);
            }
        }
    }
}

/// Law: the session starves exactly if nothing has come for more than two seconds while there is
/// live text, and is fed silence ten times a second at most.
pub proof fn law_starving_takes_two_seconds(since_data: u64, since_feed: u64, live: bool, r: bool)
    requires
        call_ensures(starved, (since_data, since_feed, live), r),
    ensures
        r <==> since_data > 2_000_000 && since_feed >= 100_000 && live,
{
}

/// Law: what came first is taken first, and taking nothing from an empty queue changes nothing.
pub proof fn law_the_oldest_event_is_taken(
    q: &mut FrontQueue,
    w: &mut FrontQueue,
    e: FrontEvent,
    r: Option<FrontEvent>,
)
    requires
        call_ensures(FrontQueue::push, (q, e), ()),
        *old(w) == *final(q),
        call_ensures(FrontQueue::pop, (w,), r),
        old(q)@.len() < 18_750,
    ensures
        r is Some,
        old(q)@.len() == 0 ==> r == Some(e) && final(w)@.len() == 0,
        old(q)@.len() > 0 ==> r == Some(old(q)@[0]) && final(w)@ == old(q)@.skip(1).push(e),
{
    if old(q)@.len() > 0 {
        assert(final(w)@ =~= old(q)@.skip(1).push(e));
    }
}

/// Law: while the session listens, a frame of speech reaches it, after what was kept where speech
/// sets in; a quiet frame never does, and neither does any frame while the loop sleeps.
pub proof fn law_speech_reaches_a_listening_session(
    g: &mut Gate,
    frame: Vec<i16>,
    detected: bool,
    has_stream: bool,
    port_open: bool,
    now_us: i64,
    r: GateOut,
)
    requires
        call_ensures(Gate::route, (g, frame, detected, has_stream, port_open, now_us), r),
    ensures
        r.commands@.len() > 0 <==> has_stream && port_open && detected,
        r.commands@.len() > 0 ==> r.commands@[r.commands@.len() - 1] == StreamCmd::Feed(frame),
        r.onset is Some <==> has_stream && port_open && detected && !old(g)@.speech_active,
        r.onset matches Some(at) ==> at == now_us && (r.commands@[0] matches StreamCmd::Onset {
            at: told,
            lead_in,
        } && told == now_us && frame_views(lead_in@) == old(g)@.lead_in),
        has_stream && !port_open ==> !final(g)@.speech_active && final(g)@.lead_in.len() == 0,
{
}

/// Law: silence made up for a starved detector is queued only where it leads to something, and never
/// counts as speech.
pub proof fn law_made_up_silence_is_never_speech(q: &mut FrontQueue, events: Vec<VadEvent>, r: bool)
    requires
        call_ensures(FrontQueue::push_silence, (q, events), r),
    ensures
        r <==> events@.len() > 0,
        !r ==> final(q)@ == old(q)@,
        r ==> {
            let n = final(q)@.len() as int;
            &&& n > 0
            &&& !final(q)@[n - 1].detected
            &&& final(q)@[n - 1].onset is None
            &&& final(q)@[n - 1].events == events
        },
{
}

/// Law: audio is cut into frames of 512 samples without losing, doubling or moving any: what comes
/// out, followed by what waits, is what waited, followed by what came.
pub proof fn law_audio_is_cut_without_loss(f: &mut Reframer, chunk: &[i16], r: Vec<Vec<i16>>)
    requires
        call_ensures(Reframer::push, (f, chunk), r),
    ensures
        all_samples(r@) + final(f)@ == old(f)@ + chunk@,
        forall|i: int| 0 <= i < r@.len() ==> (#[trigger] r@[i])@.len() == 512,
        final(f)@.len() < 512,
{
}

} // verus!
