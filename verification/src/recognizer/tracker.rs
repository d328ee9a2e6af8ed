//! The boundary rules of the one-loop recogniser. The start of a sentence is only reported with
//! its end here, so paragraphs open late and carry ids that do not follow one another.

use vstd::prelude::*;

use crate::clock::subsec_nanos;
use crate::pipeline::tracker::larger;
use crate::types::{clone_sentences, ParagraphId, SentenceId, SettledParagraph, VadSentence};

verus! {

/// Spreads the counter over all bits of an id.
pub const ID_SPREAD: u64 = 0x9E37_79B9_7F4A_7C15;

/// The open paragraph.
struct OpenParagraph {
    paragraph_id: ParagraphId,
    sentences: Vec<VadSentence>,
    active: bool,
}

/// Groups sentences into paragraphs: a gap of at least `merge_gap_us` closes one.
pub struct ParagraphTracker {
    merge_gap_us: i64,
    next_sentence_id: SentenceId,
    last_win_id: ParagraphId,
    open: Option<OpenParagraph>,
}

/// The open paragraph as a value.
pub struct OpenState {
    pub id: u64,
    pub sentences: Seq<VadSentence>,
    pub active: bool,
}

/// The tracker as a value.
pub struct TrackState {
    pub merge_gap: int,
    pub next_sentence: int,
    pub last_id: u64,
    pub open: Option<OpenState>,
}

/// The id after `last` when the clock stands at `nanos` within its second: never 0.
pub open spec fn mixed_id(nanos: u64, last: u64) -> u64 {
    let id = nanos ^ last.wrapping_add(1).wrapping_mul(ID_SPREAD);
    if id == 0 {
        1
    } else {
        id
    }
}

impl TrackState {
    /// Sentence ids start at one.
    pub open spec fn wf(self) -> bool {
        1 <= self.next_sentence <= u64::MAX
    }

    /// A tracker that has seen nothing.
    pub open spec fn initial(merge_gap: int) -> TrackState {
        TrackState { merge_gap, next_sentence: 1, last_id: 0, open: None }
    }

    /// With a paragraph open: the one that is, or a fresh empty one.
    pub open spec fn opened(self, nanos: u64) -> TrackState {
        if self.open is Some {
            self
        } else {
            let id = mixed_id(nanos, self.last_id);
            TrackState {
                last_id: id,
                open: Some(OpenState { id, sentences: Seq::empty(), active: false }),
                ..self
            }
        }
    }

    /// After a start of speech.
    pub open spec fn with_sos(self, nanos: u64) -> TrackState {
        let o = self.opened(nanos);
        TrackState {
            next_sentence: o.next_sentence + 1,
            open: Some(OpenState { active: true, ..o.open->0 }),
            ..o
        }
    }

    /// Does speech that sets in at `onset` start a new paragraph?
    pub open spec fn gap_closes(self, onset: int) -> bool {
        &&& self.open matches Some(w)
        &&& w.sentences.len() > 0
        &&& onset - w.sentences.last().end_us >= self.merge_gap
    }

    /// With no paragraph open.
    pub open spec fn closed(self) -> TrackState {
        TrackState { open: None, ..self }
    }

    /// After a completed sentence.
    pub open spec fn with_eos(self, s: VadSentence, nanos: u64) -> TrackState {
        let base = if self.gap_closes(s.start_us as int) {
            self.closed()
        } else {
            self
        };
        let o = base.opened(nanos);
        TrackState {
            open: Some(
                OpenState { active: false, sentences: (o.open->0).sentences.push(s), ..o.open->0 },
            ),
            ..o
        }
    }

    /// May the open paragraph be closed: no sentence under way, and one completed?
    pub open spec fn can_force(self) -> bool {
        &&& self.open matches Some(w)
        &&& !w.active
        &&& w.sentences.len() > 0
    }

    /// Has the open paragraph been quiet for the whole merge gap at `now`?
    pub open spec fn run_out(self, now: int, speaking: bool) -> bool {
        &&& self.can_force()
        &&& !speaking
        &&& now - (self.open->0).sentences.last().end_us >= self.merge_gap
    }

    /// How long until the open paragraph runs out.
    pub open spec fn deadline(self, now: int, speaking: bool) -> Option<int> {
        if self.can_force() && !speaking {
            Some(larger(self.merge_gap - (now - (self.open->0).sentences.last().end_us), 0))
        } else {
            None
        }
    }

    /// The ids announced for the sentence being spoken. Before a paragraph is open its id is a
    /// guess; the events of the sentence carry the real one.
    pub open spec fn next_ids(self) -> (u64, int) {
        (
            match self.open {
                Some(w) => w.id,
                None => if self.last_id == u64::MAX {
                    1
                } else {
                    (self.last_id + 1) as u64
                },
            },
            self.next_sentence,
        )
    }
}

/// `p` is the open paragraph of `v`, closed.
pub open spec fn settles(p: SettledParagraph, v: TrackState) -> bool {
    &&& v.open matches Some(w)
    &&& p.paragraph_id == w.id
    &&& p.sentences@ == w.sentences
}

impl View for ParagraphTracker {
    type V = TrackState;

    closed spec fn view(&self) -> TrackState {
        TrackState {
            merge_gap: self.merge_gap_us as int,
            next_sentence: self.next_sentence_id as int,
            last_id: self.last_win_id,
            open: match self.open {
                Some(w) => Some(
                    OpenState { id: w.paragraph_id, sentences: w.sentences@, active: w.active },
                ),
                None => None,
            },
        }
    }
}

impl ParagraphTracker {
    /// A tracker that closes paragraphs after `merge_gap_us` of silence.
    pub fn new(merge_gap_us: i64) -> (r: Self)
        ensures
            r@ == TrackState::initial(merge_gap_us as int),
            r@.wf(),
    {
        ParagraphTracker { merge_gap_us, next_sentence_id: 1, last_win_id: 0, open: None }
    }

    fn next_random_win_id(&mut self, nanos: u64) -> (r: ParagraphId)
        ensures
            r == mixed_id(nanos, old(self)@.last_id),
            final(self)@ == (TrackState { last_id: r, ..old(self)@ }),
    {
        let counter: u64 = self.last_win_id.wrapping_add(1);
        let mut id: u64 = nanos ^ counter.wrapping_mul(ID_SPREAD);
        if id == 0 {
            id = 1;
        }
        self.last_win_id = id;
        id
    }

    fn open_at(&mut self, nanos: u64)
        ensures
            final(self)@ == old(self)@.opened(nanos),
    {
        if self.open.is_none() {
            let paragraph_id: u64 = self.next_random_win_id(nanos);
            self.open = Some(
                OpenParagraph { paragraph_id, sentences: Vec::new(), active: false },
            );
        }
    }

    /// A start of speech, the clock standing at `nanos` within its second: a sentence id is
    /// handed out and its sentence runs.
    pub fn on_sos_at(&mut self, nanos: u64) -> (r: SentenceId)
        requires
            old(self)@.wf(),
            old(self)@.next_sentence < u64::MAX,
        ensures
            r == old(self)@.next_sentence,
            final(self)@ == old(self)@.with_sos(nanos),
            final(self)@.wf(),
    {
        self.open_at(nanos);
        let id: u64 = self.next_sentence_id;
        self.next_sentence_id = id + 1;
        match self.open.take() {
            Some(mut w) => {
                w.active = true;
                self.open = Some(w);
            },
            None => {},
        }
        id
    }

    /// A start of speech.
    pub fn on_sos(&mut self) -> (r: SentenceId)
        requires
            old(self)@.wf(),
            old(self)@.next_sentence < u64::MAX,
        ensures
            r == old(self)@.next_sentence,
            final(self)@.wf(),
            exists|nanos: u64|
                final(self)@ == #[trigger] old(self)@.with_sos(nanos),
    {
        let nanos: u64 = subsec_nanos();
        self.on_sos_at(nanos)
    }

    fn take_open(&mut self) -> (r: Option<SettledParagraph>)
        ensures
            final(self)@ == old(self)@.closed(),
            r is Some == old(self)@.open is Some,
            r matches Some(p) ==> settles(p, old(self)@),
    {
        match self.open.take() {
            Some(w) => Some(
                SettledParagraph { paragraph_id: w.paragraph_id, sentences: w.sentences },
            ),
            None => None,
        }
    }

    fn settle_if_gap(&mut self, onset: i64) -> (r: Option<SettledParagraph>)
        ensures
            r is Some == old(self)@.gap_closes(onset as int),
            r matches Some(p) ==> settles(p, old(self)@) && final(self)@ == old(self)@.closed(),
            r is None ==> final(self)@ == old(self)@,
    {
        let far = match &self.open {
            Some(w) => {
                let n: usize = w.sentences.len();
                n > 0 && (onset as i128) - (w.sentences[n - 1].end_us as i128)
                    >= self.merge_gap_us as i128
            },
            None => false,
        };
        if far {
            self.take_open()
        } else {
            None
        }
    }

    /// Records a completed sentence, the clock standing at `nanos` within its second: closes the
    /// open paragraph first where the gap to it is wide enough, then adds the sentence to the
    /// open one or to a fresh one. Returns what was closed, the paragraph of the sentence and all
    /// its sentences so far.
    pub fn on_eos_at(&mut self, sentence: VadSentence, nanos: u64) -> (r: (
        Option<SettledParagraph>,
        ParagraphId,
        Vec<VadSentence>,
    ))
        requires
            old(self)@.wf(),
        ensures
            final(self)@ == old(self)@.with_eos(sentence, nanos),
            final(self)@.wf(),
            r.0 is Some == old(self)@.gap_closes(sentence.start_us as int),
            r.0 matches Some(p) ==> settles(p, old(self)@),
            r.1 == (final(self)@.open->0).id,
            r.2@ == (final(self)@.open->0).sentences,
    {
        let settled = self.settle_if_gap(sentence.start_us);
        self.open_at(nanos);
        let mut id: u64 = 0;
        let mut all: Vec<VadSentence> = Vec::new();
        match self.open.take() {
            Some(mut w) => {
                w.active = false;
                w.sentences.push(sentence);
                id = w.paragraph_id;
                all = clone_sentences(&w.sentences);
                self.open = Some(w);
            },
            None => {},
        }
        (settled, id, all)
    }

    /// Records a completed sentence.
    pub fn on_eos(&mut self, sentence: VadSentence) -> (r: (
        Option<SettledParagraph>,
        ParagraphId,
        Vec<VadSentence>,
    ))
        requires
            old(self)@.wf(),
        ensures
            final(self)@.wf(),
            exists|nanos: u64| final(self)@ == #[trigger] old(self)@.with_eos(sentence, nanos),
            r.0 is Some == old(self)@.gap_closes(sentence.start_us as int),
            r.0 matches Some(p) ==> settles(p, old(self)@),
            r.1 == (final(self)@.open->0).id,
            r.2@ == (final(self)@.open->0).sentences,
    {
        let nanos: u64 = subsec_nanos();
        self.on_eos_at(sentence, nanos)
    }

    /// Looks at the clock: closes the open paragraph once it has been quiet for the merge gap.
    pub fn check_settle(&mut self, now: i64, speaking: bool) -> (r: Option<SettledParagraph>)
        requires
            old(self)@.wf(),
        ensures
            final(self)@.wf(),
            r is Some == old(self)@.run_out(now as int, speaking),
            r matches Some(p) ==> settles(p, old(self)@) && final(self)@ == old(self)@.closed(),
            r is None ==> final(self)@ == old(self)@,
    {
        let due = match &self.open {
            Some(w) => {
                let n: usize = w.sentences.len();
                !w.active && !speaking && n > 0 && (now as i128) - (w.sentences[n
                    - 1].end_us as i128) >= self.merge_gap_us as i128
            },
            None => false,
        };
        if due {
            self.take_open()
        } else {
            None
        }
    }

    /// Closes the open paragraph on request. Nothing happens while a sentence is under way or
    /// where there is none yet.
    pub fn force_settle(&mut self) -> (r: Option<SettledParagraph>)
        requires
            old(self)@.wf(),
        ensures
            final(self)@.wf(),
            r is Some == old(self)@.can_force(),
            r matches Some(p) ==> settles(p, old(self)@) && final(self)@ == old(self)@.closed(),
            r is None ==> final(self)@ == old(self)@,
    {
        let ready = match &self.open {
            Some(w) => !w.active && w.sentences.len() > 0,
            None => false,
        };
        if ready {
            self.take_open()
        } else {
            None
        }
    }

    /// Is a paragraph open?
    pub fn has_open_paragraph(&self) -> (r: bool)
        ensures
            r == self@.open is Some,
    {
        self.open.is_some()
    }

    /// Microseconds until the open paragraph runs out; `None` while nothing can close it.
    pub fn settle_deadline(&self, now: i64, speaking: bool) -> (r: Option<i128>)
        ensures
            match r {
                Some(d) => self@.deadline(now as int, speaking) == Some(d as int),
                None => self@.deadline(now as int, speaking) is None,
            },
    {
        match &self.open {
            Some(w) => {
                let n: usize = w.sentences.len();
                if w.active || speaking || n == 0 {
                    return None;
                }
                let left: i128 = (self.merge_gap_us as i128) - ((now as i128) - (w.sentences[n
                    - 1].end_us as i128));
                Some(
                    if left > 0 {
                        left
                    } else {
                        0
                    },
                )
            },
            None => None,
        }
    }

    /// The paragraph and sentence id announced for the sentence being spoken.
    pub fn prospective(&self) -> (r: (ParagraphId, SentenceId))
        ensures
            (r.0, r.1 as int) == self@.next_ids(),
    {
        let p: u64 = match &self.open {
            Some(w) => w.paragraph_id,
            None => if self.last_win_id == u64::MAX {
                1
            } else {
                self.last_win_id + 1
            },
        };
        (p, self.next_sentence_id)
    }

    /// The id the next sentence will get.
    pub fn next_sentence_id(&self) -> (r: SentenceId)
        ensures
            r == self@.next_sentence,
    {
        self.next_sentence_id
    }
}

/// Law: the deadline is the instant of closing.
pub proof fn law_deadline_is_the_closing_time(v: TrackState, now: int, later: int, speaking: bool)
    ensures
        v.run_out(now, speaking) <==> v.deadline(now, speaking) == Some(0int),
        v.deadline(now, speaking) matches Some(d) ==> v.run_out(now + d, speaking),
        v.deadline(now, speaking) matches Some(d) ==> now <= later < now + d ==> !v.run_out(
            later,
            speaking,
        ),
{
}

/// Law: while a sentence is under way or someone is speaking, no amount of waiting closes the
/// paragraph, and it has no deadline.
pub proof fn law_speech_keeps_it_open(v: TrackState, now: int, speaking: bool)
    requires
        v.open matches Some(w) && w.active || speaking,
    ensures
        !v.run_out(now, speaking),
        v.deadline(now, speaking) is None,
{
}

/// Law: no sentence is lost or reordered: what is closed followed by what stays open is what was
/// open before followed by the new sentence.
pub proof fn law_sentences_stay(v: TrackState, s: VadSentence, nanos: u64)
    ensures
        ({
            let before = if v.open is Some {
                (v.open->0).sentences
            } else {
                Seq::empty()
            };
            let settled = if v.gap_closes(s.start_us as int) {
                before
            } else {
                Seq::empty()
            };
            settled + (v.with_eos(s, nanos).open->0).sentences == before.push(s)
        }),
{
    let before = if v.open is Some {
        (v.open->0).sentences
    } else {
        Seq::empty()
    };
    let settled = if v.gap_closes(s.start_us as int) {
        before
    } else {
        Seq::empty()
    };
    assert(settled + (v.with_eos(s, nanos).open->0).sentences =~= before.push(s));
}

/// Law: a paragraph id is never 0.
pub proof fn law_ids_are_not_zero(v: TrackState, nanos: u64)
    requires
        v.open is None,
    ensures
        (v.opened(nanos).open->0).id >= 1,
{
}

/// Law: a paragraph is quiet since its last words: with a completed sentence, none under way and
/// nobody speaking, it has run out exactly once the merge gap has passed since the end of its last
/// sentence, and until then the wait is what is left of it.
pub proof fn law_quiet_is_counted_from_the_last_words(v: TrackState, now: int)
    requires
        v.open matches Some(w) && w.sentences.len() > 0 && !w.active,
    ensures
        ({
            let ended = (v.open->0).sentences[(v.open->0).sentences.len() - 1].end_us;
            &&& v.run_out(now, false) <==> now - ended >= v.merge_gap
            &&& now - ended < v.merge_gap ==> v.deadline(now, false) == Some(
                ended + v.merge_gap - now,
            )
        }),
{
}

/// Law: right after a sentence its paragraph is open, ends with it, and does not run out before
/// the merge gap has passed since the end of that sentence, whatever came before it.
pub proof fn law_a_sentence_keeps_its_paragraph_open(v: TrackState, s: VadSentence, nanos: u64, now: int)
    ensures
        ({
            let w = v.with_eos(s, nanos);
            &&& w.open matches Some(o)
            &&& o.sentences.len() > 0
            &&& o.sentences[o.sentences.len() - 1] == s
            &&& !o.active
            &&& w.merge_gap == v.merge_gap
            &&& w.run_out(now, false) <==> now - s.end_us >= v.merge_gap
        }),
{
}

/// Law: the gap decides. Speech that sets in before the merge gap has passed since the last
/// sentence joins its paragraph, later speech starts another one.
pub proof fn law_the_gap_decides(v: TrackState, s: VadSentence, nanos: u64)
    requires
        v.open matches Some(w) && w.sentences.len() > 0,
    ensures
        ({
            let before = (v.open->0).sentences;
            let gap = s.start_us - before[before.len() - 1].end_us;
            let after = v.with_eos(s, nanos).open->0;
            &&& gap < v.merge_gap ==> after.id == (v.open->0).id && after.sentences == before.push(s)
            &&& gap >= v.merge_gap ==> after.sentences == seq![s] && v.gap_closes(s.start_us as int)
        }),
{
    assert(Seq::<VadSentence>::empty().push(s) =~= seq![s]);
}

/// Law: every start of speech uses up one number, opens a paragraph where none is open, and holds
/// it until the sentence is complete.
pub proof fn law_a_start_of_speech_takes_a_number(v: TrackState, nanos: u64, now: int)
    ensures
        ({
            let w = v.with_sos(nanos);
            &&& w.next_sentence == v.next_sentence + 1
            &&& w.open matches Some(o)
            &&& v.open matches Some(p) ==> o.id == p.id && o.sentences == p.sentences
            &&& v.open is None ==> o.sentences.len() == 0
            &&& !w.run_out(now, false)
            &&& !w.can_force()
            &&& w.next_ids().0 == o.id
        }),
{
}

/// Law: a request closes a paragraph exactly where it has a completed sentence and none under
/// way, and closing forgets nothing but the paragraph.
pub proof fn law_a_request_needs_a_completed_sentence(v: TrackState)
    ensures
        v.can_force() <==> (v.open matches Some(w) && w.sentences.len() > 0 && !w.active),
        v.closed().open is None,
        v.closed().next_sentence == v.next_sentence,
        v.closed().last_id == v.last_id,
        v.closed().merge_gap == v.merge_gap,
{
}

/// Law: a tracker that has seen nothing has no paragraph open, and its first sentence is number one.
pub proof fn law_a_tracker_starts_empty(merge_gap: int, nanos: u64)
    ensures
        ({
            let v = TrackState::initial(merge_gap);
            &&& v.open is None
            &&& v.merge_gap == merge_gap
            &&& v.next_ids().1 == 1
            &&& v.with_sos(nanos).next_ids().1 == 2
        }),
{
}

/// Law: a paragraph that is open stays the one it is when speech sets in again, and a sentence is
/// announced under the number it is then given.
pub proof fn law_an_open_paragraph_is_not_opened_again(v: TrackState, nanos: u64)
    ensures
        v.open is Some ==> v.opened(nanos) == v,
        v.open is None ==> (v.opened(nanos).open matches Some(w) && w.sentences.len() == 0
            && !w.active),
        v.next_ids().1 == v.next_sentence,
        v.opened(nanos).next_ids().1 == v.next_sentence,
{
}

/// Law: what is in one paragraph belongs together: whatever comes, no sentence joins one whose last
/// words are the merge gap or more before it.
pub proof fn law_a_paragraph_is_close_together(v: TrackState, s: VadSentence, nanos: u64)
    ensures
        ({
            let said = (v.with_eos(s, nanos).open->0).sentences;
            let n = said.len() as int;
            n >= 2 ==> said[n - 1].start_us - said[n - 2].end_us < v.merge_gap
        }),
{
}

/// Law: paragraphs opened at different times get different ids, but where one of them is the 1
/// that stands in for 0.
pub proof fn law_ids_differ_with_the_time(a: u64, b: u64, last: u64)
    requires
        a != b,
    ensures
        mixed_id(a, last) != mixed_id(b, last) || mixed_id(a, last) == 1,
{
    let k = last.wrapping_add(1).wrapping_mul(ID_SPREAD);
    assert(a != b ==> a ^ k != b ^ k) by (bit_vector);
}

/// Law: a look at the clock hands out the open paragraph, whole, exactly once nobody has spoken for
/// the merge gap since its last words; before that it hands out nothing and changes nothing.
pub proof fn law_a_look_at_the_clock_waits_for_the_gap(
    t: &mut ParagraphTracker,
    now: i64,
    r: Option<SettledParagraph>,
)
    requires
        call_ensures(ParagraphTracker::check_settle, (t, now, false), r),
        old(t)@.open matches Some(w) && w.sentences.len() > 0 && !w.active,
    ensures
        ({
            let w = old(t)@.open->0;
            let ended = w.sentences[w.sentences.len() - 1].end_us;
            &&& r is Some <==> now - ended >= old(t)@.merge_gap
            &&& r matches Some(p) ==> p.paragraph_id == w.id && p.sentences@ == w.sentences
            &&& r is Some ==> final(t)@.open is None
            &&& r is None ==> final(t)@ == old(t)@
        }),
{
}

/// Law: a request hands out the open paragraph, whole, if it has a completed sentence and none is
/// under way, and nothing otherwise.
pub proof fn law_a_request_hands_out_the_open_paragraph(
    t: &mut ParagraphTracker,
    r: Option<SettledParagraph>,
)
    requires
        call_ensures(ParagraphTracker::force_settle, (t,), r),
    ensures
        r is Some <==> (old(t)@.open matches Some(w) && w.sentences.len() > 0 && !w.active),
        r matches Some(p) ==> p.paragraph_id == (old(t)@.open->0).id && p.sentences@ == (
        old(t)@.open->0).sentences && final(t)@.open is None,
        r is None ==> final(t)@ == old(t)@,
{
}

/// Law: a completed sentence is the last of what is handed back; where the gap before it closes a
/// paragraph, that one is handed out without it, and the sentence stands alone.
pub proof fn law_a_sentence_joins_or_starts_a_paragraph(
    t: &mut ParagraphTracker,
    s: VadSentence,
    nanos: u64,
    r: (Option<SettledParagraph>, ParagraphId, Vec<VadSentence>),
)
    requires
        call_ensures(ParagraphTracker::on_eos_at, (t, s, nanos), r),
        old(t)@.open matches Some(w) && w.sentences.len() > 0,
    ensures
        ({
            let w = old(t)@.open->0;
            let gap = s.start_us - w.sentences[w.sentences.len() - 1].end_us;
            &&& gap >= old(t)@.merge_gap ==> r.2@ == seq![s] && (r.0 matches Some(p) && p.paragraph_id
                == w.id && p.sentences@ == w.sentences)
            &&& gap < old(t)@.merge_gap ==> r.0 is None && r.2@ == w.sentences.push(s) && r.1 == w.id
        }),
{
    assert(Seq::<VadSentence>::empty().push(s) =~= seq![s]);
}

} // verus!
