//! The boundary rules: which sentence belongs to which paragraph, and when a paragraph closes.
//! Pure decisions over wall-clock times; recognition and audio live elsewhere.

use vstd::prelude::*;

use crate::clock::unix_micros;
use crate::types::{clone_sentences, ParagraphId, SentenceId, SettledParagraph, VadSentence};

verus! {

/// The open paragraph.
struct OpenParagraph {
    paragraph_id: ParagraphId,
    sentences: Vec<VadSentence>,
    /// A start of speech was seen whose end is still to come.
    active: bool,
    opened_at: i64,
}

/// Groups sentences into paragraphs: a gap of at least `merge_gap_us` closes one.
pub struct ParagraphTracker {
    merge_gap_us: i64,
    next_sentence_id: SentenceId,
    /// The id given to a paragraph last.
    last_win_id: ParagraphId,
    open: Option<OpenParagraph>,
}

/// The open paragraph as a value.
pub struct OpenView {
    pub id: int,
    pub sentences: Seq<VadSentence>,
    pub active: bool,
    pub opened_at: int,
}

/// The tracker as a value.
pub struct TrackerView {
    pub merge_gap: int,
    pub next_sentence: int,
    pub last_id: int,
    pub open: Option<OpenView>,
}

/// The larger of two numbers.
pub open spec fn larger(a: int, b: int) -> int {
    if a >= b {
        a
    } else {
        b
    }
}

impl OpenView {
    /// The time since which this paragraph has been quiet: the end of its last sentence, or its
    /// opening where it has none.
    pub open spec fn quiet_since(self) -> int {
        if self.sentences.len() == 0 {
            self.opened_at
        } else {
            self.sentences.last().end_us as int
        }
    }
}

impl TrackerView {
    /// Sentence ids start at one, and an open paragraph carries an id that was handed out.
    pub open spec fn wf(self) -> bool {
        &&& 1 <= self.next_sentence <= u64::MAX
        &&& 0 <= self.last_id <= u64::MAX
        &&& self.open matches Some(w) ==> 1 <= w.id <= self.last_id
    }

    /// A tracker that has seen nothing.
    pub open spec fn initial(merge_gap: int) -> TrackerView {
        TrackerView { merge_gap, next_sentence: 1, last_id: 0, open: None }
    }

    /// The id of a paragraph opened when the clock reads `clock`: the reading itself, or one
    /// more than the id before where that is larger; never 0.
    pub open spec fn fresh_id(self, clock: int) -> int {
        let next = if self.last_id < u64::MAX {
            self.last_id + 1
        } else {
            self.last_id
        };
        larger(larger(clock, next), 1)
    }

    /// With a paragraph open: the one that is, or a fresh empty one.
    pub open spec fn opened(self, at: int, clock: int) -> TrackerView {
        if self.open is Some {
            self
        } else {
            let id = self.fresh_id(clock);
            TrackerView {
                last_id: id,
                open: Some(OpenView { id, sentences: Seq::empty(), active: false, opened_at: at }),
                ..self
            }
        }
    }

    /// After a start of speech: a paragraph is open, its sentence runs, an id is used up.
    pub open spec fn with_sos(self, at: int, clock: int) -> TrackerView {
        let o = self.opened(at, clock);
        TrackerView {
            next_sentence: o.next_sentence + 1,
            open: Some(OpenView { active: true, ..o.open->0 }),
            ..o
        }
    }

    /// Does speech that sets in at `onset` start a new paragraph?
    pub open spec fn gap_closes(self, onset: int) -> bool {
        &&& self.open matches Some(w)
        &&& w.sentences.len() > 0
        &&& onset - w.sentences.last().end_us >= self.merge_gap
    }

    /// With no paragraph open.
    pub open spec fn closed(self) -> TrackerView {
        TrackerView { open: None, ..self }
    }

    /// After a completed sentence.
    pub open spec fn with_eos(self, s: VadSentence, clock: int) -> TrackerView {
        let base = if self.gap_closes(s.start_us as int) {
            self.closed()
        } else {
            self
        };
        let o = base.opened(s.start_us as int, clock);
        TrackerView {
            open: Some(
                OpenView { active: false, sentences: (o.open->0).sentences.push(s), ..o.open->0 },
            ),
            ..o
        }
    }

    /// Is the open paragraph allowed to run out: no sentence under way and nobody speaking?
    pub open spec fn may_run_out(self, speaking: bool) -> bool {
        &&& self.open matches Some(w)
        &&& !w.active
        &&& !speaking
    }

    /// Has the open paragraph been quiet for the whole merge gap at `now`?
    pub open spec fn run_out(self, now: int, speaking: bool) -> bool {
        &&& self.may_run_out(speaking)
        &&& now - (self.open->0).quiet_since() >= self.merge_gap
    }

    /// After looking at the clock: a paragraph that has run out is no longer open.
    pub open spec fn ticked(self, now: int, speaking: bool) -> TrackerView {
        if self.run_out(now, speaking) {
            self.closed()
        } else {
            self
        }
    }

    /// How long until the open paragraph runs out.
    pub open spec fn deadline(self, now: int, speaking: bool) -> Option<int> {
        if self.may_run_out(speaking) {
            Some(larger(self.merge_gap - (now - (self.open->0).quiet_since()), 0))
        } else {
            None
        }
    }

    /// May the open paragraph be closed on request?
    pub open spec fn can_force(self) -> bool {
        &&& self.open matches Some(w)
        &&& !w.active
        &&& w.sentences.len() > 0
    }

    /// The ids that the sentence being spoken will get.
    pub open spec fn next_ids(self) -> (int, int) {
        (
            match self.open {
                Some(w) => w.id,
                None => if self.last_id < u64::MAX {
                    self.last_id + 1
                } else {
                    1
                },
            },
            self.next_sentence,
        )
    }
}

/// `p` is the open paragraph of `v`, closed.
pub open spec fn settles(p: SettledParagraph, v: TrackerView) -> bool {
    &&& v.open matches Some(w)
    &&& p.paragraph_id == w.id
    &&& p.sentences@ == w.sentences
}

impl View for ParagraphTracker {
    type V = TrackerView;

    closed spec fn view(&self) -> TrackerView {
        TrackerView {
            merge_gap: self.merge_gap_us as int,
            next_sentence: self.next_sentence_id as int,
            last_id: self.last_win_id as int,
            open: match self.open {
                Some(w) => Some(
                    OpenView {
                        id: w.paragraph_id as int,
                        sentences: w.sentences@,
                        active: w.active,
                        opened_at: w.opened_at as int,
                    },
                ),
                None => None,
            },
        }
    }
}

impl ParagraphTracker {
    /// A tracker that closes paragraphs after `merge_gap_us` of silence.
    pub fn new(merge_gap_us: i64) -> (r: Self)
        ensures
            r@ == TrackerView::initial(merge_gap_us as int),
            r@.wf(),
    {
        ParagraphTracker { merge_gap_us, next_sentence_id: 1, last_win_id: 0, open: None }
    }

    /// Hands out the id of a new paragraph; `clock` is what the wall clock reads. It is the
    /// reading, or one more than the id before where that is larger, and never 0.
    pub fn next_win_id(&mut self, clock: u64) -> (r: ParagraphId)
        requires
            old(self)@.wf(),
        ensures
            r == old(self)@.fresh_id(clock as int),
            final(self)@ == (TrackerView { last_id: r as int, ..old(self)@ }),
            final(self)@.wf(),
    {
        let next: u64 = if self.last_win_id < u64::MAX {
            self.last_win_id + 1
        } else {
            self.last_win_id
        };
        let mut id: u64 = if clock >= next {
            clock
        } else {
            next
        };
        if id == 0 {
            id = 1;
        }
        self.last_win_id = id;
        id
    }

    /// Opens a paragraph at `at` unless one is open; `clock` is what the wall clock reads.
    pub fn open_at(&mut self, at: i64, clock: u64)
        requires
            old(self)@.wf(),
        ensures
            final(self)@ == old(self)@.opened(at as int, clock as int),
            final(self)@.wf(),
    {
        if self.open.is_none() {
            let id: u64 = self.next_win_id(clock);
            self.open = Some(
                OpenParagraph {
                    paragraph_id: id,
                    sentences: Vec::new(),
                    active: false,
                    opened_at: at,
                },
            );
        }
    }

    /// Speech set in: the paragraph opens at once, so that its id is known from the first
    /// partial on.
    pub fn on_speech_onset(&mut self, now: i64)
        requires
            old(self)@.wf(),
        ensures
            final(self)@.wf(),
            exists|clock: u64|
                final(self)@ == #[trigger] old(self)@.opened(now as int, clock as int),
    {
        let clock: u64 = unix_micros();
        self.open_at(now, clock);
    }

    /// A start of speech: a sentence id is handed out and its sentence runs. `clock` is what the
    /// wall clock reads.
    pub fn on_sos_at(&mut self, now: i64, clock: u64) -> (r: SentenceId)
        requires
            old(self)@.wf(),
            old(self)@.next_sentence < u64::MAX,
        ensures
            r == old(self)@.next_sentence,
            final(self)@ == old(self)@.with_sos(now as int, clock as int),
            final(self)@.wf(),
    {
        self.open_at(now, clock);
        let id: u64 = self.next_sentence_id;
        self.next_sentence_id = id + 1;
        match self.open.take() {
            Some(mut w) => {
                w.active = true;
                self.open = Some(w);
            },
            None => {},
        }
        id
    }

    /// A start of speech.
    pub fn on_sos(&mut self, now: i64) -> (r: SentenceId)
        requires
            old(self)@.wf(),
            old(self)@.next_sentence < u64::MAX,
        ensures
            r == old(self)@.next_sentence,
            final(self)@.wf(),
            exists|clock: u64|
                final(self)@ == #[trigger] old(self)@.with_sos(now as int, clock as int),
    {
        let clock: u64 = unix_micros();
        self.on_sos_at(now, clock)
    }

    fn take_open(&mut self) -> (r: Option<SettledParagraph>)
        ensures
            final(self)@ == old(self)@.closed(),
            r is Some == old(self)@.open is Some,
            r matches Some(p) ==> settles(p, old(self)@),
    {
        match self.open.take() {
            Some(w) => Some(
                SettledParagraph { paragraph_id: w.paragraph_id, sentences: w.sentences },
            ),
            None => None,
        }
    }

    /// Closes the open paragraph where speech that sets in at `onset` is far enough from it.
    fn settle_if_gap(&mut self, onset: i64) -> (r: Option<SettledParagraph>)
        ensures
            r is Some == old(self)@.gap_closes(onset as int),
            r matches Some(p) ==> settles(p, old(self)@) && final(self)@ == old(self)@.closed(),
            r is None ==> final(self)@ == old(self)@,
    {
        let far = match &self.open {
            Some(w) => {
                let n: usize = w.sentences.len();
                if n == 0 {
                    false
                } else {
                    (onset as i128) - (w.sentences[n - 1].end_us as i128) >= self.merge_gap_us as i128
                }
            },
            None => false,
        };
        if far {
            self.take_open()
        } else {
            None
        }
    }

    /// Records a completed sentence: closes the open paragraph first where the gap to it is wide
    /// enough, then adds the sentence to the open one or to a fresh one. Returns what was
    /// closed, the paragraph of the sentence and all its sentences so far. `clock` is what the
    /// wall clock reads.
    pub fn on_eos_at(&mut self, sentence: VadSentence, clock: u64) -> (r: (
        Option<SettledParagraph>,
        ParagraphId,
        Vec<VadSentence>,
    ))
        requires
            old(self)@.wf(),
        ensures
            final(self)@ == old(self)@.with_eos(sentence, clock as int),
            final(self)@.wf(),
            r.0 is Some == old(self)@.gap_closes(sentence.start_us as int),
            r.0 matches Some(p) ==> settles(p, old(self)@),
            r.1 == (final(self)@.open->0).id,
            r.2@ == (final(self)@.open->0).sentences,
    {
        let settled = self.settle_if_gap(sentence.start_us);
        self.open_at(sentence.start_us, clock);
        let mut id: u64 = 0;
        let mut all: Vec<VadSentence> = Vec::new();
        match self.open.take() {
            Some(mut w) => {
                w.active = false;
                w.sentences.push(sentence);
                id = w.paragraph_id;
                all = clone_sentences(&w.sentences);
                self.open = Some(w);
            },
            None => {},
        }
        (settled, id, all)
    }

    /// Records a completed sentence.
    pub fn on_eos(&mut self, sentence: VadSentence) -> (r: (
        Option<SettledParagraph>,
        ParagraphId,
        Vec<VadSentence>,
    ))
        requires
            old(self)@.wf(),
        ensures
            final(self)@.wf(),
            exists|clock: u64|
                final(self)@ == #[trigger] old(self)@.with_eos(sentence, clock as int),
            r.0 is Some == old(self)@.gap_closes(sentence.start_us as int),
            r.0 matches Some(p) ==> settles(p, old(self)@),
            r.1 == (final(self)@.open->0).id,
            r.2@ == (final(self)@.open->0).sentences,
    {
        let clock: u64 = unix_micros();
        self.on_eos_at(sentence, clock)
    }

    /// Looks at the clock: closes the open paragraph once it has been quiet for the merge gap.
    /// One that never got a sentence is dropped without a word. While a sentence is under way,
    /// or someone is `speaking` whose start of speech is still to be reported, nothing closes.
    pub fn check_settle(&mut self, now: i64, speaking: bool) -> (r: Option<SettledParagraph>)
        requires
            old(self)@.wf(),
        ensures
            final(self)@ == old(self)@.ticked(now as int, speaking),
            final(self)@.wf(),
            r is Some == (old(self)@.run_out(now as int, speaking) && (
            old(self)@.open->0).sentences.len() > 0),
            r matches Some(p) ==> settles(p, old(self)@),
    {
        let mut due = false;
        let mut empty = false;
        match &self.open {
            Some(w) => {
                if !w.active && !speaking {
                    let n: usize = w.sentences.len();
                    empty = n == 0;
                    let since: i64 = if n == 0 {
                        w.opened_at
                    } else {
                        w.sentences[n - 1].end_us
                    };
                    due = (now as i128) - (since as i128) >= self.merge_gap_us as i128;
                }
            },
            None => {},
        }
        if due {
            let p = self.take_open();
            if empty {
                None
            } else {
                p
            }
        } else {
            None
        }
    }

    /// Closes the open paragraph on request, without waiting for the merge gap. Nothing happens
    /// while a sentence is under way or where there is none yet.
    pub fn force_settle(&mut self) -> (r: Option<SettledParagraph>)
        requires
            old(self)@.wf(),
        ensures
            r is Some == old(self)@.can_force(),
            r matches Some(p) ==> settles(p, old(self)@) && final(self)@ == old(self)@.closed(),
            r is None ==> final(self)@ == old(self)@,
            final(self)@.wf(),
    {
        let ready = match &self.open {
            Some(w) => !w.active && w.sentences.len() > 0,
            None => false,
        };
        if ready {
            self.take_open()
        } else {
            None
        }
    }

    /// Is a paragraph open?
    pub fn has_open_paragraph(&self) -> (r: bool)
        ensures
            r == self@.open is Some,
    {
        self.open.is_some()
    }

    /// Microseconds until the open paragraph runs out; `None` while nothing can close it.
    pub fn settle_deadline(&self, now: i64, speaking: bool) -> (r: Option<i128>)
        ensures
            match r {
                Some(d) => self@.deadline(now as int, speaking) == Some(d as int),
                None => self@.deadline(now as int, speaking) is None,
            },
    {
        match &self.open {
            Some(w) => {
                if w.active || speaking {
                    return None;
                }
                let n: usize = w.sentences.len();
                let since: i64 = if n == 0 {
                    w.opened_at
                } else {
                    w.sentences[n - 1].end_us
                };
                let left: i128 = (self.merge_gap_us as i128) - ((now as i128) - (since as i128));
                Some(
                    if left > 0 {
                        left
                    } else {
                        0
                    },
                )
            },
            None => None,
        }
    }

    /// The paragraph and sentence id that the sentence being spoken will get.
    pub fn prospective(&self) -> (r: (ParagraphId, SentenceId))
        ensures
            (r.0 as int, r.1 as int) == self@.next_ids(),
    {
        let p: u64 = match &self.open {
            Some(w) => w.paragraph_id,
            None => if self.last_win_id < u64::MAX {
                self.last_win_id + 1
            } else {
                1
            },
        };
        (p, self.next_sentence_id)
    }

    /// The id the next sentence will get.
    pub fn next_sentence_id(&self) -> (r: SentenceId)
        ensures
            r == self@.next_sentence,
    {
        self.next_sentence_id
    }
}

/// Law: a paragraph's id is larger than every id handed out before it, and never 0, whatever
/// the clock reads.
pub proof fn law_ids_increase(v: TrackerView, at: int, clock: u64)
    requires
        v.wf(),
        v.open is None,
        v.last_id < u64::MAX,
    ensures
        (v.opened(at, clock as int).open->0).id > v.last_id,
        (v.opened(at, clock as int).open->0).id >= 1,
        v.opened(at, clock as int).last_id == (v.opened(at, clock as int).open->0).id,
{
}

/// The ids handed out one after the other, the clock reading what it reads each time.
pub open spec fn ids_handed_out(last: int, clocks: Seq<u64>) -> Seq<int>
    decreases clocks.len(),
{
    if clocks.len() == 0 {
        Seq::empty()
    } else {
        let before = ids_handed_out(last, clocks.drop_last());
        let v = TrackerView {
            last_id: if before.len() > 0 {
                before.last()
            } else {
                last
            },
            ..TrackerView::initial(0)
        };
        before.push(v.fresh_id(clocks.last() as int))
    }
}

proof fn lemma_ids_handed_out(last: int, clocks: Seq<u64>)
    ensures
        ids_handed_out(last, clocks).len() == clocks.len(),
        clocks.len() > 0 ==> ids_handed_out(last, clocks).drop_last() == ids_handed_out(
            last,
            clocks.drop_last(),
        ),
    decreases clocks.len(),
{
    if clocks.len() > 0 {
        lemma_ids_handed_out(last, clocks.drop_last());
        assert(ids_handed_out(last, clocks).drop_last() =~= ids_handed_out(
            last,
            clocks.drop_last(),
        ));
    }
}

/// Law: whatever the clock reads, standing still or stepping back, the ids handed out are never 0,
/// never repeat and strictly increase, as long as there are numbers left.
pub proof fn law_ids_never_repeat(last: int, clocks: Seq<u64>)
    requires
        0 <= last < u64::MAX,
        forall|i: int|
            0 <= i < clocks.len() - 1 ==> (#[trigger] ids_handed_out(last, clocks)[i]) < u64::MAX,
    ensures
        ids_handed_out(last, clocks).len() == clocks.len(),
        forall|i: int|
            0 <= i < clocks.len() ==> (#[trigger] ids_handed_out(last, clocks)[i]) > last,
        forall|i: int, j: int|
            0 <= i < j < clocks.len() ==> (#[trigger] ids_handed_out(last, clocks)[i]) < (
            #[trigger] ids_handed_out(last, clocks)[j]),
    decreases clocks.len(),
{
    if clocks.len() > 0 {
        let ids = ids_handed_out(last, clocks);
        let rest = clocks.drop_last();
        lemma_ids_handed_out(last, clocks);
        lemma_ids_handed_out(last, rest);
        let before = ids_handed_out(last, rest);
        assert forall|i: int| 0 <= i < rest.len() - 1 implies (#[trigger] before[i]) < u64::MAX by {
            assert(before[i] == ids[i]);
        }
        law_ids_never_repeat(last, rest);
        let n = rest.len() as int;
        if n > 0 {
            assert(before[n - 1] == ids[n - 1]);
            assert(ids[n - 1] < u64::MAX);
            assert(ids[n] >= before.last() + 1);
        }
        assert forall|i: int| 0 <= i < clocks.len() implies (#[trigger] ids[i]) > last by {
            if i < n {
                assert(ids[i] == before[i]);
            }
        }
        assert forall|i: int, j: int| 0 <= i < j < clocks.len() implies (#[trigger] ids[i]) < (
        #[trigger] ids[j]) by {
            assert(ids[i] == before[i]);
            if j < n {
                assert(ids[j] == before[j]);
            } else if i < n - 1 {
                assert(before[i] < before[n - 1]);
            }
        }
    }
}

/// Law: no step ever lowers the id handed out last.
pub proof fn law_last_id_never_falls(v: TrackerView, s: VadSentence, at: int, speaking: bool, clock: u64)
    requires
        v.wf(),
    ensures
        v.opened(at, clock as int).last_id >= v.last_id,
        v.with_sos(at, clock as int).last_id >= v.last_id,
        v.with_eos(s, clock as int).last_id >= v.last_id,
        v.ticked(at, speaking).last_id == v.last_id,
        v.closed().last_id == v.last_id,
{
}

/// Law: the deadline is the instant of closing. A look at the clock closes the open paragraph
/// exactly when its deadline is 0, and waiting for the deadline makes it so.
pub proof fn law_deadline_is_when_it_closes(v: TrackerView, now: int, later: int, speaking: bool)
    ensures
        v.run_out(now, speaking) <==> v.deadline(now, speaking) == Some(0int),
        v.deadline(now, speaking) matches Some(d) ==> v.run_out(now + d, speaking),
        v.deadline(now, speaking) matches Some(d) ==> now <= later < now + d ==> !v.run_out(
            later,
            speaking,
        ),
{
}

/// Law: while a sentence is under way or someone is speaking, no amount of waiting closes the
/// paragraph, and it has no deadline.
pub proof fn law_speech_holds_the_paragraph(v: TrackerView, now: int, speaking: bool)
    requires
        v.open matches Some(w) && w.active || speaking,
    ensures
        v.ticked(now, speaking) == v,
        v.deadline(now, speaking) is None,
{
}

/// Law: the ids announced while a sentence is being spoken are the ones it gets. Once a
/// paragraph is open its id stays announced through the start of speech, and the sentence lands
/// in it unless the gap closes it first.
pub proof fn law_announced_ids_are_real(v: TrackerView, s: VadSentence, at: int, clock: u64, later: u64)
    requires
        v.wf(),
        !v.opened(at, clock as int).gap_closes(s.start_us as int),
    ensures
        v.opened(at, clock as int).next_ids().0 == (v.opened(at, clock as int).open->0).id,
        v.opened(at, clock as int).next_ids().1 == v.next_sentence,
        v.opened(at, clock as int).with_sos(at, later as int).next_ids().0 == v.opened(
            at,
            clock as int,
        ).next_ids().0,
        (v.opened(at, clock as int).with_eos(s, later as int).open->0).id == v.opened(
            at,
            clock as int,
        ).next_ids().0,
{
}

/// Law: no sentence is lost or reordered by a completed sentence: what is closed followed by
/// what stays open is what was open before followed by the new sentence.
pub proof fn law_sentences_are_conserved(v: TrackerView, s: VadSentence, clock: u64)
    requires
        v.wf(),
    ensures
        ({
            let before = if v.open is Some {
                (v.open->0).sentences
            } else {
                Seq::empty()
            };
            let settled = if v.gap_closes(s.start_us as int) {
                before
            } else {
                Seq::empty()
            };
            settled + (v.with_eos(s, clock as int).open->0).sentences == before.push(s)
        }),
{
    let before = if v.open is Some {
        (v.open->0).sentences
    } else {
        Seq::empty()
    };
    let settled = if v.gap_closes(s.start_us as int) {
        before
    } else {
        Seq::empty()
    };
    assert(settled + (v.with_eos(s, clock as int).open->0).sentences =~= before.push(s));
}

/// Law: a gap shorter than the merge gap keeps the paragraph, a wider one starts another with a
/// larger id.
pub proof fn law_the_gap_decides(v: TrackerView, s: VadSentence, clock: u64)
    requires
        v.wf(),
        v.open is Some,
        (v.open->0).sentences.len() > 0,
        v.last_id < u64::MAX,
    ensures
        s.start_us - (v.open->0).sentences.last().end_us < v.merge_gap ==> (v.with_eos(
            s,
            clock as int,
        ).open->0).id == (v.open->0).id,
        s.start_us - (v.open->0).sentences.last().end_us >= v.merge_gap ==> (v.with_eos(
            s,
            clock as int,
        ).open->0).id > (v.open->0).id,
{
}

/// Law: a paragraph is quiet since its last words. With a completed sentence, none under way and
/// nobody speaking, a look at the clock closes it exactly once the merge gap has passed since the
/// end of its last sentence, and until then the wait is what is left of it.
pub proof fn law_quiet_is_counted_from_the_last_words(v: TrackerView, now: int)
    requires
        v.open matches Some(w) && w.sentences.len() > 0 && !w.active,
    ensures
        ({
            let ended = (v.open->0).sentences[(v.open->0).sentences.len() - 1].end_us;
            &&& v.run_out(now, false) <==> now - ended >= v.merge_gap
            &&& v.ticked(now, false).open is None <==> now - ended >= v.merge_gap
            &&& now - ended < v.merge_gap ==> v.ticked(now, false) == v
            &&& now - ended < v.merge_gap ==> v.deadline(now, false) == Some(
                ended + v.merge_gap - now,
            )
        }),
{
}

/// Law: right after a sentence its paragraph is open, ends with it, and no look at the clock
/// closes it before the merge gap has passed since the end of that sentence, whatever came before
/// it; once it has passed, the next look does.
pub proof fn law_a_sentence_keeps_its_paragraph_open(v: TrackerView, s: VadSentence, clock: u64, now: int)
    ensures
        ({
            let w = v.with_eos(s, clock as int);
            &&& w.open matches Some(o)
            &&& o.sentences.len() > 0
            &&& o.sentences[o.sentences.len() - 1] == s
            &&& !o.active
            &&& w.merge_gap == v.merge_gap
            &&& now - s.end_us < v.merge_gap ==> w.ticked(now, false).open == w.open
            &&& now - s.end_us >= v.merge_gap ==> w.ticked(now, false).open is None
        }),
{
}

/// Law: a paragraph that has no sentence yet is quiet since it was opened.
pub proof fn law_an_empty_paragraph_waits_from_its_opening(v: TrackerView, at: int, clock: u64, now: int)
    requires
        v.open is None,
    ensures
        ({
            let w = v.opened(at, clock as int);
            &&& w.open matches Some(o)
            &&& o.sentences.len() == 0
            &&& w.ticked(now, false).open is None <==> now - at >= v.merge_gap
        }),
{
}

/// The sentences of a paragraph follow one another within the merge gap.
pub open spec fn close_together(sentences: Seq<VadSentence>, merge_gap: int) -> bool {
    forall|i: int|
        0 <= i < sentences.len() - 1 ==> (#[trigger] sentences[i + 1]).start_us - sentences[i].end_us
            < merge_gap
}

/// Law: what is in one paragraph belongs together. Whatever happens, no two sentences that follow
/// one another in the open paragraph are the merge gap or more apart.
pub proof fn law_a_paragraph_is_close_together(
    v: TrackerView,
    s: VadSentence,
    at: int,
    clock: u64,
    speaking: bool,
)
    requires
        v.open matches Some(w) ==> close_together(w.sentences, v.merge_gap),
    ensures
        ({
            let w = v.with_eos(s, clock as int);
            close_together((w.open->0).sentences, w.merge_gap)
        }),
        ({
            let w = v.with_sos(at, clock as int);
            close_together((w.open->0).sentences, w.merge_gap)
        }),
        ({
            let w = v.opened(at, clock as int);
            close_together((w.open->0).sentences, w.merge_gap)
        }),
        v.ticked(at, speaking).open matches Some(w) ==> close_together(w.sentences, v.merge_gap),
{
    let w = v.with_eos(s, clock as int);
    let after = (w.open->0).sentences;
    let n = after.len() - 1;
    assert forall|i: int| 0 <= i < n implies (#[trigger] after[i + 1]).start_us - after[i].end_us
        < v.merge_gap by {
        let before = (v.open->0).sentences;
        assert(after[i] == before[i]);
        if i + 1 < n {
            assert(after[i + 1] == before[i + 1]);
        }
    }
}

/// Law: every start of speech uses up one number, and the sentence's paragraph is held open until
/// the sentence is complete.
pub proof fn law_a_start_of_speech_takes_a_number(v: TrackerView, at: int, clock: u64, now: int)
    ensures
        ({
            let w = v.with_sos(at, clock as int);
            &&& w.next_sentence == v.next_sentence + 1
            &&& w.open matches Some(o)
            &&& v.open matches Some(p) ==> o.id == p.id && o.sentences == p.sentences
            &&& w.ticked(now, false).open == w.open
            &&& w.next_ids().0 == o.id
        }),
{
}

/// Law: a request closes a paragraph exactly where it has a completed sentence and none under
/// way.
pub proof fn law_a_request_needs_a_completed_sentence(v: TrackerView)
    ensures
        v.can_force() <==> (v.open matches Some(w) && w.sentences.len() > 0 && !w.active),
        v.closed().open is None,
        v.closed().next_sentence == v.next_sentence,
        v.closed().last_id == v.last_id,
        v.closed().merge_gap == v.merge_gap,
{
}

/// Law: a paragraph's id is the time of its opening wherever that is later than all ids before.
pub proof fn law_ids_tell_the_time(v: TrackerView, at: int, clock: u64)
    requires
        v.wf(),
        v.open is None,
        clock > v.last_id,
    ensures
        (v.opened(at, clock as int).open->0).id == clock,
        (v.with_sos(at, clock as int).open->0).id == clock,
{
}

/// Law: a tracker that has seen nothing has no paragraph open, and its first sentence is number one.
pub proof fn law_a_tracker_starts_empty(merge_gap: int, at: int, clock: u64)
    ensures
        ({
            let v = TrackerView::initial(merge_gap);
            &&& v.open is None
            &&& v.merge_gap == merge_gap
            &&& v.next_ids().1 == 1
            &&& v.with_sos(at, clock as int).next_ids().1 == 2
            &&& clock > 0 ==> v.with_sos(at, clock as int).next_ids().0 == clock
        }),
{
}

/// Law: a paragraph that is open stays the one it is when speech sets in again, and a sentence is
/// announced under the number it is then given.
pub proof fn law_an_open_paragraph_is_not_opened_again(v: TrackerView, at: int, clock: u64)
    ensures
        v.open is Some ==> v.opened(at, clock as int) == v,
        v.next_ids().1 == v.next_sentence,
        v.opened(at, clock as int).next_ids().1 == v.next_sentence,
        v.opened(at, clock as int).merge_gap == v.merge_gap,
        v.with_sos(at, clock as int).merge_gap == v.merge_gap,
{
}

/// Law: a look at the clock hands out the open paragraph, whole, exactly once nobody has spoken for
/// the merge gap since its last words; before that it hands out nothing and changes nothing.
pub proof fn law_a_look_at_the_clock_waits_for_the_gap(
    t: &mut ParagraphTracker,
    now: i64,
    r: Option<SettledParagraph>,
)
    requires
        call_ensures(ParagraphTracker::check_settle, (t, now, false), r),
        old(t)@.open matches Some(w) && w.sentences.len() > 0 && !w.active,
    ensures
        ({
            let w = old(t)@.open->0;
            let ended = w.sentences[w.sentences.len() - 1].end_us;
            &&& r is Some <==> now - ended >= old(t)@.merge_gap
            &&& r matches Some(p) ==> p.paragraph_id == w.id && p.sentences@ == w.sentences
            &&& r is Some ==> final(t)@.open is None
            &&& r is None ==> final(t)@ == old(t)@
        }),
{
}

/// Law: a request hands out the open paragraph, whole, if it has a completed sentence and none is
/// under way, and nothing otherwise.
pub proof fn law_a_request_hands_out_the_open_paragraph(
    t: &mut ParagraphTracker,
    r: Option<SettledParagraph>,
)
    requires
        call_ensures(ParagraphTracker::force_settle, (t,), r),
    ensures
        r is Some <==> (old(t)@.open matches Some(w) && w.sentences.len() > 0 && !w.active),
        r matches Some(p) ==> p.paragraph_id == (old(t)@.open->0).id && p.sentences@ == (
        old(t)@.open->0).sentences && final(t)@.open is None,
        r is None ==> final(t)@ == old(t)@,
{
}

/// Law: a completed sentence is the last of what is handed back; where the gap before it closes a
/// paragraph, that one is handed out without it, and the sentence stands alone.
pub proof fn law_a_sentence_joins_or_starts_a_paragraph(
    t: &mut ParagraphTracker,
    s: VadSentence,
    clock: u64,
    r: (Option<SettledParagraph>, ParagraphId, Vec<VadSentence>),
)
    requires
        call_ensures(ParagraphTracker::on_eos_at, (t, s, clock), r),
        old(t)@.open matches Some(w) && w.sentences.len() > 0,
    ensures
        ({
            let w = old(t)@.open->0;
            let gap = s.start_us - w.sentences[w.sentences.len() - 1].end_us;
            &&& gap >= old(t)@.merge_gap ==> r.2@ == seq![s] && (r.0 matches Some(p) && p.paragraph_id
                == w.id && p.sentences@ == w.sentences)
            &&& gap < old(t)@.merge_gap ==> r.0 is None && r.2@ == w.sentences.push(s) && r.1 == w.id
        }),
{
    assert(Seq::<VadSentence>::empty().push(s) =~= seq![s]);
}

} // verus!
