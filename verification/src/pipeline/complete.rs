//! The decisions of the tasks behind the main loop: what becomes of a batch pass, and how a
//! closed paragraph is completed once its sentences are through. The passes and the calibration
//! itself run outside and hand their results in.

use std::sync::Arc;

use vstd::prelude::*;
use vstd::string::*;

use crate::hub::FinalTurn;
use crate::models::{AsrProvider, ProviderError};
use crate::pipeline::loops::{
    fill_batch, first_id_at, law_a_calibration_sees_its_batch_text, with_batch,
};
use crate::pipeline::turns::TurnEvent;
use crate::text::{blank, is_blank};
use crate::types::{
    best_texts, opt_view, ParagraphId, ParagraphView, SentenceId, VadParagraph, VadSentence,
};

verus! {

/// A batch pass over a whole paragraph that takes longer, in milliseconds, is given up.
pub const PARAGRAPH_RERUN_TIMEOUT: u64 = 15_000;

/// The text that a recognition gives: its answer where that holds more than white space.
pub open spec fn surfaced(res: Result<String, ProviderError>) -> Option<Seq<char>> {
    match res {
        Ok(t) => if is_blank(t@) {
            None
        } else {
            Some(t@)
        },
        Err(_) => None,
    }
}

/// The text that a recognition gives. A failure, a timeout and an empty answer are all the same
/// to the caller: the streaming text stands.
pub fn surface_asr(res: Result<String, ProviderError>) -> (r: Option<String>)
    ensures
        opt_view(r) == surfaced(res),
{
    match res {
        Ok(t) => if blank(t.as_str()) {
            None
        } else {
            Some(t)
        },
        Err(_) => None,
    }
}

/// Recognises once, without a second try.
pub fn recognize_once<A: AsrProvider>(asr: &A, pcm: &[i16], sr: u32) -> (r: Option<String>)
    ensures
        exists|res: Result<String, ProviderError>|
            #[trigger] call_ensures(A::recognize, (asr, pcm, sr), res) && opt_view(r) == surfaced(
                res,
            ),
{
    let res = asr.recognize(pcm, sr);
    let ghost answer = res;
    let r = surface_asr(res);
    proof {
        assert(call_ensures(A::recognize, (asr, pcm, sr), answer));
    }
    r
}

/// What the batch pass of a sentence came to.
pub struct SentenceOutcome {
    pub sentence_id: SentenceId,
    pub batch_text: Option<String>,
    pub asr_ms: u64,
}

/// The batch pass of a sentence is through: its outcome, and the event that reports its text
/// where there is one.
pub fn sentence_done(
    paragraph_id: ParagraphId,
    sentence_id: SentenceId,
    text: Option<String>,
    asr_ms: u64,
) -> (r: (SentenceOutcome, Option<TurnEvent>))
    ensures
        r.0 == (SentenceOutcome { sentence_id, batch_text: text, asr_ms }),
        r.1 is Some == text is Some,
        text matches Some(t) ==> r.1 == Some(
            TurnEvent::BatchSentence { paragraph_id, sentence_id, text: t },
        ),
{
    let event = match &text {
        Some(t) => Some(TurnEvent::BatchSentence { paragraph_id, sentence_id, text: t.clone() }),
        None => None,
    };
    (SentenceOutcome { sentence_id, batch_text: text, asr_ms }, event)
}

/// How the batch pass over a whole paragraph ended.
pub enum Rerun {
    /// It came to an end, with a text or without, after so many milliseconds.
    Done { text: Option<String>, asr_ms: u64 },
    /// It broke down.
    Failed,
    /// It took too long.
    TimedOut,
}

impl Rerun {
    /// The text it gave.
    pub open spec fn text(self) -> Option<String> {
        match self {
            Rerun::Done { text, asr_ms } => text,
            _ => None,
        }
    }

    /// How long it took, where it came to an end.
    pub open spec fn millis(self) -> u64 {
        match self {
            Rerun::Done { text, asr_ms } => asr_ms,
            _ => 0,
        }
    }
}

/// The sentences with the outcomes filled in, one after the other. An outcome that never came
/// changes nothing.
pub open spec fn backfilled(sentences: Seq<VadSentence>, outcomes: Seq<Option<SentenceOutcome>>) -> Seq<
    VadSentence,
>
    decreases outcomes.len(),
{
    if outcomes.len() == 0 {
        sentences
    } else {
        filled(backfilled(sentences, outcomes.drop_last()), outcomes.last())
    }
}

/// What a closed paragraph waits for next.
#[derive(Clone, Copy, Debug, PartialEq, Eq, Structural)]
pub enum Stage {
    /// The batch passes of its sentences, so many more.
    Sentences(usize),
    /// The calibrations on the way that are still under way.
    Live,
    /// The batch pass over the whole of it.
    Rerun,
    /// Its final calibration.
    Calibration,
    /// Nothing.
    Done,
}

/// A closed paragraph on its way to its final text.
pub struct Completion {
    paragraph: VadParagraph,
    stage: Stage,
    live: bool,
}

/// A paragraph on its way as a value.
pub struct CompletionView {
    pub paragraph: ParagraphView,
    pub stage: Stage,
    /// Is a calibration on the way to be waited for?
    pub live: bool,
}

/// What a paragraph on its way is told.
pub enum Input {
    /// The task of a sentence is through; one that broke down has no outcome.
    Sentence(Option<SentenceOutcome>),
    /// The calibrations on the way are through.
    Live,
    /// The pass over the whole has ended.
    Rerun(Rerun),
    /// The final text is there.
    Final { calibrated: String, route_us: u64 },
}

/// The stage once nothing of a paragraph of so many sentences is under way: it is recognised once
/// more as a whole, but not where it is one sentence, as its audio would be the same.
pub open spec fn whole_stage(sentences: int) -> Stage {
    if sentences > 1 {
        Stage::Rerun
    } else {
        Stage::Calibration
    }
}

/// The stage once the sentences are through.
pub open spec fn sentences_done(sentences: int, live: bool) -> Stage {
    if live {
        Stage::Live
    } else {
        whole_stage(sentences)
    }
}

/// The sentences with one outcome filled in, where there is one.
pub open spec fn filled(sentences: Seq<VadSentence>, outcome: Option<SentenceOutcome>) -> Seq<
    VadSentence,
> {
    match outcome {
        Some(o) => with_batch(sentences, o.sentence_id, o.batch_text),
        None => sentences,
    }
}

impl CompletionView {
    /// A paragraph that was just closed, with so many passes under way.
    pub open spec fn start(p: ParagraphView, waits: usize, live: bool) -> CompletionView {
        CompletionView {
            paragraph: p,
            stage: if waits > 0 {
                Stage::Sentences(waits)
            } else {
                sentences_done(p.sentences.len() as int, live)
            },
            live,
        }
    }

    /// What an input leads to, and what is reported then. Each is taken only where it is waited
    /// for.
    pub open spec fn step(self, input: Input) -> Option<(CompletionView, Seq<TurnEvent>)> {
        let p = self.paragraph;
        match (self.stage, input) {
            (Stage::Sentences(left), Input::Sentence(o)) => Some(
                (
                    CompletionView {
                        paragraph: ParagraphView { sentences: filled(p.sentences, o), ..p },
                        stage: if left > 1 {
                            Stage::Sentences((left - 1) as usize)
                        } else {
                            sentences_done(p.sentences.len() as int, self.live)
                        },
                        ..self
                    },
                    Seq::empty(),
                ),
            ),
            (Stage::Live, Input::Live) => Some(
                (
                    CompletionView { stage: whole_stage(p.sentences.len() as int), ..self },
                    Seq::empty(),
                ),
            ),
            (Stage::Rerun, Input::Rerun(r)) => Some(
                (
                    CompletionView {
                        paragraph: rerun_paragraph(p, r),
                        stage: Stage::Calibration,
                        ..self
                    },
                    rerun_events(p.id, r),
                ),
            ),
            (Stage::Calibration, Input::Final { calibrated, route_us }) => Some(
                (
                    CompletionView { stage: Stage::Done, ..self },
                    seq![
                        TurnEvent::ParagraphCalibration { paragraph_id: p.id, calibrated, route_us },
                    ],
                ),
            ),
            _ => None,
        }
    }
}

/// The paragraph after the pass over the whole: where that gave a text, it is the paragraph's
/// batch text; else the sentences' texts stand.
pub open spec fn rerun_paragraph(p: ParagraphView, r: Rerun) -> ParagraphView {
    ParagraphView {
        batch: if r.text() is Some {
            opt_view(r.text())
        } else {
            p.batch
        },
        batch_asr_ms: r.millis(),
        ..p
    }
}

/// What the pass over the whole reports: its text, where it gave one.
pub open spec fn rerun_events(id: ParagraphId, r: Rerun) -> Seq<TurnEvent> {
    match r.text() {
        Some(t) => seq![TurnEvent::BatchParagraph { paragraph_id: id, text: t }],
        None => Seq::empty(),
    }
}

impl View for Completion {
    type V = CompletionView;

    closed spec fn view(&self) -> CompletionView {
        CompletionView { paragraph: self.paragraph@, stage: self.stage, live: self.live }
    }
}

fn stage_of_whole(sentences: usize) -> (r: Stage)
    ensures
        r == whole_stage(sentences as int),
{
    if sentences > 1 {
        Stage::Rerun
    } else {
        Stage::Calibration
    }
}

fn stage_after_sentences(sentences: usize, live: bool) -> (r: Stage)
    ensures
        r == sentences_done(sentences as int, live),
{
    if live {
        Stage::Live
    } else {
        stage_of_whole(sentences)
    }
}

/// The length of some audio in whole microseconds: 62.5 for each sample.
pub open spec fn audio_us(samples: int) -> int {
    samples * 125 / 2
}

impl Completion {
    /// Takes over a closed paragraph, with the passes of so many of its sentences under way, and
    /// perhaps a calibration of it.
    pub fn new(paragraph: VadParagraph, waits: usize, live: bool) -> (r: Self)
        ensures
            r@ == CompletionView::start(paragraph@, waits, live),
    {
        let stage = if waits > 0 {
            Stage::Sentences(waits)
        } else {
            stage_after_sentences(paragraph.sentences.len(), live)
        };
        Completion { paragraph, stage, live }
    }

    /// What is waited for next.
    pub fn stage(&self) -> (r: Stage)
        ensures
            r == self@.stage,
    {
        self.stage
    }

    /// The task of a sentence is through; one that broke down has no outcome.
    pub fn on_outcome(&mut self, outcome: Option<SentenceOutcome>)
        requires
            old(self)@.stage is Sentences,
        ensures
            old(self)@.step(Input::Sentence(outcome)) == Some((final(self)@, Seq::<TurnEvent>::empty())),
    {
        let n: usize = self.paragraph.sentences.len();
        match outcome {
            Some(o) => {
                fill_batch(&mut self.paragraph.sentences, o.sentence_id, o.batch_text);
            },
            None => {},
        }
        self.stage = match self.stage {
            Stage::Sentences(left) => if left > 1 {
                Stage::Sentences(left - 1)
            } else {
                stage_after_sentences(n, self.live)
            },
            other => other,
        };
    }

    /// The calibrations on the way are through.
    pub fn on_live(&mut self)
        requires
            old(self)@.stage == Stage::Live,
        ensures
            old(self)@.step(Input::Live) == Some((final(self)@, Seq::<TurnEvent>::empty())),
    {
        self.stage = stage_of_whole(self.paragraph.sentences.len());
    }

    /// The audio of the whole paragraph.
    pub fn audio(&self) -> (r: Arc<Vec<i16>>)
        ensures
            r@ == self@.paragraph.pcm,
    {
        self.paragraph.pcm.clone()
    }

    /// The batch pass over the paragraph has ended. Where it gave a text, that is the paragraph's
    /// batch text and is reported; else the sentences' texts stand.
    pub fn on_rerun(&mut self, rerun: Rerun) -> (r: Option<TurnEvent>)
        requires
            old(self)@.stage == Stage::Rerun,
        ensures
            old(self)@.step(Input::Rerun(rerun)) == Some(
                (
                    final(self)@,
                    match r {
                        Some(e) => seq![e],
                        None => Seq::empty(),
                    },
                ),
            ),
    {
        self.stage = Stage::Calibration;
        match rerun {
            Rerun::Done { text, asr_ms } => {
                self.paragraph.batch_asr_ms = asr_ms;
                match text {
                    Some(t) => {
                        self.paragraph.batch_text = Some(t.clone());
                        Some(TurnEvent::BatchParagraph { paragraph_id: self.paragraph.id, text: t })
                    },
                    None => None,
                }
            },
            _ => {
                self.paragraph.batch_asr_ms = 0;
                None
            },
        }
    }

    /// The paragraph as it stands, for its final calibration.
    pub fn paragraph(&self) -> (r: &VadParagraph)
        ensures
            r@ == self@.paragraph,
    {
        &self.paragraph
    }

    /// The final text is there: what goes to the archive, and the event that ends the paragraph.
    /// It comes whatever became of the batch passes.
    pub fn finish(&mut self, calibrated: String, route_us: u64) -> (r: (FinalTurn, TurnEvent))
        requires
            old(self)@.stage == Stage::Calibration,
        ensures
            old(self)@.step(Input::Final { calibrated, route_us }) == Some(
                (final(self)@, seq![r.1]),
            ),
            ({
                let p = old(self)@.paragraph;
                &&& r.0.seq == p.id
                &&& r.0.at_us == p.start_us
                &&& r.0.duration_us == audio_us(p.pcm.len() as int)
                &&& r.0.raw_text@ == p.best()
                &&& r.0.streaming_text@ == p.streaming
                &&& r.0.calibrated == calibrated
                &&& r.0.intent@.len() == 0
                &&& r.0.reply@.len() == 0
                &&& r.0.route_us == route_us
                &&& r.0.pcm@ == p.pcm
            }),
    {
        self.stage = Stage::Done;
        let raw_text = self.paragraph.best_text();
        let n: u128 = self.paragraph.pcm.len() as u128;
        let pcm = copy_samples(&self.paragraph.pcm);
        let record = FinalTurn {
            seq: self.paragraph.id,
            at_us: self.paragraph.start_us,
            duration_us: n * 125 / 2,
            raw_text,
            streaming_text: self.paragraph.streaming_text.clone(),
            calibrated: calibrated.clone(),
            intent: String::new(),
            reply: String::new(),
            route_us,
            pcm,
        };
        (
            record,
            TurnEvent::ParagraphCalibration { paragraph_id: self.paragraph.id, calibrated, route_us },
        )
    }
}

fn copy_samples(pcm: &Vec<i16>) -> (r: Vec<i16>)
    ensures
        r@ == pcm@,
{
    let mut out: Vec<i16> = Vec::new();
    let mut i: usize = 0;
    while i < pcm.len()
        invariant
            0 <= i <= pcm.len(),
            out@ == pcm@.take(i as int),
        decreases pcm.len() - i,
    {
        out.push(pcm[i]);
        i = i + 1;
        proof {
            assert(pcm@.take(i as int) =~= pcm@.take(i - 1).push(pcm@[i - 1]));
        }
    }
    proof {
        assert(pcm@.take(pcm@.len() as int) =~= pcm@);
    }
    out
}

/// The event that reports a calibration of the open paragraph up to a sentence.
pub fn live_done(
    paragraph_id: ParagraphId,
    up_to: SentenceId,
    calibrated: String,
    route_us: u64,
) -> (r: TurnEvent)
    ensures
        r == (TurnEvent::SentenceCalibration {
            paragraph_id,
            sentence_id: up_to,
            calibrated,
            route_us,
        }),
{
    TurnEvent::SentenceCalibration { paragraph_id, sentence_id: up_to, calibrated, route_us }
}

/// `b` is `a` but for the batch text.
pub open spec fn same_but_batch(a: VadSentence, b: VadSentence) -> bool {
    &&& a.id == b.id
    &&& a.audio_id == b.audio_id
    &&& a.start_us == b.start_us
    &&& a.end_us == b.end_us
    &&& a.streaming_text == b.streaming_text
}

proof fn lemma_with_batch_each(list: Seq<VadSentence>, id: SentenceId, text: Option<String>, i: int)
    requires
        0 <= i < list.len(),
    ensures
        with_batch(list, id, text).len() == list.len(),
        same_but_batch(list[i], with_batch(list, id, text)[i]),
        list[i].id != id ==> with_batch(list, id, text)[i] == list[i],
        list[i].id == id && (forall|j: int| 0 <= j < i ==> (#[trigger] list[j]).id != id)
            ==> with_batch(list, id, text)[i].batch_text == text,
    decreases list.len(),
{
    let t = list.skip(1);
    if list[0].id == id {
        if i > 0 {
            assert(with_batch(list, id, text)[i] == t[i - 1]);
        }
    } else if i > 0 {
        lemma_with_batch_each(t, id, text, i - 1);
        assert(with_batch(list, id, text)[i] == with_batch(t, id, text)[i - 1]);
        if forall|j: int| 0 <= j < i ==> (#[trigger] list[j]).id != id {
            assert forall|j: int| 0 <= j < i - 1 implies (#[trigger] t[j]).id != id by {
                assert(t[j] == list[j + 1]);
            }
        }
    } else if list.len() > 1 {
        lemma_with_batch_each(t, id, text, 0);
    } else {
        assert(with_batch(t, id, text) =~= t);
    }
}

/// Law: filling in the outcomes loses no sentence, keeps their order, and touches nothing but
/// the batch texts.
pub proof fn law_backfill_keeps_the_sentences(
    sentences: Seq<VadSentence>,
    outcomes: Seq<Option<SentenceOutcome>>,
    i: int,
)
    requires
        0 <= i < sentences.len(),
    ensures
        backfilled(sentences, outcomes).len() == sentences.len(),
        same_but_batch(sentences[i], backfilled(sentences, outcomes)[i]),
    decreases outcomes.len(),
{
    if outcomes.len() > 0 {
        law_backfill_keeps_the_sentences(sentences, outcomes.drop_last(), i);
        match outcomes.last() {
            Some(o) => {
                lemma_with_batch_each(
                    backfilled(sentences, outcomes.drop_last()),
                    o.sentence_id,
                    o.batch_text,
                    i,
                );
            },
            None => {},
        }
    }
}

/// Law: a sentence's batch text, once its task is through, is what the paragraph is finalized
/// on: among sentences with different ids, the one that the last outcome speaks of carries
/// exactly its text.
pub proof fn law_outcomes_reach_the_final_text(
    sentences: Seq<VadSentence>,
    earlier: Seq<Option<SentenceOutcome>>,
    outcome: SentenceOutcome,
    i: int,
)
    requires
        0 <= i < sentences.len(),
        sentences[i].id == outcome.sentence_id,
        forall|j: int, k: int|
            0 <= j < k < sentences.len() ==> (#[trigger] sentences[j]).id != (
            #[trigger] sentences[k]).id,
    ensures
        backfilled(sentences, earlier.push(Some(outcome)))[i].batch_text == outcome.batch_text,
{
    let rest = backfilled(sentences, earlier);
    assert(earlier.push(Some(outcome)).drop_last() =~= earlier);
    law_backfill_keeps_the_sentences(sentences, earlier, i);
    assert forall|j: int| 0 <= j < i implies (#[trigger] rest[j]).id != outcome.sentence_id by {
        law_backfill_keeps_the_sentences(sentences, earlier, j);
        assert(sentences[j].id != sentences[i].id);
    }
    lemma_with_batch_each(rest, outcome.sentence_id, outcome.batch_text, i);
}

/// The paragraph after some inputs, and all that was reported on the way; `None` where one came
/// that was not waited for.
pub open spec fn run(v: CompletionView, inputs: Seq<Input>) -> Option<(CompletionView, Seq<TurnEvent>)>
    decreases inputs.len(),
{
    if inputs.len() == 0 {
        Some((v, Seq::empty()))
    } else {
        match run(v, inputs.drop_last()) {
            Some((w, sent)) => match w.step(inputs.last()) {
                Some((x, more)) => Some((x, sent + more)),
                None => None,
            },
            None => None,
        }
    }
}

/// The outcomes among the first `n` inputs, which are all of sentences.
pub open spec fn outcomes_of(inputs: Seq<Input>, n: int) -> Seq<Option<SentenceOutcome>> {
    Seq::new(n as nat, |i: int| inputs[i]->Sentence_0)
}

/// How many inputs come before the pass over the whole: the sentences, and the calibrations on the
/// way where there are any.
pub open spec fn before_whole(waits: usize, live: bool) -> int {
    waits + if live {
        1int
    } else {
        0int
    }
}

/// The inputs up to the end of the sentences and of what is calibrated on the way.
spec fn opening(inputs: Seq<Input>, waits: usize, live: bool) -> bool {
    &&& inputs.len() >= before_whole(waits, live)
    &&& forall|i: int| 0 <= i < waits ==> (#[trigger] inputs[i]) is Sentence
    &&& live ==> inputs[waits as int] is Live
}

/// Where a paragraph stands after some inputs, by its stage.
spec fn stands(
    p: ParagraphView,
    waits: usize,
    live: bool,
    inputs: Seq<Input>,
    v: CompletionView,
    sent: Seq<TurnEvent>,
) -> bool {
    let k = before_whole(waits, live);
    let texts = backfilled(p.sentences, outcomes_of(inputs, waits as int));
    let through = ParagraphView { sentences: texts, ..p };
    &&& v.live == live
    &&& v.paragraph.sentences.len() == p.sentences.len()
    &&& match v.stage {
        Stage::Sentences(left) => {
            &&& 0 < left <= waits
            &&& inputs.len() == waits - left
            &&& forall|i: int| 0 <= i < inputs.len() ==> (#[trigger] inputs[i]) is Sentence
            &&& v.paragraph == (ParagraphView {
                sentences: backfilled(p.sentences, outcomes_of(inputs, inputs.len() as int)),
                ..p
            })
            &&& sent.len() == 0
        },
        Stage::Live => {
            &&& live
            &&& inputs.len() == waits
            &&& forall|i: int| 0 <= i < waits ==> (#[trigger] inputs[i]) is Sentence
            &&& v.paragraph == through
            &&& sent.len() == 0
        },
        Stage::Rerun => {
            &&& opening(inputs, waits, live)
            &&& inputs.len() == k
            &&& p.sentences.len() > 1
            &&& v.paragraph == through
            &&& sent.len() == 0
        },
        Stage::Calibration => {
            &&& opening(inputs, waits, live)
            &&& p.sentences.len() <= 1 ==> inputs.len() == k && v.paragraph == through && sent.len()
                == 0
            &&& p.sentences.len() > 1 ==> inputs.len() == k + 1 && inputs[k] is Rerun
                && v.paragraph == rerun_paragraph(through, inputs[k]->Rerun_0) && sent
                == rerun_events(p.id, inputs[k]->Rerun_0)
        },
        Stage::Done => {
            &&& opening(inputs, waits, live)
            &&& inputs.last() is Final
            &&& p.sentences.len() <= 1 ==> inputs.len() == k + 1 && v.paragraph == through
                && sent.len() == 1
            &&& p.sentences.len() > 1 ==> inputs.len() == k + 2 && inputs[k] is Rerun
                && v.paragraph == rerun_paragraph(through, inputs[k]->Rerun_0) && sent.drop_last()
                == rerun_events(p.id, inputs[k]->Rerun_0) && sent.len() > 0
            &&& sent.last() == (TurnEvent::ParagraphCalibration {
                paragraph_id: p.id,
                calibrated: inputs.last()->calibrated,
                route_us: inputs.last()->route_us,
            })
        },
    }
}

proof fn lemma_filled_len(sentences: Seq<VadSentence>, outcome: Option<SentenceOutcome>)
    ensures
        filled(sentences, outcome).len() == sentences.len(),
{
    match outcome {
        Some(o) => {
            if sentences.len() > 0 {
                lemma_with_batch_each(sentences, o.sentence_id, o.batch_text, 0);
            }
        },
        None => {},
    }
}

proof fn lemma_stands(p: ParagraphView, waits: usize, live: bool, inputs: Seq<Input>)
    requires
        run(CompletionView::start(p, waits, live), inputs) is Some,
    ensures
        ({
            let (v, sent) = run(CompletionView::start(p, waits, live), inputs)->0;
            stands(p, waits, live, inputs, v, sent)
        }),
    decreases inputs.len(),
{
    let start = CompletionView::start(p, waits, live);
    if inputs.len() == 0 {
        assert(outcomes_of(inputs, 0) =~= Seq::empty());
        assert(backfilled(p.sentences, outcomes_of(inputs, 0)) == p.sentences);
    } else {
        let rest = inputs.drop_last();
        lemma_stands(p, waits, live, rest);
        let (w, before) = run(start, rest)->0;
        let (v, more) = w.step(inputs.last())->0;
        let sent = before + more;
        assert(run(start, inputs) == Some((v, sent)));
        let k = before_whole(waits, live);
        match w.stage {
            Stage::Sentences(left) => {
                let n = rest.len() as int;
                let all = outcomes_of(inputs, n + 1);
                assert(all.drop_last() =~= outcomes_of(rest, n));
                assert(all.last() == inputs.last()->Sentence_0);
                lemma_filled_len(w.paragraph.sentences, inputs.last()->Sentence_0);
                assert forall|i: int| 0 <= i < inputs.len() implies (#[trigger] inputs[i]) is Sentence by {
                    if i < n {
                        assert(inputs[i] == rest[i]);
                    }
                }
                assert(sent =~= Seq::empty());
            },
            _ => {
                assert(rest.len() >= waits);
                assert(outcomes_of(inputs, waits as int) =~= outcomes_of(rest, waits as int));
                assert forall|i: int| 0 <= i < waits implies (#[trigger] inputs[i]) is Sentence by {
                    assert(inputs[i] == rest[i]);
                }
                if w.stage == Stage::Calibration {
                    assert(sent.drop_last() =~= before);
                } else if w.stage == Stage::Rerun {
                    assert(sent =~= more);
                } else {
                    assert(sent =~= Seq::empty());
                }
            },
        }
    }
}

/// Law: a paragraph is completed in one order. The passes of its sentences come first, then the
/// calibrations on the way, then one pass over the whole, and that only where it has several
/// sentences, then its final calibration, once. The text of the whole is reported exactly where
/// that pass gave one, and last of all, once, the final text, which is made of the sentences with
/// all their batch texts filled in.
pub proof fn law_a_paragraph_is_completed_in_order(
    p: ParagraphView,
    waits: usize,
    live: bool,
    inputs: Seq<Input>,
)
    requires
        run(CompletionView::start(p, waits, live), inputs) matches Some(end) && end.0.stage
            == Stage::Done,
    ensures
        ({
            let (v, sent) = run(CompletionView::start(p, waits, live), inputs)->0;
            let k = before_whole(waits, live);
            let through = ParagraphView {
                sentences: backfilled(p.sentences, outcomes_of(inputs, waits as int)),
                ..p
            };
            &&& inputs.len() == k + (if p.sentences.len() > 1 {
                2int
            } else {
                1int
            })
            &&& forall|i: int| 0 <= i < waits ==> (#[trigger] inputs[i]) is Sentence
            &&& live ==> inputs[waits as int] is Live
            &&& p.sentences.len() > 1 ==> inputs[k] is Rerun
            &&& inputs.last() is Final
            &&& v.paragraph == if p.sentences.len() > 1 {
                rerun_paragraph(through, inputs[k]->Rerun_0)
            } else {
                through
            }
            &&& sent == (if p.sentences.len() > 1 {
                rerun_events(p.id, inputs[k]->Rerun_0)
            } else {
                Seq::empty()
            }).push(
                TurnEvent::ParagraphCalibration {
                    paragraph_id: p.id,
                    calibrated: inputs.last()->calibrated,
                    route_us: inputs.last()->route_us,
                },
            )
        }),
{
    lemma_stands(p, waits, live, inputs);
    let (v, sent) = run(CompletionView::start(p, waits, live), inputs)->0;
    if p.sentences.len() > 1 {
        assert(sent =~= sent.drop_last().push(sent.last()));
    } else {
        assert(sent =~= Seq::<TurnEvent>::empty().push(sent.last()));
    }
}

/// Law: whatever comes of the passes, a paragraph can always go on until it is done, and a done
/// one takes nothing more.
pub proof fn law_a_paragraph_can_always_go_on(v: CompletionView, input: Input)
    ensures
        v.stage is Sentences ==> forall|o: Option<SentenceOutcome>|
            #[trigger] v.step(Input::Sentence(o)) is Some,
        v.stage == Stage::Live ==> v.step(Input::Live) is Some,
        v.stage == Stage::Rerun ==> forall|r: Rerun| #[trigger] v.step(Input::Rerun(r)) is Some,
        v.stage == Stage::Calibration ==> forall|calibrated: String, route_us: u64|
            #[trigger] v.step(Input::Final { calibrated, route_us }) is Some,
        v.stage == Stage::Done ==> v.step(input) is None,
{
}

/// Law: the pass over the whole gives the paragraph its text where it has one; where it has none,
/// broke down or took too long, the paragraph keeps what it had. It touches nothing else, and what
/// it found is announced as it is.
pub proof fn law_the_whole_pass_only_adds_a_text(p: ParagraphView, text: Option<String>, asr_ms: u64)
    ensures
        ({
            let r = Rerun::Done { text, asr_ms };
            let q = rerun_paragraph(p, r);
            &&& text matches Some(t) ==> q.batch == Some(t@) && rerun_events(p.id, r) == seq![
                TurnEvent::BatchParagraph { paragraph_id: p.id, text: t },
            ]
            &&& text is None ==> q.batch == p.batch && rerun_events(p.id, r).len() == 0
            &&& q.batch_asr_ms == asr_ms
            &&& q.id == p.id && q.sentences == p.sentences && q.pcm == p.pcm
            &&& q.start_us == p.start_us && q.end_us == p.end_us && q.streaming == p.streaming
        }),
        rerun_paragraph(p, Rerun::Failed) == (ParagraphView { batch_asr_ms: 0, ..p }),
        rerun_paragraph(p, Rerun::TimedOut) == (ParagraphView { batch_asr_ms: 0, ..p }),
        rerun_events(p.id, Rerun::Failed).len() == 0,
        rerun_events(p.id, Rerun::TimedOut).len() == 0,
{
}

/// Law: only a paragraph of several sentences is passed over as a whole, and only once its
/// sentences and, where there is one, the calibration on the way are through.
pub proof fn law_single_sentences_are_not_passed_over_again(p: ParagraphView, waits: usize, live: bool)
    ensures
        waits > 0 ==> CompletionView::start(p, waits, live).stage == Stage::Sentences(waits),
        waits == 0 && live ==> CompletionView::start(p, waits, live).stage == Stage::Live,
        waits == 0 && !live && p.sentences.len() > 1 ==> CompletionView::start(p, waits, live).stage
            == Stage::Rerun,
        waits == 0 && !live && p.sentences.len() <= 1 ==> CompletionView::start(
            p,
            waits,
            live,
        ).stage == Stage::Calibration,
        CompletionView::start(p, waits, live).paragraph == p,
{
}

/// Law: a recognition counts where it succeeded and says something, word for word.
pub proof fn law_blank_recognitions_do_not_count(t: String, e: ProviderError)
    ensures
        is_blank(t@) ==> surfaced(Ok(t)) is None,
        !is_blank(t@) ==> surfaced(Ok(t)) == Some(t@),
        surfaced(Err(e)) is None,
{
}

/// Law: audio lasts as its samples do, at 16000 to the second.
pub proof fn law_audio_lasts_as_its_samples(samples: int)
    requires
        samples >= 0,
    ensures
        audio_us(16_000 * samples) == 1_000_000 * samples,
        audio_us(samples) * 16_000 <= samples * 1_000_000 < (audio_us(samples) + 1) * 16_000,
{
}

/// Law: the task of a sentence that broke down changes nothing; one that came to an end gives its
/// sentence the text it found.
pub proof fn law_an_outcome_fills_its_sentence(
    sentences: Seq<VadSentence>,
    o: SentenceOutcome,
    i: int,
)
    ensures
        filled(sentences, None) == sentences,
        first_id_at(sentences, o.sentence_id, i) ==> filled(sentences, Some(o)) == sentences.update(
            i,
            VadSentence { batch_text: o.batch_text, ..sentences[i] },
        ),
{
    if first_id_at(sentences, o.sentence_id, i) {
        law_a_calibration_sees_its_batch_text(sentences, o.sentence_id, o.batch_text, i);
        assert(filled(sentences, Some(o)) =~= sentences.update(
            i,
            VadSentence { batch_text: o.batch_text, ..sentences[i] },
        ));
    }
}

/// Law: a finished paragraph is told once, with its final text; its record has its own number, its
/// start, its audio and how long that lasts, what was recognised and what became of it.
pub proof fn law_a_finished_paragraph_is_told_and_recorded(
    c: &mut Completion,
    calibrated: String,
    route_us: u64,
    r: (FinalTurn, TurnEvent),
)
    requires
        old(c)@.stage == Stage::Calibration,
        call_ensures(Completion::finish, (c, calibrated, route_us), r),
    ensures
        ({
            let p = old(c)@.paragraph;
            &&& r.1 == (TurnEvent::ParagraphCalibration { paragraph_id: p.id, calibrated, route_us })
            &&& final(c)@.stage == Stage::Done
            &&& r.0.seq == p.id
            &&& r.0.at_us == p.start_us
            &&& r.0.pcm@ == p.pcm
            &&& r.0.duration_us * 16_000 <= p.pcm.len() * 1_000_000 < (r.0.duration_us + 1) * 16_000
            &&& r.0.calibrated == calibrated
            &&& r.0.streaming_text@ == p.streaming
            &&& r.0.route_us == route_us
            &&& p.batch matches Some(t) ==> (!is_blank(t) ==> r.0.raw_text@ == t)
            &&& (p.batch matches Some(t) ==> is_blank(t)) ==> r.0.raw_text@ == best_texts(p.sentences)
            &&& r.0.intent@.len() == 0 && r.0.reply@.len() == 0
        }),
{
    let p = old(c)@.paragraph;
    law_audio_lasts_as_its_samples(p.pcm.len() as int);
    let told = TurnEvent::ParagraphCalibration { paragraph_id: p.id, calibrated, route_us };
    assert(seq![told][0] == told);
    assert(seq![r.1][0] == r.1);
}

/// Law: the pass over a sentence leaves its outcome, and is told where it found a text.
pub proof fn law_a_sentence_pass_is_told_where_it_found_a_text(
    paragraph_id: ParagraphId,
    sentence_id: SentenceId,
    text: Option<String>,
    asr_ms: u64,
    r: (SentenceOutcome, Option<TurnEvent>),
)
    requires
        call_ensures(sentence_done, (paragraph_id, sentence_id, text, asr_ms), r),
    ensures
        r.0.sentence_id == sentence_id && r.0.batch_text == text && r.0.asr_ms == asr_ms,
        text matches Some(t) ==> r.1 == Some(
            TurnEvent::BatchSentence { paragraph_id, sentence_id, text: t },
        ),
        text is None ==> r.1 is None,
{
}

/// Law: a calibration on the way is told with its own paragraph and the sentence it reaches.
pub proof fn law_a_calibration_on_the_way_is_told(
    paragraph_id: ParagraphId,
    up_to: SentenceId,
    calibrated: String,
    route_us: u64,
    r: TurnEvent,
)
    requires
        call_ensures(live_done, (paragraph_id, up_to, calibrated, route_us), r),
    ensures
        r matches TurnEvent::SentenceCalibration {
            paragraph_id: p,
            sentence_id,
            calibrated: t,
            route_us: us,
        } && p == paragraph_id && sentence_id == up_to && t == calibrated && us == route_us,
{
}

} // verus!
