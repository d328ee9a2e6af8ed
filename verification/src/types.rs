//! The data contract between recognition and calibration: sentences, paragraphs and the events
//! that carry them. Times are whole microseconds on the wall clock of one run.

use std::sync::Arc;

use vstd::prelude::*;
use vstd::string::*;

use crate::text::{blank, is_blank};

verus! {

/// Audio clip id, assigned by the audio store.
pub type AudioId = u64;

/// Sentence id, counting up within one run.
pub type SentenceId = u64;

/// Paragraph id: the microsecond of its opening, strictly increasing. Ids order paragraphs.
pub type ParagraphId = u64;

/// Samples per second of every clip in the pipeline.
pub const SAMPLE_RATE: u32 = 16_000;

/// One clip between two gaps of speech. `batch_text` is `None` while the batch pass is still
/// running, and for good when it failed.
#[derive(Debug)]
pub struct VadSentence {
    pub id: SentenceId,
    /// The clip's PCM in the audio store.
    pub audio_id: AudioId,
    /// Speech onset.
    pub start_us: i64,
    /// End of speech.
    pub end_us: i64,
    /// What the streaming recogniser made of this sentence.
    pub streaming_text: String,
    /// What the batch recogniser made of it.
    pub batch_text: Option<String>,
}

/// The batch text where it holds more than white space.
pub open spec fn usable_text(batch: Option<String>) -> Option<Seq<char>> {
    match batch {
        Some(t) => if is_blank(t@) {
            None
        } else {
            Some(t@)
        },
        None => None,
    }
}

impl VadSentence {
    /// The text to go by: the batch text where there is a usable one, the streaming text
    /// otherwise.
    pub open spec fn best(&self) -> Seq<char> {
        match usable_text(self.batch_text) {
            Some(t) => t,
            None => self.streaming_text@,
        }
    }

    /// Best available text.
    pub fn best_text(&self) -> (r: &str)
        ensures
            r@ == self.best(),
    {
        match &self.batch_text {
            Some(t) => if blank(t.as_str()) {
                self.streaming_text.as_str()
            } else {
                t.as_str()
            },
            None => self.streaming_text.as_str(),
        }
    }
}

impl Clone for VadSentence {
    fn clone(&self) -> (r: Self)
        ensures
            r == *self,
    {
        VadSentence {
            id: self.id,
            audio_id: self.audio_id,
            start_us: self.start_us,
            end_us: self.end_us,
            streaming_text: self.streaming_text.clone(),
            batch_text: self.batch_text.clone(),
        }
    }
}

/// A copy of a list of sentences.
pub fn clone_sentences(v: &Vec<VadSentence>) -> (r: Vec<VadSentence>)
    ensures
        r@ == v@,
{
    let mut out: Vec<VadSentence> = Vec::new();
    let mut i: usize = 0;
    while i < v.len()
        invariant
            0 <= i <= v.len(),
            out@ == v@.take(i as int),
        decreases v.len() - i,
    {
        out.push(v[i].clone());
        i = i + 1;
        proof {
            assert(v@.take(i as int) =~= v@.take(i - 1).push(v@[i - 1]));
        }
    }
    proof {
        assert(v@.take(v@.len() as int) =~= v@);
    }
    out
}

/// The best texts of the sentences, one after the other.
pub open spec fn best_texts(sentences: Seq<VadSentence>) -> Seq<char>
    decreases sentences.len(),
{
    if sentences.len() == 0 {
        Seq::empty()
    } else {
        best_texts(sentences.drop_last()) + sentences.last().best()
    }
}

/// The streaming texts of the sentences, one after the other.
pub open spec fn streaming_texts(sentences: Seq<VadSentence>) -> Seq<char>
    decreases sentences.len(),
{
    if sentences.len() == 0 {
        Seq::empty()
    } else {
        streaming_texts(sentences.drop_last()) + sentences.last().streaming_text@
    }
}

/// Concatenates the best texts.
pub fn concat_best(sentences: &[VadSentence]) -> (r: String)
    ensures
        r@ == best_texts(sentences@),
{
    let mut out = String::new();
    let mut i: usize = 0;
    while i < sentences.len()
        invariant
            0 <= i <= sentences.len(),
            out@ == best_texts(sentences@.take(i as int)),
        decreases sentences.len() - i,
    {
        proof {
            assert(sentences@.take(i + 1).drop_last() =~= sentences@.take(i as int));
        }
        out.append(sentences[i].best_text());
        i = i + 1;
    }
    proof {
        assert(sentences@.take(sentences@.len() as int) =~= sentences@);
    }
    out
}

/// Concatenates the streaming texts.
pub fn concat_streaming(sentences: &[VadSentence]) -> (r: String)
    ensures
        r@ == streaming_texts(sentences@),
{
    let mut out = String::new();
    let mut i: usize = 0;
    while i < sentences.len()
        invariant
            0 <= i <= sentences.len(),
            out@ == streaming_texts(sentences@.take(i as int)),
        decreases sentences.len() - i,
    {
        proof {
            assert(sentences@.take(i + 1).drop_last() =~= sentences@.take(i as int));
        }
        out.append(sentences[i].streaming_text.as_str());
        i = i + 1;
    }
    proof {
        assert(sentences@.take(sentences@.len() as int) =~= sentences@);
    }
    out
}

/// The sentences of one paragraph and what was made of them as a whole.
#[derive(Debug)]
pub struct VadParagraph {
    pub id: ParagraphId,
    pub sentences: Vec<VadSentence>,
    /// Onset of the first sentence.
    pub start_us: i64,
    /// End of the last sentence.
    pub end_us: i64,
    /// The streaming texts of the sentences, concatenated.
    pub streaming_text: String,
    /// The batch pass over the whole paragraph, where one was made and gave a text.
    pub batch_text: Option<String>,
    /// The PCM of all sentences, concatenated.
    pub pcm: Arc<Vec<i16>>,
    /// How long the batch pass over the paragraph took.
    pub batch_asr_ms: u64,
}

impl VadParagraph {
    /// The text to finalize on: the paragraph's own batch text where usable, else the best
    /// texts of its sentences.
    pub open spec fn best(&self) -> Seq<char> {
        match usable_text(self.batch_text) {
            Some(t) => t,
            None => best_texts(self.sentences@),
        }
    }

    /// Best available text of the paragraph.
    pub fn best_text(&self) -> (r: String)
        ensures
            r@ == self.best(),
    {
        match &self.batch_text {
            Some(t) => {
                if !blank(t.as_str()) {
                    return t.clone();
                }
            },
            None => {},
        }
        concat_best(self.sentences.as_slice())
    }

    /// Length of the paragraph's audio in nanoseconds: 62500 for each sample.
    pub fn duration_ns(&self) -> (r: u128)
        ensures
            r == self.pcm@.len() * 62_500,
            r * SAMPLE_RATE == self.pcm@.len() * 1_000_000_000,
    {
        (self.pcm.len() as u128) * 62_500
    }
}

impl Clone for VadParagraph {
    fn clone(&self) -> (r: Self)
        ensures
            r.id == self.id,
            r.sentences@ == self.sentences@,
            r.start_us == self.start_us,
            r.end_us == self.end_us,
            r.streaming_text@ == self.streaming_text@,
            r.batch_text == self.batch_text,
            r.pcm == self.pcm,
            r.batch_asr_ms == self.batch_asr_ms,
    {
        VadParagraph {
            id: self.id,
            sentences: clone_sentences(&self.sentences),
            start_us: self.start_us,
            end_us: self.end_us,
            streaming_text: self.streaming_text.clone(),
            batch_text: self.batch_text.clone(),
            pcm: self.pcm.clone(),
            batch_asr_ms: self.batch_asr_ms,
        }
    }
}

/// A paragraph that was just closed: its id and its sentences in order.
#[derive(Debug)]
pub struct SettledParagraph {
    pub paragraph_id: ParagraphId,
    pub sentences: Vec<VadSentence>,
}

/// What recognition reports, in order; nothing reported is changed later.
#[derive(Debug)]
pub enum Stage1Event {
    /// Streaming text of the sentence being spoken.
    StreamFragment { paragraph_id: ParagraphId, sentence_id: SentenceId, text: String, at_us: i64 },
    /// A gap closed a sentence; `sentences` are all of the open paragraph so far.
    Batch { paragraph_id: ParagraphId, sentences: Vec<VadSentence>, sr: u32 },
    /// A paragraph was closed.
    ParagraphEdge { paragraph: VadParagraph, sr: u32 },
}


/// A paragraph as a value.
pub struct ParagraphView {
    pub id: ParagraphId,
    pub sentences: Seq<VadSentence>,
    pub start_us: i64,
    pub end_us: i64,
    pub streaming: Seq<char>,
    pub batch: Option<Seq<char>>,
    pub pcm: Seq<i16>,
    pub batch_asr_ms: u64,
}

/// An optional text as a value.
pub open spec fn opt_view(t: Option<String>) -> Option<Seq<char>> {
    match t {
        Some(s) => Some(s@),
        None => None,
    }
}

impl ParagraphView {
    /// The text to finalize on.
    pub open spec fn best(self) -> Seq<char> {
        match self.batch {
            Some(t) => if is_blank(t) {
                best_texts(self.sentences)
            } else {
                t
            },
            None => best_texts(self.sentences),
        }
    }
}

impl View for VadParagraph {
    type V = ParagraphView;

    open spec fn view(&self) -> ParagraphView {
        ParagraphView {
            id: self.id,
            sentences: self.sentences@,
            start_us: self.start_us,
            end_us: self.end_us,
            streaming: self.streaming_text@,
            batch: opt_view(self.batch_text),
            pcm: self.pcm@,
            batch_asr_ms: self.batch_asr_ms,
        }
    }
}

/// An event as a value.
pub enum EventView {
    Fragment { paragraph_id: ParagraphId, sentence_id: SentenceId, text: Seq<char>, at_us: i64 },
    Batch { paragraph_id: ParagraphId, sentences: Seq<VadSentence>, sr: u32 },
    Edge { paragraph: ParagraphView, sr: u32 },
}

impl View for Stage1Event {
    type V = EventView;

    open spec fn view(&self) -> EventView {
        match self {
            Stage1Event::StreamFragment { paragraph_id, sentence_id, text, at_us } =>
                EventView::Fragment {
                paragraph_id: *paragraph_id,
                sentence_id: *sentence_id,
                text: text@,
                at_us: *at_us,
            },
            Stage1Event::Batch { paragraph_id, sentences, sr } => EventView::Batch {
                paragraph_id: *paragraph_id,
                sentences: sentences@,
                sr: *sr,
            },
            Stage1Event::ParagraphEdge { paragraph, sr } => EventView::Edge {
                paragraph: paragraph@,
                sr: *sr,
            },
        }
    }
}

/// A list of events as values.
pub open spec fn event_views(v: Seq<Stage1Event>) -> Seq<EventView> {
    Seq::new(v.len(), |i: int| v[i]@)
}

/// Law: the text to go by is the batch text wherever there is one that is not blank, and the
/// streaming text otherwise.
pub proof fn law_the_batch_text_goes_first(s: VadSentence, p: VadParagraph)
    ensures
        s.batch_text matches Some(t) ==> !is_blank(t@) ==> s.best() == t@,
        (s.batch_text matches Some(t) ==> is_blank(t@)) ==> s.best() == s.streaming_text@,
        p.batch_text matches Some(t) ==> !is_blank(t@) ==> p.best() == t@ && p@.best() == t@,
        (p.batch_text matches Some(t) ==> is_blank(t@)) ==> p.best() == best_texts(p.sentences@)
            && p@.best() == best_texts(p.sentences@),
{
}

/// Law: the texts of a run of sentences are in speaking order: those of two runs in a row are the
/// first run's followed by the second's, and one sentence gives its own text.
pub proof fn law_texts_are_in_speaking_order(
    a: Seq<VadSentence>,
    b: Seq<VadSentence>,
    s: VadSentence,
)
    ensures
        best_texts(a + b) == best_texts(a) + best_texts(b),
        streaming_texts(a + b) == streaming_texts(a) + streaming_texts(b),
        best_texts(seq![s]) == s.best(),
        streaming_texts(seq![s]) == s.streaming_text@,
    decreases b.len(),
{
    assert(seq![s].drop_last() =~= Seq::<VadSentence>::empty());
    assert(best_texts(Seq::<VadSentence>::empty()) =~= Seq::<char>::empty());
    assert(streaming_texts(Seq::<VadSentence>::empty()) =~= Seq::<char>::empty());
    assert(best_texts(seq![s]) =~= s.best());
    assert(streaming_texts(seq![s]) =~= s.streaming_text@);
    if b.len() == 0 {
        assert(a + b =~= a);
    } else {
        assert((a + b).drop_last() =~= a + b.drop_last());
        law_texts_are_in_speaking_order(a, b.drop_last(), s);
    }
    assert(best_texts(a + b) =~= best_texts(a) + best_texts(b));
    assert(streaming_texts(a + b) =~= streaming_texts(a) + streaming_texts(b));
}

/// Law: events are seen one for one, in their order, each with what it holds.
pub proof fn law_events_are_seen_as_they_are(v: Seq<Stage1Event>, i: int)
    requires
        0 <= i < v.len(),
    ensures
        event_views(v).len() == v.len(),
        event_views(v)[i] == v[i]@,
        v[i] matches Stage1Event::StreamFragment { paragraph_id, sentence_id, text, at_us } ==> v[i]@
            == (EventView::Fragment { paragraph_id, sentence_id, text: text@, at_us }),
        v[i] matches Stage1Event::Batch { paragraph_id, sentences, sr } ==> v[i]@
            == (EventView::Batch { paragraph_id, sentences: sentences@, sr }),
        v[i] matches Stage1Event::ParagraphEdge { paragraph, sr } ==> v[i]@ == (EventView::Edge {
            paragraph: paragraph@,
            sr,
        }),
{
}

/// Law: a paragraph lasts as long as its audio, at 16000 samples to the second.
pub proof fn law_a_paragraph_lasts_as_its_audio(p: VadParagraph, r: u128)
    requires
        call_ensures(VadParagraph::duration_ns, (&p,), r),
    ensures
        r * 16_000 == p.pcm@.len() * 1_000_000_000,
{
}

/// Law: the text to go by, of a sentence and of a paragraph, is the batch text wherever it says
/// something.
pub proof fn law_the_text_to_go_by(s: VadSentence, p: VadParagraph, a: &str, b: String)
    requires
        call_ensures(VadSentence::best_text, (&s,), a),
        call_ensures(VadParagraph::best_text, (&p,), b),
    ensures
        s.batch_text matches Some(t) ==> !is_blank(t@) ==> a@ == t@,
        (s.batch_text matches Some(t) ==> is_blank(t@)) ==> a@ == s.streaming_text@,
        p.batch_text matches Some(t) ==> !is_blank(t@) ==> b@ == t@,
        (p.batch_text matches Some(t) ==> is_blank(t@)) ==> b@ == best_texts(p.sentences@),
{
    law_the_batch_text_goes_first(s, p);
}

/// Law: a paragraph is seen with all that it holds.
pub proof fn law_a_paragraph_is_seen_as_it_is(p: VadParagraph)
    ensures
        p@.id == p.id,
        p@.sentences == p.sentences@,
        p@.start_us == p.start_us && p@.end_us == p.end_us,
        p@.streaming == p.streaming_text@,
        p@.pcm == p.pcm@,
        p@.batch_asr_ms == p.batch_asr_ms,
        p.batch_text matches Some(t) ==> p@.batch == Some(t@),
        p.batch_text is None ==> p@.batch is None,
{
}

} // verus!
