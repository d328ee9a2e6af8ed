//! Joint calibration: the sentences of a paragraph, recognised twice, become one polished text.
//! A language model does the polishing; what it is asked, when it is asked at all and what
//! stands in for its answer is decided here. Nothing is remembered between two calls.

use vstd::prelude::*;
use vstd::string::*;

use crate::models::{LlmProvider, ProviderError};
use crate::prompt::{
    clone_pairs, clone_words, input_text, pair_views, str_views, PromptBuilder, PromptView,
};
use crate::text::{blank, concatenated, is_blank, joined, trimmed, views};
use crate::types::{
    best_texts, concat_best, concat_streaming, streaming_texts, usable_text, ParagraphId,
    VadParagraph, VadSentence,
};

verus! {

/// Which of the two transcripts the model sees.
#[derive(Clone, Copy, Debug, PartialEq, Eq, Structural)]
pub enum LlmInput {
    /// The batch texts, streaming where one is missing.
    Batch,
    /// The streaming texts.
    Stream,
    /// The batch texts with the streaming text beside them.
    Both,
}

impl Default for LlmInput {
    fn default() -> (r: Self)
        ensures
            r == LlmInput::Both,
    {
        LlmInput::Both
    }
}

/// Polishes paragraphs.
pub trait Stage2Calibrator {
    /// A preview of the open paragraph, from all of its sentences so far.
    fn calibrate_paragraph(&mut self, paragraph_id: ParagraphId, sentences: &[VadSentence]) -> String;

    /// The final text of a closed paragraph.
    fn finalize_paragraph(&mut self, paragraph: &VadParagraph) -> String;
}

/// Calibration switched off: the best texts go through unchanged and no model is asked.
#[derive(Clone, Copy, Debug)]
pub struct PassThroughCalibrator;

impl Stage2Calibrator for PassThroughCalibrator {
    fn calibrate_paragraph(&mut self, _paragraph_id: ParagraphId, sentences: &[VadSentence]) -> (r:
        String)
        ensures
            r@ == best_texts(sentences@),
    {
        concat_best(sentences)
    }

    fn finalize_paragraph(&mut self, paragraph: &VadParagraph) -> (r: String)
        ensures
            r@ == paragraph.best(),
    {
        paragraph.best_text()
    }
}

/// Was anything recognised in a sentence, by either recogniser?
pub open spec fn has_text(s: VadSentence) -> bool {
    !is_blank(s.streaming_text@) || usable_text(s.batch_text) is Some
}

/// Was anything recognised at all?
pub open spec fn recognized(sentences: Seq<VadSentence>) -> bool {
    exists|i: int| 0 <= i < sentences.len() && has_text(#[trigger] sentences[i])
}

/// The best texts that are not blank, in order.
pub open spec fn best_source(sentences: Seq<VadSentence>) -> Seq<Seq<char>>
    decreases sentences.len(),
{
    if sentences.len() == 0 {
        Seq::empty()
    } else if is_blank(sentences.last().best()) {
        best_source(sentences.drop_last())
    } else {
        best_source(sentences.drop_last()).push(sentences.last().best())
    }
}

/// The streaming texts that are not blank, in order.
pub open spec fn streaming_source(sentences: Seq<VadSentence>) -> Seq<Seq<char>>
    decreases sentences.len(),
{
    if sentences.len() == 0 {
        Seq::empty()
    } else if is_blank(sentences.last().streaming_text@) {
        streaming_source(sentences.drop_last())
    } else {
        streaming_source(sentences.drop_last()).push(sentences.last().streaming_text@)
    }
}

/// The texts that the model polishes.
pub open spec fn source_texts(input: LlmInput, sentences: Seq<VadSentence>) -> Seq<Seq<char>> {
    match input {
        LlmInput::Stream => streaming_source(sentences),
        _ => best_source(sentences),
    }
}

/// The text shown beside them.
pub open spec fn reference_text(input: LlmInput, sentences: Seq<VadSentence>) -> Option<Seq<char>> {
    match input {
        LlmInput::Both => Some(streaming_texts(sentences)),
        _ => None,
    }
}

/// Is the model asked at all? Only where something was recognised, and by the recogniser that
/// the input goes by.
pub open spec fn asks(input: LlmInput, sentences: Seq<VadSentence>) -> bool {
    recognized(sentences) && source_texts(input, sentences).len() > 0
}

/// The prompt for the texts: one line each, the reference beside them where it says something
/// else, the user's corrections.
pub open spec fn joint_prompt(
    texts: Seq<Seq<char>>,
    reference: Option<Seq<char>>,
    hotwords: Seq<Seq<char>>,
    corrections: Seq<(Seq<char>, Seq<char>)>,
) -> PromptView {
    let bare = PromptView {
        hotwords,
        corrections,
        ..PromptView::bare(input_text(texts))
    };
    match reference {
        Some(t) => if is_blank(t) || trimmed(t) == trimmed(bare.raw) {
            bare
        } else {
            PromptView { streaming_ref: Some(trimmed(t)), ..bare }
        },
        None => bare,
    }
}

/// What the model is asked, and what stands in for its answer.
pub struct CalibrationRequest {
    pub system: String,
    pub user: String,
    /// The texts themselves, unpolished.
    pub fallback: String,
}

/// `q` asks for exactly these texts.
pub open spec fn requests(
    q: CalibrationRequest,
    texts: Seq<Seq<char>>,
    reference: Option<Seq<char>>,
    hotwords: Seq<Seq<char>>,
    corrections: Seq<(Seq<char>, Seq<char>)>,
) -> bool {
    let p = joint_prompt(texts, reference, hotwords, corrections);
    &&& q.system@ == p.system()
    &&& q.user@ == p.user()
    &&& q.fallback@ == concatenated(texts)
}

fn has_recognized_text(sentences: &[VadSentence]) -> (r: bool)
    ensures
        r == recognized(sentences@),
{
    let mut i: usize = 0;
    while i < sentences.len()
        invariant
            0 <= i <= sentences.len(),
            forall|j: int| 0 <= j < i ==> !has_text(#[trigger] sentences@[j]),
        decreases sentences.len() - i,
    {
        let heard = match &sentences[i].batch_text {
            Some(t) => !blank(t.as_str()),
            None => false,
        };
        if heard || !blank(sentences[i].streaming_text.as_str()) {
            proof {
                assert(has_text(sentences@[i as int]));
            }
            return true;
        }
        i = i + 1;
    }
    false
}

fn collect_best<'a>(sentences: &'a [VadSentence]) -> (r: Vec<&'a str>)
    ensures
        str_views(r@) == best_source(sentences@),
{
    let mut out: Vec<&'a str> = Vec::new();
    let mut i: usize = 0;
    proof {
        assert(str_views(out@) =~= best_source(sentences@.take(0)));
    }
    while i < sentences.len()
        invariant
            0 <= i <= sentences.len(),
            str_views(out@) == best_source(sentences@.take(i as int)),
        decreases sentences.len() - i,
    {
        let ghost before = str_views(out@);
        let t: &'a str = sentences[i].best_text();
        proof {
            assert(sentences@.take(i + 1).drop_last() =~= sentences@.take(i as int));
        }
        if !blank(t) {
            out.push(t);
            proof {
                assert(str_views(out@) =~= before.push(t@));
            }
        }
        i = i + 1;
    }
    proof {
        assert(sentences@.take(sentences@.len() as int) =~= sentences@);
    }
    out
}

fn collect_streaming<'a>(sentences: &'a [VadSentence]) -> (r: Vec<&'a str>)
    ensures
        str_views(r@) == streaming_source(sentences@),
{
    let mut out: Vec<&'a str> = Vec::new();
    let mut i: usize = 0;
    proof {
        assert(str_views(out@) =~= streaming_source(sentences@.take(0)));
    }
    while i < sentences.len()
        invariant
            0 <= i <= sentences.len(),
            str_views(out@) == streaming_source(sentences@.take(i as int)),
        decreases sentences.len() - i,
    {
        let ghost before = str_views(out@);
        let t: &'a str = sentences[i].streaming_text.as_str();
        proof {
            assert(sentences@.take(i + 1).drop_last() =~= sentences@.take(i as int));
        }
        if !blank(t) {
            out.push(t);
            proof {
                assert(str_views(out@) =~= before.push(t@));
            }
        }
        i = i + 1;
    }
    proof {
        assert(sentences@.take(sentences@.len() as int) =~= sentences@);
    }
    out
}

fn concat_strs(texts: &[&str]) -> (r: String)
    ensures
        r@ == concatenated(str_views(texts@)),
{
    let mut out = String::new();
    let mut i: usize = 0;
    proof {
        assert(str_views(texts@.take(0)) =~= Seq::empty());
    }
    while i < texts.len()
        invariant
            0 <= i <= texts.len(),
            out@ == concatenated(str_views(texts@.take(i as int))),
        decreases texts.len() - i,
    {
        proof {
            let now = str_views(texts@.take(i + 1));
            assert(now.drop_last() =~= str_views(texts@.take(i as int)));
            assert(now.last() == texts@[i as int]@);
        }
        out.append(texts[i]);
        i = i + 1;
    }
    proof {
        assert(texts@.take(texts@.len() as int) =~= texts@);
    }
    out
}

/// The optional text as a value.
pub open spec fn opt_str(t: Option<&str>) -> Option<Seq<char>> {
    match t {
        Some(s) => Some(s@),
        None => None,
    }
}

/// What the model is asked for some texts; nothing where there are none.
pub fn joint_request(
    texts: &[&str],
    streaming_ref: Option<&str>,
    hotwords: &[String],
    corrections: &[(String, String)],
) -> (r: Option<CalibrationRequest>)
    ensures
        r is Some == (texts@.len() > 0),
        r matches Some(q) ==> requests(
            q,
            str_views(texts@),
            opt_str(streaming_ref),
            views(hotwords@),
            pair_views(corrections@),
        ),
{
    if texts.len() == 0 {
        return None;
    }
    let mut pb = PromptBuilder::new_multi(texts).hotwords(hotwords);
    match streaming_ref {
        Some(t) => {
            pb = pb.streaming_ref(t);
        },
        None => {},
    }
    pb = pb.corrections(corrections);
    let (system, user) = pb.build();
    Some(CalibrationRequest { system, user, fallback: concat_strs(texts) })
}

/// What the model is asked for a paragraph; nothing where there is nothing to polish.
pub fn calibration_request(
    input: LlmInput,
    sentences: &[VadSentence],
    hotwords: &[String],
    corrections: &[(String, String)],
) -> (r: Option<CalibrationRequest>)
    ensures
        r is Some == asks(input, sentences@),
        r matches Some(q) ==> requests(
            q,
            source_texts(input, sentences@),
            reference_text(input, sentences@),
            views(hotwords@),
            pair_views(corrections@),
        ),
{
    if !has_recognized_text(sentences) {
        return None;
    }
    match input {
        LlmInput::Batch => {
            let texts = collect_best(sentences);
            joint_request(texts.as_slice(), None, hotwords, corrections)
        },
        LlmInput::Stream => {
            let texts = collect_streaming(sentences);
            joint_request(texts.as_slice(), None, hotwords, corrections)
        },
        LlmInput::Both => {
            let texts = collect_best(sentences);
            let streaming = concat_streaming(sentences);
            joint_request(texts.as_slice(), Some(streaming.as_str()), hotwords, corrections)
        },
    }
}

/// The polished text: the model's answer, or the texts themselves where it gave none.
pub fn settle_calibration(request: CalibrationRequest, answer: Result<String, ProviderError>) -> (r:
    String)
    ensures
        r@ == settled_text(request, answer),
{
    match answer {
        Ok(t) => t,
        Err(_) => request.fallback,
    }
}

/// The polished text.
pub open spec fn settled_text(request: CalibrationRequest, answer: Result<String, ProviderError>) -> Seq<
    char,
> {
    match answer {
        Ok(t) => t@,
        Err(_) => request.fallback@,
    }
}

/// `r` is what becomes of a paragraph with this question: it was asked with exactly the two texts
/// of the paragraph's request, and its answer, or the fallback, is the result. A paragraph
/// without anything to polish asks nothing and gives the empty text.
pub open spec fn asked_once<F: FnOnce(&str, &str) -> Result<String, ProviderError>>(
    ask: F,
    input: LlmInput,
    sentences: Seq<VadSentence>,
    hotwords: Seq<Seq<char>>,
    corrections: Seq<(Seq<char>, Seq<char>)>,
    r: Seq<char>,
) -> bool {
    if asks(input, sentences) {
        exists|q: CalibrationRequest, system: &str, user: &str, answer: Result<String, ProviderError>|
            {
                &&& #[trigger] requests(
                    q,
                    source_texts(input, sentences),
                    reference_text(input, sentences),
                    hotwords,
                    corrections,
                )
                &&& system@ == q.system@
                &&& user@ == q.user@
                &&& #[trigger] call_ensures(ask, (system, user), answer)
                &&& r == settled_text(q, answer)
            }
    } else {
        r.len() == 0
    }
}

/// Polishes a paragraph with one question at most: `ask` can be asked once and is used up by it.
pub fn calibrate_once<F: FnOnce(&str, &str) -> Result<String, ProviderError>>(
    input: LlmInput,
    sentences: &[VadSentence],
    hotwords: &[String],
    corrections: &[(String, String)],
    ask: F,
) -> (r: String)
    requires
        forall|system: &str, user: &str| #[trigger] call_requires(ask, (system, user)),
    ensures
        asked_once(ask, input, sentences@, views(hotwords@), pair_views(corrections@), r@),
{
    match calibration_request(input, sentences, hotwords, corrections) {
        Some(q) => {
            let ghost question = q;
            let system = q.system.as_str();
            let user = q.user.as_str();
            let answer = ask(system, user);
            proof {
                assert(requests(
                    question,
                    source_texts(input, sentences@),
                    reference_text(input, sentences@),
                    views(hotwords@),
                    pair_views(corrections@),
                ));
                assert(call_ensures(ask, (system, user), answer));
            }
            settle_calibration(q, answer)
        },
        None => String::new(),
    }
}

/// The calibrator over a language model.
pub struct Stage2CalibratorImpl<L: LlmProvider> {
    llm: L,
    hotwords: Vec<String>,
    corrections: Vec<(String, String)>,
    input: LlmInput,
}

/// What the calibrator goes by.
pub struct CalibratorView<L> {
    pub llm: L,
    pub hotwords: Seq<Seq<char>>,
    pub corrections: Seq<(Seq<char>, Seq<char>)>,
    pub input: LlmInput,
}

impl<L: LlmProvider> View for Stage2CalibratorImpl<L> {
    type V = CalibratorView<L>;

    closed spec fn view(&self) -> CalibratorView<L> {
        CalibratorView {
            llm: self.llm,
            hotwords: views(self.hotwords@),
            corrections: pair_views(self.corrections@),
            input: self.input,
        }
    }
}

/// `r` is what the calibrator makes of the request `q`: the model was given exactly its two
/// texts, and its answer, or the fallback, is the result.
pub open spec fn answered<L: LlmProvider>(llm: L, q: CalibrationRequest, r: Seq<char>) -> bool {
    exists|system: &str, user: &str, answer: Result<String, ProviderError>|
        {
            &&& system@ == q.system@
            &&& user@ == q.user@
            &&& #[trigger] call_ensures(L::complete, (&llm, system, user), answer)
            &&& r == settled_text(q, answer)
        }
}

/// `r` is what the calibrator makes of the sentences.
pub open spec fn calibrated<L: LlmProvider>(
    v: CalibratorView<L>,
    sentences: Seq<VadSentence>,
    r: Seq<char>,
) -> bool {
    if asks(v.input, sentences) {
        exists|q: CalibrationRequest|
            {
                &&& requests(
                    q,
                    source_texts(v.input, sentences),
                    reference_text(v.input, sentences),
                    v.hotwords,
                    v.corrections,
                )
                &&& #[trigger] answered(v.llm, q, r)
            }
    } else {
        r.len() == 0
    }
}

impl<L: LlmProvider> Stage2CalibratorImpl<L> {
    /// A calibrator that asks `llm`.
    pub fn new(
        llm: L,
        hotwords: Vec<String>,
        corrections: Vec<(String, String)>,
        input: LlmInput,
    ) -> (r: Self)
        ensures
            r@ == (CalibratorView {
                llm,
                hotwords: views(hotwords@),
                corrections: pair_views(corrections@),
                input,
            }),
    {
        Stage2CalibratorImpl { llm, hotwords, corrections, input }
    }

    /// The hot words from now on; the next call already goes by them.
    pub fn set_hotwords(&mut self, words: &[String])
        ensures
            final(self)@ == (CalibratorView { hotwords: views(words@), ..old(self)@ }),
    {
        self.hotwords = clone_words(words);
    }

    /// The user's corrections from now on; the next call already goes by them.
    pub fn set_corrections(&mut self, samples: &[(String, String)])
        ensures
            final(self)@ == (CalibratorView { corrections: pair_views(samples@), ..old(self)@ }),
    {
        self.corrections = clone_pairs(samples);
    }

    fn ask(&self, q: CalibrationRequest) -> (r: String)
        ensures
            answered(self@.llm, q, r@),
    {
        let system = q.system.as_str();
        let user = q.user.as_str();
        let answer = self.llm.complete(system, user);
        proof {
            assert(call_ensures(L::complete, (&self.llm, system, user), answer));
        }
        settle_calibration(q, answer)
    }

    /// Polishes some texts together. No texts, no question.
    pub fn joint_calibrate(&mut self, texts: &[&str], streaming_ref: Option<&str>) -> (r: String)
        ensures
            final(self)@ == old(self)@,
            texts@.len() == 0 ==> r@.len() == 0,
            texts@.len() > 0 ==> exists|q: CalibrationRequest|
                {
                    &&& requests(
                        q,
                        str_views(texts@),
                        opt_str(streaming_ref),
                        old(self)@.hotwords,
                        old(self)@.corrections,
                    )
                    &&& #[trigger] answered(old(self)@.llm, q, r@)
                },
    {
        match joint_request(
            texts,
            streaming_ref,
            self.hotwords.as_slice(),
            self.corrections.as_slice(),
        ) {
            Some(q) => self.ask(q),
            None => String::new(),
        }
    }

    fn run(&self, sentences: &[VadSentence]) -> (r: String)
        ensures
            calibrated(self@, sentences@, r@),
    {
        let llm = &self.llm;
        let ask = |system: &str, user: &str| -> (answer: Result<String, ProviderError>)
            ensures
                call_ensures(L::complete, (llm, system, user), answer),
            { llm.complete(system, user) };
        let r = calibrate_once(
            self.input,
            sentences,
            self.hotwords.as_slice(),
            self.corrections.as_slice(),
            ask,
        );
        proof {
            if asks(self.input, sentences@) {
                let (q, system, user, answer) = choose|
                    q: CalibrationRequest,
                    system: &str,
                    user: &str,
                    answer: Result<String, ProviderError>,
                |
                    {
                        &&& #[trigger] requests(
                            q,
                            source_texts(self.input, sentences@),
                            reference_text(self.input, sentences@),
                            views(self.hotwords@),
                            pair_views(self.corrections@),
                        )
                        &&& system@ == q.system@
                        &&& user@ == q.user@
                        &&& #[trigger] call_ensures(ask, (system, user), answer)
                        &&& r@ == settled_text(q, answer)
                    };
                assert(call_ensures(L::complete, (llm, system, user), answer));
                assert(answered(self@.llm, q, r@));
            }
        }
        r
    }
}

impl<L: LlmProvider> Stage2Calibrator for Stage2CalibratorImpl<L> {
    fn calibrate_paragraph(&mut self, _paragraph_id: ParagraphId, sentences: &[VadSentence]) -> (r:
        String)
        ensures
            calibrated(old(self)@, sentences@, r@),
            final(self)@ == old(self)@,
    {
        self.run(sentences)
    }

    fn finalize_paragraph(&mut self, paragraph: &VadParagraph) -> (r: String)
        ensures
            calibrated(old(self)@, paragraph.sentences@, r@),
            final(self)@ == old(self)@,
    {
        self.run(paragraph.sentences.as_slice())
    }
}

/// A language model with the calibration prompt in front of it.
pub struct Calibrator<L: LlmProvider> {
    inner: L,
}

/// The prompt for one utterance.
pub open spec fn utterance_prompt(
    raw: Seq<char>,
    context: Option<Seq<char>>,
    hotwords: Seq<Seq<char>>,
) -> PromptView {
    let bare = PromptView { hotwords, ..PromptView::bare(raw) };
    match context {
        Some(c) => if is_blank(c) {
            bare
        } else {
            PromptView { context: Some(trimmed(c)), ..bare }
        },
        None => bare,
    }
}

/// What the model is told of one utterance.
pub fn utterance_request(raw_text: &str, context: Option<&str>, hotwords: &[String]) -> (r: (
    String,
    String,
))
    ensures
        r.0@ == utterance_prompt(raw_text@, opt_str(context), views(hotwords@)).system(),
        r.1@ == utterance_prompt(raw_text@, opt_str(context), views(hotwords@)).user(),
{
    let mut pb = PromptBuilder::new(raw_text).hotwords(hotwords);
    match context {
        Some(c) => {
            pb = pb.context(c);
        },
        None => {},
    }
    pb.build()
}

impl<L: LlmProvider> Calibrator<L> {
    /// The model in use.
    pub closed spec fn model(&self) -> L {
        self.inner
    }

    /// Puts the prompt in front of `inner`.
    pub fn load(inner: L) -> (r: Result<Self, ProviderError>)
        ensures
            r matches Ok(c) && c.model() == inner,
    {
        Ok(Calibrator { inner })
    }

    /// Asks the model about one utterance and hands back its answer as it is.
    pub fn calibrate_blocking(&self, raw_text: &str, context: Option<&str>, hotwords: &[String]) -> (r:
        Result<String, ProviderError>)
        ensures
            exists|system: &str, user: &str|
                {
                    let p = utterance_prompt(raw_text@, opt_str(context), views(hotwords@));
                    &&& system@ == p.system()
                    &&& user@ == p.user()
                    &&& #[trigger] call_ensures(L::complete, (&self.model(), system, user), r)
                },
    {
        let (system, user) = utterance_request(raw_text, context, hotwords);
        let s = system.as_str();
        let u = user.as_str();
        let r = self.infer(s, u);
        proof {
            assert(call_ensures(L::complete, (&self.model(), s, u), r));
        }
        r
    }

    /// Asks the model with the two texts as they are.
    pub fn infer(&self, system: &str, user: &str) -> (r: Result<String, ProviderError>)
        ensures
            call_ensures(L::complete, (&self.model(), system, user), r),
    {
        self.inner.complete(system, user)
    }
}

impl<L: LlmProvider> LlmProvider for Calibrator<L> {
    fn complete(&self, system: &str, user: &str) -> (r: Result<String, ProviderError>)
        ensures
            call_ensures(L::complete, (&self.model(), system, user), r),
    {
        self.inner.complete(system, user)
    }
}

/// Law: where nothing was recognised by either recogniser, no model is asked, whatever the
/// input goes by, and the result is empty.
pub proof fn law_silence_asks_nobody<L: LlmProvider>(
    v: CalibratorView<L>,
    sentences: Seq<VadSentence>,
    r: Seq<char>,
)
    requires
        forall|i: int| 0 <= i < sentences.len() ==> !has_text(#[trigger] sentences[i]),
        calibrated(v, sentences, r),
    ensures
        !asks(v.input, sentences),
        r.len() == 0,
{
}

proof fn lemma_best_source_nonempty(sentences: Seq<VadSentence>, k: int)
    requires
        0 <= k < sentences.len(),
        has_text(sentences[k]),
    ensures
        best_source(sentences).len() > 0,
    decreases sentences.len(),
{
    if k == sentences.len() - 1 {
        assert(!is_blank(sentences.last().best()));
    } else {
        lemma_best_source_nonempty(sentences.drop_last(), k);
    }
}

/// Law: where either recogniser heard something in any sentence, the model is asked, unless the
/// input is the streaming text alone and that is blank throughout.
pub proof fn law_either_recogniser_is_enough(input: LlmInput, sentences: Seq<VadSentence>)
    requires
        recognized(sentences),
        input != LlmInput::Stream,
    ensures
        asks(input, sentences),
{
    let k = choose|k: int| 0 <= k < sentences.len() && has_text(#[trigger] sentences[k]);
    lemma_best_source_nonempty(sentences, k);
}

proof fn lemma_source_means_recognized(input: LlmInput, sentences: Seq<VadSentence>)
    requires
        source_texts(input, sentences).len() > 0,
    ensures
        recognized(sentences),
    decreases sentences.len(),
{
    let rest = sentences.drop_last();
    let last = sentences.len() - 1;
    if source_texts(input, rest).len() > 0 {
        lemma_source_means_recognized(input, rest);
        let k = choose|k: int| 0 <= k < rest.len() && has_text(#[trigger] rest[k]);
        assert(has_text(sentences[k]));
    } else {
        assert(has_text(sentences[last]));
    }
}

/// Law: the model is asked exactly where the input has something to polish, and what it is asked
/// follows from the sentences, the hot words and the corrections alone: neither the paragraph's
/// id nor an earlier call has a part in it, and there is one request for them.
pub proof fn law_one_question_where_something_is_selected(
    input: LlmInput,
    sentences: Seq<VadSentence>,
    hotwords: Seq<Seq<char>>,
    corrections: Seq<(Seq<char>, Seq<char>)>,
    a: CalibrationRequest,
    b: CalibrationRequest,
)
    requires
        requests(
            a,
            source_texts(input, sentences),
            reference_text(input, sentences),
            hotwords,
            corrections,
        ),
        requests(
            b,
            source_texts(input, sentences),
            reference_text(input, sentences),
            hotwords,
            corrections,
        ),
    ensures
        asks(input, sentences) <==> source_texts(input, sentences).len() > 0,
        a.system@ == b.system@,
        a.user@ == b.user@,
        a.fallback@ == b.fallback@,
{
    if source_texts(input, sentences).len() > 0 {
        lemma_source_means_recognized(input, sentences);
    }
}

/// Law: the selected texts are those of the sentences in speaking order, the blank ones left out
/// and none added: from the streaming recogniser where it is asked for, the best texts otherwise.
pub proof fn law_selected_texts_are_in_speaking_order(input: LlmInput, sentences: Seq<VadSentence>)
    ensures
        source_texts(LlmInput::Stream, sentences) == sentences.map_values(
            |s: VadSentence| s.streaming_text@,
        ).filter(|t: Seq<char>| !is_blank(t)),
        input != LlmInput::Stream ==> source_texts(input, sentences) == sentences.map_values(
            |s: VadSentence| s.best(),
        ).filter(|t: Seq<char>| !is_blank(t)),
    decreases sentences.len(),
{
    let said = sentences.map_values(|s: VadSentence| s.streaming_text@);
    let best = sentences.map_values(|s: VadSentence| s.best());
    reveal(Seq::filter);
    if sentences.len() > 0 {
        let rest = sentences.drop_last();
        law_selected_texts_are_in_speaking_order(input, rest);
        assert(said.drop_last() =~= rest.map_values(|s: VadSentence| s.streaming_text@));
        assert(best.drop_last() =~= rest.map_values(|s: VadSentence| s.best()));
    }
}

/// Law: where every sentence has a text, the selected texts are theirs, one for one.
pub proof fn law_every_sentence_has_its_text(sentences: Seq<VadSentence>)
    ensures
        (forall|i: int| 0 <= i < sentences.len() ==> !is_blank(#[trigger] sentences[i].streaming_text@))
            ==> {
            &&& source_texts(LlmInput::Stream, sentences).len() == sentences.len()
            &&& forall|i: int|
                0 <= i < sentences.len() ==> #[trigger] source_texts(LlmInput::Stream, sentences)[i]
                    == sentences[i].streaming_text@
        },
        (forall|i: int| 0 <= i < sentences.len() ==> !is_blank(#[trigger] sentences[i].best())) ==> {
            &&& source_texts(LlmInput::Batch, sentences).len() == sentences.len()
            &&& source_texts(LlmInput::Both, sentences) == source_texts(LlmInput::Batch, sentences)
            &&& forall|i: int|
                0 <= i < sentences.len() ==> #[trigger] source_texts(LlmInput::Batch, sentences)[i]
                    == sentences[i].best()
        },
    decreases sentences.len(),
{
    if sentences.len() > 0 {
        let rest = sentences.drop_last();
        law_every_sentence_has_its_text(rest);
        let n = sentences.len() - 1;
        if forall|i: int| 0 <= i < sentences.len() ==> !is_blank(
            #[trigger] sentences[i].streaming_text@,
        ) {
            assert forall|i: int| 0 <= i < rest.len() implies !is_blank(
                #[trigger] rest[i].streaming_text@,
            ) by {
                assert(rest[i] == sentences[i]);
                assert(!is_blank(sentences[i].streaming_text@));
            }
            assert(!is_blank(sentences[n].streaming_text@));
            assert forall|i: int| 0 <= i < sentences.len() implies #[trigger] source_texts(
                LlmInput::Stream,
                sentences,
            )[i] == sentences[i].streaming_text@ by {
                if i < n {
                    assert(source_texts(LlmInput::Stream, rest)[i] == rest[i].streaming_text@);
                }
            }
        }
        if forall|i: int| 0 <= i < sentences.len() ==> !is_blank(#[trigger] sentences[i].best()) {
            assert forall|i: int| 0 <= i < rest.len() implies !is_blank(
                #[trigger] rest[i].best(),
            ) by {
                assert(rest[i] == sentences[i]);
                assert(!is_blank(sentences[i].best()));
            }
            assert(!is_blank(sentences[n].best()));
            assert forall|i: int| 0 <= i < sentences.len() implies #[trigger] source_texts(
                LlmInput::Batch,
                sentences,
            )[i] == sentences[i].best() by {
                if i < n {
                    assert(source_texts(LlmInput::Batch, rest)[i] == rest[i].best());
                }
            }
        }
    }
}

/// Law: what is selected from two runs of sentences in a row is what is selected from the first,
/// followed by what is selected from the second: the text of an earlier sentence stands before
/// that of a later one.
pub proof fn law_earlier_texts_stand_first(
    input: LlmInput,
    a: Seq<VadSentence>,
    b: Seq<VadSentence>,
)
    ensures
        source_texts(input, a + b) == source_texts(input, a) + source_texts(input, b),
    decreases b.len(),
{
    if b.len() == 0 {
        assert(a + b =~= a);
        assert(source_texts(input, b) =~= Seq::<Seq<char>>::empty());
        assert(source_texts(input, a) + source_texts(input, b) =~= source_texts(input, a));
    } else {
        assert((a + b).drop_last() =~= a + b.drop_last());
        law_earlier_texts_stand_first(input, a, b.drop_last());
        assert(source_texts(input, a + b) =~= source_texts(input, a) + source_texts(input, b));
    }
}

/// Law: the second transcript goes along only where both are asked for, trimmed, and only where
/// it says something and is not the first one over again; the first is never left out.
pub proof fn law_the_second_transcript_says_something_else(
    texts: Seq<Seq<char>>,
    reference: Option<Seq<char>>,
    hotwords: Seq<Seq<char>>,
    corrections: Seq<(Seq<char>, Seq<char>)>,
)
    ensures
        ({
            let p = joint_prompt(texts, reference, hotwords, corrections);
            &&& p.raw == input_text(texts)
            &&& p.hotwords == hotwords
            &&& p.corrections == corrections
            &&& p.context is None
            &&& p.few_shot is None
            &&& p.streaming_ref matches Some(t) ==> !is_blank(t) && trimmed(t) == t && t != trimmed(
                p.raw,
            )
            &&& reference matches Some(t) ==> !is_blank(t) && trimmed(t) != trimmed(p.raw)
                ==> p.streaming_ref == Some(trimmed(t))
            &&& reference is None ==> p.streaming_ref is None
        }),
{
    if let Some(t) = reference {
        crate::text::law_trimming_once_is_enough(t);
        crate::text::lemma_blank_iff_trimmed_empty(t);
        crate::text::lemma_blank_iff_trimmed_empty(trimmed(t));
    }
}

/// Law: the streaming texts go along beside the others only where both are asked for.
pub proof fn law_only_both_brings_a_reference(input: LlmInput, sentences: Seq<VadSentence>)
    ensures
        input == LlmInput::Both ==> reference_text(input, sentences) == Some(
            crate::text::concatenated(sentences.map_values(|s: VadSentence| s.streaming_text@)),
        ),
        input != LlmInput::Both ==> reference_text(input, sentences) is None,
    decreases sentences.len(),
{
    let said = sentences.map_values(|s: VadSentence| s.streaming_text@);
    if sentences.len() > 0 {
        law_only_both_brings_a_reference(input, sentences.drop_last());
        assert(said.drop_last() =~= sentences.drop_last().map_values(
            |s: VadSentence| s.streaming_text@,
        ));
    }
}

/// Law: the model's answer is taken as it is, and where it has none the selected texts stand in
/// unpolished, in their order.
pub proof fn law_the_answer_or_the_texts(
    q: CalibrationRequest,
    texts: Seq<Seq<char>>,
    reference: Option<Seq<char>>,
    hotwords: Seq<Seq<char>>,
    corrections: Seq<(Seq<char>, Seq<char>)>,
    answer: Result<String, ProviderError>,
)
    requires
        requests(q, texts, reference, hotwords, corrections),
    ensures
        answer matches Ok(t) ==> settled_text(q, answer) == t@,
        answer is Err ==> settled_text(q, answer) == concatenated(texts),
{
}

/// Law: the context of an utterance goes along trimmed, and only where it says something.
pub proof fn law_blank_context_is_left_out(
    raw: Seq<char>,
    context: Option<Seq<char>>,
    hotwords: Seq<Seq<char>>,
)
    ensures
        utterance_prompt(raw, context, hotwords).raw == raw,
        utterance_prompt(raw, context, hotwords).hotwords == hotwords,
        context matches Some(c) ==> !is_blank(c) ==> utterance_prompt(raw, context, hotwords).context
            == Some(trimmed(c)),
        (context matches Some(c) ==> is_blank(c)) ==> utterance_prompt(
            raw,
            context,
            hotwords,
        ).context is None,
{
}

/// Law: a question brings all that was said, in speaking order, none of it blank: its fallback are
/// the texts themselves, and every correction of the user stands in it as it was made.
pub proof fn law_a_question_brings_all_that_was_said(
    input: LlmInput,
    sentences: &[VadSentence],
    hotwords: &[String],
    corrections: &[(String, String)],
    r: Option<CalibrationRequest>,
    i: int,
)
    requires
        call_ensures(calibration_request, (input, sentences, hotwords, corrections), r),
    ensures
        r matches Some(q) ==> (input == LlmInput::Stream ==> q.fallback@ == concatenated(
            sentences@.map_values(|s: VadSentence| s.streaming_text@).filter(
                |t: Seq<char>| !is_blank(t),
            ),
        )),
        r matches Some(q) ==> (input != LlmInput::Stream ==> q.fallback@ == concatenated(
            sentences@.map_values(|s: VadSentence| s.best()).filter(|t: Seq<char>| !is_blank(t)),
        )),
        r matches Some(q) ==> (0 <= i < corrections@.len() ==> exists|a: Seq<char>, b: Seq<char>|
            q.system@ == #[trigger] (a + ("原文："@ + corrections@[i].0@ + "\n"@ + "纠正："@
                + corrections@[i].1@ + "\n"@) + b)),
        r matches Some(q) ==> exists|a: Seq<char>, b: Seq<char>|
            q.user@ == #[trigger] (a + ("<primary_transcript>\n"@ + input_text(
                source_texts(input, sentences@),
            ) + "\n</primary_transcript>"@) + b),
{
    law_selected_texts_are_in_speaking_order(input, sentences@);
    if let Some(q) = r {
        let p = joint_prompt(
            source_texts(input, sentences@),
            reference_text(input, sentences@),
            views(hotwords@),
            pair_views(corrections@),
        );
        law_the_second_transcript_says_something_else(
            source_texts(input, sentences@),
            reference_text(input, sentences@),
            views(hotwords@),
            pair_views(corrections@),
        );
        if 0 <= i < corrections@.len() {
            crate::prompt::law_every_correction_is_shown(p, i);
            assert(p.corrections[i] == (corrections@[i].0@, corrections@[i].1@));
        }
        crate::prompt::law_transcript_stands_in_its_envelope(p);
    }
}

/// Law: an answer is taken word for word; without one the request's own texts stand.
pub proof fn law_a_question_is_settled_by_its_answer(
    q: CalibrationRequest,
    answer: Result<String, ProviderError>,
    r: String,
)
    requires
        call_ensures(settle_calibration, (q, answer), r),
    ensures
        answer matches Ok(t) ==> r@ == t@,
        answer is Err ==> r@ == q.fallback@,
{
}

/// Law: a model that answers has the word, whatever it was asked; where it never does, the selected
/// texts stand, in speaking order; and nobody is asked about silence.
pub proof fn law_the_model_has_the_word<F: FnOnce(&str, &str) -> Result<String, ProviderError>>(
    input: LlmInput,
    sentences: &[VadSentence],
    hotwords: &[String],
    corrections: &[(String, String)],
    ask: F,
    r: String,
    word: Seq<char>,
)
    requires
        call_ensures(calibrate_once::<F>, (input, sentences, hotwords, corrections, ask), r),
    ensures
        source_texts(input, sentences@).len() == 0 ==> r@.len() == 0,
        source_texts(input, sentences@).len() > 0 && (forall|s: &str, u: &str,
            a: Result<String, ProviderError>|
            #[trigger] call_ensures(ask, (s, u), a) ==> (a matches Ok(t) && t@ == word)) ==> r@ == word,
        source_texts(input, sentences@).len() > 0 && (forall|s: &str, u: &str,
            a: Result<String, ProviderError>|
            #[trigger] call_ensures(ask, (s, u), a) ==> a is Err) ==> r@ == concatenated(
            source_texts(input, sentences@),
        ),
{
    if source_texts(input, sentences@).len() > 0 {
        lemma_source_means_recognized(input, sentences@);
    }
}

/// Law: with calibration switched off the recognised text stands as it is.
pub proof fn law_without_a_model_the_text_stands(
    c: &mut PassThroughCalibrator,
    p: VadParagraph,
    r: String,
)
    requires
        call_ensures(PassThroughCalibrator::finalize_paragraph, (c, &p), r),
    ensures
        p.batch_text matches Some(t) ==> !is_blank(t@) ==> r@ == t@,
        (p.batch_text matches Some(t) ==> is_blank(t@)) ==> r@ == best_texts(p.sentences@),
{
    crate::types::law_the_batch_text_goes_first(p.sentences@[0], p);
}

/// Law: a model is asked about what was said: one that answers every question holding the selected
/// texts, in their envelope, with one word has its word taken; and one that never answers leaves
/// the texts as they are.
pub proof fn law_the_model_is_asked_about_what_was_said<L: LlmProvider>(
    c: &mut Stage2CalibratorImpl<L>,
    p: VadParagraph,
    r: String,
    word: Seq<char>,
)
    requires
        call_ensures(Stage2CalibratorImpl::<L>::finalize_paragraph, (c, &p), r),
        source_texts(old(c)@.input, p.sentences@).len() > 0,
    ensures
        (forall|s: &str, u: &str, a: Result<String, ProviderError>| #[trigger]
            call_ensures(L::complete, (&old(c)@.llm, s, u), a) && (exists|x: Seq<char>, y: Seq<char>|
                u@ == #[trigger] (x + ("<primary_transcript>\n"@ + input_text(
                    source_texts(old(c)@.input, p.sentences@),
                ) + "\n</primary_transcript>"@) + y)) ==> (a matches Ok(t) && t@ == word)) ==> r@
            == word,
        (forall|s: &str, u: &str, a: Result<String, ProviderError>| #[trigger]
            call_ensures(L::complete, (&old(c)@.llm, s, u), a) ==> a is Err) ==> r@ == concatenated(
            source_texts(old(c)@.input, p.sentences@),
        ),
        final(c)@ == old(c)@,
{
    let v = old(c)@;
    let texts = source_texts(v.input, p.sentences@);
    lemma_source_means_recognized(v.input, p.sentences@);
    let q = choose|q: CalibrationRequest|
        {
            &&& requests(
                q,
                texts,
                reference_text(v.input, p.sentences@),
                v.hotwords,
                v.corrections,
            )
            &&& #[trigger] answered(v.llm, q, r@)
        };
    let prompt = joint_prompt(
        texts,
        reference_text(v.input, p.sentences@),
        v.hotwords,
        v.corrections,
    );
    crate::prompt::law_transcript_stands_in_its_envelope(prompt);
    assert(answered(v.llm, q, r@));
}

/// Law: whoever is asked once is asked about what was said: one that answers every question holding
/// the selected texts, in their envelope, with one word has its word taken.
pub proof fn law_one_question_is_about_what_was_said<
    F: FnOnce(&str, &str) -> Result<String, ProviderError>,
>(
    input: LlmInput,
    sentences: &[VadSentence],
    hotwords: &[String],
    corrections: &[(String, String)],
    ask: F,
    r: String,
    word: Seq<char>,
)
    requires
        call_ensures(calibrate_once::<F>, (input, sentences, hotwords, corrections, ask), r),
        source_texts(input, sentences@).len() > 0,
        forall|s: &str, u: &str, a: Result<String, ProviderError>| #[trigger]
            call_ensures(ask, (s, u), a) && (exists|x: Seq<char>, y: Seq<char>|
                u@ == #[trigger] (x + ("<primary_transcript>\n"@ + input_text(
                    source_texts(input, sentences@),
                ) + "\n</primary_transcript>"@) + y)) ==> (a matches Ok(t) && t@ == word),
    ensures
        r@ == word,
{
    lemma_source_means_recognized(input, sentences@);
    let prompt = joint_prompt(
        source_texts(input, sentences@),
        reference_text(input, sentences@),
        views(hotwords@),
        pair_views(corrections@),
    );
    crate::prompt::law_transcript_stands_in_its_envelope(prompt);
}

/// Law: of two sentences that both have a streaming text, the text of the earlier one stands before
/// that of the later one.
pub proof fn law_the_earlier_of_two_stands_first(sentences: Seq<VadSentence>, i: int, j: int)
    requires
        0 <= i < j < sentences.len(),
        !is_blank(sentences[i].streaming_text@),
        !is_blank(sentences[j].streaming_text@),
    ensures
        exists|a: int, b: int|
            #![trigger source_texts(LlmInput::Stream, sentences)[a], source_texts(LlmInput::Stream, sentences)[b]]
            {
                let texts = source_texts(LlmInput::Stream, sentences);
                &&& 0 <= a < b < texts.len()
                &&& texts[a] == sentences[i].streaming_text@
                &&& texts[b] == sentences[j].streaming_text@
            },
{
    let texts = source_texts(LlmInput::Stream, sentences);
    let head = sentences.take(i + 1);
    let middle = sentences.take(j);
    let upto = sentences.take(j + 1);
    lemma_last_selected(head);
    lemma_last_selected(upto);
    assert(head.last() == sentences[i]);
    assert(upto.last() == sentences[j]);
    assert(upto.drop_last() =~= middle);
    law_earlier_texts_stand_first(LlmInput::Stream, head, middle.skip(i + 1));
    assert(head + middle.skip(i + 1) =~= middle);
    law_earlier_texts_stand_first(LlmInput::Stream, upto, sentences.skip(j + 1));
    assert(upto + sentences.skip(j + 1) =~= sentences);
    let a = source_texts(LlmInput::Stream, head).len() - 1;
    let b = source_texts(LlmInput::Stream, upto).len() - 1;
    assert(texts[a] == source_texts(LlmInput::Stream, head)[a]);
    assert(texts[b] == source_texts(LlmInput::Stream, upto)[b]);
}

proof fn lemma_last_selected(sentences: Seq<VadSentence>)
    requires
        sentences.len() > 0,
        !is_blank(sentences.last().streaming_text@),
    ensures
        source_texts(LlmInput::Stream, sentences) == source_texts(
            LlmInput::Stream,
            sentences.drop_last(),
        ).push(sentences.last().streaming_text@),
{
}

} // verus!
