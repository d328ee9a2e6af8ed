//! Batch passes as jobs: what is asked of the worker, and the one result that every job has.

use std::sync::Arc;

use vstd::prelude::*;
use vstd::string::*;

use crate::clock::unix_micros;
use crate::models::{AsrProvider, ProviderError};
use crate::pipeline::complete::{recognize_once, surfaced};
use crate::text::is_blank;
use crate::types::{opt_view, ParagraphId, SentenceId};

verus! {

/// A batch pass to be made.
#[derive(Debug)]
pub enum BatchJob {
    /// Over one sentence, when it ended.
    Sentence { paragraph_id: ParagraphId, sentence_id: SentenceId, pcm: Arc<Vec<i16>>, sr: u32 },
    /// Over a whole paragraph, when it closed.
    Paragraph { paragraph_id: ParagraphId, pcm: Arc<Vec<i16>>, sr: u32 },
}

/// What a batch pass came to. No text means that the recognition failed or heard nothing.
#[derive(Debug)]
pub enum BatchJobResult {
    Sentence {
        paragraph_id: ParagraphId,
        sentence_id: SentenceId,
        text: Option<String>,
        asr_ms: u64,
    },
    Paragraph { paragraph_id: ParagraphId, text: Option<String>, asr_ms: u64 },
}

/// A job as a value.
pub enum JobView {
    Sentence { paragraph_id: ParagraphId, sentence_id: SentenceId, pcm: Seq<i16>, sr: u32 },
    Paragraph { paragraph_id: ParagraphId, pcm: Seq<i16>, sr: u32 },
}

impl View for BatchJob {
    type V = JobView;

    open spec fn view(&self) -> JobView {
        match self {
            BatchJob::Sentence { paragraph_id, sentence_id, pcm, sr } => JobView::Sentence {
                paragraph_id: *paragraph_id,
                sentence_id: *sentence_id,
                pcm: pcm@,
                sr: *sr,
            },
            BatchJob::Paragraph { paragraph_id, pcm, sr } => JobView::Paragraph {
                paragraph_id: *paragraph_id,
                pcm: pcm@,
                sr: *sr,
            },
        }
    }
}

impl BatchJob {
    /// The audio of the job.
    pub open spec fn audio(self) -> Seq<i16> {
        match self {
            BatchJob::Sentence { pcm, .. } => pcm@,
            BatchJob::Paragraph { pcm, .. } => pcm@,
        }
    }

    /// Its sample rate.
    pub open spec fn rate(self) -> u32 {
        match self {
            BatchJob::Sentence { sr, .. } => sr,
            BatchJob::Paragraph { sr, .. } => sr,
        }
    }
}

/// `r` answers `job` with that text.
pub open spec fn answers(r: BatchJobResult, job: BatchJob, text: Option<Seq<char>>) -> bool {
    match (job, r) {
        (
            BatchJob::Sentence { paragraph_id, sentence_id, .. },
            BatchJobResult::Sentence { paragraph_id: p, sentence_id: s, text: t, .. },
        ) => p == paragraph_id && s == sentence_id && opt_view(t) == text,
        (
            BatchJob::Paragraph { paragraph_id, .. },
            BatchJobResult::Paragraph { paragraph_id: p, text: t, .. },
        ) => p == paragraph_id && opt_view(t) == text,
        _ => false,
    }
}

/// `r` is a result of `job` with that recogniser: it was given the job's audio once, and what it
/// said is the text.
pub open spec fn done_by<A: AsrProvider>(asr: A, job: BatchJob, r: BatchJobResult) -> bool {
    exists|pcm: &[i16], res: Result<String, ProviderError>|
        {
            &&& pcm@ == job.audio()
            &&& #[trigger] call_ensures(A::recognize, (&asr, pcm, job.rate()), res)
            &&& answers(r, job, surfaced(res))
        }
}

/// The whole milliseconds from one microsecond to another; 0 where the clock went back.
pub open spec fn elapsed_ms(start_us: int, now_us: int) -> int {
    if now_us > start_us {
        (now_us - start_us) / 1000
    } else {
        0
    }
}

/// How many milliseconds passed between two readings of the clock.
pub fn millis_between(start_us: u64, now_us: u64) -> (r: u64)
    ensures
        r == elapsed_ms(start_us as int, now_us as int),
{
    if now_us > start_us {
        (now_us - start_us) / 1000
    } else {
        0
    }
}

/// How many milliseconds have passed since `start_us`, by what the clock shows now.
fn millis_since(start_us: u64) -> (r: u64)
    ensures
        exists|now_us: u64| r == #[trigger] elapsed_ms(start_us as int, now_us as int),
{
    let now_us: u64 = unix_micros();
    millis_between(start_us, now_us)
}

/// Makes one batch pass. The milliseconds in the result are those that the clock showed; nothing
/// is claimed of them.
pub fn run_batch_job<A: AsrProvider>(asr: &A, job: &BatchJob) -> (r: BatchJobResult)
    ensures
        done_by(*asr, *job, r),
{
    let start: u64 = unix_micros();
    match job {
        BatchJob::Sentence { paragraph_id, sentence_id, pcm, sr } => {
            let audio: &[i16] = pcm.as_slice();
            let text = recognize_once(asr, audio, *sr);
            let ghost res = choose|res: Result<String, ProviderError>| #[trigger]
                call_ensures(A::recognize, (asr, audio, *sr), res) && opt_view(text) == surfaced(
                    res,
                );
            let r = BatchJobResult::Sentence {
                paragraph_id: *paragraph_id,
                sentence_id: *sentence_id,
                text,
                asr_ms: millis_since(start),
            };
            proof {
                assert(audio@ == job.audio());
                assert(call_ensures(A::recognize, (asr, audio, job.rate()), res));
                assert(answers(r, *job, surfaced(res)));
            }
            r
        },
        BatchJob::Paragraph { paragraph_id, pcm, sr } => {
            let audio: &[i16] = pcm.as_slice();
            let text = recognize_once(asr, audio, *sr);
            let ghost res = choose|res: Result<String, ProviderError>| #[trigger]
                call_ensures(A::recognize, (asr, audio, *sr), res) && opt_view(text) == surfaced(
                    res,
                );
            let r = BatchJobResult::Paragraph {
                paragraph_id: *paragraph_id,
                text,
                asr_ms: millis_since(start),
            };
            proof {
                assert(audio@ == job.audio());
                assert(call_ensures(A::recognize, (asr, audio, job.rate()), res));
                assert(answers(r, *job, surfaced(res)));
            }
            r
        },
    }
}

/// Works off the jobs in their order: every one has exactly one result.
pub fn run_batch_worker<A: AsrProvider>(asr: &A, jobs: &Vec<BatchJob>) -> (r: Vec<BatchJobResult>)
    ensures
        r@.len() == jobs@.len(),
        forall|i: int| 0 <= i < jobs@.len() ==> done_by(*asr, jobs@[i], #[trigger] r@[i]),
{
    let mut out: Vec<BatchJobResult> = Vec::new();
    let mut i: usize = 0;
    while i < jobs.len()
        invariant
            0 <= i <= jobs.len(),
            out@.len() == i,
            forall|j: int| 0 <= j < i ==> done_by(*asr, jobs@[j], #[trigger] out@[j]),
        decreases jobs.len() - i,
    {
        out.push(run_batch_job(asr, &jobs[i]));
        i = i + 1;
    }
    out
}

/// Law: a result answers its own job: the same paragraph and, for a sentence, the same sentence,
/// with the text that was recognised.
pub proof fn law_a_result_answers_its_job(r: BatchJobResult, job: BatchJob, text: Option<Seq<char>>)
    requires
        answers(r, job, text),
    ensures
        job matches BatchJob::Sentence { paragraph_id, sentence_id, .. } ==> (r matches
            BatchJobResult::Sentence { paragraph_id: p, sentence_id: s, text: t, .. } && p
            == paragraph_id && s == sentence_id && opt_view(t) == text),
        job matches BatchJob::Paragraph { paragraph_id, .. } ==> (r matches
            BatchJobResult::Paragraph { paragraph_id: p, text: t, .. } && p == paragraph_id
            && opt_view(t) == text),
{
}

/// Law: the recogniser is given the job's own audio, all of it, at its rate.
pub proof fn law_a_job_is_about_its_audio(job: BatchJob)
    ensures
        job matches BatchJob::Sentence { pcm, sr, .. } ==> job.audio() == pcm@ && job.rate() == sr,
        job matches BatchJob::Paragraph { pcm, sr, .. } ==> job.audio() == pcm@ && job.rate() == sr,
{
}

/// Law: time passed is counted in whole milliseconds, and there is none where the clock went back.
pub proof fn law_time_passed_is_cut_off(start_us: int, now_us: int)
    ensures
        now_us >= start_us ==> 0 <= (now_us - start_us) - 1000 * elapsed_ms(start_us, now_us) < 1000,
        now_us <= start_us ==> elapsed_ms(start_us, now_us) == 0,
{
}

/// Law: every job is answered, in the order of the jobs, each with its own paragraph.
pub proof fn law_every_job_is_answered_in_order<A: AsrProvider>(
    asr: A,
    jobs: Vec<BatchJob>,
    r: Vec<BatchJobResult>,
    i: int,
)
    requires
        call_ensures(run_batch_worker::<A>, (&asr, &jobs), r),
        0 <= i < jobs@.len(),
    ensures
        r@.len() == jobs@.len(),
        jobs@[i] matches BatchJob::Sentence { paragraph_id, sentence_id, .. } ==> (r@[i] matches
            BatchJobResult::Sentence { paragraph_id: p, sentence_id: s, .. } && p == paragraph_id
            && s == sentence_id),
        jobs@[i] matches BatchJob::Paragraph { paragraph_id, .. } ==> (r@[i] matches
            BatchJobResult::Paragraph { paragraph_id: p, .. } && p == paragraph_id),
{
    assert(done_by(asr, jobs@[i], r@[i]));
}

/// Law: a job is answered with what the recogniser makes of its audio, word for word, and without a
/// text where it makes nothing of it.
pub proof fn law_a_job_is_answered_by_the_recogniser<A: AsrProvider>(
    asr: A,
    job: BatchJob,
    r: BatchJobResult,
    word: Seq<char>,
)
    requires
        call_ensures(run_batch_job::<A>, (&asr, &job), r),
        forall|pcm: &[i16], res: Result<String, ProviderError>| #[trigger]
            call_ensures(A::recognize, (&asr, pcm, job.rate()), res) && pcm@ == job.audio() ==> (res
                matches Ok(t) && t@ == word),
    ensures
        !is_blank(word) ==> (r matches BatchJobResult::Sentence { text, .. } ==> opt_view(text)
            == Some(word)),
        !is_blank(word) ==> (r matches BatchJobResult::Paragraph { text, .. } ==> opt_view(text)
            == Some(word)),
        is_blank(word) ==> (r matches BatchJobResult::Sentence { text, .. } ==> text is None),
        is_blank(word) ==> (r matches BatchJobResult::Paragraph { text, .. } ==> text is None),
{
    assert(done_by(asr, job, r));
}

} // verus!
