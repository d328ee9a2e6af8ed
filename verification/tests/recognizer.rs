//! Recognition in one loop.

use std::sync::Arc;

use audio_aura::audio_store::AudioStore;
use audio_aura::models::{AsrProvider, ProviderError};
use audio_aura::recognizer::jobs::{millis_between, run_batch_worker, BatchJob, BatchJobResult};
use audio_aura::recognizer::ring::AudioRing;
use audio_aura::recognizer::single::{emit_paragraph_edge, FrameStep, LoopOut, SingleLoop};
use audio_aura::recognizer::tracker::ParagraphTracker;
use audio_aura::types::{SettledParagraph, Stage1Event, VadSentence};

fn us(s: f64) -> i64 {
    (s * 1_000_000.0).round() as i64
}

fn sentence(id: u64, start_s: f64, end_s: f64) -> VadSentence {
    VadSentence {
        id,
        audio_id: id,
        start_us: us(start_s),
        end_us: us(end_s),
        streaming_text: format!("s{id}"),
        batch_text: Some(format!("b{id}")),
    }
}

#[test]
fn recognizer_short_gap_absorbs_into_same_paragraph() {
    let mut t = ParagraphTracker::new(us(2.5));
    let s1 = t.on_sos();
    let (settled, w1, sentences) = t.on_eos(sentence(s1, 0.0, 0.5));
    assert!(settled.is_none());
    assert_eq!(sentences.len(), 1);
    let s2 = t.on_sos();
    let (settled, w, sentences) = t.on_eos(sentence(s2, 1.0, 1.5));
    assert!(settled.is_none(), "short gap must NOT settle");
    assert_eq!(w, w1, "same paragraph continues");
    assert_eq!(sentences.len(), 2, "both sentences in one paragraph");
}

#[test]
fn recognizer_big_gap_settles_previous_paragraph_and_opens_new_one() {
    let mut t = ParagraphTracker::new(us(2.5));
    let s1 = t.on_sos();
    let (_, w1, _) = t.on_eos(sentence(s1, 0.0, 0.5));
    let s2 = t.on_sos();
    let (settled, w2, sentences) = t.on_eos(sentence(s2, 5.0, 5.5));
    let s = settled.expect("big gap settles the previous paragraph");
    assert_eq!(s.paragraph_id, w1);
    assert_eq!(s.sentences.len(), 1);
    assert_ne!(w2, w1, "a fresh paragraph opens");
    assert_eq!(sentences.len(), 1);
}

#[test]
fn recognizer_settle_timeout_closes_trailing_paragraph() {
    let mut t = ParagraphTracker::new(us(2.5));
    let s1 = t.on_sos();
    let (_, w1, _) = t.on_eos(sentence(s1, 0.0, 0.5));
    assert!(t.check_settle(us(2.0), false).is_none(), "2.0 - 0.5 = 1.5 < 2.5, not yet");
    let s = t.check_settle(us(3.0), false).expect("3.0 - 0.5 = 2.5 closes");
    assert_eq!(s.paragraph_id, w1);
    assert!(t.check_settle(us(10.0), false).is_none(), "nothing open anymore");
}

#[test]
fn recognizer_force_settle_skips_merge_gap_wait() {
    let mut t = ParagraphTracker::new(us(2.5));
    assert!(t.force_settle().is_none(), "no paragraph");
    assert!(!t.has_open_paragraph());
    let s1 = t.on_sos();
    let (_, w1, _) = t.on_eos(sentence(s1, 0.0, 0.5));
    let s = t.force_settle().expect("a finished sentence closes at once");
    assert_eq!(s.paragraph_id, w1);
    assert_eq!(s.sentences.len(), 1);
    assert!(!t.has_open_paragraph(), "closed");
    assert!(t.check_settle(us(100.0), false).is_none(), "the clock does not close it again");
    assert!(t.force_settle().is_none());
}

#[test]
fn recognizer_force_settle_holds_while_sentence_active() {
    let mut t = ParagraphTracker::new(us(2.5));
    let s1 = t.on_sos();
    let (_, _, _) = t.on_eos(sentence(s1, 0.0, 0.5));
    let s2 = t.on_sos();
    assert!(t.force_settle().is_none(), "a sentence under way holds it");
    assert!(t.has_open_paragraph());
    let (_, w, sentences) = t.on_eos(sentence(s2, 1.0, 1.5));
    let s = t.force_settle().expect("closes once the sentence is over");
    assert_eq!(s.paragraph_id, w);
    assert_eq!(sentences.len(), 2);
}

#[test]
fn recognizer_settle_deadline_counts_down_to_merge_gap() {
    let mut t = ParagraphTracker::new(us(2.5));
    assert!(t.settle_deadline(us(0.0), false).is_none(), "nothing open yet");
    let s1 = t.on_sos();
    t.on_eos(sentence(s1, 0.0, 0.5));
    assert_eq!(t.settle_deadline(us(1.0), false).unwrap(), 2_000_000, "2.5 - (1.0 - 0.5)");
    assert_eq!(t.settle_deadline(us(3.0), false).unwrap(), 0, "due now, clamped at 0");
    let _s2 = t.on_sos();
    assert!(t.settle_deadline(us(1.2), false).is_none(), "a sentence under way has no deadline");
}

#[test]
fn recognizer_active_sentence_suppresses_settle_timeout() {
    let mut t = ParagraphTracker::new(us(2.5));
    let s1 = t.on_sos();
    t.on_eos(sentence(s1, 0.0, 0.5));
    let _s2 = t.on_sos();
    assert!(t.check_settle(us(100.0), false).is_none(), "a sentence under way holds it");
}

#[test]
fn recognizer_speaking_suppresses_settle_waiting_for_retroactive_sos() {
    let mut t = ParagraphTracker::new(us(2.5));
    let s1 = t.on_sos();
    t.on_eos(sentence(s1, 0.0, 0.5));
    assert!(t.check_settle(us(100.0), true).is_none(), "speech holds it");
    assert!(t.settle_deadline(us(100.0), true).is_none(), "speech has no deadline");
    assert!(t.check_settle(us(100.0), false).is_some(), "silence closes it");
}

#[test]
fn recognizer_merge_gap_zero_makes_every_sentence_its_own_paragraph() {
    let mut t = ParagraphTracker::new(us(0.0));
    let s1 = t.on_sos();
    let (_, w1, _) = t.on_eos(sentence(s1, 0.0, 0.5));
    let s2 = t.on_sos();
    let (settled, w2, _) = t.on_eos(sentence(s2, 0.6, 0.7));
    assert_eq!(settled.expect("gap 0.1 closes").paragraph_id, w1);
    assert_ne!(w2, w1);
    let s3 = t.on_sos();
    t.on_eos(sentence(s3, 10.0, 10.5));
    assert!(t.check_settle(us(10.5), false).is_some(), "no gap at all closes");
}

fn sentence_into(store: &mut AudioStore, id: u64) -> VadSentence {
    VadSentence {
        id,
        audio_id: store.insert(Arc::new(vec![1i16; 1600])),
        start_us: us(id as f64),
        end_us: us(id as f64 + 0.1),
        streaming_text: format!("流式{id}"),
        batch_text: None,
    }
}

fn batch_text_of(out: &LoopOut) -> Option<String> {
    match out {
        LoopOut::Event(Stage1Event::ParagraphEdge { paragraph, .. }) => paragraph.batch_text.clone(),
        _ => panic!("expected the closing of a paragraph"),
    }
}

#[test]
fn single_sentence_paragraph_enqueues_no_rerun_job() {
    let mut store = AudioStore::new(1_000_000);
    let s = sentence_into(&mut store, 1);
    let settled = SettledParagraph { paragraph_id: 1, sentences: vec![s] };
    let out = emit_paragraph_edge(settled, &mut store, 16000, true);
    assert_eq!(out.len(), 1, "one sentence is not passed over again");
    assert_eq!(batch_text_of(&out[0]), None);
}

#[test]
fn multi_sentence_paragraph_enqueues_one_rerun_job() {
    let mut store = AudioStore::new(1_000_000);
    let a = sentence_into(&mut store, 1);
    let b = sentence_into(&mut store, 2);
    let settled = SettledParagraph { paragraph_id: 1, sentences: vec![a, b] };
    let out = emit_paragraph_edge(settled, &mut store, 16000, true);
    assert_eq!(out.len(), 2, "one event and one job");
    assert_eq!(batch_text_of(&out[0]), None);
    match &out[1] {
        LoopOut::Job(BatchJob::Paragraph { paragraph_id, pcm, sr }) => {
            assert_eq!(*paragraph_id, 1);
            assert_eq!(pcm.len(), 3200, "all of the audio");
            assert_eq!(*sr, 16000);
        }
        _ => panic!("expected exactly one job"),
    }
    assert_eq!(store.total_samples(), 0, "the clips are released");
}

#[test]
fn empty_paragraph_emits_nothing_and_sends_no_job() {
    let mut store = AudioStore::new(1_000_000);
    let settled = SettledParagraph { paragraph_id: 1, sentences: vec![] };
    let out = emit_paragraph_edge(settled, &mut store, 16000, true);
    assert!(out.is_empty());
}

#[test]
fn without_jobs_only_events_come() {
    let mut store = AudioStore::new(1_000_000);
    let a = sentence_into(&mut store, 1);
    let b = sentence_into(&mut store, 2);
    let settled = SettledParagraph { paragraph_id: 1, sentences: vec![a, b] };
    assert_eq!(emit_paragraph_edge(settled, &mut store, 16000, false).len(), 1);
}

#[test]
fn ids_are_mixed_from_the_clock() {
    let mut t = ParagraphTracker::new(us(1.0));
    t.on_sos_at(5);
    let spread: u64 = 0x9E37_79B9_7F4A_7C15;
    assert_eq!(t.prospective(), (5 ^ spread, 2));
    let mut t = ParagraphTracker::new(us(1.0));
    t.on_sos_at(spread);
    assert_eq!(t.prospective().0, 1, "never 0");
}

fn job_kinds(out: &[LoopOut]) -> Vec<&'static str> {
    out.iter()
        .map(|o| match o {
            LoopOut::Event(Stage1Event::StreamFragment { .. }) => "fragment",
            LoopOut::Event(Stage1Event::Batch { .. }) => "batch",
            LoopOut::Event(Stage1Event::ParagraphEdge { .. }) => "edge",
            LoopOut::Job(BatchJob::Sentence { .. }) => "sentence job",
            LoopOut::Job(BatchJob::Paragraph { .. }) => "paragraph job",
        })
        .collect()
}

#[test]
fn a_sentence_is_heard_reported_and_passed_over_in_order() {
    let mut l = SingleLoop::new(us(2.5), 1_000_000, 16000, true, true, 0);
    // Silence is kept for the onset, at most sixteen frames of it.
    for i in 0..20 {
        let step = l.feed_streaming(vec![i as i16; 4], false);
        assert!(step.accept.is_empty() && !step.decode);
    }
    let step = l.feed_streaming(vec![100; 4], true);
    assert_eq!(step.accept.len(), 17);
    assert_eq!(step.accept[0], vec![4i16; 4]);
    assert_eq!(step.accept[16], vec![100i16; 4]);
    for _ in 0..13 {
        assert!(!l.feed_streaming(vec![101; 4], true).decode);
    }
    assert!(l.feed_streaming(vec![102; 4], true).decode, "the fifteenth voiced frame");
    assert_eq!(l.heard_samples(), Some((17 + 14) * 4));
    assert!(l.on_partial("你".into(), 10, 10).is_some());
    assert!(l.on_partial("你".into(), 11, 11).is_none(), "not news");
    assert!(l.on_partial(String::new(), 12, 12).is_none());
    l.on_sos_at(1);
    let out = l.finalize_sentence_at("你好".into(), us(1.0), vec![9; 3], us(1.0), 1);
    assert_eq!(job_kinds(&out), vec!["fragment", "batch", "sentence job"]);
    match &out[2] {
        LoopOut::Job(BatchJob::Sentence { pcm, sentence_id, .. }) => {
            assert_eq!(pcm.len(), (17 + 14) * 4, "what the session heard, not the fallback");
            assert_eq!(*sentence_id, 1);
        }
        _ => panic!("expected a job"),
    }
    assert_eq!(l.heard_samples(), Some(0), "a new session");
    // A second sentence after a wide gap closes the first paragraph before anything else.
    l.on_sos_at(2);
    let out = l.finalize_sentence_at(String::new(), us(9.0), vec![], us(9.0), 2);
    assert_eq!(job_kinds(&out), vec!["edge", "batch", "sentence job"]);
}

#[test]
fn the_loop_closes_on_request_and_on_time() {
    let mut l = SingleLoop::new(us(2.5), 1_000_000, 16000, true, true, 0);
    let idle = l.tick(us(1.0), true);
    assert!(idle.flush_done, "a request for nothing is dealt with");
    l.on_sos();
    l.finalize_sentence(String::new(), us(1.0), vec![], us(1.0));
    assert_eq!(l.next_wake_at(us(1.0), false, false), Some(2_500_000));
    assert_eq!(l.next_wake_at(us(1.0), false, true), Some(50_000));
    assert!(l.tick(us(2.0), false).out.is_empty());
    let closed = l.tick(us(3.5), false);
    assert_eq!(job_kinds(&closed.out), vec!["edge"]);
    assert!(closed.new_session);
    assert_eq!(l.next_wake_at(us(4.0), false, false), None, "nothing is due");
}

#[test]
fn a_standing_partial_holds_the_loop_and_then_goes_stale() {
    let mut l = SingleLoop::new(us(2.5), 1_000_000, 16000, true, true, 0);
    l.on_sos();
    l.finalize_sentence(String::new(), us(1.0), vec![], us(1.0));
    l.feed_streaming(vec![1; 4], true);
    assert!(l.on_partial("喂".into(), us(2.0), us(2.0)).is_some());
    let t = l.tick(us(9.0), true);
    assert!(t.speaking && t.out.is_empty() && !t.flush_done, "speech is not cut");
    let t = l.tick(us(10.0), false);
    assert!(t.new_session && t.out.is_empty(), "eight seconds without news");
    let t = l.tick(us(10.0), true);
    assert!(t.flush_done);
    assert_eq!(job_kinds(&t.out), vec!["edge"]);
}

#[test]
fn a_gone_source_is_answered_with_silence() {
    let mut l = SingleLoop::new(us(2.5), 1_000_000, 16000, true, true, 0);
    assert_eq!(l.drain_frame(true, 0, None), FrameStep::Take);
    assert_eq!(l.drain_frame(false, us(1.0), Some(7)), FrameStep::Wait(Some(7)));
    assert_eq!(l.drain_frame(false, us(5.0), None), FrameStep::Wait(None), "nobody speaks");
    l.feed_streaming(vec![1; 4], true);
    l.on_partial("喂".into(), us(5.0), us(5.0));
    assert_eq!(l.drain_frame(false, us(5.0), None), FrameStep::Silence);
    assert_eq!(l.drain_frame(false, us(5.05), None), FrameStep::Wait(Some(100_000)));
    assert_eq!(l.drain_frame(false, us(5.1), None), FrameStep::Silence);
    l.on_waited(true);
    assert_eq!(l.drain_frame(false, us(5.2), Some(9)), FrameStep::Wait(Some(9)), "counted anew");
}

struct Fixed(Result<&'static str, ()>);

impl AsrProvider for Fixed {
    fn recognize(&self, _pcm: &[i16], _sample_rate: u32) -> Result<String, ProviderError> {
        match self.0 {
            Ok(t) => Ok(t.to_string()),
            Err(()) => Err(ProviderError { message: "gone".into() }),
        }
    }
}

#[test]
fn every_job_has_one_result() {
    let jobs = vec![
        BatchJob::Sentence { paragraph_id: 1, sentence_id: 2, pcm: Arc::new(vec![1]), sr: 16000 },
        BatchJob::Paragraph { paragraph_id: 1, pcm: Arc::new(vec![1, 2]), sr: 16000 },
    ];
    let texts = |r: Vec<BatchJobResult>| -> Vec<Option<String>> {
        r.into_iter()
            .map(|x| match x {
                BatchJobResult::Sentence { text, .. } => text,
                BatchJobResult::Paragraph { text, .. } => text,
            })
            .collect()
    };
    let heard = texts(run_batch_worker(&Fixed(Ok("听到")), &jobs));
    assert_eq!(heard, vec![Some("听到".to_string()), Some("听到".to_string())]);
    assert_eq!(texts(run_batch_worker(&Fixed(Ok("  ")), &jobs)), vec![None, None]);
    assert_eq!(texts(run_batch_worker(&Fixed(Err(())), &jobs)), vec![None, None]);
}

#[test]
fn time_that_passed_is_in_whole_milliseconds() {
    assert_eq!(millis_between(1_000, 3_999), 2);
    assert_eq!(millis_between(1_000, 1_000), 0);
    assert_eq!(millis_between(5_000, 1_000), 0);
}

#[test]
fn a_full_ring_loses_its_oldest_samples() {
    let mut r = AudioRing::new(4);
    assert!(!r.has_frame(1));
    r.push(&[1, 2, 3]);
    assert!(r.has_frame(3) && !r.has_frame(4));
    r.push(&[4, 5, 6]);
    assert_eq!(r.len(), 4);
    assert_eq!(r.drain(2), [3, 4]);
    assert_eq!(r.drain(9), [5, 6], "as many as there are");
    assert_eq!(r.len(), 0);
}
