//! The boundary rules of the live pipeline.

use audio_aura::pipeline::tracker::ParagraphTracker;
use audio_aura::types::VadSentence;

fn us(s: f64) -> i64 {
    (s * 1_000_000.0).round() as i64
}

fn sentence(id: u64, start_s: f64, end_s: f64) -> VadSentence {
    VadSentence {
        id,
        audio_id: id,
        start_us: us(start_s),
        end_us: us(end_s),
        streaming_text: format!("s{id}"),
        batch_text: Some(format!("b{id}")),
    }
}

fn check_short_gap_absorbs_into_same_paragraph() {
    let mut t = ParagraphTracker::new(us(2.5));
    let s1 = t.on_sos(us(0.0));
    let (settled, w1, sentences) = t.on_eos(sentence(s1, 0.0, 0.5));
    assert!(settled.is_none());
    assert_eq!(sentences.len(), 1);
    let s2 = t.on_sos(us(0.0));
    let (settled, w, sentences) = t.on_eos(sentence(s2, 1.0, 1.5));
    assert!(settled.is_none(), "short gap must NOT settle");
    assert_eq!(w, w1, "same paragraph continues");
    assert_eq!(sentences.len(), 2, "both sentences in one paragraph");
}

#[test]
fn tracker_short_gap_absorbs_into_same_paragraph() {
    check_short_gap_absorbs_into_same_paragraph();
}

#[test]
fn consume_short_gap_absorbs_into_same_paragraph() {
    check_short_gap_absorbs_into_same_paragraph();
}

fn check_big_gap_settles_previous_paragraph_and_opens_new_one() {
    let mut t = ParagraphTracker::new(us(2.5));
    let s1 = t.on_sos(us(0.0));
    let (_, w1, _) = t.on_eos(sentence(s1, 0.0, 0.5));
    let s2 = t.on_sos(us(0.0));
    let (settled, w2, sentences) = t.on_eos(sentence(s2, 5.0, 5.5));
    let s = settled.expect("big gap settles the previous paragraph");
    assert_eq!(s.paragraph_id, w1);
    assert_eq!(s.sentences.len(), 1);
    assert_ne!(w2, w1, "a fresh paragraph opens");
    assert_eq!(sentences.len(), 1);
}

#[test]
fn tracker_big_gap_settles_previous_paragraph_and_opens_new_one() {
    check_big_gap_settles_previous_paragraph_and_opens_new_one();
}

#[test]
fn consume_big_gap_settles_previous_paragraph_and_opens_new_one() {
    check_big_gap_settles_previous_paragraph_and_opens_new_one();
}

fn check_settle_timeout_closes_trailing_paragraph() {
    let mut t = ParagraphTracker::new(us(2.5));
    let s1 = t.on_sos(us(0.0));
    let (_, w1, _) = t.on_eos(sentence(s1, 0.0, 0.5));
    assert!(t.check_settle(us(2.0), false).is_none(), "2.0 - 0.5 = 1.5 < 2.5, not yet");
    let s = t.check_settle(us(3.0), false).expect("3.0 - 0.5 = 2.5 closes");
    assert_eq!(s.paragraph_id, w1);
    assert!(t.check_settle(us(10.0), false).is_none(), "nothing open anymore");
}

#[test]
fn tracker_settle_timeout_closes_trailing_paragraph() {
    check_settle_timeout_closes_trailing_paragraph();
}

#[test]
fn consume_settle_timeout_closes_trailing_paragraph() {
    check_settle_timeout_closes_trailing_paragraph();
}

fn check_force_settle_skips_merge_gap_wait() {
    let mut t = ParagraphTracker::new(us(2.5));
    assert!(t.force_settle().is_none(), "no paragraph");
    assert!(!t.has_open_paragraph());
    let s1 = t.on_sos(us(0.0));
    let (_, w1, _) = t.on_eos(sentence(s1, 0.0, 0.5));
    let s = t.force_settle().expect("a finished sentence closes at once");
    assert_eq!(s.paragraph_id, w1);
    assert_eq!(s.sentences.len(), 1);
    assert!(!t.has_open_paragraph(), "closed");
    assert!(t.check_settle(us(100.0), false).is_none(), "the clock does not close it again");
    assert!(t.force_settle().is_none());
}

#[test]
fn tracker_force_settle_skips_merge_gap_wait() {
    check_force_settle_skips_merge_gap_wait();
}

#[test]
fn consume_force_settle_skips_merge_gap_wait() {
    check_force_settle_skips_merge_gap_wait();
}

fn check_force_settle_holds_while_sentence_active() {
    let mut t = ParagraphTracker::new(us(2.5));
    let s1 = t.on_sos(us(0.0));
    let (_, _, _) = t.on_eos(sentence(s1, 0.0, 0.5));
    let s2 = t.on_sos(us(0.0));
    assert!(t.force_settle().is_none(), "a sentence under way holds it");
    assert!(t.has_open_paragraph());
    let (_, w, sentences) = t.on_eos(sentence(s2, 1.0, 1.5));
    let s = t.force_settle().expect("closes once the sentence is over");
    assert_eq!(s.paragraph_id, w);
    assert_eq!(sentences.len(), 2);
}

#[test]
fn tracker_force_settle_holds_while_sentence_active() {
    check_force_settle_holds_while_sentence_active();
}

#[test]
fn consume_force_settle_holds_while_sentence_active() {
    check_force_settle_holds_while_sentence_active();
}

fn check_settle_deadline_counts_down_to_merge_gap() {
    let mut t = ParagraphTracker::new(us(2.5));
    assert!(t.settle_deadline(us(0.0), false).is_none(), "nothing open yet");
    let s1 = t.on_sos(us(0.0));
    t.on_eos(sentence(s1, 0.0, 0.5));
    assert_eq!(t.settle_deadline(us(1.0), false).unwrap(), 2_000_000, "2.5 - (1.0 - 0.5)");
    assert_eq!(t.settle_deadline(us(3.0), false).unwrap(), 0, "due now, clamped at 0");
    let _s2 = t.on_sos(us(0.0));
    assert!(t.settle_deadline(us(1.2), false).is_none(), "a sentence under way has no deadline");
}

#[test]
fn tracker_settle_deadline_counts_down_to_merge_gap() {
    check_settle_deadline_counts_down_to_merge_gap();
}

#[test]
fn consume_settle_deadline_counts_down_to_merge_gap() {
    check_settle_deadline_counts_down_to_merge_gap();
}

fn check_active_sentence_suppresses_settle_timeout() {
    let mut t = ParagraphTracker::new(us(2.5));
    let s1 = t.on_sos(us(0.0));
    t.on_eos(sentence(s1, 0.0, 0.5));
    let _s2 = t.on_sos(us(0.0));
    assert!(t.check_settle(us(100.0), false).is_none(), "a sentence under way holds it");
}

#[test]
fn tracker_active_sentence_suppresses_settle_timeout() {
    check_active_sentence_suppresses_settle_timeout();
}

#[test]
fn consume_active_sentence_suppresses_settle_timeout() {
    check_active_sentence_suppresses_settle_timeout();
}

fn check_speaking_suppresses_settle_waiting_for_retroactive_sos() {
    let mut t = ParagraphTracker::new(us(2.5));
    let s1 = t.on_sos(us(0.0));
    t.on_eos(sentence(s1, 0.0, 0.5));
    assert!(t.check_settle(us(100.0), true).is_none(), "speech holds it");
    assert!(t.settle_deadline(us(100.0), true).is_none(), "speech has no deadline");
    assert!(t.check_settle(us(100.0), false).is_some(), "silence closes it");
}

#[test]
fn tracker_speaking_suppresses_settle_waiting_for_retroactive_sos() {
    check_speaking_suppresses_settle_waiting_for_retroactive_sos();
}

#[test]
fn consume_speaking_suppresses_settle_waiting_for_retroactive_sos() {
    check_speaking_suppresses_settle_waiting_for_retroactive_sos();
}

fn check_merge_gap_zero_makes_every_sentence_its_own_paragraph() {
    let mut t = ParagraphTracker::new(us(0.0));
    let s1 = t.on_sos(us(0.0));
    let (_, w1, _) = t.on_eos(sentence(s1, 0.0, 0.5));
    let s2 = t.on_sos(us(0.6));
    let (settled, w2, _) = t.on_eos(sentence(s2, 0.6, 0.7));
    assert_eq!(settled.expect("gap 0.1 closes").paragraph_id, w1);
    assert_ne!(w2, w1);
    let s3 = t.on_sos(us(10.0));
    t.on_eos(sentence(s3, 10.0, 10.5));
    assert!(t.check_settle(us(10.5), false).is_some(), "no gap at all closes");
}

#[test]
fn tracker_merge_gap_zero_makes_every_sentence_its_own_paragraph() {
    check_merge_gap_zero_makes_every_sentence_its_own_paragraph();
}

#[test]
fn consume_merge_gap_zero_makes_every_sentence_its_own_paragraph() {
    check_merge_gap_zero_makes_every_sentence_its_own_paragraph();
}

fn check_onset_opens_paragraph_prospective_returns_real_id() {
    let mut t = ParagraphTracker::new(us(2.5));
    t.on_speech_onset(us(10.0));
    let (pid, _sid) = t.prospective();
    let s1 = t.on_sos(us(10.4));
    assert_eq!(t.prospective().0, pid, "stable within the paragraph");
    let (settled, w, _) = t.on_eos(sentence(s1, 10.0, 10.5));
    assert!(settled.is_none());
    assert_eq!(w, pid, "the sentence lands where it was announced");
    let _ = t.check_settle(us(20.0), false).expect("9.5 s of silence close it");
    t.on_speech_onset(us(20.5));
    let (pid2, _) = t.prospective();
    assert!(pid2 > pid, "ids increase");
}

#[test]
fn tracker_onset_opens_paragraph_prospective_returns_real_id() {
    check_onset_opens_paragraph_prospective_returns_real_id();
}

#[test]
fn consume_onset_opens_paragraph_prospective_returns_real_id() {
    check_onset_opens_paragraph_prospective_returns_real_id();
}

fn check_timestamp_win_ids_strictly_increasing() {
    let mut t = ParagraphTracker::new(us(2.5));
    let mut prev = 0u64;
    for i in 0..8 {
        t.on_speech_onset(us(i as f64));
        let (pid, _) = t.prospective();
        assert!(pid > prev, "ids increase strictly");
        prev = pid;
        let s = t.on_sos(us(i as f64));
        t.on_eos(sentence(s, i as f64, i as f64 + 0.5));
        let _ = t.check_settle(us(i as f64 + 10.0), false);
    }
}

#[test]
fn tracker_timestamp_win_ids_strictly_increasing() {
    check_timestamp_win_ids_strictly_increasing();
}

#[test]
fn consume_timestamp_win_ids_strictly_increasing() {
    check_timestamp_win_ids_strictly_increasing();
}

fn check_empty_onset_paragraph_gced_after_merge_gap() {
    let mut t = ParagraphTracker::new(us(2.5));
    t.on_speech_onset(us(0.0));
    let (pid, _) = t.prospective();
    assert!(t.check_settle(us(2.0), false).is_none(), "2.0 < 2.5");
    assert!(t.has_open_paragraph());
    assert!(t.check_settle(us(2.6), false).is_none(), "dropped without a word");
    assert!(!t.has_open_paragraph(), "an empty paragraph is dropped after the gap");
    t.on_speech_onset(us(100.0));
    let (pid2, _) = t.prospective();
    assert!(pid2 > pid, "the next one has a larger id");
    assert!(t.check_settle(us(103.0), false).is_none());
    assert!(!t.has_open_paragraph());
    t.on_speech_onset(us(200.0));
    let d = t.settle_deadline(us(201.0), false).expect("an empty paragraph has a deadline too");
    assert_eq!(d, 1_500_000, "2.5 - (201.0 - 200.0)");
}

#[test]
fn tracker_empty_onset_paragraph_gced_after_merge_gap() {
    check_empty_onset_paragraph_gced_after_merge_gap();
}

#[test]
fn consume_empty_onset_paragraph_gced_after_merge_gap() {
    check_empty_onset_paragraph_gced_after_merge_gap();
}

fn check_speaking_suppresses_empty_onset_gc() {
    let mut t = ParagraphTracker::new(us(2.5));
    t.on_speech_onset(us(0.0));
    assert!(t.check_settle(us(100.0), true).is_none());
    assert!(t.has_open_paragraph(), "speech holds it");
    assert!(t.settle_deadline(us(100.0), true).is_none());
    assert!(t.check_settle(us(100.0), false).is_none(), "dropped in silence");
    assert!(!t.has_open_paragraph());
}

#[test]
fn tracker_speaking_suppresses_empty_onset_gc() {
    check_speaking_suppresses_empty_onset_gc();
}

#[test]
fn consume_speaking_suppresses_empty_onset_gc() {
    check_speaking_suppresses_empty_onset_gc();
}

#[test]
fn ids_follow_the_clock_and_never_fall() {
    let mut t = ParagraphTracker::new(us(1.0));
    t.open_at(0, 5_000);
    assert_eq!(t.prospective(), (5_000, 1));
    assert!(t.check_settle(us(2.0), false).is_none());
    // The clock went back.
    t.open_at(us(3.0), 10);
    assert_eq!(t.prospective().0, 5_001);
    // Nothing opens twice.
    t.open_at(us(3.1), 9_999);
    assert_eq!(t.prospective().0, 5_001);
}

#[test]
fn the_first_id_is_never_zero() {
    let mut t = ParagraphTracker::new(us(1.0));
    assert_eq!(t.prospective(), (1, 1), "announced before anything opens");
    t.open_at(0, 0);
    assert_eq!(t.prospective().0, 1);
    assert_eq!(t.on_sos_at(0, 7), 1);
    assert_eq!(t.next_sentence_id(), 2);
}

#[test]
fn a_completed_sentence_is_placed_by_its_onset() {
    let mut t = ParagraphTracker::new(us(2.5));
    let (none, p, all) = t.on_eos_at(sentence(1, 0.0, 0.5), 100);
    assert!(none.is_none());
    assert_eq!((p, all.len()), (100, 1));
    // 2.999999 - 0.5 = 2.499999: still the same paragraph.
    let (none, p, all) = t.on_eos_at(sentence(2, 2.999999, 3.2), 200);
    assert!(none.is_none());
    assert_eq!((p, all.len()), (100, 2));
    // 5.7 - 3.2 = 2.5: exactly the gap.
    let (closed, p, all) = t.on_eos_at(sentence(3, 5.7, 6.0), 300);
    assert_eq!(closed.expect("closed").sentences.len(), 2);
    assert_eq!((p, all.len()), (300, 1));
}

#[test]
fn ids_increase_though_the_clock_stands_still_or_steps_back() {
    let mut t = ParagraphTracker::new(us(2.5));
    let ids: Vec<u64> = [0, 0, 100, 100, 50, 101, 200].iter().map(|c| t.next_win_id(*c)).collect();
    assert_eq!(ids, vec![1, 2, 100, 101, 102, 103, 200]);
}
