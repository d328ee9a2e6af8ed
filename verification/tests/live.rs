//! The live loop: frames, sessions, sentences and paragraphs.

use std::sync::Arc;

use audio_aura::models::{AsrProvider, ProviderError, VadEvent, VadEventKind};
use audio_aura::pipeline::consume::{
    emit_paragraph_edge, phase, speech_pending, Brain, Phase, StreamFinal,
};
use audio_aura::audio_store::AudioStore;
use audio_aura::pipeline::front::{starved, FrontEvent, FrontQueue, Gate, Reframer};
use audio_aura::pipeline::loops::{MainAction, Turns};
use audio_aura::pipeline::stream::{no_stream_final, ActiveSession, StreamCmd};
use audio_aura::pipeline::turns::TurnEvent;
use audio_aura::pipeline::vad::{EnergyEngine, SileroVAD, Stage0VAD, VadEngine, NEVER_US};
use audio_aura::types::{SettledParagraph, Stage1Event, VadParagraph, VadSentence};
use audio_aura::vad::{
    final_event, loud, Endpointing, EnergyVad, SpeechEventKind, StubAsr, VadConfig, VadSegmenter,
};

fn us(s: f64) -> i64 {
    (s * 1_000_000.0).round() as i64
}

fn silence(n: usize) -> Vec<i16> {
    vec![0i16; n]
}

fn tone(frame_idx: usize, samples: usize, sr: u32, amp: f32) -> Vec<i16> {
    (0..samples)
        .map(|k| {
            let t = (frame_idx * samples + k) as f32 / sr as f32;
            (amp * (2.0 * std::f32::consts::PI * 440.0 * t).sin()) as i16
        })
        .collect()
}

#[test]
fn segments_one_burst() {
    let sr = 16000u32;
    let frame = (sr / 50) as usize;
    let mut seg = VadSegmenter::new(VadConfig::default(), StubAsr);
    let mut kinds: Vec<SpeechEventKind> = Vec::new();
    for _ in 0..20 {
        for e in seg.push_frame(&silence(frame)) {
            kinds.push(e.kind);
        }
    }
    for i in 0..30 {
        for e in seg.push_frame(&tone(i, frame, sr, 6000.0)) {
            kinds.push(e.kind);
        }
    }
    for _ in 0..40 {
        for e in seg.push_frame(&silence(frame)) {
            kinds.push(e.kind);
        }
    }
    assert!(kinds.contains(&SpeechEventKind::StartOfSpeech), "expected StartOfSpeech");
    assert!(kinds.contains(&SpeechEventKind::Final), "expected Final");
}

#[test]
fn pure_silence_no_events() {
    let sr = 16000u32;
    let frame = (sr / 50) as usize;
    let mut seg = VadSegmenter::new(VadConfig::default(), StubAsr);
    let mut count = 0;
    for _ in 0..100 {
        count += seg.push_frame(&silence(frame)).len();
    }
    assert_eq!(count, 0);
}

#[test]
fn a_click_is_not_speech() {
    let mut vad = EnergyVad::new(VadConfig::default());
    // 40 ms are less than the 50 ms that speech takes.
    assert!(vad.push_judged(&[9000; 320], true).is_none());
    assert!(vad.push_judged(&[9000; 320], true).is_none());
    for _ in 0..50 {
        assert!(vad.push_judged(&[0; 320], false).is_none());
    }
}

#[test]
fn an_utterance_holds_its_lead_in_and_its_tail() {
    let mut vad = EnergyVad::new(VadConfig::default());
    for i in 0..20 {
        assert!(vad.push_judged(&[i; 320], false).is_none());
    }
    let mut started = 0;
    for _ in 0..10 {
        if let Some(e) = vad.push_judged(&[9000; 320], true) {
            assert!(matches!(e.kind, VadEventKind::StartOfSpeech));
            started += 1;
        }
    }
    assert_eq!(started, 1);
    let mut ended = None;
    for _ in 0..40 {
        if let Some(e) = vad.push_judged(&[0; 320], false) {
            assert!(matches!(e.kind, VadEventKind::EndOfSpeech));
            assert!(ended.is_none(), "once");
            ended = Some(e.pcm);
        }
    }
    let pcm = ended.expect("550 ms of silence end it");
    // The third loud frame opens the utterance; the 300 ms kept from before it end with the other
    // two. 28 frames of silence end it.
    assert_eq!(pcm.iter().filter(|s| **s == 9000).count(), 10 * 320);
    let before = pcm.iter().position(|s| *s == 9000).unwrap();
    assert_eq!(before, 4800 - 2 * 320);
    assert_eq!(pcm.len(), 4800 + 8 * 320 + 28 * 320);
}

#[test]
fn loudness_is_a_mean_square() {
    assert!(!loud(&[], 1));
    assert!(loud(&[500, -500], 500), "the threshold itself is loud");
    assert!(!loud(&[499, -499], 500));
    assert!(loud(&[1000, 0], 707));
    assert!(!loud(&[1000, 0], 708));
}

#[test]
fn an_utterance_without_words_is_empty() {
    let e = final_event(16_000, 16_000, Err(ProviderError { message: "x".into() }));
    assert!(e.kind == SpeechEventKind::Final);
    assert_eq!(e.duration_us, Some(1_000_000));
    let e = final_event(800, 16_000, Ok("好".into()));
    assert_eq!(e.text.as_deref(), Some("好"));
    assert_eq!(e.duration_us, Some(50_000));
    let e = final_event(800, 0, Ok(String::new()));
    assert_eq!(e.duration_us, None);
    assert!(StubAsr.recognize(&[0], 16000).is_ok());
    let d = Endpointing::default();
    assert_eq!((d.min_delay_ms, d.max_delay_ms), (500, 3000));
}

#[test]
fn frames_are_cut_to_windows() {
    let mut r = Reframer::new();
    assert!(r.push(&[1; 500]).is_empty());
    let out = r.push(&[2; 600]);
    assert_eq!(out.len(), 2);
    assert_eq!((out[0].len(), out[1].len()), (512, 512));
    assert_eq!(out[0][499..501], [1, 2]);
    assert_eq!(r.push(&[3; 436]).len(), 1, "76 were left");
}

#[test]
fn the_gate_opens_with_its_lead_in() {
    let mut g = Gate::new();
    for i in 0..20 {
        let out = g.on_frame(vec![i; 4], false, us(1.0));
        assert!(out.onset.is_none() && out.commands.is_empty());
    }
    let out = g.on_frame(vec![99; 4], true, us(2.0));
    assert_eq!(out.onset, Some(us(2.0)));
    match &out.commands[0] {
        StreamCmd::Onset { at, lead_in } => {
            assert_eq!(*at, us(2.0));
            assert_eq!(lead_in.len(), 16);
            assert_eq!(lead_in[0], vec![4; 4]);
        }
        _ => panic!("expected the onset first"),
    }
    assert!(matches!(&out.commands[1], StreamCmd::Feed(f) if f[0] == 99));
    let out = g.on_frame(vec![98; 4], true, us(2.1));
    assert!(out.onset.is_none());
    assert!(matches!(out.commands.as_slice(), [StreamCmd::Feed(_)]));
    let out = g.on_frame(vec![97; 4], false, us(2.2));
    assert!(out.onset.is_none());
    g.on_sleep();
    let out = g.route(vec![1; 4], true, false, true, us(3.0));
    assert!(out.commands.is_empty(), "without a stream nothing is fed");
}

#[test]
fn the_queue_keeps_its_order() {
    let mut q = FrontQueue::new();
    q.push(FrontEvent { detected: true, events: vec![], onset: Some(5) });
    q.push_silence(vec![VadEvent { kind: VadEventKind::EndOfSpeech, pcm: vec![1] }]);
    assert_eq!(q.len(), 2);
    let a = q.pop().unwrap_or_else(|| panic!("two are there"));
    assert!(a.detected && a.onset == Some(5));
    let b = q.pop().unwrap_or_else(|| panic!("one is there"));
    assert!(!b.detected && b.onset.is_none());
    assert_eq!(b.events.len(), 1);
    assert!(q.pop().is_none());
}

#[test]
fn a_full_queue_drops_the_oldest() {
    let mut q = FrontQueue::new();
    for i in 0..18_751 {
        q.push(FrontEvent { detected: false, events: vec![], onset: Some(i) });
    }
    assert_eq!(q.len(), 18_750);
    assert!(!q.push_silence(vec![]), "nothing new");
    assert!(q.push_silence(vec![VadEvent { kind: VadEventKind::EndOfSpeech, pcm: vec![1] }]));
    assert_eq!(q.len(), 18_750, "silence counts as well");
    assert_eq!(q.pop().and_then(|e| e.onset), Some(2));
}

#[test]
fn silence_is_fed_when_the_source_is_gone() {
    assert!(starved(2_000_001, 100_000, true));
    assert!(!starved(2_000_000, 100_000, true));
    assert!(!starved(2_000_001, 99_999, true));
    assert!(!starved(2_000_001, 100_000, false));
}

#[test]
fn a_session_reports_news_only() {
    let mut s = ActiveSession::new();
    s.on_onset(&vec![vec![1; 4], vec![2; 4]]);
    let mut due = 0;
    for _ in 0..9 {
        if s.on_feed(&vec![3; 4]) {
            due += 1;
        }
    }
    assert_eq!(due, 1, "the ninth frame");
    let out = s.on_partial("你".into());
    assert!(out.nonempty && out.text.as_deref() == Some("你"));
    let out = s.on_partial("你".into());
    assert!(out.nonempty && out.text.is_none());
    let out = s.on_partial(String::new());
    assert!(out.nonempty && out.text.is_none(), "an empty partial changes nothing");
    let f = s.finalize("你好".into());
    assert_eq!(f.text, "你好");
    assert_eq!(f.fed, 11);
    assert_eq!(f.pcm.as_ref().map(|p| p.len()), Some(44));
    let f = s.finalize(String::new());
    assert_eq!(f.fed, 0, "a new session");
    s.reset();
    assert_eq!(s.room(), u32::MAX);
    let none = no_stream_final();
    assert!(none.text.is_empty() && none.pcm.is_none());
}

struct Engine(Vec<bool>);

impl VadEngine for Engine {
    fn push_frame(&mut self, _frame: &[i16]) -> Vec<VadEvent> {
        self.0.rotate_left(1);
        vec![]
    }

    fn detected(&self) -> bool {
        self.0[0]
    }
}

#[test]
fn the_last_voice_is_remembered() {
    let mut v = SileroVAD::new(Engine(vec![false, true, false]));
    assert_eq!(v.last_voice_at(), NEVER_US);
    v.feed(&[0; 512], 10);
    assert!(v.detected());
    assert_eq!(v.last_voice_at(), 10);
    v.feed(&[0; 512], 20);
    assert!(!v.detected());
    assert_eq!(v.last_voice_at(), 10);
}

#[test]
fn speech_is_pending_for_a_while_after_the_last_voice() {
    assert!(speech_pending(true, us(0.0), us(100.0)));
    assert!(speech_pending(false, us(1.0), us(1.59)));
    assert!(!speech_pending(false, us(1.0), us(1.6)));
    assert!(matches!(phase(false, true), Phase::Exit));
    assert!(matches!(phase(true, false), Phase::AwaitAudio));
    assert!(matches!(phase(true, true), Phase::Tick));
}

fn heard(text: &str, n: usize) -> StreamFinal {
    StreamFinal { text: text.into(), pcm: Some(vec![7; n]), fed: 1 }
}

#[test]
fn a_sentence_goes_from_onset_to_edge() {
    let mut b = Brain::new(us(2.5), 1_000_000, 16000, 0);
    b.on_onset(us(10.0));
    let ev = b.fold_stream_out(Some("你".into()), true, us(10.2));
    let announced = match ev {
        Some(Stage1Event::StreamFragment { paragraph_id, sentence_id, text, .. }) => {
            assert_eq!(text, "你");
            (paragraph_id, sentence_id)
        }
        _ => panic!("expected a fragment"),
    };
    assert!(b.can_start_sentence());
    b.on_sos(us(10.4));
    b.begin_finalize();
    assert!(b.room_for(8000));
    let out = b.finalize_sentence_at(heard("你好", 8000), us(10.5), vec![], 1);
    let batch = out.iter().find_map(|e| match e {
        Stage1Event::Batch { paragraph_id, sentences, sr } => {
            Some((*paragraph_id, sentences.clone(), *sr))
        }
        _ => None,
    });
    let (pid, sentences, sr) = batch.expect("a batch");
    assert_eq!((pid, sentences[0].id), announced, "what was announced is what came");
    assert_eq!(sr, 16000);
    assert_eq!(sentences[0].start_us, us(10.0), "from the onset");
    assert_eq!(sentences[0].end_us, us(10.5));
    assert_eq!(sentences[0].streaming_text, "你好");
    assert!(sentences[0].batch_text.is_none());
    let clip = b.audio_store().concat(&[sentences[0].audio_id]);
    assert_eq!(clip, vec![7; 8000], "what the sentence's pass is given");
    let t = b.tick(us(12.0), us(10.5), false);
    assert!(t.edge.is_none());
    assert_eq!(b.next_wake_at(us(12.0), false, false), Some(1_000_000));
    let t = b.tick(us(13.0), us(10.5), false);
    match t.edge {
        Some(Stage1Event::ParagraphEdge { paragraph, .. }) => {
            assert_eq!(paragraph.id, announced.0);
            assert_eq!(paragraph.pcm.len(), 8000);
            assert_eq!(paragraph.streaming_text, "你好");
            assert_eq!(paragraph.duration_ns(), 500_000_000);
        }
        _ => panic!("expected the edge"),
    }
    assert_eq!(b.audio_store().total_samples(), 0, "released");
}

#[test]
fn without_an_onset_the_audio_tells_the_start() {
    let mut b = Brain::new(us(2.5), 1_000_000, 16000, 0);
    b.on_sos(us(3.0));
    let out = b.finalize_sentence(no_stream_final(), us(4.0), vec![5; 16000]);
    match &out[0] {
        Stage1Event::Batch { sentences, .. } => assert_eq!(sentences[0].start_us, us(3.0)),
        _ => panic!("expected a batch"),
    }
}

#[test]
fn a_request_to_close_is_met_at_once_but_not_mid_speech() {
    let mut b = Brain::new(us(2.5), 1_000_000, 16000, 0);
    assert!(b.tick(0, NEVER_US, true).flush_done, "nothing to close");
    b.on_sos(us(1.0));
    b.finalize_sentence(heard("一", 10), us(1.5), vec![]);
    b.fold_stream_out(Some("二".into()), true, us(1.6));
    let t = b.tick(us(1.7), us(1.7), true);
    assert!(t.speaking && t.edge.is_none() && !t.flush_done);
    assert_eq!(b.next_wake_at(us(1.7), true, true), Some(50_000));
    b.fold_stream_out(None, false, us(1.8));
    let t = b.tick(us(2.4), us(1.7), true);
    assert!(t.flush_done && t.edge.is_some());
}

#[test]
fn a_partial_that_stands_still_goes_stale() {
    let mut b = Brain::new(us(2.5), 1_000_000, 16000, 0);
    b.fold_stream_out(Some("喂".into()), true, us(1.0));
    assert!(!b.tick(us(8.9), NEVER_US, false).reset_session);
    let t = b.tick(us(9.0), NEVER_US, false);
    assert!(t.reset_session && t.partial_live, "live until now");
    let t = b.tick(us(9.1), NEVER_US, false);
    assert!(!t.reset_session && !t.partial_live && !t.speaking);
}

fn sentence(id: u64, audio_id: u64) -> VadSentence {
    VadSentence {
        id,
        audio_id,
        start_us: us(id as f64),
        end_us: us(id as f64 + 0.5),
        streaming_text: format!("s{id}"),
        batch_text: None,
    }
}

#[test]
fn closing_joins_and_releases_the_clips() {
    let mut store = AudioStore::new(1_000_000);
    let a = store.insert(Arc::new(vec![1; 10]));
    let b = store.insert(Arc::new(vec![2; 20]));
    let c = store.insert(Arc::new(vec![3; 5]));
    let settled =
        SettledParagraph { paragraph_id: 9, sentences: vec![sentence(1, a), sentence(2, b)] };
    match emit_paragraph_edge(settled, &mut store, 16000) {
        Some(Stage1Event::ParagraphEdge { paragraph, sr }) => {
            assert_eq!((paragraph.id, sr), (9, 16000));
            assert_eq!(paragraph.pcm.len(), 30);
            assert_eq!((paragraph.start_us, paragraph.end_us), (us(1.0), us(2.5)));
            assert_eq!(paragraph.streaming_text, "s1s2");
        }
        _ => panic!("expected the edge"),
    }
    assert_eq!(store.total_samples(), 5);
    assert_eq!(store.concat(&[c]).len(), 5);
    let empty = SettledParagraph { paragraph_id: 9, sentences: vec![] };
    assert!(emit_paragraph_edge(empty, &mut store, 16000).is_none());
}

fn paragraph(sentences: Vec<VadSentence>) -> VadParagraph {
    VadParagraph {
        id: 9,
        sentences,
        start_us: 0,
        end_us: 1,
        streaming_text: String::new(),
        batch_text: None,
        pcm: Arc::new(vec![]),
        batch_asr_ms: 0,
    }
}

#[test]
fn the_main_loop_starts_one_task_for_each_closed_sentence() {
    let mut t = Turns::new();
    let a = t.on_stage1(Stage1Event::Batch {
        paragraph_id: 9,
        sentences: vec![sentence(1, 11)],
        sr: 16000,
    });
    assert!(matches!(
        a.as_slice(),
        [MainAction::SentenceTask { paragraph_id: 9, sentence_id: 1, audio_id: 11, sr: 16000 }]
    ));
    let b = t.on_stage1(Stage1Event::Batch {
        paragraph_id: 9,
        sentences: vec![sentence(1, 11), sentence(2, 12)],
        sr: 16000,
    });
    assert!(matches!(b.as_slice(), [MainAction::SentenceTask { sentence_id: 2, .. }]));
    let c = t.on_turn(TurnEvent::BatchSentence {
        paragraph_id: 9,
        sentence_id: 1,
        text: "批".into(),
    });
    let live = c.iter().find_map(|a| match a {
        MainAction::LiveCalibration { up_to, sentences, .. } => Some((*up_to, sentences.clone())),
        _ => None,
    });
    let (up_to, sentences) = live.expect("calibrated on the way");
    assert_eq!(up_to, 1);
    assert_eq!(sentences[0].batch_text.as_deref(), Some("批"));
    // A later snapshot without the text does not take it away.
    t.on_stage1(Stage1Event::Batch {
        paragraph_id: 9,
        sentences: vec![sentence(1, 11), sentence(2, 12), sentence(3, 13)],
        sr: 16000,
    });
    let d = t.on_stage1(Stage1Event::ParagraphEdge {
        paragraph: paragraph(vec![sentence(1, 11), sentence(2, 12), sentence(3, 13)]),
        sr: 16000,
    });
    assert!(d
        .iter()
        .any(|a| matches!(a, MainAction::Emit(TurnEvent::ParagraphClosed { paragraph_id: 9 }))));
    assert!(d.iter().any(|a| matches!(a, MainAction::ParagraphTask { .. })));
    let e = t.on_turn(TurnEvent::BatchSentence {
        paragraph_id: 9,
        sentence_id: 3,
        text: "晚".into(),
    });
    assert!(
        !e.iter().any(|a| matches!(a, MainAction::LiveCalibration { .. })),
        "a closed paragraph is calibrated by its own task"
    );
}

#[test]
fn an_utterance_holds_each_sample_once() {
    let cfg = VadConfig {
        sample_rate: 1000,
        frame_ms: 1,
        rms_threshold: 10,
        min_speech_ms: 1,
        min_silence_ms: 1,
        prefix_pad_ms: 2,
    };
    let mut vad = EnergyVad::new(cfg);
    assert!(matches!(vad.push_frame(&[100]), Some(e) if e.pcm.is_empty()));
    assert!(matches!(vad.push_frame(&[0]), Some(e) if e.pcm == [100, 0]));
    // Without a lead-in the frame that opens the utterance is still part of it.
    let mut vad = EnergyVad::new(VadConfig { prefix_pad_ms: 0, ..cfg });
    vad.push_frame(&[1]);
    vad.push_frame(&[100]);
    assert!(matches!(vad.push_frame(&[0]), Some(e) if e.pcm == [100, 0]));
}

#[test]
fn the_built_in_engine_is_asked() {
    let cfg = VadConfig { frame_ms: 32, min_speech_ms: 32, min_silence_ms: 32, ..Default::default() };
    let mut v = SileroVAD::new(EnergyEngine::new(cfg));
    assert!(v.feed(&[0; 512], 10).is_empty());
    assert!(!v.detected());
    let events = v.feed(&[9000; 512], 20);
    assert!(matches!(events.as_slice(), [e] if matches!(e.kind, VadEventKind::StartOfSpeech)));
    assert!(v.detected());
    assert_eq!(v.last_voice_at(), 20);
    let events = v.feed(&[0; 512], 30);
    assert!(matches!(events.as_slice(), [e] if matches!(e.kind, VadEventKind::EndOfSpeech)));
}
