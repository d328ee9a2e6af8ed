//! The tasks behind the main loop and the configuration of the pipeline.

use std::collections::HashSet;
use std::sync::{Arc, Mutex};

use audio_aura::calibrator::{
    LlmInput, PassThroughCalibrator, Stage2Calibrator, Stage2CalibratorImpl,
};
use audio_aura::models::config::ProviderKind;
use audio_aura::models::{AsrProvider, LlmProvider, ModelProvider, ProviderError};
use audio_aura::pipeline::complete::{
    live_done, recognize_once, sentence_done, surface_asr, Completion, Rerun, SentenceOutcome,
    Stage,
};
use audio_aura::pipeline::loops::{MainAction, Turns};
use audio_aura::pipeline::spec::{
    batch_backend, engine_error, resolve_model, stage1_config, stage2_calibrator, stage2_endpoint, AsrSpec,
    BatchBackend, Calibration, DisabledAsr, LlmSpec, ModelPath, PipelineSpec, Stage1Config,
    StreamSpec, VadSpec,
};
use audio_aura::pipeline::turns::{
    describe_turn, write_millis, write_seconds, write_turn_line, TurnEvent,
};
use audio_aura::types::{Stage1Event, VadParagraph, VadSentence};

struct CountingLlm(Arc<Mutex<usize>>);

impl LlmProvider for CountingLlm {
    fn complete(&self, _system: &str, _user: &str) -> Result<String, ProviderError> {
        *self.0.lock().unwrap() += 1;
        Ok("整流OK".into())
    }
}

struct SeqLlm(Arc<Mutex<usize>>);

impl LlmProvider for SeqLlm {
    fn complete(&self, _system: &str, _user: &str) -> Result<String, ProviderError> {
        let mut n = self.0.lock().unwrap();
        *n += 1;
        Ok(format!("整流{n}"))
    }
}

fn tsent(id: u64, batch: Option<&str>) -> VadSentence {
    VadSentence {
        id,
        audio_id: id,
        start_us: 0,
        end_us: 500_000,
        streaming_text: format!("流式{id}"),
        batch_text: batch.map(|b| b.to_string()),
    }
}

fn tpar(id: u64, sentences: Vec<VadSentence>) -> VadParagraph {
    VadParagraph {
        id,
        sentences,
        start_us: 0,
        end_us: 1_000_000,
        streaming_text: "流式1流式2".into(),
        batch_text: None,
        pcm: Arc::new(Vec::new()),
        batch_asr_ms: 0,
    }
}

/// The task of a sentence: reports its text and hands its outcome over.
fn sentence_task(sid: u64, text: &str, events: &mut Vec<TurnEvent>) -> Option<SentenceOutcome> {
    let (outcome, event) = sentence_done(1, sid, Some(text.to_string()), 3);
    events.extend(event);
    Some(outcome)
}

/// The open paragraph and the batch texts of its sentences go through the main loop: each text
/// that comes in calibrates the paragraph as far as it is known, in a task of its own that
/// reports later.
fn sentences_through(
    sentences: &[VadSentence],
    texts: &[(u64, &str)],
    calibrator: &mut dyn Stage2Calibrator,
    events: &mut Vec<TurnEvent>,
) -> Vec<Option<SentenceOutcome>> {
    let mut turns = Turns::new();
    turns.on_stage1(Stage1Event::Batch {
        paragraph_id: 1,
        sentences: sentences.to_vec(),
        sr: 16000,
    });
    let mut outcomes = Vec::new();
    for (sid, text) in texts {
        let mut told = Vec::new();
        outcomes.push(sentence_task(*sid, text, &mut told));
        for ev in told {
            let mut lives = Vec::new();
            for action in turns.on_turn(ev) {
                match action {
                    MainAction::Emit(e) => events.push(e),
                    MainAction::LiveCalibration { paragraph_id, up_to, sentences } => {
                        let text = calibrator.calibrate_paragraph(paragraph_id, &sentences);
                        lives.push(live_done(paragraph_id, up_to, text, 1_000));
                    }
                    _ => panic!("unexpected"),
                }
            }
            events.extend(lives);
        }
    }
    outcomes
}

/// The task of a paragraph: whatever the completion waits for next is handed in, the outcomes of
/// the sentences, the pass over the whole, the final text.
fn paragraph_task(
    paragraph: VadParagraph,
    outcomes: Vec<Option<SentenceOutcome>>,
    calibrator: &mut dyn Stage2Calibrator,
    rerun: impl FnOnce() -> Rerun,
    events: &mut Vec<TurnEvent>,
) {
    let mut c = Completion::new(paragraph, outcomes.len(), false);
    let mut outcomes = outcomes.into_iter();
    let mut rerun = Some(rerun);
    loop {
        match c.stage() {
            Stage::Sentences(_) => c.on_outcome(outcomes.next().expect("so many wait")),
            Stage::Live => panic!("nothing is calibrated on the way"),
            Stage::Rerun => {
                let run = rerun.take().expect("once at most");
                events.extend(c.on_rerun(run()));
            }
            Stage::Calibration => {
                let calibrated = calibrator.finalize_paragraph(c.paragraph());
                events.push(c.finish(calibrated, 1_000).1);
            }
            Stage::Done => break,
        }
    }
    assert!(outcomes.next().is_none(), "every sentence was waited for");
}

fn whole(text: &str) -> Rerun {
    Rerun::Done { text: Some(text.to_string()), asr_ms: 5 }
}

fn calibrator_of<L: LlmProvider>(llm: L) -> Stage2CalibratorImpl<L> {
    Stage2CalibratorImpl::new(llm, Vec::new(), Vec::new(), LlmInput::Batch)
}

#[test]
fn pipeline_paragraph_task_multi_sentence_order_and_llm_counts() {
    let calls = Arc::new(Mutex::new(0));
    let mut calibrator = calibrator_of(CountingLlm(Arc::clone(&calls)));
    let mut events = Vec::new();
    let sentences = vec![tsent(1, None), tsent(2, None)];
    let texts = [(1, "句1批式"), (2, "句2批式")];
    let outcomes = sentences_through(&sentences, &texts, &mut calibrator, &mut events);
    paragraph_task(
        tpar(1, sentences),
        outcomes,
        &mut calibrator,
        || whole("整段批式"),
        &mut events,
    );
    assert_eq!(events.len(), 6);
    let batches = events.iter().filter(|e| matches!(e, TurnEvent::BatchSentence { .. })).count();
    assert_eq!(batches, 2);
    let lives =
        events.iter().filter(|e| matches!(e, TurnEvent::SentenceCalibration { .. })).count();
    assert_eq!(lives, 2);
    let mut seen_batch = HashSet::new();
    let mut seen_para_batch = false;
    for e in &events {
        match e {
            TurnEvent::BatchSentence { sentence_id, .. } => {
                seen_batch.insert(*sentence_id);
            }
            TurnEvent::SentenceCalibration { sentence_id, .. } => {
                assert!(!seen_batch.is_empty());
                assert!(seen_batch.contains(sentence_id), "after its own batch text");
            }
            TurnEvent::BatchParagraph { .. } => {
                seen_para_batch = true;
                assert_eq!(seen_batch.len(), 2, "after all of its sentences");
            }
            TurnEvent::ParagraphCalibration { .. } => assert!(seen_para_batch),
            _ => {}
        }
    }
    assert_eq!(*calls.lock().unwrap(), 3, "two on the way and one at the end");
}

#[test]
fn pipeline_paragraph_task_single_sentence_skips_rerun() {
    let calls = Arc::new(Mutex::new(0));
    let mut calibrator = calibrator_of(CountingLlm(Arc::clone(&calls)));
    let mut events = Vec::new();
    let sentences = vec![tsent(1, None)];
    let texts = [(1, "句1批式")];
    let outcomes = sentences_through(&sentences, &texts, &mut calibrator, &mut events);
    paragraph_task(
        tpar(1, sentences),
        outcomes,
        &mut calibrator,
        || panic!("one sentence is not passed over again"),
        &mut events,
    );
    assert!(matches!(
        events.as_slice(),
        [
            TurnEvent::BatchSentence { .. },
            TurnEvent::SentenceCalibration { .. },
            TurnEvent::ParagraphCalibration { .. }
        ]
    ));
    assert_eq!(*calls.lock().unwrap(), 2, "one on the way and one at the end");
}

#[test]
fn loops_paragraph_task_multi_sentence_order_and_llm_counts() {
    let calls = Arc::new(Mutex::new(0));
    let mut calibrator = calibrator_of(CountingLlm(Arc::clone(&calls)));
    let mut events = Vec::new();
    let outcomes = vec![
        sentence_task(1, "句1批式", &mut events),
        sentence_task(2, "句2批式", &mut events),
    ];
    paragraph_task(
        tpar(1, vec![tsent(1, None), tsent(2, None)]),
        outcomes,
        &mut calibrator,
        || whole("整段批式"),
        &mut events,
    );
    assert_eq!(events.len(), 4, "2×BatchSentence + BatchParagraph + ParagraphCalibration");
    let batches = events.iter().filter(|e| matches!(e, TurnEvent::BatchSentence { .. })).count();
    assert_eq!(batches, 2);
    let mut seen_batch = HashSet::new();
    let mut seen_para_batch = false;
    for e in &events {
        match e {
            TurnEvent::BatchSentence { sentence_id, .. } => {
                seen_batch.insert(*sentence_id);
            }
            TurnEvent::BatchParagraph { .. } => {
                seen_para_batch = true;
                assert_eq!(seen_batch.len(), 2);
            }
            TurnEvent::ParagraphCalibration { .. } => assert!(seen_para_batch),
            _ => {}
        }
    }
    assert_eq!(*calls.lock().unwrap(), 1, "one calibration at the end");
}

#[test]
fn loops_paragraph_task_single_sentence_skips_rerun() {
    let calls = Arc::new(Mutex::new(0));
    let mut calibrator = calibrator_of(CountingLlm(Arc::clone(&calls)));
    let mut events = Vec::new();
    let outcome = sentence_task(1, "句1批式", &mut events);
    paragraph_task(
        tpar(1, vec![tsent(1, None)]),
        vec![outcome],
        &mut calibrator,
        || panic!("one sentence is not passed over again"),
        &mut events,
    );
    assert!(matches!(
        events.as_slice(),
        [TurnEvent::BatchSentence { .. }, TurnEvent::ParagraphCalibration { .. }]
    ));
    assert_eq!(*calls.lock().unwrap(), 1);
}

#[test]
fn paragraph_task_finalize_uses_backfilled_sentence_batches() {
    let mut events = Vec::new();
    let outcome = sentence_task(1, "bug太多啦，太多啦！", &mut events);
    paragraph_task(
        tpar(1, vec![tsent(1, None)]),
        vec![outcome],
        &mut PassThroughCalibrator,
        || panic!("one sentence is not passed over again"),
        &mut events,
    );
    assert!(matches!(
        events.as_slice(),
        [TurnEvent::BatchSentence { .. }, TurnEvent::ParagraphCalibration { calibrated, .. }]
            if calibrated == "bug太多啦，太多啦！"
    ));
}

#[test]
fn paragraph_task_survives_rerun_panic_and_still_finalizes() {
    let mut events = Vec::new();
    let outcomes = vec![
        Some(SentenceOutcome { sentence_id: 1, batch_text: Some("句1批".into()), asr_ms: 1 }),
        Some(SentenceOutcome { sentence_id: 2, batch_text: Some("句2批".into()), asr_ms: 1 }),
    ];
    paragraph_task(
        tpar(1, vec![tsent(1, None), tsent(2, None)]),
        outcomes,
        &mut PassThroughCalibrator,
        || Rerun::Failed,
        &mut events,
    );
    assert!(matches!(
        events.as_slice(),
        [TurnEvent::ParagraphCalibration { calibrated, .. }] if calibrated == "句1批句2批"
    ));
}

#[test]
fn live_calibration_task_chains_per_batch_order() {
    let calls = Arc::new(Mutex::new(0));
    let mut calibrator = calibrator_of(SeqLlm(Arc::clone(&calls)));
    let mut turns = Turns::new();
    let batches = [vec![tsent(1, None)], vec![tsent(1, None), tsent(2, None)]];
    for b in &batches {
        turns.on_stage1(Stage1Event::Batch {
            paragraph_id: 7,
            sentences: b.clone(),
            sr: 16000,
        });
    }
    let mut scs = Vec::new();
    for sid in [1, 2] {
        let ev = TurnEvent::BatchSentence {
            paragraph_id: 7,
            sentence_id: sid,
            text: format!("批{sid}"),
        };
        for action in turns.on_turn(ev) {
            if let MainAction::LiveCalibration { paragraph_id, up_to, sentences } = action {
                let text = calibrator.calibrate_paragraph(paragraph_id, &sentences);
                match live_done(paragraph_id, up_to, text, 0) {
                    TurnEvent::SentenceCalibration { calibrated, .. } => scs.push(calibrated),
                    _ => panic!("expected a calibration"),
                }
            }
        }
    }
    assert_eq!(scs, vec!["整流1".to_string(), "整流2".to_string()], "in the order of the batches");
    assert_eq!(*calls.lock().unwrap(), 2, "one call for each");
}

#[test]
fn describe_turn_covers_all_event_kinds() {
    let s = describe_turn(
        &TurnEvent::StreamFragment {
            paragraph_id: 1756615200123456,
            sentence_id: 2,
            text: "你好".into(),
            at_us: 12_345_000,
        },
    );
    assert!(s.contains("stream p1756615200123456 s2 @12.35"), "{s}");
    assert!(s.contains(r#""你好""#), "{s}");
    assert_eq!(
        describe_turn(&TurnEvent::ParagraphClosed { paragraph_id: 7 }),
        "paragraph_closed p7"
    );
    assert!(describe_turn(
        &TurnEvent::BatchSentence { paragraph_id: 7, sentence_id: 1, text: "批".into() },
    )
    .starts_with("batch_sentence p7 s1"));
    assert!(describe_turn(
        &TurnEvent::BatchParagraph { paragraph_id: 7, text: "整段".into() },
    )
    .starts_with("batch_paragraph p7"));
    assert!(describe_turn(
        &TurnEvent::SentenceCalibration {
            paragraph_id: 7,
            sentence_id: 2,
            calibrated: "整流".into(),
            route_us: 850_400,
        },
    )
    .starts_with("sentence_calibration p7 s2 850ms"));
    assert!(describe_turn(
        &TurnEvent::ParagraphCalibration {
            paragraph_id: 7,
            calibrated: "定稿".into(),
            route_us: 1_234_000,
        },
    )
    .starts_with("paragraph_calibration p7 1234ms"));
}

#[test]
fn quotes_are_escaped_in_a_description() {
    let s = describe_turn(
        &TurnEvent::BatchParagraph { paragraph_id: 7, text: "a\"b\n".into() },
    );
    assert!(s.ends_with(r#""a\"b\n""#), "{s}");
}

fn spec(asr: AsrSpec) -> PipelineSpec {
    PipelineSpec {
        scout_addr: "127.0.0.1:7878".into(),
        scout_chunk_ms: None,
        hotwords: vec!["Rust".into()],
        vad: VadSpec::default(),
        stream: StreamSpec { model: "zipformer".into() },
        asr,
        llm: LlmSpec::Remote {
            endpoint: "http://127.0.0.1:8080".into(),
            model: "test-model".into(),
        },
        llm_input: LlmInput::Batch,
    }
}

fn local(backend: &str) -> AsrSpec {
    AsrSpec::Local {
        backend: backend.into(),
        language: "auto".into(),
        hardware: "cpu".into(),
        threads: 8,
        model_dir: None,
    }
}

fn config(s: &PipelineSpec) -> Stage1Config {
    stage1_config(s, true, true, false).unwrap_or_else(|e| panic!("{}", e.message))
}

fn refused(s: &PipelineSpec) -> bool {
    stage1_config(s, true, true, false).is_err()
}

fn check_stage1_config_selects_backend_per_spec() {
    let cfg = config(&spec(AsrSpec::Remote {
        endpoint: "http://127.0.0.1:8000".into(),
        model: "x".into(),
    }));
    assert!(matches!(cfg.asr_kind, ProviderKind::Remote { .. }));
    assert!(cfg.batch_enabled, "remote batch stays on");

    assert!(refused(&spec(local("whisper"))));
    assert!(refused(&spec(local("qwen3-asr"))));

    let cfg = config(&spec(local("sensevoice")));
    assert!(cfg.asr.model.as_str().contains("sensevoice"));
    assert_eq!(cfg.asr.provider.as_deref(), Some("cpu"));
    assert_eq!(cfg.asr.num_threads, Some(8));
}

fn check_stage2_disabled_is_pass_through_without_any_llm() {
    let mut s = spec(local("sensevoice"));
    s.llm = LlmSpec::Disabled;
    assert!(stage2_endpoint(&s).is_none(), "no model at all");
    let mut s2: Calibration<CountingLlm> =
        stage2_calibrator(None, Vec::new(), Vec::new(), s.llm_input);
    let sentences = vec![
        VadSentence {
            id: 1,
            audio_id: 1,
            start_us: 0,
            end_us: 1_000_000,
            streaming_text: "流式一".into(),
            batch_text: Some("批式一".into()),
        },
        VadSentence {
            id: 2,
            audio_id: 2,
            start_us: 1_500_000,
            end_us: 2_500_000,
            streaming_text: "流式二".into(),
            batch_text: None,
        },
    ];
    assert_eq!(s2.calibrate_paragraph(1, &sentences), "批式一流式二");
    let win = VadParagraph {
        id: 1,
        sentences,
        start_us: 0,
        end_us: 2_500_000,
        streaming_text: "流式一流式二".into(),
        batch_text: Some("段落批式".into()),
        pcm: Arc::new(vec![0i16; 1600]),
        batch_asr_ms: 0,
    };
    assert_eq!(s2.finalize_paragraph(&win), "段落批式", "the paragraph's own pass first");
}

fn check_stage1_config_selects_stream_engine() {
    let mut s = spec(local("sensevoice"));
    s.stream.model = "x-asr".into();
    let cfg = config(&s);
    assert!(cfg.streaming.encoder.as_str().ends_with("x-asr/encoder-480ms.onnx"));
    assert!(cfg.streaming.bpe_vocab.as_str().ends_with("x-asr/bpe.vocab"));
    assert_eq!(cfg.streaming.hotwords, vec!["Rust".to_string()]);
}

fn check_stage1_config_disabled_batch_and_unknown_stream_rejected() {
    let cfg = config(&spec(AsrSpec::Disabled));
    assert!(!cfg.batch_enabled);
    assert!(matches!(cfg.asr_kind, ProviderKind::Local));

    let mut s = spec(local("sensevoice"));
    s.stream.model = "bogus".into();
    assert!(refused(&s));
}

fn check_stage1_config_applies_vad_hotwords_and_active() {
    let mut s = spec(local("sensevoice"));
    s.vad.threshold_milli = 600;
    s.vad.merge_gap_us = 2_500_000;
    let cfg = stage1_config(&s, false, true, false).unwrap_or_else(|e| panic!("{}", e.message));
    assert_eq!(cfg.vad.threshold_milli, 600);
    assert_eq!(cfg.merge_gap_us, 2_500_000);
    assert_eq!(cfg.streaming.hotwords, vec!["Rust".to_string()]);
    assert!(!cfg.active);
}

fn check_stage1_config_rebases_paths_under_model_dir() {
    let mut s = spec(local("sensevoice"));
    if let AsrSpec::Local { model_dir, .. } = &mut s.asr {
        *model_dir = Some("/custom/models".into());
    }
    let cfg = config(&s);
    assert!(cfg.vad.model.as_str().starts_with("/custom/models/silero-vad/"));
    assert!(cfg.asr.model.as_str().starts_with("/custom/models/sensevoice/"));

    let mut s = spec(local("whisper"));
    if let AsrSpec::Local { model_dir, .. } = &mut s.asr {
        *model_dir = Some("/m".into());
    }
    assert!(refused(&s));
}

fn check_vad_spec_defaults_match_stage1_config() {
    let d = VadSpec::default();
    let cfg = Stage1Config::new("x");
    assert_eq!(d.threshold_milli, cfg.vad.threshold_milli);
    assert_eq!(d.min_silence_us, cfg.vad.min_silence_us);
    assert_eq!(d.min_speech_us, cfg.vad.min_speech_us);
    assert_eq!(d.max_speech_us, cfg.vad.max_speech_us);
    assert_eq!(d.edge_margin_us, cfg.vad.edge_margin_us);
    assert_eq!(d.merge_gap_us, cfg.merge_gap_us);
}

#[test]
fn pipeline_stage1_config_selects_backend_per_spec() {
    check_stage1_config_selects_backend_per_spec();
}

#[test]
fn loops_stage1_config_selects_backend_per_spec() {
    check_stage1_config_selects_backend_per_spec();
}

#[test]
fn pipeline_stage2_disabled_is_pass_through_without_any_llm() {
    check_stage2_disabled_is_pass_through_without_any_llm();
}

#[test]
fn loops_stage2_disabled_is_pass_through_without_any_llm() {
    check_stage2_disabled_is_pass_through_without_any_llm();
}

#[test]
fn pipeline_stage1_config_selects_stream_engine() {
    check_stage1_config_selects_stream_engine();
}

#[test]
fn loops_stage1_config_selects_stream_engine() {
    check_stage1_config_selects_stream_engine();
}

#[test]
fn pipeline_stage1_config_disabled_batch_and_unknown_stream_rejected() {
    check_stage1_config_disabled_batch_and_unknown_stream_rejected();
}

#[test]
fn loops_stage1_config_disabled_batch_and_unknown_stream_rejected() {
    check_stage1_config_disabled_batch_and_unknown_stream_rejected();
}

#[test]
fn pipeline_stage1_config_applies_vad_hotwords_and_active() {
    check_stage1_config_applies_vad_hotwords_and_active();
}

#[test]
fn loops_stage1_config_applies_vad_hotwords_and_active() {
    check_stage1_config_applies_vad_hotwords_and_active();
}

#[test]
fn pipeline_stage1_config_rebases_paths_under_model_dir() {
    check_stage1_config_rebases_paths_under_model_dir();
}

#[test]
fn loops_stage1_config_rebases_paths_under_model_dir() {
    check_stage1_config_rebases_paths_under_model_dir();
}

#[test]
fn pipeline_vad_spec_defaults_match_stage1_config() {
    check_vad_spec_defaults_match_stage1_config();
}

#[test]
fn loops_vad_spec_defaults_match_stage1_config() {
    check_vad_spec_defaults_match_stage1_config();
}

#[test]
fn the_batch_backend_follows_the_configuration() {
    assert!(matches!(batch_backend(&config(&spec(AsrSpec::Disabled))), BatchBackend::Disabled));
    assert!(matches!(batch_backend(&config(&spec(local("sensevoice")))), BatchBackend::Local));
    let remote = spec(AsrSpec::Remote { endpoint: "http://h:1".into(), model: "x".into() });
    match batch_backend(&config(&remote)) {
        BatchBackend::Remote(asr) => {
            assert_eq!(asr.remote.endpoint, "http://h:1");
            assert_eq!(asr.remote.model, "x");
            assert_eq!(asr.kind(), "remote-http");
        }
        _ => panic!("expected a remote backend"),
    }
    assert_eq!(DisabledAsr.recognize(&[1], 16000).unwrap_or("?".into()), "", "hears nothing");
}

#[test]
fn kinds_are_named() {
    assert_eq!(local("sensevoice").kind(), "local");
    assert_eq!(AsrSpec::Disabled.kind(), "disabled");
    assert_eq!(LlmSpec::Disabled.kind(), "disabled");
    let s = spec(local("sensevoice"));
    assert_eq!(s.llm.kind(), "remote");
    let llm = stage2_endpoint(&s).unwrap_or_else(|| panic!("a model"));
    assert_eq!(llm.remote.endpoint, "http://127.0.0.1:8080");
    assert_eq!(llm.remote.model, "test-model");
}

#[test]
fn models_lie_under_the_given_directory() {
    match resolve_model(&Some("/m".into()), "a/b.onnx") {
        ModelPath::File(p) => assert_eq!(p, "/m/a/b.onnx"),
        ModelPath::Shared(_) => panic!("a directory was given"),
    }
    match resolve_model(&None, "a/b.onnx") {
        ModelPath::Shared(p) => assert_eq!(p, "a/b.onnx"),
        ModelPath::File(_) => panic!("no directory was given"),
    }
}

#[test]
fn a_blank_or_failed_pass_is_no_text() {
    assert_eq!(surface_asr(Ok(" 好 ".into())), Some(" 好 ".to_string()));
    assert_eq!(surface_asr(Ok(" \n".into())), None);
    assert_eq!(surface_asr(Err(ProviderError { message: "x".into() })), None);
    assert_eq!(recognize_once(&DisabledAsr, &[0; 4], 16000), None);
    let (outcome, event) = sentence_done(1, 2, None, 9);
    assert!(event.is_none());
    assert_eq!((outcome.sentence_id, outcome.batch_text, outcome.asr_ms), (2, None, 9));
}

#[test]
fn a_late_pass_leaves_the_texts_of_the_sentences() {
    let two = vec![tsent(1, Some("一")), tsent(2, None)];
    let mut c = Completion::new(tpar(4, two), 0, false);
    assert!(c.stage() == Stage::Rerun);
    assert!(c.on_rerun(Rerun::TimedOut).is_none());
    assert_eq!(c.paragraph().best_text(), "一流式2");
    assert_eq!(c.paragraph().batch_asr_ms, 0);
    let mut p = tpar(4, vec![tsent(1, Some("一"))]);
    p.pcm = Arc::new(vec![3; 1601]);
    p.start_us = 77;
    let (record, _) = Completion::new(p, 0, false).finish("好".into(), 12);
    assert_eq!((record.seq, record.at_us, record.route_us), (4, 77, 12));
    assert_eq!(record.duration_us, 100_062, "62.5 for each sample, cut to whole ones");
    assert_eq!(record.raw_text, "一");
    assert_eq!(record.calibrated, "好");
    assert_eq!(record.pcm.len(), 1601);
}

#[test]
fn an_outcome_fills_its_own_sentence_only() {
    let mut c = Completion::new(tpar(1, vec![tsent(1, None), tsent(2, Some("旧"))]), 3, true);
    let outcome = |sentence_id, text: &str| {
        Some(SentenceOutcome { sentence_id, batch_text: Some(text.into()), asr_ms: 1 })
    };
    assert!(c.stage() == Stage::Sentences(3));
    c.on_outcome(outcome(1, "新"));
    c.on_outcome(outcome(9, "无"));
    assert!(c.stage() == Stage::Sentences(1));
    c.on_outcome(None);
    assert!(c.stage() == Stage::Live, "the calibrations on the way come before the whole");
    c.on_live();
    assert!(c.stage() == Stage::Rerun);
    assert!(matches!(c.on_rerun(whole("整")), Some(TurnEvent::BatchParagraph { .. })));
    assert!(c.stage() == Stage::Calibration);
    assert_eq!(c.paragraph().best_text(), "整");
    let texts: Vec<Option<String>> = c.paragraph().sentences.iter().map(|s| s.batch_text.clone()).collect();
    assert_eq!(texts, vec![Some("新".to_string()), Some("旧".to_string())]);
    assert_eq!(c.audio().len(), 0);
}

#[test]
fn lines_and_messages_take_their_quoted_text_as_it_is() {
    let ev = TurnEvent::StreamFragment {
        paragraph_id: 3,
        sentence_id: 4,
        text: "ignored".to_string(),
        at_us: 1_500_000,
    };
    assert_eq!(write_turn_line(&ev, "\"好\""), "stream p3 s4 @1.50 \"好\"");
    let closed = TurnEvent::ParagraphClosed { paragraph_id: 3 };
    assert_eq!(write_turn_line(&closed, "-"), "paragraph_closed p3");
    assert_eq!(
        engine_error("\"foo\"").message,
        "unsupported streaming engine \"foo\" (supported: \"zipformer\" | \"x-asr\")"
    );
}

#[test]
fn figures_are_written_as_floats_are() {
    for us in [0, 1, 4_999, 5_001, 12_346_000, 99_996_000, 3_600_000_000, -1, -1_239_000, i64::MIN] {
        assert_eq!(write_seconds(us), format!("{:.2}", us as f64 / 1e6));
    }
    for us in [125_000, 375_000, 625_000, 875_000, 1_125_000, -125_000] {
        assert_eq!(write_seconds(us), format!("{:.2}", us as f64 / 1e6), "half a hundredth");
    }
    for us in [0, 499, 500, 501, 1_499, 1_500, 2_500, 850_400, 850_500, 1_234_000] {
        assert_eq!(write_millis(us), format!("{:.0}", us as f64 / 1e3));
    }
    assert_eq!(write_seconds(12_345_000), "12.35");
    assert_eq!(write_millis(u64::MAX), "18446744073709552");
}
