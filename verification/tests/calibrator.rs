//! Calibration of paragraphs and of single utterances.

use std::sync::{Arc, Mutex};

use audio_aura::calibrator::{
    calibrate_once, calibration_request, joint_request, utterance_request, Calibrator, LlmInput,
    PassThroughCalibrator, Stage2Calibrator, Stage2CalibratorImpl,
};
use audio_aura::context::ContextWindow;
use audio_aura::models::{LlmProvider, ProviderError};
use audio_aura::router::calibrator::{route_request, RouterStage2Calibrator, Utterance};
use audio_aura::types::{ParagraphId, SentenceId, VadParagraph, VadSentence};

struct CountingLlm(Arc<Mutex<usize>>);

impl LlmProvider for CountingLlm {
    fn complete(&self, _system: &str, _user: &str) -> Result<String, ProviderError> {
        *self.0.lock().unwrap() += 1;
        Ok("整流OK".into())
    }
}

struct CapturingLlm(Arc<Mutex<Option<String>>>);

impl LlmProvider for CapturingLlm {
    fn complete(&self, _system: &str, user: &str) -> Result<String, ProviderError> {
        *self.0.lock().unwrap() = Some(user.to_string());
        Ok("整流OK".into())
    }
}

struct BrokenLlm;

impl LlmProvider for BrokenLlm {
    fn complete(&self, _system: &str, _user: &str) -> Result<String, ProviderError> {
        Err(ProviderError { message: "down".into() })
    }
}

struct Answering(&'static str);

impl LlmProvider for Answering {
    fn complete(&self, _system: &str, _user: &str) -> Result<String, ProviderError> {
        Ok(self.0.to_string())
    }
}

fn sentence(id: SentenceId) -> VadSentence {
    VadSentence {
        id,
        audio_id: id,
        start_us: 0,
        end_us: 100_000,
        streaming_text: format!("流式{id}"),
        batch_text: Some(format!("句{id}")),
    }
}

fn paragraph(id: ParagraphId) -> VadParagraph {
    VadParagraph {
        id,
        sentences: vec![sentence(1), sentence(2)],
        start_us: 0,
        end_us: 1_000_000,
        streaming_text: "拼接".into(),
        batch_text: Some("段落批式".into()),
        pcm: Arc::new(Vec::new()),
        batch_asr_ms: 0,
    }
}

fn s2() -> (Stage2CalibratorImpl<CountingLlm>, Arc<Mutex<usize>>) {
    let calls = Arc::new(Mutex::new(0));
    let s = Stage2CalibratorImpl::new(
        CountingLlm(Arc::clone(&calls)),
        Vec::new(),
        Vec::new(),
        LlmInput::Batch,
    );
    (s, calls)
}

fn s2_with_input(
    input: LlmInput,
) -> (Stage2CalibratorImpl<CapturingLlm>, Arc<Mutex<Option<String>>>) {
    let user = Arc::new(Mutex::new(None));
    let s = Stage2CalibratorImpl::new(
        CapturingLlm(Arc::clone(&user)),
        Vec::new(),
        Vec::new(),
        input,
    );
    (s, user)
}

#[test]
fn llm_input_selects_source_text() {
    let sentences = vec![sentence(1), sentence(2)];

    let (mut s, user) = s2_with_input(LlmInput::Batch);
    s.calibrate_paragraph(1, &sentences);
    let u = user.lock().unwrap().clone().unwrap();
    assert!(u.contains("句1") && u.contains("句2"), "batch texts: {u}");
    assert!(!u.contains("流式1"), "no streaming text");
    assert!(!u.contains("secondary_transcript"), "one transcript");

    let (mut s, user) = s2_with_input(LlmInput::Stream);
    s.calibrate_paragraph(1, &sentences);
    let u = user.lock().unwrap().clone().unwrap();
    assert!(u.contains("流式1") && u.contains("流式2"), "streaming texts: {u}");
    assert!(!u.contains("句1"), "no batch text");

    let (mut s, user) = s2_with_input(LlmInput::Both);
    s.calibrate_paragraph(1, &sentences);
    let u = user.lock().unwrap().clone().unwrap();
    assert!(u.contains("句1") && u.contains("句2"), "batch texts as the primary transcript");
    assert!(u.contains("流式1") && u.contains("流式2"), "streaming texts as the secondary one");
    assert!(u.contains("secondary_transcript"), "both transcripts");
}

#[test]
fn stateless_calibrate_and_finalize_runs_llm_independently() {
    let (mut s, calls) = s2();
    assert_eq!(s.calibrate_paragraph(7, &[sentence(1)]), "整流OK");
    assert_eq!(*calls.lock().unwrap(), 1);
    assert_eq!(s.calibrate_paragraph(7, &[sentence(1), sentence(2)]), "整流OK");
    assert_eq!(*calls.lock().unwrap(), 2, "one call each");
    assert_eq!(s.finalize_paragraph(&paragraph(7)), "整流OK");
    assert_eq!(*calls.lock().unwrap(), 3, "one call to finalize");
    assert_eq!(s.finalize_paragraph(&paragraph(7)), "整流OK");
    assert_eq!(*calls.lock().unwrap(), 4);
}

#[test]
fn finalize_empty_paragraph_is_zero_llm() {
    let (mut s, calls) = s2();
    let mut p = paragraph(7);
    p.sentences.clear();
    assert_eq!(s.finalize_paragraph(&p), "", "nothing to calibrate");
    assert_eq!(*calls.lock().unwrap(), 0, "no call");
}

fn empty_sentence(id: SentenceId) -> VadSentence {
    VadSentence {
        id,
        audio_id: id,
        start_us: 0,
        end_us: 100_000,
        streaming_text: String::new(),
        batch_text: None,
    }
}

#[test]
fn gate_no_llm_when_stream_and_batch_both_empty() {
    let (mut s, calls) = s2();
    let empty = vec![empty_sentence(1), empty_sentence(2)];
    assert_eq!(s.calibrate_paragraph(7, &empty), "");
    assert_eq!(*calls.lock().unwrap(), 0, "no call on the way");
    let mut p = paragraph(7);
    p.sentences = empty.clone();
    p.batch_text = None;
    assert_eq!(s.finalize_paragraph(&p), "");
    assert_eq!(*calls.lock().unwrap(), 0, "no call at the end");
}

#[test]
fn gate_passes_when_either_stream_or_batch_has_output() {
    let (mut s, calls) = s2();
    let mut only_batch = empty_sentence(1);
    only_batch.batch_text = Some("只有批式".into());
    assert_eq!(s.calibrate_paragraph(7, &[only_batch]), "整流OK");
    assert_eq!(*calls.lock().unwrap(), 1);
    let (mut s, calls) = s2();
    let mut only_stream = empty_sentence(2);
    only_stream.streaming_text = "只有流式".into();
    assert_eq!(s.calibrate_paragraph(7, &[only_stream]), "整流OK");
    assert_eq!(*calls.lock().unwrap(), 1);
}

#[test]
fn shared_hotword_store_visible_to_both() {
    let store: Arc<Mutex<Vec<String>>> = Arc::new(Mutex::new(vec!["Rust".into()]));
    let reader = Arc::clone(&store);
    store.lock().unwrap().push("Bevy".into());
    assert_eq!(*reader.lock().unwrap(), vec!["Rust".to_string(), "Bevy".to_string()]);

    // The words that one side adds reach the next request of the other.
    let mut router = RouterStage2Calibrator::new(Answering(""), vec!["Rust".into()]);
    router.set_hotwords(&reader.lock().unwrap());
    let (system, _) = router.request(&utterance("嗯"));
    assert!(system.contains("Rust") && system.contains("Bevy"));
}

#[test]
fn calibrator_shared_hotword_store_visible_to_both() {
    let store: Arc<Mutex<Vec<String>>> = Arc::new(Mutex::new(vec!["Rust".into()]));
    let reader = Arc::clone(&store);
    store.lock().unwrap().push("Bevy".into());
    assert_eq!(*reader.lock().unwrap(), vec!["Rust".to_string(), "Bevy".to_string()]);
}

fn utterance(raw: &str) -> Utterance {
    Utterance {
        seq: 1,
        raw_text: raw.into(),
        streaming_text: String::new(),
        duration_us: 1_000_000,
        at_us: 1_000_000,
    }
}

#[test]
fn route_text_falls_back_to_streaming() {
    let mut u = utterance("real text");
    u.raw_text = "   ".into();
    u.streaming_text = "stream fallback".into();
    assert_eq!(u.route_text(), "stream fallback");
}

#[test]
fn route_text_prefers_the_batch_text() {
    let mut u = utterance("real text");
    u.streaming_text = "stream".into();
    assert_eq!(u.route_text(), "real text");
}

#[test]
fn context_window_rolls_pairs() {
    let mut w = ContextWindow::new(2);
    w.push("rost语言", "Rust语言", "task");
    w.push("B位引擎", "Bevy引擎", "task");
    let pairs = w.as_pairs();
    assert!(pairs.contains("rost语言") && pairs.contains("Rust语言"));
}

#[test]
fn a_failed_model_leaves_the_words_as_they_are() {
    let mut s = Stage2CalibratorImpl::new(BrokenLlm, Vec::new(), Vec::new(), LlmInput::Batch);
    assert_eq!(s.calibrate_paragraph(1, &[sentence(1), sentence(2)]), "句1句2");
}

#[test]
fn pass_through_keeps_the_best_texts() {
    let mut p = PassThroughCalibrator;
    assert_eq!(p.calibrate_paragraph(1, &[sentence(1), sentence(2)]), "句1句2");
    assert_eq!(p.finalize_paragraph(&paragraph(1)), "段落批式");
}

#[test]
fn nothing_recognised_asks_nothing() {
    assert!(calibration_request(LlmInput::Both, &[empty_sentence(1)], &[], &[]).is_none());
    assert!(joint_request(&[], None, &[], &[]).is_none());
    let q = joint_request(&["甲", "", "乙"], None, &[], &[]).expect("two texts");
    assert_eq!(q.fallback, "甲乙");
    assert!(q.user.contains("甲\n乙"));
}

#[test]
fn corrections_reach_the_request() {
    let (mut s, user) = s2_with_input(LlmInput::Batch);
    s.set_corrections(&[("代办".to_string(), "待办".to_string())]);
    s.set_hotwords(&["Bevy".to_string()]);
    s.calibrate_paragraph(1, &[sentence(1)]);
    assert!(user.lock().unwrap().is_some());
    let q = calibration_request(
        LlmInput::Batch,
        &[sentence(1)],
        &[],
        &[("代办".to_string(), "待办".to_string())],
    )
    .unwrap();
    assert!(q.system.contains("代办") && q.system.contains("待办"));
}

#[test]
fn a_joint_calibration_answers_with_the_model() {
    let mut s =
        Stage2CalibratorImpl::new(Answering(" 好。 "), Vec::new(), Vec::new(), LlmInput::Batch);
    assert_eq!(s.joint_calibrate(&["好"], None), " 好。 ", "as the model said it");
    assert_eq!(s.joint_calibrate(&[], None), "", "nothing to ask about");
}

#[test]
fn a_single_utterance_is_asked_about_with_its_context() {
    let (system, user) = utterance_request("你好", Some("上句：开发"), &["Bevy".to_string()]);
    assert!(system.contains("上下文") && user.contains("上句：开发") && user.contains("你好"));
    let c = Calibrator::load(Answering("好")).unwrap_or_else(|_| panic!("loads"));
    assert_eq!(c.calibrate_blocking("你好", None, &[]).unwrap_or_default(), "好");
    assert_eq!(c.infer("s", "u").unwrap_or_default(), "好");
    let broken = Calibrator::load(BrokenLlm).unwrap_or_else(|_| panic!("loads"));
    match broken.calibrate_blocking("你好", None, &[]) {
        Err(e) => assert_eq!(e.message, "down"),
        Ok(_) => panic!("expected the model's error"),
    }
}

#[test]
fn routing_learns_from_what_it_said() {
    let answer = "{\"calibrated_text\":\"用 Rust 写\",\"intent\":\"task\",\"reply\":\"好的\",\
        \"task\":{\"capability\":\"write\",\"brief\":\"写\"}}";
    let mut r = RouterStage2Calibrator::new(Answering(answer), vec![]).with_context_capacity(1);
    let d = r.calibrate(&utterance("用 rost 写"));
    assert_eq!(d.calibrated_text, "用 Rust 写");
    assert_eq!(d.intent, "task");
    assert_eq!(d.reply, "好的");
    let task = d.task.expect("a task");
    assert_eq!((task.capability.as_str(), task.brief.as_str()), ("write", "写"));
    let (_, user) = r.request(&utterance("下一句"));
    assert!(user.contains("用 rost 写") && user.contains("用 Rust 写"));
    r.calibrate(&utterance("第二句"));
    let (_, user) = r.request(&utterance("第三句"));
    assert!(!user.contains("用 rost 写"), "one turn is remembered");
}

#[test]
fn a_router_that_is_down_keeps_the_words() {
    let mut r = RouterStage2Calibrator::new(BrokenLlm, vec![]);
    let d = r.calibrate(&utterance("原话"));
    assert_eq!(d.calibrated_text, "原话");
    assert_eq!(d.intent, "chat");
    assert!(d.task.is_none());
    let custom = vec![("甲".to_string(), "乙".to_string())];
    let (system, _) = route_request("x", None, &[], &Some(custom.clone()));
    assert!(system.contains("甲") && system.contains("乙"));
    let mut r = RouterStage2Calibrator::new(BrokenLlm, vec![]).with_few_shot(custom);
    r.conclude(&utterance("一"), "");
    assert!(r.request(&utterance("二")).0.contains("乙"));
    let r = RouterStage2Calibrator::new(BrokenLlm, vec![]);
    assert!(r.request(&utterance("二")).0.contains("# 示例"), "the default examples");
    let r = r.with_few_shot(vec![]);
    assert!(!r.request(&utterance("二")).0.contains("# 示例"), "switched off");
}

#[test]
fn the_router_remembers_four_turns() {
    let mut r = RouterStage2Calibrator::new(BrokenLlm, vec![]);
    for i in 1..=5 {
        r.calibrate(&utterance(&format!("第{i}句")));
    }
    let (_, user) = r.request(&utterance("现在"));
    assert!(!user.contains("第1句"));
    for i in 2..=5 {
        assert!(user.contains(&format!("第{i}句")));
    }
}

#[test]
fn a_paragraph_is_asked_about_once() {
    let sentence = |batch: &str| VadSentence {
        id: 1,
        audio_id: 1,
        start_us: 0,
        end_us: 1,
        streaming_text: " ".into(),
        batch_text: Some(batch.into()),
    };
    let mut asked = Vec::new();
    let text = calibrate_once(LlmInput::Batch, &[sentence("你好")], &[], &[], |_, user: &str| {
        asked.push(user.to_string());
        Ok("你好。".into())
    });
    assert_eq!(text, "你好。");
    assert!(matches!(asked.as_slice(), [user] if user.contains("你好")));
    let text = calibrate_once(LlmInput::Both, &[sentence(" ")], &[], &[], |_, _| {
        panic!("there is nothing to ask")
    });
    assert_eq!(text, "");
    let text = calibrate_once(LlmInput::Batch, &[sentence("你好")], &[], &[], |_, _| {
        Err(ProviderError { message: "x".into() })
    });
    assert_eq!(text, "你好");
}
