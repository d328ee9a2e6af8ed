//! Providers over HTTP: what is asked, and how a model is brought online.

use audio_aura::models::http::{
    derive_base_url, first_choice, judge_load, judge_snapshot, url, write_chat_body,
    write_load_body, write_vision_body, AdminModel, AdminStatus, Circuit, HttpAsr, HttpLlm,
    HttpVlm, WarmError, WarmOptions, WarmOutcome, WarmStep,
};
use audio_aura::models::config::ProviderKind;
use audio_aura::models::{
    AsrProvider, AsyncAsr, AsyncLlm, LlmProvider, ModelProvider, ProviderError,
};
use serde_json::Value;

#[test]
fn url_trims_trailing_slash() {
    assert_eq!(url("http://h:8000/", "/v1/"), "http://h:8000/v1/");
    assert_eq!(url("http://h:8000", "/v1/"), "http://h:8000/v1/");
}

#[test]
fn derive_base_url_handles_suffixes() {
    assert_eq!(derive_base_url("http://h:8080"), "http://h:8080");
    assert_eq!(derive_base_url("http://h:8080/"), "http://h:8080");
    assert_eq!(derive_base_url("http://h:8080/v1"), "http://h:8080");
    assert_eq!(derive_base_url("http://h:8080/v1/"), "http://h:8080");
    assert_eq!(derive_base_url("http://h:8080/admin"), "http://h:8080/admin");
}

fn status(json: &str) -> AdminStatus {
    AdminStatus::from_word(&serde_json::from_str::<String>(json).unwrap())
}

#[test]
fn admin_status_parses_all_kinds() {
    assert!(status("\"online\"") == AdminStatus::Online);
    assert!(status("\"offline\"") == AdminStatus::Offline);
    assert!(status("\"starting\"") == AdminStatus::Starting);
    assert!(status("\"warming\"") == AdminStatus::Unknown);
}

fn model_of(v: &Value) -> AdminModel {
    AdminModel {
        name: v["name"].as_str().unwrap().to_string(),
        status: v["status"].as_str().map_or(AdminStatus::default(), AdminStatus::from_word),
    }
}

#[test]
fn admin_model_with_default_status() {
    let m = model_of(&serde_json::from_str("{\"name\": \"q\"}").unwrap());
    assert_eq!(m.name, "q");
    assert!(m.status == AdminStatus::Unknown);
}

fn models_of(body: &str) -> Vec<AdminModel> {
    let v: Value = serde_json::from_str(body).unwrap();
    v["models"].as_array().unwrap().iter().map(model_of).collect()
}

/// A router's answers: the first look at the table, further looks, and the request to load.
struct Router {
    first: (u16, String),
    later: (u16, String),
    load: (u16, String),
    gets: usize,
    loads: usize,
}

impl Router {
    fn new(first: (u16, String), later: (u16, String), load: (u16, String)) -> Self {
        Router { first, later, load, gets: 0, loads: 0 }
    }

    fn get(&mut self) -> (u16, String) {
        self.gets += 1;
        if self.gets == 1 {
            self.first.clone()
        } else {
            self.later.clone()
        }
    }

    fn post(&mut self) -> (u16, String) {
        self.loads += 1;
        self.load.clone()
    }
}

/// Brings the model online against such a router, on a clock of its own.
fn warm(
    llm: &HttpLlm,
    opts: Option<WarmOptions>,
    router: &mut Router,
) -> Result<WarmOutcome, WarmError> {
    let mut now: u64 = 1_000;
    let mut w = match opts {
        Some(o) => llm.warm_with_options(o, now),
        None => llm.warm(now),
    };
    let (code, body) = router.get();
    judge_snapshot(&llm.snapshot_url(), &llm.remote.endpoint, code, &body)?;
    let mut step = w.on_first(&models_of(&body), now);
    loop {
        step = match step {
            WarmStep::Done(out) => return Ok(out),
            WarmStep::Failed(e) => return Err(e),
            WarmStep::TriggerLoad => {
                let (code, body) = router.post();
                judge_load(&llm.load_request().url, &llm.remote.model, code, &body)?;
                w.on_triggered(now)
            }
            WarmStep::Sleep(ms) => {
                now += ms * 1_000;
                w.on_wake(now)
            }
            WarmStep::Poll => {
                let (code, body) = router.get();
                judge_snapshot(&llm.snapshot_url(), &llm.remote.endpoint, code, &body)?;
                w.on_poll(&models_of(&body), now)
            }
        };
    }
}

fn snapshot_with(name: &str, status: &str) -> (u16, String) {
    let body = format!(
        "{{\"router\":\"dp-router\",\"upstream_enabled\":false,\"models\":[{{\"name\":\"{name}\",\
         \"gguf\":\"/x\",\"port\":18001,\"status\":\"{status}\",\"restarts\":0}}]}}"
    );
    (200, body)
}

fn snapshot_empty() -> (u16, String) {
    let body = "{\"router\":\"dp-router\",\"upstream_enabled\":false,\"models\":[]}";
    (200, body.to_string())
}

fn quick(load_timeout_s: u64) -> Option<WarmOptions> {
    Some(WarmOptions { poll_interval_ms: 50, load_timeout_s })
}

#[test]
fn warm_returns_already_online_when_present() {
    let online = snapshot_with("qwen2.5-3b", "online");
    let mut router = Router::new(online.clone(), online, (500, String::new()));
    let llm = HttpLlm::new("http://127.0.0.1:9", "qwen2.5-3b");
    let out = warm(&llm, None, &mut router).unwrap_or_else(|e| panic!("{}", e.message()));
    assert!(out.already_online);
    assert!(!out.load_triggered);
    assert_eq!((router.gets, router.loads), (1, 0));
}

#[test]
fn warm_triggers_load_then_polls_until_online() {
    let mut router = Router::new(
        snapshot_empty(),
        snapshot_with("qwen2.5-3b", "online"),
        (202, "{\"name\":\"qwen2.5-3b\",\"status\":\"starting\"}".to_string()),
    );
    let llm = HttpLlm::new("http://127.0.0.1:9", "qwen2.5-3b");
    let out = warm(&llm, quick(5), &mut router).unwrap_or_else(|e| panic!("{}", e.message()));
    assert!(!out.already_online);
    assert!(out.load_triggered);
    assert!(out.elapsed_ms < 5_000);
    assert_eq!(router.loads, 1);
    assert_eq!(out.elapsed_ms, 50, "one interval");
}

#[test]
fn warm_returns_model_not_found_on_404_load() {
    let load = (404, "{\"error\":\"gguf not found\",\"name\":\"ghost-99b\"}".to_string());
    let mut router = Router::new(snapshot_empty(), snapshot_empty(), load);
    let llm = HttpLlm::new("http://127.0.0.1:9", "ghost-99b");
    let err = warm(&llm, None, &mut router).err().unwrap_or_else(|| panic!("not there"));
    assert!(matches!(err, WarmError::ModelNotFound(ref m) if m == "ghost-99b"));
}

#[test]
fn warm_returns_load_timeout_when_never_online() {
    let load = (202, "{\"name\":\"slow\",\"status\":\"starting\"}".to_string());
    let mut router = Router::new(snapshot_empty(), snapshot_empty(), load);
    let llm = HttpLlm::new("http://127.0.0.1:9", "slow");
    let err = warm(&llm, quick(1), &mut router).err().unwrap_or_else(|| panic!("too slow"));
    assert!(matches!(err, WarmError::LoadTimeout(1)));
}

#[test]
fn warm_returns_load_failed_when_server_marks_offline() {
    let offline = snapshot_with("broken", "offline");
    let mut router = Router::new(offline.clone(), offline, (202, String::new()));
    let llm = HttpLlm::new("http://127.0.0.1:9", "broken");
    let err = warm(&llm, quick(5), &mut router).err().unwrap_or_else(|| panic!("offline"));
    match err {
        WarmError::LoadFailed { model, .. } => assert_eq!(model, "broken"),
        other => panic!("expected LoadFailed, got {}", other.message()),
    }
}

#[test]
fn warm_errors_when_endpoint_is_not_dp_router() {
    let none = (404, String::new());
    let mut router = Router::new(none.clone(), none.clone(), none);
    let llm = HttpLlm::new("http://127.0.0.1:9", "any");
    let err = warm(&llm, None, &mut router).err().unwrap_or_else(|| panic!("no router"));
    assert!(matches!(err, WarmError::NotDpRouter(_)));
}

#[test]
fn a_router_in_trouble_is_quoted() {
    let broken = (503, "busy".to_string());
    let mut router = Router::new(broken.clone(), broken.clone(), broken.clone());
    let llm = HttpLlm::new("http://h:1/v1", "m");
    match warm(&llm, None, &mut router) {
        Err(WarmError::RouterError { path, status, body }) => {
            assert_eq!((path.as_str(), status, body.as_str()), ("http://h:1/admin/models", 503, "busy"));
        }
        _ => panic!("expected the router's error"),
    }
    let mut router = Router::new(snapshot_empty(), snapshot_empty(), broken);
    assert!(matches!(warm(&llm, None, &mut router), Err(WarmError::RouterError { .. })));
    assert_eq!(llm.snapshot_url(), "http://h:1/admin/models");
    let load = llm.load_request();
    assert_eq!(load.url, "http://h:1/admin/models/load");
    let v: Value = serde_json::from_str(&load.body).unwrap();
    assert_eq!(v["name"], "m");
}

#[test]
fn the_usual_patience_is_a_minute() {
    let o = WarmOptions::default();
    assert_eq!((o.poll_interval_ms, o.load_timeout_s), (500, 60));
    assert!(WarmError::LoadTimeout(60).message().contains("60"));
    assert!(WarmError::ModelNotFound("q".into()).message().contains('q'));
}

#[test]
fn providers_identify_their_kind() {
    assert_eq!(HttpAsr::new("http://x", "m").kind(), "remote-http");
    assert_eq!(HttpLlm::new("http://x", "m").kind(), "remote-http");
    assert_eq!(HttpVlm::new("http://x", "m").kind(), "remote-http");
}

#[test]
fn the_fuse_opens_for_a_second() {
    let mut c = Circuit::default();
    assert!(!c.is_open(0));
    c.trip(10);
    assert!(c.is_open(10) && c.is_open(1_000_009));
    assert!(!c.is_open(1_000_010));
    c.reset();
    assert!(!c.is_open(10));
    c.record(false, 50);
    assert!(c.is_open(60));
    c.record(true, 70);
    assert!(!c.is_open(70));
}

#[test]
fn a_blown_fuse_refuses_at_once() {
    let mut asr = HttpAsr::with_timeout("http://x", "m", 77);
    assert_eq!(asr.remote.timeout_ms, 77);
    assert!(asr.gate(5).is_ok());
    asr.remote.circuit.trip(5);
    assert!(asr.gate(6).is_err());
    assert!(asr.gate(2_000_000).is_ok());
    let mut llm = HttpLlm::new("http://x", "m");
    assert_eq!(llm.remote.timeout_ms, 10_000);
    llm.remote.circuit.trip(5);
    assert!(llm.gate(6).is_err());
    let vlm = HttpVlm::new("http://x", "m");
    assert!(vlm.gate(6).is_ok());
}

#[test]
fn a_chat_is_asked_in_two_messages() {
    let q = HttpLlm::new("http://x/", "m\"1").request("系统\n", "用户\"");
    assert_eq!(q.url, "http://x/v1/chat/completions");
    let v: Value = serde_json::from_str(&q.body).unwrap();
    assert_eq!(v["model"], "m\"1");
    assert_eq!(v["messages"][0]["role"], "system");
    assert_eq!(v["messages"][0]["content"], "系统\n");
    assert_eq!(v["messages"][1]["role"], "user");
    assert_eq!(v["messages"][1]["content"], "用户\"");
}

#[test]
fn a_picture_goes_along_as_base64() {
    let q = HttpVlm::new("http://x", "m").request("s", "u", &[1, 2, 3, 255]);
    let v: Value = serde_json::from_str(&q.body).unwrap();
    assert!(q.body.contains("data:image/png;base64,AQID/w=="), "{}", q.body);
    assert_eq!(v["model"], "m");
}

#[test]
fn a_recording_goes_along_as_a_wav_file() {
    let q = HttpAsr::new("http://x", "m").request(&[1, 2, 3], 16000);
    assert_eq!(q.url, "http://x/v1/audio/transcriptions");
    assert_eq!((q.model.as_str(), q.mime.as_str()), ("m", "audio/wav"));
    assert_eq!(&q.wav[..4], b"RIFF");
    assert_eq!(q.wav.len(), 44 + 6);
    assert!(q.file_name.ends_with(".wav"));
}

#[test]
fn the_first_choice_counts() {
    assert_eq!(first_choice(vec!["a".into(), "b".into()]).unwrap_or_default(), "a");
    assert!(first_choice(vec![]).is_err());
}

#[test]
fn a_provider_is_local_unless_said_otherwise() {
    let p = ProviderKind::default();
    assert!(!p.is_remote() && p.endpoint().is_none());
    let p = ProviderKind::Remote { endpoint: "http://x".into() };
    assert!(p.is_remote());
    assert_eq!(p.endpoint(), Some("http://x"));
}

struct Said(&'static str);

impl AsrProvider for Said {
    fn recognize(&self, _pcm: &[i16], _sample_rate: u32) -> Result<String, ProviderError> {
        Ok(self.0.to_string())
    }
}

impl LlmProvider for Said {
    fn complete(&self, _system: &str, _user: &str) -> Result<String, ProviderError> {
        Ok(self.0.to_string())
    }
}

#[test]
fn either_kind_of_provider_answers() {
    let a: AsyncAsr<Said, Said> = AsyncAsr::Http(Said("h"));
    assert_eq!(a.recognize_sync(&[], 16000).unwrap_or_default(), "h");
    let a: AsyncAsr<Said, Said> = AsyncAsr::Blocking(Said("b"));
    assert_eq!(a.recognize_sync(&[], 16000).unwrap_or_default(), "b");
    let l: AsyncLlm<Said, Said> = AsyncLlm::Http(Said("h"));
    assert_eq!(l.complete_sync("", "").unwrap_or_default(), "h");
    let l: AsyncLlm<Said, Said> = AsyncLlm::Blocking(Said("b"));
    assert_eq!(l.complete_sync("", "").unwrap_or_default(), "b");
}

#[test]
fn bodies_are_json_around_their_literals() {
    let chat: Value = serde_json::from_str(&write_chat_body("\"m\"", "\"s\"", "\"u\"")).unwrap();
    assert_eq!(chat["model"], "m");
    assert_eq!(chat["messages"][0]["role"], "system");
    assert_eq!(chat["messages"][0]["content"], "s");
    assert_eq!(chat["messages"][1]["role"], "user");
    assert_eq!(chat["messages"][1]["content"], "u");

    let body = write_vision_body("\"m\"", "\"s\"", "\"u\"", "\"data:x\"");
    let vision: Value = serde_json::from_str(&body).unwrap();
    assert_eq!(vision["messages"][1]["content"][0]["type"], "text");
    assert_eq!(vision["messages"][1]["content"][0]["text"], "u");
    assert_eq!(vision["messages"][1]["content"][1]["type"], "image_url");
    assert_eq!(vision["messages"][1]["content"][1]["image_url"]["url"], "data:x");

    assert_eq!(write_load_body("\"m\""), "{\"name\":\"m\"}");
}
