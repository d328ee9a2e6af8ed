//! Decisions, requests, the scout stream and what surrounds the voice.

use audio_aura::composer::{self, Route, WindowEvent};
use audio_aura::daemon::{
    article_brief, clean_model, ext_for, injected_request, new_title, parse_whole, place_audio,
    recording_mime, same_lower, save_audio, topic_title, turn_request, AudioError, LlmConfig, RequestError,
};
use audio_aura::decision::{extract_json, parse_decision};
use audio_aura::familiar::behavior::FsmState;
use audio_aura::familiar::canvas::Canvas;
use audio_aura::familiar::color::Color;
use audio_aura::familiar::config::Config;
use audio_aura::ingest::{
    chunk_line, chunk_size, head_line, request_text, utterance, ChunkStep, FrameCutter, HeadStep,
};
use audio_aura::report::{build_report, Row, Summary};
use audio_aura::router::decision::{object_text, parse_decision as parse_route};
use audio_aura::store::{linked_chunks_text, write_json_array};
use audio_aura::text::{
    comes_before, decimal_text, join_path, trim, trim_end_char, zero_padded_text,
};
use audio_aura::tts::{NoopTts, Tts};
use audio_aura::types::VadSentence;
use audio_aura::vad::{SpeechEvent, SpeechEventKind};

#[test]
fn noop_is_silent_and_unavailable() {
    let tts = NoopTts;
    assert!(!tts.is_available());
    assert!(tts.synthesize("hello").unwrap_or_else(|_| panic!("silent")).is_empty());
    assert_eq!(tts.sample_rate(), 16_000);
}

#[test]
fn an_object_is_found_in_a_fence_and_in_prose() {
    assert_eq!(extract_json(" ```json\n{\"a\":1}\n``` "), "{\"a\":1}");
    assert_eq!(extract_json("```{\"a\":1}```"), "{\"a\":1}");
    assert_eq!(extract_json("好的 {\"a\":{}} 完"), "{\"a\":{}}");
    assert_eq!(extract_json(" 没有 "), "没有");
    assert_eq!(extract_json("ok {\"a\":1} and {\"b\":2}"), "{\"a\":1}", "the first object");
    assert_eq!(extract_json("x {\"a\":\"}\\\"}\",\"b\":{}} }"), "{\"a\":\"}\\\"}\",\"b\":{}}");
    assert_eq!(extract_json("} {"), "} {", "no object");
    let d = parse_decision("} {", "原文");
    assert_eq!((d.calibrated_text.as_str(), d.intent.as_str(), d.reply.as_str()), ("原文", "chat", ""));
    assert!(d.task.is_none());
    let d = parse_decision("好 {\"calibrated_text\":\"甲\"} 又 {\"calibrated_text\":\"乙\"}", "原文");
    assert_eq!(d.calibrated_text, "甲");
}

#[test]
fn a_decision_is_read_field_by_field() {
    let d = parse_decision(
        "{\"calibrated_text\":\"整\",\"intent\":\"task\",\"reply\":\"好\",\
         \"task\":{\"capability\":\"write\",\"brief\":\"事\"}}",
        "原",
    );
    assert_eq!((d.calibrated_text.as_str(), d.intent.as_str()), ("整", "task"));
    assert_eq!(d.reply, "好");
    assert_eq!(d.task.map(|t| t.brief), Some("事".to_string()));
    let d = parse_decision("{\"calibrated_text\":\"\",\"task\":null}", "原");
    assert_eq!((d.calibrated_text.as_str(), d.intent.as_str(), d.reply.as_str()), ("原", "chat", ""));
    assert!(d.task.is_none());
    let d = parse_decision("{\"task\":\"write\"}", "原");
    let task = d.task.unwrap_or_else(|| panic!("not null"));
    assert_eq!((task.capability.as_str(), task.brief.as_str()), ("write", ""));
    let d = parse_decision("not json", "原");
    assert_eq!((d.calibrated_text.as_str(), d.intent.as_str()), ("原", "chat"));
}

#[test]
fn a_route_tolerates_a_flat_task() {
    let d = parse_route("{\"calibrated_text\":\" 整 \",\"intent\":\"task\",\"task\":\"write\"}", "原");
    assert_eq!(d.calibrated_text, "整");
    assert_eq!(d.reply, "好的，我来写。");
    let t = d.task.unwrap_or_else(|| panic!("a task"));
    assert_eq!((t.capability.as_str(), t.brief.as_str()), ("write", "整"));
    let d = parse_route("{\"intent\":\"task\",\"brief\":\"写信\",\"task\":null}", "原");
    let t = d.task.unwrap_or_else(|| panic!("a task"));
    assert_eq!((t.capability.as_str(), t.brief.as_str()), ("write", "写信"));
    let d = parse_route("{\"intent\":\"task\",\"task\":{\"capability\":\"draw\"}}", "原");
    let t = d.task.unwrap_or_else(|| panic!("a task"));
    assert_eq!((t.capability.as_str(), t.brief.as_str()), ("draw", "原"));
    let d = parse_route("}{", "原");
    assert_eq!((d.intent.as_str(), d.reply.as_str()), ("chat", "嗯，好的。"));
    assert!(d.task.is_none());
}

#[test]
fn a_turn_is_read_from_its_body() {
    let t = turn_request(
        "{\"raw_text\":\"你好\",\"start_time\":5,\"end_time\":-7,\"topic_id\":\"t\",\
         \"audio_base64\":\"AQ==\",\"audio_mime\":\"audio/mp4\",\"duration_ms\":12}",
    )
    .unwrap_or_else(|e| panic!("{}", e.message()));
    assert_eq!(t.raw_text, "你好");
    assert_eq!((t.start_time, t.end_time, t.duration_ms), (Some(5), Some(-7), Some(12)));
    assert_eq!(t.topic_id.as_deref(), Some("t"));
    assert_eq!(t.audio_base64.as_deref(), Some("AQ=="));
    assert_eq!(t.audio_mime.as_deref(), Some("audio/mp4"));
    assert!(matches!(turn_request("{\"raw_text\":\"  \"}"), Err(RequestError::RawTextRequired)));
    assert!(matches!(turn_request("[]"), Err(RequestError::RawTextRequired)));
    let t = turn_request("{\"raw_text\":\"x\",\"start_time\":1.5}")
        .unwrap_or_else(|e| panic!("{}", e.message()));
    assert_eq!(t.start_time, None, "not a whole number");
}

#[test]
fn an_injected_turn_has_words_only() {
    let t = injected_request("{\"raw_text\":\"你好\",\"start_time\":5}")
        .unwrap_or_else(|e| panic!("{}", e.message()));
    assert_eq!(t.raw_text, "你好");
    assert!(t.start_time.is_none());
    assert!(matches!(injected_request("{}"), Err(RequestError::RawTextRequired)));
    assert_eq!(RequestError::RawTextRequired.message(), "raw_text required");
    assert_eq!(RequestError::TitleRequired.message(), "title required");
}

#[test]
fn titles_and_briefs_have_defaults() {
    assert_eq!(topic_title("{\"title\":\"书\"}"), "书");
    assert_eq!(topic_title("{}"), "未命名话题");
    assert_eq!(article_brief("{\"brief\":\"写\"}"), "写");
    assert_eq!(article_brief("nothing"), "把本话题的口述素材整理成一篇结构化文章");
    assert!(matches!(new_title("{\"title\":1}"), Err(RequestError::TitleRequired)));
    assert_eq!(new_title("{\"title\":\"\"}").unwrap_or_else(|_| panic!("given")), "");
    assert_eq!(new_title("{\"title\":\"新\"}").unwrap_or_else(|_| panic!("given")), "新");
}

#[test]
fn whole_numbers_are_read_to_their_limits() {
    assert_eq!(parse_whole("0"), Some(0));
    assert_eq!(parse_whole("-9223372036854775808"), Some(i64::MIN));
    assert_eq!(parse_whole("9223372036854775807"), Some(i64::MAX));
    assert_eq!(parse_whole("9223372036854775808"), None);
    assert_eq!(parse_whole("1e3"), None);
    assert_eq!(parse_whole("-"), None);
    assert_eq!(parse_whole(""), None);
}

#[test]
fn audio_is_stored_under_the_name_of_its_chunk() {
    assert_eq!(ext_for("audio/webm"), "webm");
    assert_eq!(ext_for("AUDIO/WAV"), "wav");
    assert!(same_lower("AbC", "abc") && !same_lower("abd", "abc"));
    let (path, bytes) = save_audio("/data/audio", "c1", "AQID/w==", "audio/webm")
        .unwrap_or_else(|_| panic!("well-formed"));
    assert_eq!(path, "/data/audio/c1.webm");
    assert_eq!(bytes, vec![1, 2, 3, 255]);
    assert!(matches!(
        save_audio("/d", "c", "not base64!", "audio/webm"),
        Err(AudioError::Encoding(_))
    ));
}

#[test]
fn model_names_lose_their_brackets() {
    assert_eq!(clean_model(Some("glm[1m]".into()), "d"), "glm");
    assert_eq!(clean_model(Some("  ".into()), "d"), "d");
    assert_eq!(clean_model(None, "d"), "d");
    let c = LlmConfig::resolve(
        Some("http://h/".into()),
        None,
        Some("SECRET-REDACTED".into()),
        None,
        Some("m[x]".into()),
    );
    assert_eq!(c.base_url, "http://h");
    assert_eq!(c.api_key, "SECRET-REDACTED");
    assert_eq!(c.pro_model, "m");
}

#[test]
fn the_scout_is_asked_for_its_audio() {
    assert_eq!(
        request_text("h:1"),
        "GET /audio HTTP/1.1\r\nHost: h:1\r\nConnection: close\r\n\r\n"
    );
    assert!(matches!(head_line(Some("Host: x\r\n")), HeadStep::More));
    assert!(matches!(head_line(Some("\r\n")), HeadStep::Body));
    assert!(matches!(head_line(Some("\n")), HeadStep::Body));
    assert!(matches!(head_line(None), HeadStep::BrokenOff));
}

#[test]
fn chunk_sizes_are_hexadecimal() {
    assert_eq!(chunk_size("1aF\r\n"), 0x1af);
    assert_eq!(chunk_size(" 10 \n"), 16);
    assert_eq!(chunk_size("zz"), 0);
    assert_eq!(chunk_size(""), 0);
    assert_eq!(chunk_size("ffffffffffffffffff"), 0, "beyond any count");
    assert!(matches!(chunk_line(Some("a\r\n")), ChunkStep::Read(10)));
    assert!(matches!(chunk_line(Some("0\r\n")), ChunkStep::End));
    assert!(matches!(chunk_line(None), ChunkStep::End));
}

#[test]
fn how_the_bytes_arrive_does_not_matter() {
    let mut bytes = Vec::new();
    for i in 0..700i32 {
        bytes.extend_from_slice(&((i * 91 - 32_000) as i16).to_le_bytes());
    }
    let mut one = FrameCutter::new();
    let whole = one.push(&bytes);
    assert_eq!(whole.len(), 2);
    assert_eq!(whole[0].len(), 320);
    assert_eq!(whole[0][0], -32_000);
    let mut two = FrameCutter::new();
    let mut parts = Vec::new();
    for b in bytes.chunks(7) {
        parts.extend(two.push(b));
    }
    assert_eq!(whole, parts);
}

#[test]
fn only_final_words_make_an_utterance() {
    let ev = |kind, text: Option<&str>| SpeechEvent {
        kind,
        text: text.map(|t| t.to_string()),
        duration_us: Some(0),
    };
    assert_eq!(utterance(&ev(SpeechEventKind::Final, Some(" 好 "))), Some("好".to_string()));
    assert_eq!(utterance(&ev(SpeechEventKind::Final, Some("  "))), None);
    assert_eq!(utterance(&ev(SpeechEventKind::Final, None)), None);
    assert_eq!(utterance(&ev(SpeechEventKind::Interim, Some("好"))), None);
}

#[test]
fn partials_pass_and_windows_are_calibrated() {
    let interim = WindowEvent::Interim {
        window_id: 1,
        segment_id: 2,
        partial: "你".into(),
        at_us: 3,
    };
    match composer::route(interim) {
        Route::Caller(composer::TurnEvent::Interim { window_id, segment_id, partial, at_us }) => {
            assert_eq!((window_id, segment_id, partial.as_str(), at_us), (1, 2, "你", 3));
        }
        _ => panic!("a partial goes to the caller"),
    }
    let segments: Vec<VadSentence> = vec![];
    let batch = WindowEvent::Batch { window_id: 4, segments };
    match composer::route(batch) {
        Route::Calibration(ev) => match composer::conclude(ev, "整".into(), 7) {
            Some(composer::TurnEvent::WindowCalibrated { window_id, calibrated, route_us }) => {
                assert_eq!((window_id, calibrated.as_str(), route_us), (4, "整", 7));
            }
            _ => panic!("expected its calibration"),
        },
        _ => panic!("a batch is calibrated"),
    }
}

#[test]
fn linked_chunks_are_a_json_list() {
    assert_eq!(linked_chunks_text(&vec![]), "[]");
    assert_eq!(linked_chunks_text(&vec!["a".into(), "b\"".into()]), "[\"a\",\"b\\\"\"]");
}

#[test]
fn the_report_has_a_section_for_each_clip() {
    let s = |t: &str| t.to_string();
    let summary = Summary {
        epoch: 1,
        asr_avg: s("10"),
        router_avg: s("20"),
        total_avg: s("30"),
        speed: s("4.0"),
        rtf: s("0.25"),
        endpoint_ms: s("550"),
        perceived: s("0.6"),
    };
    let row = |name: &str| Row {
        name: s(name),
        dur: s("1.0"),
        asr_ms: s("10"),
        router_ms: s("20"),
        total_ms: s("30"),
        speed: s("4.0"),
        raw: s("原"),
        intent: s("chat"),
        calibrated: s("整"),
        reply: s("好"),
    };
    let text = build_report(&summary, &vec![row("a.wav"), row("b.wav")]);
    let a = text.find("a.wav").unwrap_or(usize::MAX);
    let b = text.find("b.wav").unwrap_or(0);
    assert!(a < b);
    assert!(text.contains("原") && text.contains("整") && text.contains("550"));
}

#[test]
fn a_pressed_pet_is_dragged_until_released() {
    let s = FsmState::Walk.on_pointer_down();
    assert!(matches!(s, FsmState::Drag) && s.follows_pointer());
    assert!(!s.on_pointer_up().follows_pointer());
    assert!(!FsmState::Idle.follows_pointer());
}

#[test]
fn pixels_are_blended_over() {
    let mut c = Canvas::new(2, 2);
    assert_eq!(c.as_bytes(), &[0u8; 16]);
    c.clear(Color::white());
    c.put(1, 0, Color::rgba(10, 20, 30, 255));
    assert_eq!(c.as_bytes()[4..8], [10, 20, 30, 255]);
    assert_eq!(c.as_bytes()[0..4], [255, 255, 255, 255], "its neighbour stays");
    c.put(0, 0, Color::transparent());
    assert_eq!(c.as_bytes()[0..4], [255, 255, 255, 255]);
    c.put(0, 1, Color::rgba(0, 0, 0, 128));
    assert_eq!(c.as_bytes()[8..12], [127, 127, 127, 255]);
    c.put(-1, 5, Color::black());
    let ppm = c.ppm();
    assert!(ppm.starts_with(b"P6\n2 2\n255\n"));
    assert_eq!(ppm.len(), 11 + 12);
    c.resize(1, 1);
    assert_eq!(c.as_bytes().len(), 4);
    let d = Config::default();
    assert!(d.canvas_size.0 > 0 && d.canvas_size.1 > 0);
}

#[test]
fn texts_are_cut_and_padded() {
    assert_eq!(trim("\u{3000} a b \n"), "a b");
    assert_eq!(trim_end_char("a//", '/'), "a");
    assert_eq!(decimal_text(0), "0");
    assert_eq!(decimal_text(u64::MAX), u64::MAX.to_string());
    assert_eq!(zero_padded_text(7, 4), "0007");
    assert_eq!(zero_padded_text(12345, 4), "12345");
    assert_eq!(join_path("a", "b"), "a/b");
    assert_eq!(join_path("a/", "b"), "a/b");
    assert!(comes_before("2026-01-01", "2026-01-02"));
    assert!(comes_before("a", "ab") && !comes_before("a", "a"));
}

#[test]
fn the_object_runs_from_the_first_to_the_last_brace() {
    assert_eq!(object_text("好 {\"a\":{}} 完"), Some("{\"a\":{}}"));
    assert_eq!(object_text("} {"), None);
    assert_eq!(object_text("{"), None);
    assert_eq!(object_text(""), None);
}

#[test]
fn known_bytes_are_placed_under_their_chunk() {
    let (path, bytes) = place_audio("d", "c1", "audio/webm", Ok(vec![1, 2]))
        .unwrap_or_else(|_| panic!("placed"));
    assert_eq!(path, format!("d/c1.{}", ext_for("audio/webm")));
    assert_eq!(bytes, [1, 2]);
    let bad = Err(base64::DecodeError::InvalidLength(1));
    assert!(matches!(place_audio("d", "c1", "audio/webm", bad), Err(AudioError::Encoding(_))));
}

#[test]
fn an_array_lists_its_literals() {
    assert_eq!(write_json_array(&vec![]), "[]");
    assert_eq!(write_json_array(&vec!["\"a\"".to_string(), "1".to_string()]), "[\"a\",1]");
}

#[test]
fn white_over_white_stays_white() {
    let mut c = Canvas::new(1, 1);
    c.put(0, 0, Color::rgba(255, 255, 255, 2));
    c.put(0, 0, Color::rgba(255, 255, 255, 1));
    assert_eq!(c.as_bytes()[0..3], [255, 255, 255]);
}

#[test]
fn texts_are_escaped_for_json() {
    let ids = vec!["a\"\\/".to_string(), "\u{1}\u{1f}\u{8}\t\n\u{c}\r\u{7f}好".to_string()];
    assert_eq!(
        linked_chunks_text(&ids),
        "[\"a\\\"\\\\/\",\"\\u0001\\u001f\\b\\t\\n\\f\\r\u{7f}好\"]"
    );
}

#[test]
fn a_recording_without_a_type_is_webm() {
    assert_eq!(recording_mime(None), "audio/webm");
    assert_eq!(recording_mime(Some("audio/ogg".to_string())), "audio/ogg");
}
