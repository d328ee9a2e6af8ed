//! The prompts of the calibration and of the router.

use audio_aura::prompt::PromptBuilder;
use audio_aura::router::prompt::PromptBuilder as RouterPrompt;

#[test]
fn bare_minimum() {
    let (sys, usr) = PromptBuilder::new("你好").build();
    assert!(sys.contains("纠偏助手"), "ROLE_TASK lead sentence present");
    assert!(sys.contains("# 输出"));
    assert!(!sys.contains("- Bevy"), "no hotword entries when empty");
    assert!(!usr.contains("最近对话"), "no context in user when empty");
    assert!(!sys.contains("# 示例"), "default few-shot currently disabled");
    assert!(usr.contains("<primary_transcript>"), "raw wrapped in XML envelope");
    assert!(usr.contains("你好"), "raw text present");
}

#[test]
fn with_hotwords_and_context() {
    let hw: Vec<String> = vec!["Bevy".into(), "Rust".into()];
    let (sys, usr) =
        PromptBuilder::new("B位引擎").hotwords(&hw).context("上句：开发贪吃蛇").build();
    assert!(!sys.contains("# 热词"), "hotword block currently disabled in build_system");
    assert!(!sys.contains("Bevy"), "hotword entries must not render while disabled");
    assert!(sys.contains("上下文"));
    assert!(usr.contains("最近对话"));
    assert!(usr.contains("上句：开发贪吃蛇"));
    assert!(usr.contains("<primary_transcript>"));
}

#[test]
fn multi_segment_input_one_line_per_segment() {
    let (sys, usr) = PromptBuilder::new_multi(&["第一段说 Rust", "", "第二段说 Bevy"]).build();
    assert!(usr.contains(
        "<primary_transcript>\n第一段说 Rust\n第二段说 Bevy\n</primary_transcript>"
    ));
    assert!(sys.contains("多句联合"), "joint-calibration rule present");
    let (_, single) = PromptBuilder::new_multi(&["只有一段"]).build();
    assert!(single.contains("只有一段"));
}

#[test]
fn few_shot_custom_overrides_default() {
    let custom = vec![("foo bar".to_string(), "Foo Bar".to_string())];
    let (sys, _usr) = PromptBuilder::new("x").few_shot(&custom).build();
    assert!(sys.contains("foo bar") && sys.contains("Foo Bar"), "custom example present");
    assert!(!sys.contains("rost"), "default example replaced");
}

#[test]
fn few_shot_empty_disables() {
    let (sys, _usr) = PromptBuilder::new("x").few_shot(&[]).build();
    assert!(!sys.contains("# 示例"), "few-shot block disabled");
}

#[test]
fn context_instruction_mentions_error_patterns() {
    let (sys, _usr) = PromptBuilder::new("x").context("some ctx").build();
    assert!(sys.contains("错误模式"), "context instruction references error patterns");
}

#[test]
fn streaming_ref_adds_envelope_and_instruction() {
    let (sys, usr) =
        PromptBuilder::new("创建一个任务").streaming_ref("帮我创建一个人物").build();
    assert!(sys.contains("# 双通道对照"), "dual-transcript instruction present");
    assert!(usr.contains("<secondary_transcript>"), "streaming envelope present");
    assert!(usr.contains("帮我创建一个人物"));
    assert!(usr.contains("<primary_transcript>"), "raw envelope still present");
}

#[test]
fn streaming_ref_skipped_when_empty_or_identical() {
    let (sys, usr) = PromptBuilder::new("你好").streaming_ref("  ").build();
    assert!(!usr.contains("<secondary_transcript>"), "empty streaming ref ignored");
    assert!(!sys.contains("# 双通道对照"));
    let (_, usr2) = PromptBuilder::new("你好").streaming_ref("你好").build();
    assert!(!usr2.contains("<secondary_transcript>"), "identical streaming ref ignored");
}

#[test]
fn output_lists_calibration_rules() {
    let (sys, _usr) = PromptBuilder::new("x").build();
    assert!(sys.contains("加标点"), "punctuation rule present");
    assert!(sys.contains("修错字"), "homophone rule present");
    assert!(sys.contains("英文规范"), "CJK/English formatting rule present");
    assert!(sys.contains("专有名词"), "proper-noun rule present");
    assert!(sys.contains("多句联合"), "joint-calibration rule present");
    assert!(!sys.contains("去口语"), "filler-removal rule currently disabled");
}

#[test]
fn prompt_bare_minimum() {
    let (sys, usr) = RouterPrompt::new("你好").build();
    assert!(sys.contains("# 角色"));
    assert!(sys.contains("# 输出"));
    assert!(!sys.contains("- Bevy"), "no hotword entries when empty");
    assert!(!usr.contains("最近对话"), "no context in user when empty");
    assert!(sys.contains("# 示例"), "default few-shot block present");
    assert!(sys.contains("rost") && sys.contains("Rust"), "default examples present");
    assert!(usr.contains("<raw_transcript>"), "raw wrapped in XML envelope");
    assert!(usr.contains("你好"), "raw text present");
    assert!(usr.contains("/no_think"));
}

#[test]
fn prompt_with_hotwords_and_context() {
    let hw: Vec<String> = vec!["Bevy".into(), "Rust".into()];
    let (sys, usr) =
        RouterPrompt::new("B位引擎").hotwords(&hw).context("上句：开发贪吃蛇").build();
    assert!(sys.contains("# 热词"));
    assert!(sys.contains("Bevy"));
    assert!(sys.contains("上下文"));
    assert!(usr.contains("最近对话"));
    assert!(usr.contains("上句：开发贪吃蛇"));
    assert!(usr.contains("<raw_transcript>"));
}

#[test]
fn prompt_few_shot_custom_overrides_default() {
    let custom = vec![("foo bar".to_string(), "Foo Bar".to_string())];
    let (sys, _usr) = RouterPrompt::new("x").few_shot(&custom).build();
    assert!(sys.contains("foo bar") && sys.contains("Foo Bar"), "custom example present");
    assert!(!sys.contains("rost"), "default example replaced");
}

#[test]
fn prompt_few_shot_empty_disables() {
    let (sys, _usr) = RouterPrompt::new("x").few_shot(&[]).build();
    assert!(!sys.contains("# 示例"), "few-shot block disabled");
}

#[test]
fn prompt_context_instruction_mentions_error_patterns() {
    let (sys, _usr) = RouterPrompt::new("x").context("some ctx").build();
    assert!(sys.contains("错误模式"), "context instruction references error patterns");
}

#[test]
fn prompt_streaming_ref_adds_envelope_and_instruction() {
    let (sys, usr) = RouterPrompt::new("创建一个任务").streaming_ref("帮我创建一个人物").build();
    assert!(sys.contains("# 双通道对照"), "dual-transcript instruction present");
    assert!(usr.contains("<streaming_transcript>"), "streaming envelope present");
    assert!(usr.contains("帮我创建一个人物"));
    assert!(usr.contains("<raw_transcript>"), "raw envelope still present");
}

#[test]
fn prompt_streaming_ref_skipped_when_empty_or_identical() {
    let (sys, usr) = RouterPrompt::new("你好").streaming_ref("  ").build();
    assert!(!usr.contains("<streaming_transcript>"), "empty streaming ref ignored");
    assert!(!sys.contains("# 双通道对照"));
    let (_, usr2) = RouterPrompt::new("你好").streaming_ref("你好").build();
    assert!(!usr2.contains("<streaming_transcript>"), "identical streaming ref ignored");
}

#[test]
fn prompt_carries_content_preservation_and_term_rules() {
    let (sys, _usr) = RouterPrompt::new("x").build();
    assert!(sys.contains("不得删除"), "content-preservation rule present");
    assert!(sys.contains("待办事项"), "term pattern present");
    assert!(sys.contains("原样保留"), "unknown-English keep-as-is rule present");
}

#[test]
fn corrections_are_shown_as_pairs() {
    let pairs = vec![("代办".to_string(), "待办".to_string())];
    let (with, _) = PromptBuilder::new("x").corrections(&pairs).build();
    let (without, _) = PromptBuilder::new("x").build();
    assert!(with.contains("代办") && with.contains("待办"));
    assert!(!without.contains("代办"));
}

#[test]
fn the_user_text_ends_with_the_switch_for_thinking() {
    assert!(PromptBuilder::new("你好").build_user().ends_with("\n\n/no_think"));
    assert!(RouterPrompt::new("你好").build_user().ends_with("/no_think"));
}

#[test]
fn blank_lines_among_the_texts_do_not_matter() {
    let a = PromptBuilder::new_multi(&["甲", " ", "乙"]).build();
    let b = PromptBuilder::new_multi(&["甲", "乙"]).build();
    assert_eq!(a, b);
}

#[test]
fn one_text_stands_as_it_is() {
    let alone = PromptBuilder::new_multi(&[" 只有一段 ", " "]).build();
    assert_eq!(alone, PromptBuilder::new(" 只有一段 ").build());
    let (_, two) = PromptBuilder::new_multi(&[" 甲 ", "乙"]).build();
    assert!(two.contains("\n甲\n乙\n"));
}
