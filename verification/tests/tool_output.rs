use agent_base::stream::tool_call_deltas;
use agent_base::stream::RawToolCall;
use agent_base::tool_engine::tool_calls_flow;
use agent_base::tool_engine::tool_timeout_text;
use agent_base::tool_engine::truncate_tool_output;
use agent_base::tool_engine::ToolCallResult;
use agent_base::tool_engine::ToolControlFlow;
use agent_base::types::FinishReason;

#[test]
fn output_under_limit_is_kept() {
    let (s, cut) = truncate_tool_output("short".to_string(), Some(100));
    assert_eq!(s, "short");
    assert!(!cut);
    let (s, cut) = truncate_tool_output("no limit at all".to_string(), None);
    assert_eq!(s, "no limit at all");
    assert!(!cut);
}

#[test]
fn output_over_limit_is_cut_with_marker() {
    let long = "a".repeat(40);
    let (s, cut) = truncate_tool_output(long, Some(20));
    assert!(cut);
    assert_eq!(s, "aaaaaa...(truncated)");
    assert_eq!(s.len(), 20);
}

#[test]
fn output_with_tiny_limit_keeps_only_marker() {
    let (s, cut) = truncate_tool_output("abcdefghij".to_string(), Some(5));
    assert!(cut);
    assert_eq!(s, "...(truncated)");
}

#[test]
fn output_cut_after_multibyte_character() {
    // "é" takes two bytes: 20 bytes in all; a limit of 16 keeps 2 bytes.
    let text = "é".repeat(10);
    let (s, cut) = truncate_tool_output(text, Some(16));
    assert!(cut);
    assert_eq!(s, "é...(truncated)");
}

#[test]
fn timeout_text_names_the_tool() {
    assert_eq!(tool_timeout_text("bash"), "[Tool Timeout]: 工具 bash 执行超时");
}

#[test]
fn batch_continues_when_any_tool_continues() {
    assert_eq!(tool_calls_flow(&vec![ToolControlFlow::Break, ToolControlFlow::Continue]), ToolCallResult::Continue);
    assert_eq!(tool_calls_flow(&vec![ToolControlFlow::Break, ToolControlFlow::Break]), ToolCallResult::Break);
    assert_eq!(tool_calls_flow(&vec![]), ToolCallResult::Break);
}

#[test]
fn tool_call_entries_default_index_zero() {
    let raw = vec![
        RawToolCall { index: None, id: Some("c1".into()), name: Some("bash".into()), arguments: Some("{\"a\"".into()) },
        RawToolCall { index: Some(2), id: None, name: None, arguments: Some(":1}".into()) },
    ];
    let ds = tool_call_deltas(Some(raw));
    assert_eq!(ds.len(), 2);
    assert_eq!(ds[0].index, 0);
    assert_eq!(ds[0].id.as_deref(), Some("c1"));
    assert_eq!(ds[0].name.as_deref(), Some("bash"));
    assert_eq!(ds[1].index, 2);
    assert_eq!(ds[1].arguments.as_deref(), Some(":1}"));
}

#[test]
fn missing_tool_call_list_gives_no_deltas() {
    assert!(tool_call_deltas(None).is_empty());
}

#[test]
fn finish_reasons_are_read() {
    assert_eq!(FinishReason::from_raw(Some("stop")), FinishReason::Stop);
    assert_eq!(FinishReason::from_raw(Some("tool_calls")), FinishReason::ToolUse);
    assert_eq!(FinishReason::from_raw(Some("length")), FinishReason::Length);
    assert_eq!(FinishReason::from_raw(Some("content_filter")), FinishReason::ContentFilter);
    assert_eq!(FinishReason::from_raw(Some("weird")), FinishReason::Unknown);
    assert_eq!(FinishReason::from_raw(None), FinishReason::Unknown);
}
