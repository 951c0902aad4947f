use agent_base::guard::guarded_post_llm_step;
use agent_base::guard::GuardedStep;
use agent_base::session::validate_message_sequence;
use agent_base::session::AgentSession;
use agent_base::turn::PostLlmResult;
use agent_base::types::ChatMessage;
use agent_base::types::FinishReason;
use agent_base::types::MessageRole;
use agent_base::types::SessionId;

fn result(text: &str, is_tool_call: bool, calls: Vec<(String, String, String)>) -> PostLlmResult {
    PostLlmResult {
        full_text: text.to_string(),
        is_tool_call,
        tool_calls: calls,
        skip_push: false,
        follow_up_message: None,
    }
}

fn session() -> AgentSession {
    let mut s = AgentSession::new(SessionId::new(1));
    s.push_message(MessageRole::User, "hi");
    s
}

#[test]
fn text_answer_is_recorded_and_guard_asked() {
    let mut s = session();
    let step = guarded_post_llm_step(&mut s, result("done", false, vec![]), "because".to_string(), FinishReason::Stop);
    assert!(matches!(step, GuardedStep::AskGuard { empty_response: false, text_only: true }));
    match &s.chat_messages()[1] {
        ChatMessage::Assistant { content, reasoning_content, .. } => {
            assert_eq!(content.as_deref(), Some("done"));
            assert_eq!(reasoning_content.as_deref(), Some("because"));
        }
        other => panic!("unexpected message: {other:?}"),
    }
}

#[test]
fn follow_up_message_continues() {
    let mut s = session();
    let mut r = result("text", false, vec![]);
    r.skip_push = true;
    r.follow_up_message = Some("call a tool".to_string());
    let step = guarded_post_llm_step(&mut s, r, String::new(), FinishReason::Stop);
    assert!(matches!(step, GuardedStep::Continue));
    assert_eq!(s.chat_messages().len(), 2);
    assert!(matches!(&s.chat_messages()[1], ChatMessage::User { content, .. } if content == "call a tool"));
}

#[test]
fn empty_response_counts_a_strike() {
    let mut s = session();
    let step = guarded_post_llm_step(&mut s, result("", false, vec![]), String::new(), FinishReason::Stop);
    assert!(matches!(step, GuardedStep::AskGuard { empty_response: true, text_only: false }));
    assert_eq!(s.run_state.empty_response_strikes, 1);
    assert_eq!(s.chat_messages().len(), 1);
}

#[test]
fn tool_calls_are_handed_over_without_recording_text() {
    let mut s = session();
    let calls = vec![("c1".to_string(), "read".to_string(), "{}".to_string())];
    let step = guarded_post_llm_step(&mut s, result("let me read", true, calls), String::new(), FinishReason::ToolUse);
    match step {
        GuardedStep::ExecuteTools(c) => assert_eq!(c[0].0, "c1"),
        other => panic!("unexpected step: {other:?}"),
    }
    assert_eq!(s.chat_messages().len(), 1);
}

#[test]
fn tool_call_without_complete_calls_counts_a_strike() {
    let mut s = session();
    let step = guarded_post_llm_step(&mut s, result("", true, vec![]), String::new(), FinishReason::ToolUse);
    assert!(matches!(step, GuardedStep::AskGuard { empty_response: true, text_only: false }));
    assert_eq!(s.run_state.empty_response_strikes, 1);
}

#[test]
fn finish_reason_anomalies_fail_the_run() {
    let mut s = session();
    let step = guarded_post_llm_step(&mut s, result("text", false, vec![]), String::new(), FinishReason::ToolUse);
    assert!(matches!(step, GuardedStep::Fail(ref e) if e == "finish_reason=tool_use but no tool calls were parsed"));
    let mut s = session();
    let step = guarded_post_llm_step(&mut s, result("text", false, vec![]), String::new(), FinishReason::Length);
    assert!(matches!(step, GuardedStep::Fail(ref e) if e == "response truncated (Length)"));
    assert_eq!(s.chat_messages().len(), 2);
}

#[test]
fn closing_dangling_calls_makes_sequence_valid() {
    let mut s = session();
    s.push_assistant_tool_calls(
        &[("c1".into(), "t".into(), "{}".into()), ("c2".into(), "t".into(), "{}".into())],
        None,
        None,
    );
    s.push_tool_result("c1", "ok");
    assert!(validate_message_sequence(s.chat_messages()).is_err());
    s.close_dangling_tool_calls("failed");
    assert!(validate_message_sequence(s.chat_messages()).is_ok());
}
