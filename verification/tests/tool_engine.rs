use agent_base::session::AgentSession;
use agent_base::tool_engine::apply_approval_decision;
use agent_base::tool_engine::approval_cached;
use agent_base::tool_engine::check_tool_args;
use agent_base::tool_engine::denial_summary;
use agent_base::tool_engine::tool_failure_summary;
use agent_base::tool_engine::tool_not_found_text;
use agent_base::tool_engine::ApprovalDecision;
use agent_base::tool_engine::ToolExecutionResult;
use agent_base::turn::Language;
use agent_base::types::AgentError;
use agent_base::types::SessionId;

#[test]
fn orchestrate_rejects_invalid_json_args() {
    let err = check_tool_args("echo", "not-json").unwrap_err();
    match err {
        AgentError::ToolArgsInvalid { name, raw } => {
            assert_eq!(name, "echo");
            assert_eq!(raw, "not-json");
        }
        other => panic!("unexpected error: {other:?}"),
    }
    assert!(check_tool_args("echo", r#"{"text":"a"}"#).is_ok());
}

#[test]
fn process_approval_denies_when_handler_denies() {
    let mut s = AgentSession::new(SessionId::new(1));
    let r = apply_approval_decision(&mut s, "echo", Some("echo:any"), Some(ApprovalDecision::Deny));
    assert!(matches!(r, Err(AgentError::ApprovalDenied { ref tool_name }) if tool_name == "echo"));
    assert!(s.chat_messages().is_empty());
    assert!(!approval_cached(&s, Some("echo:any")));
}

#[test]
fn process_approval_allows_when_handler_allows() {
    let mut s = AgentSession::new(SessionId::new(1));
    assert!(apply_approval_decision(&mut s, "echo", Some("echo:any"), Some(ApprovalDecision::AllowOnce)).is_ok());
    assert!(!approval_cached(&s, Some("echo:any")));
}

#[test]
fn missing_approval_answer_counts_as_denial() {
    let mut s = AgentSession::new(SessionId::new(1));
    assert!(apply_approval_decision(&mut s, "rm", None, None).is_err());
}

#[test]
fn tool_texts() {
    assert_eq!(denial_summary("rm"), "[Action Denied]: tool rm rejected by approval");
    assert_eq!(tool_failure_summary(Language::En, "boom"), "❌ Tool execution failed: boom");
    assert_eq!(tool_failure_summary(Language::Zh, "boom"), "❌ 执行失败: boom");
    assert_eq!(tool_not_found_text(Language::En, "nope"), "Tool nope not found");
    assert_eq!(tool_not_found_text(Language::Zh, "nope"), "工具 nope 未找到");
}

#[test]
fn execution_result_holds_outputs() {
    let r = ToolExecutionResult { id: "call_a".into(), name: "echo".into(), output: vec!["echo: a".into()] };
    let c = r.clone();
    assert_eq!(c.id, "call_a");
    assert_eq!(c.output, vec!["echo: a".to_string()]);
}
