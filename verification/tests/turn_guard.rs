use agent_base::guard::GuardAction;
use agent_base::guard::GuardCtx;
use agent_base::guard::GuardDecision;
use agent_base::types::FinishReason;
use agent_base::types::SessionId;

#[test]
fn test_guard_decision_clone() {
    let decision = GuardDecision::Continue {
        nudge: Some("test".to_string()),
    };
    let cloned = decision.clone();
    match cloned {
        GuardDecision::Continue { nudge } => assert_eq!(nudge.unwrap(), "test"),
        _ => panic!("Expected Continue"),
    }

    let decision = GuardDecision::Complete;
    let cloned = decision.clone();
    assert!(matches!(cloned, GuardDecision::Complete));

    let decision = GuardDecision::Fail {
        error: "error".to_string(),
    };
    let cloned = decision.clone();
    match cloned {
        GuardDecision::Fail { error } => assert_eq!(error, "error"),
        _ => panic!("Expected Fail"),
    }
}

#[test]
fn turn_guard_test_guard_ctx_debug() {
    let ctx = GuardCtx {
        session_id: SessionId::new(1),
        turn_count: 1,
        user_input: "test".to_string(),
        model_response: "response".to_string(),
        finish_reason: FinishReason::Stop,
        available_tools: vec!["tool1".to_string()],
        reasoning_only_strikes: 0,
        empty_response_strikes: 0,
        run_has_tool_calls: false,
        last_tool_calls_invalid: false,
        all_user_inputs: vec!["test".to_string()],
        is_reasoning_only: false,
        is_empty_response: false,
        is_text_only: false,
        thinking_disabled: false,
        original_thinking_enabled: true,
        remaining_turns: 50,
    };
    let debug_str = format!("{:?}", ctx);
    assert!(debug_str.contains("session_id"));
    assert!(debug_str.contains("turn_count"));
    assert!(debug_str.contains("user_input"));
}

#[test]
fn test_guard_ctx_scene_flags() {
    let ctx = GuardCtx {
        session_id: SessionId::new(1),
        turn_count: 1,
        user_input: "test".to_string(),
        model_response: "".to_string(),
        finish_reason: FinishReason::Stop,
        available_tools: vec![],
        reasoning_only_strikes: 1,
        empty_response_strikes: 0,
        run_has_tool_calls: false,
        last_tool_calls_invalid: false,
        all_user_inputs: vec!["test".to_string()],
        is_reasoning_only: true,
        is_empty_response: false,
        is_text_only: false,
        thinking_disabled: true,
        original_thinking_enabled: true,
        remaining_turns: 50,
    };
    assert!(ctx.is_reasoning_only);
    assert!(!ctx.is_empty_response);
    assert!(!ctx.is_text_only);
    assert!(ctx.thinking_disabled);
}

#[test]
fn test_guard_action_clone() {
    let action = GuardAction::Continue("test".to_string());
    let cloned = action.clone();
    match cloned {
        GuardAction::Continue(msg) => assert_eq!(msg, "test"),
        _ => panic!("Expected Continue"),
    }

    let action = GuardAction::Done;
    let cloned = action.clone();
    assert!(matches!(cloned, GuardAction::Done));

    let action = GuardAction::Fail("error".to_string());
    let cloned = action.clone();
    match cloned {
        GuardAction::Fail(msg) => assert_eq!(msg, "error"),
        _ => panic!("Expected Fail"),
    }
}

#[test]
fn test_guard_ctx_debug() {
    let ctx = GuardCtx {
        session_id: SessionId::new(1),
        turn_count: 1,
        user_input: "test".to_string(),
        model_response: "response".to_string(),
        finish_reason: FinishReason::Stop,
        available_tools: vec!["tool1".to_string()],
        reasoning_only_strikes: 0,
        empty_response_strikes: 0,
        run_has_tool_calls: false,
        last_tool_calls_invalid: false,
        all_user_inputs: vec![],
        is_reasoning_only: false,
        is_empty_response: false,
        is_text_only: false,
        thinking_disabled: false,
        original_thinking_enabled: false,
        remaining_turns: 0,
    };
    let debug_str = format!("{:?}", ctx);
    assert!(debug_str.contains("session_id"));
    assert!(debug_str.contains("turn_count"));
    assert!(debug_str.contains("user_input"));
}
