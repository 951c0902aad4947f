use agent_base::middleware::PostLlmCtx;
use agent_base::middleware::TurnToolLimitMiddleware;
use agent_base::types::FinishReason;
use agent_base::types::SafetyConfig;
use agent_base::types::SessionId;

fn make_ctx(turn_tool_calls: usize, pending_calls: usize) -> PostLlmCtx {
    let tool_calls = (0..pending_calls)
        .map(|i| (format!("call_{}", i), "test_tool".to_string(), "{}".to_string()))
        .collect();
    PostLlmCtx {
        session_id: SessionId::new(1),
        full_text: String::new(),
        is_tool_call: pending_calls > 0,
        tool_calls,
        available_tools: vec!["test_tool".to_string()],
        turn_count: 1,
        total_tool_calls: 0,
        nudge_count: 0,
        turn_tool_calls,
        skip_push: false,
        follow_up_message: None,
        finish_reason: FinishReason::Stop,
    }
}

#[test]
fn allows_calls_under_limit() {
    let mw = TurnToolLimitMiddleware::new(8);
    let mut ctx = make_ctx(3, 2);
    mw.on_post_llm(&mut ctx).unwrap();
    assert_eq!(ctx.tool_calls.len(), 2);
    assert!(ctx.follow_up_message.is_none());
}

#[test]
fn blocks_calls_at_limit() {
    let mw = TurnToolLimitMiddleware::new(8);
    let mut ctx = make_ctx(8, 3);
    mw.on_post_llm(&mut ctx).unwrap();
    assert!(ctx.tool_calls.is_empty());
    assert!(!ctx.is_tool_call);
    assert!(ctx.follow_up_message.is_some());
}

#[test]
fn blocks_calls_over_limit() {
    let mw = TurnToolLimitMiddleware::new(8);
    let mut ctx = make_ctx(12, 2);
    mw.on_post_llm(&mut ctx).unwrap();
    assert!(ctx.tool_calls.is_empty());
    assert!(ctx.follow_up_message.is_some());
}

#[test]
fn ignores_text_only_responses() {
    let mw = TurnToolLimitMiddleware::new(8);
    let mut ctx = make_ctx(10, 0);
    ctx.is_tool_call = false;
    ctx.full_text = "just text".to_string();
    mw.on_post_llm(&mut ctx).unwrap();
    assert!(ctx.follow_up_message.is_none());
}

#[test]
fn custom_limit() {
    let mw = TurnToolLimitMiddleware::new(3);
    let mut ctx = make_ctx(3, 1);
    mw.on_post_llm(&mut ctx).unwrap();
    assert!(ctx.tool_calls.is_empty());
    assert!(ctx.follow_up_message.is_some());
}

#[test]
fn limit_from_config_blocks_at_configured_limit() {
    let mw = TurnToolLimitMiddleware::from_config(&SafetyConfig { max_tool_calls_per_turn: 2 });
    let mut ctx = make_ctx(2, 1);
    mw.on_post_llm(&mut ctx).unwrap();
    assert!(ctx.tool_calls.is_empty());
    assert_eq!(ctx.turn_tool_calls, 2);
}

#[test]
fn blocking_keeps_the_other_fields() {
    let mw = TurnToolLimitMiddleware::new(8);
    let mut ctx = make_ctx(8, 3);
    ctx.total_tool_calls = 42;
    ctx.full_text = "partial".to_string();
    let before_turn = ctx.turn_count;
    mw.on_post_llm(&mut ctx).unwrap();
    assert_eq!(ctx.total_tool_calls, 42);
    assert_eq!(ctx.turn_tool_calls, 8);
    assert_eq!(ctx.turn_count, before_turn);
    assert_eq!(ctx.full_text, "partial");
}
