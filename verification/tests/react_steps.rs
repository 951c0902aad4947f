use agent_base::guard::apply_guard_decision;
use agent_base::guard::apply_nudge_guard;
use agent_base::guard::apply_text_only_guard;
use agent_base::guard::turn_context;
use agent_base::guard::GuardAction;
use agent_base::guard::GuardDecision;
use agent_base::guard::TurnEndCtx;
use agent_base::message_queue::MessageQueue;
use agent_base::session::AgentSession;
use agent_base::tool_guard::truncation_guard;
use agent_base::tool_guard::TruncationVerdict;
use agent_base::turn::approval_denied_step;
use agent_base::turn::post_llm_step;
use agent_base::turn::reasoning_only_step;
use agent_base::turn::recovery_step;
use agent_base::turn::start_turn;
use agent_base::turn::turn_gate;
use agent_base::turn::Language;
use agent_base::turn::PostLlmResult;
use agent_base::turn::PostLlmStep;
use agent_base::turn::ToolErrorAction;
use agent_base::turn::TurnFlow;
use agent_base::turn::TurnGate;
use agent_base::types::ChatMessage;
use agent_base::types::MessageRole;
use agent_base::types::RunOutcome;
use agent_base::types::SessionId;

fn session() -> AgentSession {
    let mut s = AgentSession::new(SessionId::new(1));
    start_turn(&mut s, "do the task");
    s
}

fn call(id: &str, name: &str, args: &str) -> (String, String, String) {
    (id.to_string(), name.to_string(), args.to_string())
}

fn tool_results(s: &AgentSession) -> Vec<(String, String)> {
    s.chat_messages()
        .iter()
        .filter_map(|m| match m {
            ChatMessage::Tool { tool_call_id, content, .. } => Some((tool_call_id.clone(), content.clone())),
            _ => None,
        })
        .collect()
}

#[test]
fn turn_gate_drains_steering_and_caps_turns() {
    let mut s = session();
    let mut q = MessageQueue::new();
    q.steer("also check tests".to_string());
    assert!(matches!(turn_gate(&mut s, &mut q, 1, 5, false), TurnGate::Proceed));
    assert!(!q.has_steering());
    assert!(matches!(&s.chat_messages()[1], ChatMessage::User { content, .. } if content == "also check tests"));
    assert!(matches!(turn_gate(&mut s, &mut q, 6, 5, false), TurnGate::MaxTurnsExceeded(6)));
    assert!(matches!(turn_gate(&mut s, &mut q, 2, 5, true), TurnGate::Cancelled));
}

#[test]
fn reasoning_only_nudges_then_fails() {
    let mut s = session();
    assert!(matches!(reasoning_only_step(&mut s), TurnFlow::Continue));
    assert!(matches!(reasoning_only_step(&mut s), TurnFlow::Continue));
    match reasoning_only_step(&mut s) {
        TurnFlow::Done(RunOutcome::Failed { error }) => assert!(error.contains("only reasoning")),
        other => panic!("unexpected flow: {other:?}"),
    }
    assert_eq!(s.run_state.reasoning_only_strikes, 3);
}

#[test]
fn post_llm_step_text_answer_completes() {
    let mut s = session();
    let r = PostLlmResult { full_text: "answer".into(), is_tool_call: false, tool_calls: vec![], skip_push: false, follow_up_message: None };
    assert!(matches!(post_llm_step(&mut s, r, String::new(), Some("stop".into())), PostLlmStep::Complete));
    assert!(matches!(&s.chat_messages()[1], ChatMessage::Assistant { content: Some(c), .. } if c == "answer"));
}

#[test]
fn post_llm_step_truncated_tool_calls_are_not_executed() {
    let mut s = session();
    let r = PostLlmResult {
        full_text: String::new(),
        is_tool_call: true,
        tool_calls: vec![call("call_trunc", "shell", r#"{"cmd": "rm -rf /inco"#)],
        skip_push: false,
        follow_up_message: None,
    };
    assert!(matches!(post_llm_step(&mut s, r, String::new(), Some("length".into())), PostLlmStep::Continue));
    let results = tool_results(&s);
    assert_eq!(results.len(), 1);
    assert_eq!(results[0].0, "call_trunc");
    assert!(results[0].1.contains("Tool call was not executed"));
    assert!(results[0].1.contains("output token limit"));
    assert!(matches!(&s.chat_messages()[1], ChatMessage::Assistant { content: Some(c), .. } if c == "[would call tool: shell]"));
}

#[test]
fn post_llm_step_hands_tool_calls_over() {
    let mut s = session();
    let r = PostLlmResult {
        full_text: String::new(),
        is_tool_call: true,
        tool_calls: vec![call("c1", "read", "{}")],
        skip_push: false,
        follow_up_message: None,
    };
    match post_llm_step(&mut s, r, String::new(), Some("tool_calls".into())) {
        PostLlmStep::ExecuteTools(calls) => assert_eq!(calls, vec![call("c1", "read", "{}")]),
        other => panic!("unexpected step: {other:?}"),
    }
}

#[test]
fn post_llm_step_empty_responses_fail_after_strikes() {
    let mut s = session();
    for _ in 0..2 {
        let r = PostLlmResult { full_text: String::new(), is_tool_call: false, tool_calls: vec![], skip_push: false, follow_up_message: None };
        assert!(matches!(post_llm_step(&mut s, r, String::new(), None), PostLlmStep::Continue));
    }
    let r = PostLlmResult { full_text: String::new(), is_tool_call: false, tool_calls: vec![], skip_push: false, follow_up_message: None };
    match post_llm_step(&mut s, r, String::new(), None) {
        PostLlmStep::Fail(e) => assert!(e.contains("empty responses")),
        other => panic!("unexpected step: {other:?}"),
    }
}

#[test]
fn partial_execution_valid_calls_execute_invalid_get_guidance() {
    let mut s = session();
    let calls = vec![
        call("call_1", "spawn_agent", r#"{"task_name":"a","message":"first"}"#),
        call("call_2", "spawn_agent", r#"{"task_name":"b","message":"tru"#),
        call("call_3", "spawn_agent", r#"{"task_name":"c","message":"third"}"#),
    ];
    let verdict = truncation_guard(&mut s, &calls, &vec![true, true, true], false, 0, String::new(), String::new());
    match verdict {
        TruncationVerdict::Reissue { valid_calls, strikes } => {
            assert_eq!(strikes, 0);
            assert_eq!(valid_calls.len(), 2);
            assert_eq!(valid_calls[0].0, "call_1");
            assert_eq!(valid_calls[1].0, "call_3");
        }
        other => panic!("unexpected truncation result: {other:?}"),
    }
    let results = tool_results(&s);
    assert_eq!(results.len(), 1);
    assert_eq!(results[0].0, "call_2");
    assert!(results[0].1.contains("incomplete"));
}

#[test]
fn partial_execution_all_valid_no_guard() {
    let mut s = session();
    let calls = vec![
        call("c1", "spawn_agent", r#"{"task_name":"a","message":"first"}"#),
        call("c2", "spawn_agent", r#"{"task_name":"b","message":"second"}"#),
    ];
    let before = s.chat_messages().len();
    assert!(matches!(
        truncation_guard(&mut s, &calls, &vec![true, true], false, 0, String::new(), String::new()),
        TruncationVerdict::Proceed
    ));
    assert_eq!(s.chat_messages().len(), before);
}

#[test]
fn truncation_guard_blocks_empty_args_for_required_field_tool() {
    let mut s = session();
    let calls = vec![
        call("call_real", "spawn_agent", r#"{"task_name":"foo","message":"do stuff"}"#),
        call("call_empty", "spawn_agent", "{}"),
    ];
    let verdict = truncation_guard(&mut s, &calls, &vec![true, true], false, 0, String::new(), String::new());
    assert!(matches!(verdict, TruncationVerdict::Reissue { ref valid_calls, .. } if valid_calls.len() == 1));
    let results = tool_results(&s);
    assert_eq!(results[0].0, "call_empty");
    assert!(results[0].1.contains("empty argument object"));
    assert!(results[0].1.contains("requires fields"));
}

#[test]
fn no_arg_tool_with_empty_object_args_executes_normally() {
    let mut s = session();
    let calls = vec![call("call_list", "list_agents", "{}")];
    assert!(matches!(
        truncation_guard(&mut s, &calls, &vec![false], false, 0, String::new(), String::new()),
        TruncationVerdict::Proceed
    ));
}

#[test]
fn truncation_guard_recognizes_wrapper_echo() {
    let mut s = session();
    let wrapper = r#"{"error":"tool_call_arguments_truncated","original_args_preview":"{\"agent_path\": ","message":"x"}"#;
    let calls = vec![call("call_echo", "send_message", wrapper)];
    let verdict = truncation_guard(&mut s, &calls, &vec![true], false, 0, String::new(), String::new());
    assert!(matches!(verdict, TruncationVerdict::Reissue { ref valid_calls, strikes: 1 } if valid_calls.is_empty()));
    assert!(tool_results(&s)[0].1.contains("provider truncated the argument stream"));
}

#[test]
fn truncation_circuit_breaker_redirects_then_hard_stops() {
    let mut s = session();
    let mut strikes: usize = 0;
    for turn in 1..=4usize {
        let id = format!("t{turn}");
        let calls = vec![call(&id, "spawn_agent", r#"{"task_name":"x","message":"tru"#)];
        match truncation_guard(&mut s, &calls, &vec![true], false, strikes, String::new(), String::new()) {
            TruncationVerdict::Reissue { valid_calls, strikes: after } => {
                assert!(valid_calls.is_empty());
                assert_eq!(after, turn);
                strikes = after;
            }
            other => panic!("turn {turn}: unexpected truncation result: {other:?}"),
        }
    }
    let calls = vec![call("t5", "spawn_agent", r#"{"task_name":"x","message":"tru"#)];
    let before = s.chat_messages().len();
    match truncation_guard(&mut s, &calls, &vec![true], false, strikes, String::new(), String::new()) {
        TruncationVerdict::Trip { error, strikes: after } => {
            assert!(error.contains("repeatedly truncated"));
            assert!(error.contains("[spawn_agent]"));
            assert!(error.contains("(5 consecutive failures)"));
            strikes = after;
        }
        other => panic!("turn 5: unexpected truncation result: {other:?}"),
    }
    assert_eq!(strikes, 5);
    assert_eq!(s.chat_messages().len(), before);
}

#[test]
fn empty_args_counted_as_truncation_strike() {
    let mut s = session();
    let mut strikes: usize = 0;
    for turn in 1..=3usize {
        let id = format!("e{turn}");
        let calls = vec![call(&id, "spawn_agent", "")];
        let before = tool_results(&s).len();
        match truncation_guard(&mut s, &calls, &vec![true], false, strikes, String::new(), String::new()) {
            TruncationVerdict::Reissue { valid_calls, strikes: after } => {
                assert!(valid_calls.is_empty());
                assert_eq!(after, turn);
                strikes = after;
            }
            other => panic!("turn {turn}: unexpected truncation result: {other:?}"),
        }
        let results = tool_results(&s);
        assert_eq!(results.len(), before + 1);
        assert_eq!(results[before].0, id);
        assert!(results[before].1.contains("not executed"));
    }
    assert_eq!(strikes, 3);
}

#[test]
fn blank_args_count_even_beside_a_valid_call() {
    let mut s = session();
    let calls = vec![
        call("ok", "spawn_agent", r#"{"task_name":"a","message":"m"}"#),
        call("blank", "spawn_agent", "   "),
    ];
    match truncation_guard(&mut s, &calls, &vec![true, true], false, 2, String::new(), String::new()) {
        TruncationVerdict::Reissue { valid_calls, strikes } => {
            assert_eq!(strikes, 0);
            assert_eq!(valid_calls.len(), 1);
            assert_eq!(valid_calls[0].0, "ok");
        }
        other => panic!("unexpected truncation result: {other:?}"),
    }
}

#[test]
fn recovery_stop_closes_dangling_calls_and_fails() {
    let mut s = session();
    s.push_assistant_tool_calls(&[call("c1", "bash", "{}")], None, None);
    let outcome = recovery_step(&mut s, &vec!["bash".to_string()], "boom", Language::En, ToolErrorAction::Stop, None);
    match outcome {
        Some(RunOutcome::Failed { error }) => assert_eq!(error, "Tool execution failed: boom"),
        other => panic!("unexpected outcome: {other:?}"),
    }
    assert_eq!(tool_results(&s), vec![("c1".to_string(), "❌ Tool execution failed: boom".to_string())]);
}

#[test]
fn recovery_retry_uses_template() {
    let mut s = session();
    s.push_assistant_tool_calls(&[call("c1", "bash", "{}")], None, None);
    let outcome = recovery_step(
        &mut s,
        &vec!["bash".to_string(), "read".to_string()],
        "boom",
        Language::Zh,
        ToolErrorAction::Retry,
        Some("retry {tool_names}: {error}".to_string()),
    );
    assert!(outcome.is_none());
    assert_eq!(tool_results(&s), vec![("c1".to_string(), "❌ 执行失败: boom".to_string())]);
    assert!(matches!(s.chat_messages().last(), Some(ChatMessage::User { content, .. }) if content == "retry bash, read: boom"));
}

#[test]
fn recovery_retry_default_prompt_and_history() {
    let mut s = session();
    s.push_assistant_tool_calls(&[call("c1", "bash", "{}")], None, None);
    assert!(recovery_step(&mut s, &vec!["bash".to_string()], "boom", Language::En, ToolErrorAction::Retry, None).is_none());
    assert!(matches!(
        s.chat_messages().last(),
        Some(ChatMessage::User { content, .. })
            if content == "Tool calls failed: bash\nError: boom\nPlease analyze the error and adjust your approach."
    ));

    let mut s = session();
    s.push_assistant_tool_calls(&[call("c1", "bash", "{}")], None, None);
    let errors = vec!["e1".to_string(), "e2".to_string()];
    assert!(recovery_step(&mut s, &vec!["bash".to_string()], "e2", Language::En, ToolErrorAction::RetryWithHistory { errors }, None).is_none());
    assert_eq!(tool_results(&s)[0].1, "⚠️ bash failed 2 consecutive times, error history sent to LLM");
    match s.chat_messages().last() {
        Some(ChatMessage::User { content, .. }) => {
            assert!(content.starts_with("The tool `bash` has failed 2 consecutive times."));
            assert!(content.contains("1. e1\n\n2. e2"));
        }
        other => panic!("unexpected message: {other:?}"),
    }
}

#[test]
fn run_turn_approval_denied_completes_without_executing() {
    let mut s = session();
    s.push_assistant_tool_calls(&[call("c1", "rm", "{}")], None, None);
    s.chat_messages_mut().push(ChatMessage::system_ephemeral("temp"));
    let outcome = approval_denied_step(&mut s, "denied", Language::En);
    assert!(matches!(outcome, RunOutcome::Completed));
    assert_eq!(tool_results(&s), vec![("c1".to_string(), "❌ User rejected: denied".to_string())]);
    assert!(s.chat_messages().iter().all(|m| !m.is_ephemeral()));
}

#[test]
fn guard_decisions_act_on_the_session() {
    let mut s = session();
    let (flow, thinking) = apply_guard_decision(&mut s, GuardDecision::Continue { nudge: Some("keep going".into()) }, true);
    assert!(matches!(flow, TurnFlow::Continue));
    assert_eq!(thinking, None);
    assert!(matches!(s.chat_messages().last(), Some(ChatMessage::User { content, .. }) if content == "keep going"));
    let (flow, _) = apply_guard_decision(&mut s, GuardDecision::Complete, true);
    assert!(matches!(flow, TurnFlow::Done(RunOutcome::Completed)));
    let (flow, _) = apply_guard_decision(&mut s, GuardDecision::Fail { error: "bad".into() }, true);
    assert!(matches!(flow, TurnFlow::Done(RunOutcome::Failed { ref error }) if error == "bad"));
    let (_, thinking) = apply_guard_decision(&mut s, GuardDecision::RestoreThinking, true);
    assert_eq!(thinking, Some(false));
}

#[test]
fn nudge_and_text_only_guards() {
    let mut s = session();
    match apply_nudge_guard(&mut s, GuardAction::Done, "empty response") {
        TurnFlow::Done(RunOutcome::Failed { error }) => assert_eq!(error, "guard returned Done for empty response"),
        other => panic!("unexpected flow: {other:?}"),
    }
    assert!(matches!(apply_text_only_guard(&mut s, GuardAction::Done), TurnFlow::Done(RunOutcome::Completed)));
    assert!(matches!(apply_text_only_guard(&mut s, GuardAction::Continue("more".into())), TurnFlow::Continue));
    assert!(matches!(s.chat_messages().last(), Some(ChatMessage::User { content, .. }) if content == "more"));
}

#[test]
fn turn_context_cuts_input_and_measures_duration() {
    let long = "x".repeat(100);
    let ctx = TurnEndCtx::new(SessionId::new(9), 3, 1_000, "model-a", &long, RunOutcome::Completed);
    let t = turn_context(ctx, 1_250, 2, 1);
    assert_eq!(t.session_id, 9);
    assert_eq!(t.turn_number, 3);
    assert_eq!(t.duration_ms, 250);
    assert_eq!(t.user_input.chars().count(), 83);
    assert!(t.user_input.ends_with("..."));
    assert_eq!(t.plan_updates, 2);
    assert_eq!(t.approval_count, 1);
    let ctx = TurnEndCtx::new(SessionId::new(9), 3, 2_000, "m", "short", RunOutcome::Completed);
    let t = turn_context(ctx, 1_000, 0, 0);
    assert_eq!(t.duration_ms, 0);
    assert_eq!(t.user_input, "short");
}

#[test]
fn session_messages_push_roles() {
    let mut s = AgentSession::new(SessionId::new(2));
    s.push_message(MessageRole::Assistant, "hello");
    assert!(matches!(&s.chat_messages()[0], ChatMessage::Assistant { content: Some(c), .. } if c == "hello"));
}
