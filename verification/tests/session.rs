use agent_base::session::validate_message_sequence;
use agent_base::session::AgentSession;
use agent_base::session::RunState;
use agent_base::types::ChatMessage;
use agent_base::types::ImageAttachment;
use agent_base::types::MessageRole;
use agent_base::types::SessionId;
use agent_base::types::ToolCallMessage;

fn make_session() -> AgentSession {
    AgentSession::new(SessionId::new(1))
}

fn opt_count(v: &serde_json::Value, key: &str) -> Option<usize> {
    v.get(key).and_then(|x| x.as_u64()).map(|x| x as usize)
}

/// Rebuilds a session from a stored JSON record, old flat format or new.
fn load(json: &str) -> AgentSession {
    let v: serde_json::Value = serde_json::from_str(json).unwrap();
    let nested = v.get("run_state").filter(|x| !x.is_null()).map(|rs| RunState {
        turn_tool_calls: opt_count(rs, "turn_tool_calls").unwrap(),
        run_has_tool_calls: rs["run_has_tool_calls"].as_bool().unwrap(),
        reasoning_only_strikes: opt_count(rs, "reasoning_only_strikes").unwrap(),
        empty_response_strikes: opt_count(rs, "empty_response_strikes").unwrap(),
        nudge_count: opt_count(rs, "nudge_count").unwrap(),
    });
    let run_state = RunState::from_stored(
        nested,
        opt_count(&v, "nudge_count"),
        opt_count(&v, "turn_tool_calls"),
        opt_count(&v, "reasoning_only_strikes"),
        opt_count(&v, "empty_response_strikes"),
    );
    let id = v["id"].as_u64().map(SessionId::new);
    AgentSession::restore(
        id,
        Vec::new(),
        Vec::new(),
        opt_count(&v, "total_tool_calls").unwrap(),
        run_state,
    )
}

#[test]
fn test_turn_count_empty() {
    let s = make_session();
    assert_eq!(s.turn_count(), 0);
}

#[test]
fn test_turn_count_with_system_and_user() {
    let mut s = make_session();
    s.push_message(MessageRole::System, "system");
    assert_eq!(s.turn_count(), 0);
    s.push_message(MessageRole::User, "hello");
    assert_eq!(s.turn_count(), 1);
    s.push_message(MessageRole::Assistant, "hi");
    assert_eq!(s.turn_count(), 1);
    s.push_message(MessageRole::User, "bye");
    assert_eq!(s.turn_count(), 2);
}

#[test]
fn test_turn_count_with_tool_calls() {
    let mut s = make_session();
    s.push_message(MessageRole::User, "do something");
    s.push_assistant_tool_calls(&[("id1".into(), "tool".into(), "{}".into())], None, None);
    s.push_tool_result("id1", "result");
    s.push_message(MessageRole::Assistant, "done");
    assert_eq!(s.turn_count(), 1);
}

#[test]
fn test_trim_oldest_turns_noop() {
    let mut s = make_session();
    s.push_message(MessageRole::User, "hello");
    s.push_message(MessageRole::Assistant, "hi");
    s.trim_oldest_turns(5);
    assert_eq!(s.turn_count(), 1);
    assert_eq!(s.chat_messages().len(), 2);
}

#[test]
fn test_trim_oldest_turns_removes_old() {
    let mut s = make_session();
    s.push_message(MessageRole::System, "sys");
    s.push_message(MessageRole::User, "u1");
    s.push_message(MessageRole::Assistant, "a1");
    s.push_message(MessageRole::User, "u2");
    s.push_message(MessageRole::Assistant, "a2");
    s.push_message(MessageRole::User, "u3");
    s.push_message(MessageRole::Assistant, "a3");

    s.trim_oldest_turns(2);
    assert_eq!(s.turn_count(), 2);
    assert!(matches!(s.chat_messages()[0], ChatMessage::System { .. }));
    assert!(
        matches!(s.chat_messages()[1], ChatMessage::User { ref content, .. } if content == "u2")
    );
}

#[test]
fn test_trim_oldest_turns_with_tool_calls() {
    let mut s = make_session();
    s.push_message(MessageRole::User, "u1");
    s.push_assistant_tool_calls(&[("id1".into(), "t".into(), "{}".into())], None, None);
    s.push_tool_result("id1", "r1");
    s.push_message(MessageRole::Assistant, "a1");
    s.push_message(MessageRole::User, "u2");
    s.push_message(MessageRole::Assistant, "a2");

    let msg_before = s.simple_messages().len();
    let chat_before = s.chat_messages().len();
    s.trim_oldest_turns(1);
    assert_eq!(s.turn_count(), 1);
    assert_eq!(s.chat_messages().len(), chat_before - 4);
    assert_eq!(s.simple_messages().len(), msg_before - 3);
}

#[test]
fn test_pop_last_message_text() {
    let mut s = make_session();
    s.push_message(MessageRole::User, "hello");
    s.push_message(MessageRole::Assistant, "hi");
    assert_eq!(s.chat_messages().len(), 2);
    s.pop_last_message();
    assert_eq!(s.chat_messages().len(), 1);
    assert_eq!(s.simple_messages().len(), 1);
}

#[test]
fn test_pop_last_message_tool_calls_only() {
    let mut s = make_session();
    s.push_message(MessageRole::User, "do it");
    s.push_assistant_tool_calls(&[("id1".into(), "t".into(), "{}".into())], None, None);
    assert_eq!(s.chat_messages().len(), 2);
    assert_eq!(s.simple_messages().len(), 1);
    s.pop_last_message();
    assert_eq!(s.chat_messages().len(), 1);
    assert_eq!(s.simple_messages().len(), 1);
}

#[test]
fn test_pop_last_message_empty_session() {
    let mut s = make_session();
    s.pop_last_message();
    assert_eq!(s.chat_messages().len(), 0);
}

#[test]
fn test_id_and_action_allowlist() {
    let mut s = make_session();
    assert_eq!(s.id(), Some(SessionId::new(1)));
    assert!(!s.is_action_allowed("approve:rm"));
    s.allow_action("approve:rm");
    assert!(s.is_action_allowed("approve:rm"));
    assert!(!s.is_action_allowed("approve:shell"));
}

#[test]
fn test_chat_messages_mut() {
    let mut s = make_session();
    s.chat_messages_mut().push(ChatMessage::user("direct"));
    assert_eq!(s.chat_messages().len(), 1);
}

#[test]
fn test_push_message_tool_role() {
    let mut s = make_session();
    s.push_message(MessageRole::Tool, "result");
    assert!(matches!(s.chat_messages()[0], ChatMessage::Tool { .. }));
}

#[test]
fn test_push_assistant_with_reasoning() {
    let mut s = make_session();
    s.push_assistant_with_reasoning("answer", "thinking");
    match &s.chat_messages()[0] {
        ChatMessage::Assistant {
            content,
            reasoning_content,
            ..
        } => {
            assert_eq!(content.as_deref(), Some("answer"));
            assert_eq!(reasoning_content.as_deref(), Some("thinking"));
        }
        other => panic!("unexpected message: {other:?}"),
    }
}

#[test]
fn test_push_user_message_with_images() {
    let mut s = make_session();
    s.push_user_message_with_images(
        "look",
        vec![ImageAttachment::Url {
            url: "http://x".into(),
            detail: None,
        }],
    );
    match &s.chat_messages()[0] {
        ChatMessage::User { images, .. } => assert_eq!(images.len(), 1),
        other => panic!("unexpected message: {other:?}"),
    }
}

#[test]
fn test_push_assistant_tool_call_singular() {
    let mut s = make_session();
    s.push_assistant_tool_call("call_1", "bash", "{}");
    match &s.chat_messages()[0] {
        ChatMessage::Assistant {
            tool_calls: Some(tc),
            ..
        } => {
            assert_eq!(tc.len(), 1);
            assert_eq!(tc[0].id, "call_1");
            assert_eq!(tc[0].name, "bash");
        }
        other => panic!("unexpected message: {other:?}"),
    }
}

#[test]
fn test_simple_messages_filters_empty_content_tool_calls() {
    let mut s = make_session();
    s.chat_messages_mut().push(ChatMessage::Assistant {
        content: Some(String::new()),
        reasoning_content: None,
        tool_calls: Some(vec![ToolCallMessage {
            id: "c".into(),
            name: "t".into(),
            arguments: "{}".into(),
        }]),
        thinking_signature: None,
    });
    assert!(s.simple_messages().is_empty());
}

#[test]
fn test_remove_ephemeral_messages() {
    let mut s = make_session();
    s.push_message(MessageRole::System, "keep");
    s.chat_messages_mut().push(ChatMessage::user_ephemeral("temp"));
    s.chat_messages_mut().push(ChatMessage::system_ephemeral("temp2"));
    s.push_message(MessageRole::User, "keep2");
    assert_eq!(s.chat_messages().len(), 4);
    s.remove_ephemeral_messages();
    assert_eq!(s.chat_messages().len(), 2);
    assert!(s.chat_messages().iter().all(|m| !m.is_ephemeral()));
}

#[test]
fn test_close_dangling_tool_calls_noop_without_tool_call() {
    let mut s = make_session();
    s.push_message(MessageRole::User, "hi");
    s.push_message(MessageRole::Assistant, "hi");
    s.close_dangling_tool_calls("failed");
    assert_eq!(s.chat_messages().len(), 2);
}

#[test]
fn test_close_dangling_tool_calls_adds_missing_results() {
    let mut s = make_session();
    s.push_message(MessageRole::User, "do");
    s.push_assistant_tool_calls(
        &[
            ("c1".into(), "t".into(), "{}".into()),
            ("c2".into(), "t".into(), "{}".into()),
        ],
        None,
        None,
    );
    s.push_tool_result("c1", "ok");
    s.close_dangling_tool_calls("failed");

    let tool_results: Vec<(String, String)> = s
        .chat_messages()
        .iter()
        .filter_map(|m| match m {
            ChatMessage::Tool {
                tool_call_id,
                name: _,
                content,
            } => Some((tool_call_id.clone(), content.clone())),
            _ => None,
        })
        .collect();
    assert_eq!(tool_results.len(), 2);
    assert!(tool_results.iter().any(|(id, c)| id == "c2" && c == "failed"));
}

#[test]
fn test_set_chat_messages_recalculates_total_tool_calls() {
    let mut s = make_session();
    let msgs = vec![
        ChatMessage::user("do"),
        ChatMessage::assistant_tool_call("c1", "t", "{}"),
        ChatMessage::tool("c1", "result"),
    ];
    s.set_chat_messages(msgs).unwrap();
    assert_eq!(s.total_tool_calls, 1);
}

#[test]
fn test_valid_simple_sequence() {
    let msgs = vec![ChatMessage::user("hello"), ChatMessage::assistant("hi")];
    assert!(validate_message_sequence(&msgs).is_ok());
}

#[test]
fn test_valid_tool_call_sequence() {
    let msgs = vec![
        ChatMessage::user("run command"),
        ChatMessage::assistant_tool_call("call_1", "bash", r#"{"cmd":"ls"}"#),
        ChatMessage::tool("call_1", "file1 file2"),
        ChatMessage::assistant("done"),
    ];
    assert!(validate_message_sequence(&msgs).is_ok());
}

#[test]
fn test_valid_multi_tool_call_sequence() {
    let msgs = vec![
        ChatMessage::user("run commands"),
        ChatMessage::Assistant {
            content: None,
            reasoning_content: None,
            tool_calls: Some(vec![
                ToolCallMessage {
                    id: "call_1".into(),
                    name: "bash".into(),
                    arguments: "{}".into(),
                },
                ToolCallMessage {
                    id: "call_2".into(),
                    name: "read".into(),
                    arguments: "{}".into(),
                },
            ]),
            thinking_signature: None,
        },
        ChatMessage::tool("call_1", "result1"),
        ChatMessage::tool("call_2", "result2"),
        ChatMessage::assistant("done"),
    ];
    assert!(validate_message_sequence(&msgs).is_ok());
}

#[test]
fn test_orphaned_tool_result() {
    let msgs = vec![
        ChatMessage::user("hello"),
        ChatMessage::tool("call_1", "orphaned result"),
    ];
    let err = validate_message_sequence(&msgs).unwrap_err();
    assert!(err.contains("no preceding tool_call"));
}

#[test]
fn test_mismatched_tool_call_id() {
    let msgs = vec![
        ChatMessage::user("run"),
        ChatMessage::assistant_tool_call("call_1", "bash", "{}"),
        ChatMessage::tool("call_2", "wrong id"),
    ];
    let err = validate_message_sequence(&msgs).unwrap_err();
    assert!(err.contains("does not match"));
}

#[test]
fn test_set_chat_messages_valid() {
    let mut s = make_session();
    let msgs = vec![ChatMessage::user("hello"), ChatMessage::assistant("hi")];
    assert!(s.set_chat_messages(msgs.clone()).is_ok());
    assert_eq!(s.chat_messages().len(), 2);
}

#[test]
fn test_set_chat_messages_invalid() {
    let mut s = make_session();
    let msgs = vec![ChatMessage::tool("call_1", "orphaned")];
    assert!(s.set_chat_messages(msgs).is_err());
}

#[test]
fn run_state_default() {
    let rs = RunState::default();
    assert_eq!(rs.turn_tool_calls, 0);
    assert!(!rs.run_has_tool_calls);
    assert_eq!(rs.reasoning_only_strikes, 0);
    assert_eq!(rs.empty_response_strikes, 0);
    assert_eq!(rs.nudge_count, 0);
}

#[test]
fn run_state_reset_for_new_run() {
    let mut rs = RunState {
        turn_tool_calls: 5,
        run_has_tool_calls: true,
        reasoning_only_strikes: 2,
        empty_response_strikes: 1,
        nudge_count: 3,
    };

    rs.reset_for_new_run();

    assert_eq!(rs.turn_tool_calls, 0);
    assert!(!rs.run_has_tool_calls);
    assert_eq!(rs.reasoning_only_strikes, 0);
    assert_eq!(rs.empty_response_strikes, 0);
    assert_eq!(rs.nudge_count, 0);
}

#[test]
fn run_state_record_tool_calls() {
    let mut rs = RunState {
        reasoning_only_strikes: 2,
        empty_response_strikes: 1,
        ..RunState::default()
    };

    rs.record_tool_calls(3);

    assert_eq!(rs.turn_tool_calls, 3);
    assert!(rs.run_has_tool_calls);
    assert_eq!(rs.reasoning_only_strikes, 0);
    assert_eq!(rs.empty_response_strikes, 0);
}

#[test]
fn run_state_record_tool_calls_accumulates() {
    let mut rs = RunState::default();
    rs.record_tool_calls(2);
    rs.record_tool_calls(3);

    assert_eq!(rs.turn_tool_calls, 5);
    assert!(rs.run_has_tool_calls);
}

#[test]
fn run_state_record_reasoning_only() {
    let mut rs = RunState {
        empty_response_strikes: 2,
        ..RunState::default()
    };

    let strikes = rs.record_reasoning_only();

    assert_eq!(strikes, 1);
    assert_eq!(rs.reasoning_only_strikes, 1);
    assert_eq!(rs.empty_response_strikes, 0);
}

#[test]
fn run_state_record_reasoning_only_consecutive() {
    let mut rs = RunState::default();

    assert_eq!(rs.record_reasoning_only(), 1);
    assert_eq!(rs.record_reasoning_only(), 2);
    assert_eq!(rs.record_reasoning_only(), 3);
}

#[test]
fn run_state_record_empty_response() {
    let mut rs = RunState {
        reasoning_only_strikes: 2,
        ..RunState::default()
    };

    let strikes = rs.record_empty_response();

    assert_eq!(strikes, 1);
    assert_eq!(rs.empty_response_strikes, 1);
    assert_eq!(rs.reasoning_only_strikes, 0);
}

#[test]
fn run_state_record_empty_response_consecutive() {
    let mut rs = RunState::default();

    assert_eq!(rs.record_empty_response(), 1);
    assert_eq!(rs.record_empty_response(), 2);
    assert_eq!(rs.record_empty_response(), 3);
}

#[test]
fn run_state_branch_cross_reset() {
    let mut rs = RunState::default();

    rs.record_reasoning_only();
    assert_eq!(rs.reasoning_only_strikes, 1);

    rs.record_tool_calls(2);
    assert_eq!(rs.reasoning_only_strikes, 0);
    assert_eq!(rs.turn_tool_calls, 2);

    let strikes = rs.record_reasoning_only();
    assert_eq!(strikes, 1);
}

#[test]
fn run_state_empty_to_reasoning_reset() {
    let mut rs = RunState::default();

    rs.record_empty_response();
    rs.record_empty_response();
    assert_eq!(rs.empty_response_strikes, 2);

    rs.record_reasoning_only();
    assert_eq!(rs.empty_response_strikes, 0);
    assert_eq!(rs.reasoning_only_strikes, 1);
}

#[test]
fn deserialize_legacy_flat_fields() {
    let json = r#"{
        "id": null,
        "chat_messages": [],
        "always_allowed_actions": [],
        "total_tool_calls": 5,
        "nudge_count": 3,
        "turn_tool_calls": 2,
        "reasoning_only_strikes": 1,
        "empty_response_strikes": 0
    }"#;
    let session = load(json);
    assert_eq!(session.run_state.nudge_count, 3);
    assert_eq!(session.run_state.turn_tool_calls, 2);
    assert_eq!(session.run_state.reasoning_only_strikes, 1);
    assert_eq!(session.run_state.empty_response_strikes, 0);
    assert!(!session.run_state.run_has_tool_calls);
}

#[test]
fn deserialize_new_run_state_format() {
    let json = r#"{
        "id": null,
        "chat_messages": [],
        "always_allowed_actions": [],
        "total_tool_calls": 5,
        "run_state": {
            "turn_tool_calls": 4,
            "run_has_tool_calls": true,
            "reasoning_only_strikes": 0,
            "empty_response_strikes": 1,
            "nudge_count": 2
        }
    }"#;
    let session = load(json);
    assert_eq!(session.run_state.turn_tool_calls, 4);
    assert!(session.run_state.run_has_tool_calls);
    assert_eq!(session.run_state.empty_response_strikes, 1);
    assert_eq!(session.run_state.nudge_count, 2);
}

#[test]
fn deserialize_run_state_takes_precedence_over_flat() {
    let json = r#"{
        "id": null,
        "chat_messages": [],
        "always_allowed_actions": [],
        "total_tool_calls": 0,
        "run_state": {
            "turn_tool_calls": 10,
            "run_has_tool_calls": true,
            "reasoning_only_strikes": 0,
            "empty_response_strikes": 0,
            "nudge_count": 0
        },
        "nudge_count": 99,
        "turn_tool_calls": 99
    }"#;
    let session = load(json);
    assert_eq!(session.run_state.turn_tool_calls, 10);
    assert_eq!(session.run_state.nudge_count, 0);
}

#[test]
fn deserialize_legacy_missing_optional_fields() {
    let json = r#"{
        "id": null,
        "chat_messages": [],
        "always_allowed_actions": [],
        "total_tool_calls": 0,
        "nudge_count": 1
    }"#;
    let session = load(json);
    assert_eq!(session.run_state.nudge_count, 1);
    assert_eq!(session.run_state.turn_tool_calls, 0);
    assert_eq!(session.run_state.reasoning_only_strikes, 0);
    assert_eq!(session.run_state.empty_response_strikes, 0);
}

#[test]
fn roundtrip_preserves_run_state() {
    let mut session = AgentSession::new(SessionId::new(1));
    session.run_state.nudge_count = 5;
    session.run_state.turn_tool_calls = 3;
    session.run_state.run_has_tool_calls = true;
    session.run_state.reasoning_only_strikes = 2;

    let restored = AgentSession::restore(
        session.id(),
        session.chat_messages().to_vec(),
        session.allowed_actions().to_vec(),
        session.total_tool_calls,
        RunState::from_stored(Some(session.run_state_copy()), None, None, None, None),
    );
    assert_eq!(restored.run_state.nudge_count, 5);
    assert_eq!(restored.run_state.turn_tool_calls, 3);
    assert!(restored.run_state.run_has_tool_calls);
    assert_eq!(restored.run_state.reasoning_only_strikes, 2);
}

#[test]
fn push_assistant_tool_calls_validates_json_args() {
    let mut s = make_session();

    let valid_args = r#"{"path": "src/main.rs", "content": "fn main() {}"}"#;
    s.push_assistant_tool_calls(
        &[("id1".into(), "write_file".into(), valid_args.into())],
        None,
        None,
    );
    if let ChatMessage::Assistant { tool_calls: Some(ref tc), .. } = s.chat_messages()[0] {
        assert_eq!(tc[0].arguments, valid_args);
    } else {
        panic!("expected Assistant message with tool_calls");
    }

    let truncated_args = r#"{"path": "src/ui/markdown.rs", "content": "#;
    s.push_assistant_tool_calls(
        &[("id2".into(), "write_file".into(), truncated_args.into())],
        None,
        None,
    );
    if let ChatMessage::Assistant { tool_calls: Some(ref tc), .. } = s.chat_messages()[1] {
        let parsed: serde_json::Value = serde_json::from_str(&tc[0].arguments)
            .expect("wrapped arguments should be valid JSON");
        assert_eq!(parsed["error"], "tool_call_arguments_truncated");
        assert!(parsed["message"].as_str().unwrap().contains("truncated"));
    } else {
        panic!("expected Assistant message with tool_calls");
    }
}

#[test]
fn push_assistant_tool_calls_truncated_multibyte_no_panic() {
    let mut s = make_session();

    let mut bad_args = "あ".repeat(70);
    bad_args.push_str("truncated");

    s.push_assistant_tool_calls(&[("id1".into(), "tool".into(), bad_args)], None, None);

    if let ChatMessage::Assistant { tool_calls: Some(ref tc), .. } = s.chat_messages()[0] {
        let parsed: serde_json::Value = serde_json::from_str(&tc[0].arguments)
            .expect("wrapped arguments should be valid JSON even with multibyte chars");
        assert_eq!(parsed["error"], "tool_call_arguments_truncated");
    } else {
        panic!("expected Assistant message with tool_calls");
    }
}

#[test]
fn reset_for_new_run_zeros_all_fields() {
    for (t, h, r, e, n) in [(0usize, false, 0usize, 0usize, 0usize), (999, true, 99, 42, 7)] {
        let mut rs = RunState {
            turn_tool_calls: t,
            run_has_tool_calls: h,
            reasoning_only_strikes: r,
            empty_response_strikes: e,
            nudge_count: n,
        };
        rs.reset_for_new_run();
        assert_eq!(rs, RunState::default());
    }
}

#[test]
fn record_reasoning_only_increments() {
    let mut rs = RunState::default();
    for i in 1..=49 {
        assert_eq!(rs.record_reasoning_only(), i);
        assert_eq!(rs.empty_response_strikes, 0);
    }
}

#[test]
fn push_assistant_tool_calls_valid_json_unchanged() {
    for args in ["{}", r#"{"a": 1}"#, r#"{"k": "v", "n": [1, 2]}"#] {
        let mut s = make_session();
        s.push_assistant_tool_calls(&[("id".into(), "tool".into(), args.to_string())], None, None);
        if let ChatMessage::Assistant { tool_calls: Some(ref tc), .. } = s.chat_messages()[0] {
            assert_eq!(tc[0].arguments, args);
        } else {
            panic!("expected Assistant with tool_calls");
        }
    }
}

#[test]
fn push_assistant_tool_calls_invalid_json_wrapped_safely() {
    let long = "中".repeat(300);
    for bad_args in ["abc", "", "{", long.as_str()] {
        let mut s = make_session();
        s.push_assistant_tool_calls(&[("id".into(), "tool".into(), bad_args.to_string())], None, None);
        if let ChatMessage::Assistant { tool_calls: Some(ref tc), .. } = s.chat_messages()[0] {
            let parsed: serde_json::Value =
                serde_json::from_str(&tc[0].arguments).expect("wrapped args must be valid JSON");
            assert_eq!(parsed["error"], "tool_call_arguments_truncated");
        } else {
            panic!("expected Assistant with tool_calls");
        }
    }
}

#[test]
fn trim_oldest_turns_never_exceeds_max() {
    for turns in [1usize, 5, 19] {
        for max in [1usize, 3, 19] {
            let mut s = make_session();
            for i in 0..turns {
                s.push_message(MessageRole::User, &format!("u{}", i));
                s.push_message(MessageRole::Assistant, &format!("a{}", i));
            }
            s.trim_oldest_turns(max);
            assert!(s.turn_count() <= max || turns <= max);
        }
    }
}

#[test]
fn validate_simple_user_assistant_always_passes() {
    let mut msgs = Vec::new();
    for i in 0..19 {
        msgs.push(ChatMessage::user(&format!("msg{}", i)));
        msgs.push(ChatMessage::assistant(&format!("reply{}", i)));
    }
    assert!(validate_message_sequence(&msgs).is_ok());
}

#[test]
fn default_session_has_no_identity() {
    let s = AgentSession::default();
    assert_eq!(s.id(), None);
    assert_eq!(s.turn_count(), 0);
    assert_eq!(s.total_tool_calls, 0);
}
