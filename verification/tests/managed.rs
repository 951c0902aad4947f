use agent_base::session::AgentSession;
use agent_base::session::RunState;
use agent_base::turn::after_inner_loop;
use agent_base::turn::begin_managed_run;
use agent_base::turn::managed_turn_cap;
use agent_base::turn::run_end;
use agent_base::turn::ManagedStep;
use agent_base::turn::RunEnd;
use agent_base::types::AgentError;
use agent_base::types::ChatMessage;
use agent_base::types::MessageRole;
use agent_base::types::RunOutcome;
use agent_base::types::SessionId;

#[test]
fn run_managed_processes_follow_up_messages() {
    let mut s = AgentSession::new(SessionId::new(1));
    begin_managed_run(&mut s, "first");
    assert_eq!(s.run_state, RunState::default());
    let mut total = 0u32;
    let step = after_inner_loop(&mut s, &mut total, 2, RunOutcome::Completed, &vec!["again".to_string()]);
    assert!(matches!(step, ManagedStep::RunAgain));
    assert_eq!(total, 2);
    assert_eq!(s.user_inputs(), vec!["first".to_string(), "again".to_string()]);

    let step = after_inner_loop(&mut s, &mut total, 1, RunOutcome::Completed, &vec![]);
    assert!(matches!(step, ManagedStep::Finish(RunOutcome::Completed)));
    assert_eq!(total, 3);
    assert_eq!(s.chat_messages().len(), 2);
}

#[test]
fn run_managed_max_turns_exceeded() {
    assert!(managed_turn_cap(3, 5).is_none());
    assert!(matches!(managed_turn_cap(5, 5), Some(RunOutcome::MaxTurnsExceeded { turns: 5 })));
    assert!(matches!(managed_turn_cap(7, 5), Some(RunOutcome::MaxTurnsExceeded { turns: 7 })));
}

#[test]
fn run_turn_cancel_does_not_emit_runfinished() {
    assert_eq!(run_end(&Ok(RunOutcome::Cancelled)), RunEnd::Cancelled);
    assert_eq!(run_end(&Err(AgentError::Cancelled)), RunEnd::Cancelled);
    assert_eq!(run_end(&Ok(RunOutcome::Completed)), RunEnd::Finished);
    assert_eq!(run_end(&Err(AgentError::internal("x"))), RunEnd::Finished);
}

#[test]
fn user_inputs_lists_user_messages_in_order() {
    let mut s = AgentSession::new(SessionId::new(1));
    s.push_message(MessageRole::System, "sys");
    s.push_message(MessageRole::User, "u1");
    s.push_message(MessageRole::Assistant, "a1");
    s.chat_messages_mut().push(ChatMessage::user_ephemeral("u2"));
    assert_eq!(s.user_inputs(), vec!["u1".to_string(), "u2".to_string()]);
}
