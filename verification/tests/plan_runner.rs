use agent_base::runtime::AgentRuntime;

#[test]
fn test_cancel_token_initial_state() {
    let mut rt = AgentRuntime::new(None);
    let token = rt.cancel_token();
    assert!(!token.is_cancelled());
    assert!(!rt.is_cancelled());

    rt.cancel();
    assert!(rt.is_cancelled());
    assert!(token.is_cancelled());
}

#[test]
fn test_cancel_token_reset() {
    let mut rt = AgentRuntime::new(None);
    rt.cancel();
    assert!(rt.is_cancelled());

    rt.reset_cancel();
    assert!(!rt.is_cancelled());
}

#[test]
fn reset_cancel_gives_a_fresh_token_and_old_handles_stay_cancelled() {
    let mut rt = AgentRuntime::new(None);
    let old = rt.cancel_token();
    rt.cancel();
    assert!(rt.is_cancelled());
    assert!(old.is_cancelled());
    rt.reset_cancel();
    assert!(!rt.is_cancelled());
    assert!(old.is_cancelled());
    let fresh = rt.cancel_token();
    assert!(fresh != old);
    assert!(!fresh.is_cancelled());
    fresh.cancel();
    assert!(rt.is_cancelled());
}
