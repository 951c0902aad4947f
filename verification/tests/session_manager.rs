use agent_base::session_table::drop_oversized_last;
use agent_base::session_table::needs_turn_trim;
use agent_base::session_table::SessionTable;
use agent_base::tool_engine::apply_approval_decision;
use agent_base::tool_engine::approval_cached;
use agent_base::tool_engine::ApprovalDecision;
use agent_base::types::ChatMessage;
use agent_base::types::MessageRole;
use agent_base::types::SessionId;

#[test]
fn create_session_with_system_prompt() {
    let mut t = SessionTable::new();
    let id = SessionId::new(1);
    t.create_session(id, Some("you are helpful"), 10);
    let s = t.get(id).unwrap();
    assert_eq!(id.id, 1);
    assert_eq!(s.chat_messages().len(), 1);
    assert!(matches!(
        &s.chat_messages()[0],
        ChatMessage::System { content, .. } if content == "you are helpful"
    ));
}

#[test]
fn create_session_without_prompt_is_empty() {
    let mut t = SessionTable::new();
    t.create_session(SessionId::new(1), None, 0);
    assert!(t.get(SessionId::new(1)).unwrap().chat_messages().is_empty());
}

#[test]
fn session_returns_none_for_unknown() {
    let t = SessionTable::new();
    assert!(t.get(SessionId::new(999)).is_none());
}

#[test]
fn eviction_evicts_lru_when_at_capacity() {
    let mut t = SessionTable::new();
    let max = Some(2);
    for (i, now) in [(1u64, 10u64), (2, 20), (3, 30)] {
        if let Some(victim) = t.eviction_candidate(max) {
            t.remove(victim);
        }
        t.create_session(SessionId::new(i), Some("s"), now);
    }
    assert!(t.get(SessionId::new(1)).is_none());
    assert!(t.get(SessionId::new(2)).is_some());
    assert!(t.get(SessionId::new(3)).is_some());
    assert_eq!(t.len(), 2);
}

#[test]
fn touch_protects_recently_used_session() {
    let mut t = SessionTable::new();
    t.create_session(SessionId::new(1), None, 10);
    t.create_session(SessionId::new(2), None, 20);
    t.touch(SessionId::new(1), 30);
    assert_eq!(t.lru_victim(), Some(SessionId::new(2)));
    assert_eq!(t.eviction_candidate(None), None);
    assert_eq!(t.eviction_candidate(Some(3)), None);
    assert_eq!(t.eviction_candidate(Some(2)), Some(SessionId::new(2)));
}

#[test]
fn with_session_mut_applies_closure() {
    let mut t = SessionTable::new();
    let id = SessionId::new(7);
    t.create_session(id, Some("sys"), 1);
    t.get_mut(id).unwrap().push_message(MessageRole::User, "hello");
    assert_eq!(t.get(id).unwrap().chat_messages().len(), 2);
    assert!(t.get_mut(SessionId::new(8)).is_none());
}

#[test]
fn turn_trimming_enforced_after_mutation() {
    let mut t = SessionTable::new();
    let id = SessionId::new(1);
    t.create_session(id, None, 0);
    let s = t.get_mut(id).unwrap();
    s.push_message(MessageRole::User, "u1");
    s.push_message(MessageRole::Assistant, "a1");
    s.push_message(MessageRole::User, "u2");
    s.push_message(MessageRole::Assistant, "a2");
    assert!(needs_turn_trim(s, Some(1)));
    assert!(!needs_turn_trim(s, Some(2)));
    assert!(!needs_turn_trim(s, None));
    s.trim_oldest_turns(1);
    assert_eq!(t.get(id).unwrap().turn_count(), 1);
}

#[test]
fn oversized_message_removed_after_mutation() {
    let mut t = SessionTable::new();
    let id = SessionId::new(1);
    t.create_session(id, None, 0);
    let big = "x".repeat(200);
    let s = t.get_mut(id).unwrap();
    s.push_message(MessageRole::User, &big);
    assert!(!drop_oversized_last(s, None, 50));
    assert!(!drop_oversized_last(s, Some(100), 50));
    assert!(drop_oversized_last(s, Some(10), 50));
    assert!(t.get(id).unwrap().chat_messages().is_empty());
}

#[test]
fn approval_cache_roundtrip() {
    let mut t = SessionTable::new();
    let id = SessionId::new(1);
    t.create_session(id, None, 0);
    let s = t.get_mut(id).unwrap();
    assert!(!approval_cached(s, Some("read_file")));
    apply_approval_decision(s, "read", Some("read_file"), Some(ApprovalDecision::AllowAlways)).unwrap();
    assert!(approval_cached(s, Some("read_file")));
    assert!(!approval_cached(s, None));
}

#[test]
fn restore_session_cache_hit() {
    let mut t = SessionTable::new();
    let id = SessionId::new(3);
    t.create_session(id, Some("sys"), 5);
    let copy = t.get(id).unwrap().chat_messages().to_vec();
    let removed = t.remove(id).unwrap();
    assert_eq!(removed.chat_messages().len(), copy.len());
    assert!(t.get(id).is_none());
    t.insert(id, removed, 6);
    assert_eq!(t.get(id).unwrap().chat_messages().len(), 1);
    assert_eq!(t.remove(SessionId::new(99)).map(|_| ()), None);
}
