use airp_core::adapter::{ChatMessage, MessageRole};
use airp_core::chat_store::ChatLog;

#[test]
fn new_log_keeps_what_it_is_given() {
    let log = ChatLog::new("alice", "0f8fad5b-d9cb-469f-a165-70867728950e".to_string(), "2024-01-02T03:04:05+00:00".to_string());
    assert_eq!(log.character_id, "alice");
    assert_eq!(log.session_id, "0f8fad5b-d9cb-469f-a165-70867728950e");
    assert_eq!(log.created_at, "2024-01-02T03:04:05+00:00");
    assert_eq!(log.updated_at, log.created_at);
    assert!(log.messages.is_empty());
}

#[test]
fn append_then_recent_gives_the_message() {
    let mut log = ChatLog::new("bob", "s".to_string(), "t0".to_string());
    let rewrite = log.append(ChatMessage { role: MessageRole::User, content: "hi".to_string() }, "t1".to_string());
    assert!(!rewrite);
    assert_eq!(log.updated_at, "t1");
    assert_eq!(log.recent(1), vec![ChatMessage { role: MessageRole::User, content: "hi".to_string() }]);
}
