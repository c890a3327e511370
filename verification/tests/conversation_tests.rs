use chrono::{Duration, Utc};
use intent_database::conversation::{Conversation, ConversationEntry, Intent, Sentiment};

#[test]
fn test_intent_creation() {
    let intent = Intent::new("Get weather information".to_string())
        .with_topics(vec!["weather".to_string(), "forecast".to_string()])
        .with_context_tags(vec!["casual".to_string()]);

    assert_eq!(intent.purpose, "Get weather information");
    assert_eq!(intent.topics.len(), 2);
    assert_eq!(intent.context_tags.len(), 1);
}

#[test]
fn test_conversation_entry() {
    let entry = ConversationEntry::new("user".to_string(), "Hello!".to_string());
    assert_eq!(entry.role, "user");
    assert_eq!(entry.content, "Hello!");
}

#[test]
fn test_conversation_expiry() {
    let intent = Intent::new("Test".to_string());
    let mut conv = Conversation::new("test-1".to_string(), intent, Sentiment::Neutral);

    assert!(!conv.is_expired());

    let expiry = (Utc::now() - Duration::hours(1)).timestamp_micros();
    conv = conv.with_expiry(expiry);
    assert!(conv.is_expired());

    let future_expiry = (Utc::now() + Duration::hours(1)).timestamp_micros();
    conv = conv.with_expiry(future_expiry);
    assert!(!conv.is_expired());
}

#[test]
fn test_conversation_entries() {
    let intent = Intent::new("Chat".to_string());
    let mut conv = Conversation::new("test-2".to_string(), intent, Sentiment::Positive);

    conv.add_entry(ConversationEntry::new("user".to_string(), "Hello".to_string()));
    conv.add_entry(ConversationEntry::new("assistant".to_string(), "Hi there!".to_string()));

    assert_eq!(conv.entries.len(), 2);
    assert_eq!(conv.entries[0].role, "user");
    assert_eq!(conv.entries[1].role, "assistant");
}

#[test]
fn expiry_is_strictly_after_the_instant() {
    let conv = Conversation::new("e".to_string(), Intent::new("x".to_string()), Sentiment::Mixed)
        .with_expiry(1_000);
    assert!(!conv.is_expired_at(999));
    assert!(!conv.is_expired_at(1_000));
    assert!(conv.is_expired_at(1_001));
    let never = Conversation::new("n".to_string(), Intent::new("x".to_string()), Sentiment::Mixed);
    assert!(!never.is_expired_at(i64::MAX));
}

#[test]
fn metadata_read_after_write() {
    let mut conv =
        Conversation::new("m".to_string(), Intent::new("x".to_string()), Sentiment::Negative);
    assert_eq!(conv.get_metadata("key"), None);
    conv.add_metadata("key".to_string(), "value".to_string());
    conv.add_metadata("other".to_string(), "1".to_string());
    assert_eq!(conv.get_metadata("key"), Some("value".to_string()));
    conv.add_metadata("key".to_string(), "replaced".to_string());
    assert_eq!(conv.get_metadata("key"), Some("replaced".to_string()));
    assert_eq!(conv.get_metadata("other"), Some("1".to_string()));
    assert_eq!(conv.metadata.len(), 2);
}

#[test]
fn new_conversation_starts_empty() {
    let conv = Conversation::new("c".to_string(), Intent::new("p".to_string()), Sentiment::Neutral);
    assert_eq!(conv.id, "c");
    assert!(conv.entries.is_empty());
    assert!(conv.expires_at.is_none());
    assert!(conv.metadata.is_empty());
    assert_eq!(conv.sentiment, Sentiment::Neutral);
    let intent = Intent::new("p".to_string());
    assert!(intent.topics.is_empty() && intent.context_tags.is_empty());
}
