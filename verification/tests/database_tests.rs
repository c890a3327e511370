use chrono::{Duration, Utc};
use intent_database::conversation::{Conversation, Intent, Sentiment};
use intent_database::database::{IntentDatabase, DEFAULT_MATCH_THRESHOLD};
use intent_database::matcher::{list_overlap, text_overlap, Fraction};

// The caller's side of matching: the weighted similarity of two
// conversations in floating point, and the order key of a score.

fn value(f: Fraction) -> f64 {
    f.numerator as f64 / f.denominator as f64
}

fn intent_similarity(a: &Intent, b: &Intent) -> f64 {
    let mut similarity = 0.0;
    let mut weight_sum = 0.0;
    similarity += value(text_overlap(&a.purpose, &b.purpose)) * 0.5;
    weight_sum += 0.5;
    similarity += value(list_overlap(&a.topics, &b.topics)) * 0.3;
    weight_sum += 0.3;
    similarity += value(list_overlap(&a.context_tags, &b.context_tags)) * 0.2;
    weight_sum += 0.2;
    if weight_sum > 0.0 {
        similarity / weight_sum
    } else {
        0.0
    }
}

fn similarity(a: &Conversation, b: &Conversation) -> f64 {
    if a.is_expired() || b.is_expired() {
        return 0.0;
    }
    let bonus = if a.sentiment == b.sentiment { 0.1 } else { 0.0 };
    let total: f64 = intent_similarity(&a.intent, &b.intent) + bonus;
    total.min(1.0).clamp(0.0, 1.0)
}

fn key(x: f64) -> u64 {
    let x = if x == 0.0 { 0.0 } else { x };
    let bits = x.to_bits();
    if bits >> 63 == 0 {
        bits | (1u64 << 63)
    } else {
        !bits
    }
}

fn score_keys(db: &IntentDatabase, query: &Conversation) -> Vec<u64> {
    db.conversations().iter().map(|c| key(similarity(query, c))).collect()
}

fn conv(id: &str, purpose: &str) -> Conversation {
    Conversation::new(id.to_string(), Intent::new(purpose.to_string()), Sentiment::Neutral)
}

#[test]
fn test_database_store_and_get() {
    let mut db = IntentDatabase::new();
    let intent = Intent::new("Test".to_string());
    let conv = Conversation::new("test-1".to_string(), intent, Sentiment::Neutral);

    assert!(db.store(conv).is_ok());
    assert_eq!(db.len(), 1);

    let retrieved = db.get("test-1");
    assert!(retrieved.is_some());
    assert_eq!(retrieved.unwrap().id, "test-1");
}

#[test]
fn test_database_duplicate_store() {
    let mut db = IntentDatabase::new();
    let intent = Intent::new("Test".to_string());
    let conv1 = Conversation::new("test-1".to_string(), intent.clone(), Sentiment::Neutral);
    let conv2 = Conversation::new("test-1".to_string(), intent, Sentiment::Neutral);

    assert!(db.store(conv1).is_ok());
    assert!(db.store(conv2).is_err());
}

#[test]
fn test_database_remove() {
    let mut db = IntentDatabase::new();
    let intent = Intent::new("Test".to_string());
    let conv = Conversation::new("test-1".to_string(), intent, Sentiment::Neutral);

    db.store(conv).unwrap();
    assert_eq!(db.len(), 1);

    let removed = db.remove("test-1");
    assert!(removed.is_some());
    assert_eq!(db.len(), 0);
}

#[test]
fn test_database_update() {
    let mut db = IntentDatabase::new();
    let intent = Intent::new("Test".to_string());
    let mut conv = Conversation::new("test-1".to_string(), intent.clone(), Sentiment::Neutral);

    db.store(conv.clone()).unwrap();

    conv.add_metadata("key".to_string(), "value".to_string());
    assert!(db.update(conv).is_ok());

    let retrieved = db.get("test-1").unwrap();
    assert_eq!(retrieved.get_metadata("key"), Some("value".to_string()));
}

#[test]
fn test_database_update_nonexistent() {
    let mut db = IntentDatabase::new();
    let intent = Intent::new("Test".to_string());
    let conv = Conversation::new("test-1".to_string(), intent, Sentiment::Neutral);

    assert!(db.update(conv).is_err());
}

#[test]
fn test_database_find_similar() {
    let mut db = IntentDatabase::with_threshold(key(0.5));

    let intent1 = Intent::new("Get weather forecast".to_string())
        .with_topics(vec!["weather".to_string(), "temperature".to_string()]);
    let conv1 = Conversation::new("conv1".to_string(), intent1, Sentiment::Neutral);
    db.store(conv1).unwrap();

    let intent2 = Intent::new("Get weather information".to_string())
        .with_topics(vec!["weather".to_string(), "forecast".to_string()]);
    let conv2 = Conversation::new("conv2".to_string(), intent2, Sentiment::Neutral);
    db.store(conv2).unwrap();

    let intent3 = Intent::new("Order pizza".to_string()).with_topics(vec!["food".to_string()]);
    let conv3 = Conversation::new("conv3".to_string(), intent3, Sentiment::Positive);
    db.store(conv3).unwrap();

    let query_intent =
        Intent::new("Get weather".to_string()).with_topics(vec!["weather".to_string()]);
    let query = Conversation::new("query".to_string(), query_intent, Sentiment::Neutral);

    let scores = score_keys(&db, &query);
    let matches = db.find_similar(&query, &scores);
    assert!(matches.len() >= 1);
    assert!(matches.iter().any(|(id, _)| id == "conv1" || id == "conv2"));
}

#[test]
fn test_database_get_best_match() {
    let mut db = IntentDatabase::with_threshold(key(0.6));

    let intent1 = Intent::new("Get weather".to_string()).with_topics(vec!["weather".to_string()]);
    let conv1 = Conversation::new("conv1".to_string(), intent1, Sentiment::Neutral);
    db.store(conv1).unwrap();

    let intent2 = Intent::new("Order food".to_string()).with_topics(vec!["food".to_string()]);
    let conv2 = Conversation::new("conv2".to_string(), intent2, Sentiment::Positive);
    db.store(conv2).unwrap();

    let query_intent =
        Intent::new("Get weather forecast".to_string()).with_topics(vec!["weather".to_string()]);
    let query = Conversation::new("query".to_string(), query_intent, Sentiment::Neutral);

    let scores = score_keys(&db, &query);
    let best_match = db.get_best_match(&query, &scores);
    assert!(best_match.is_some());
    let (matched_id, _score) = best_match.unwrap();
    assert_eq!(matched_id, "conv1");
}

#[test]
fn test_database_cleanup_expired() {
    let mut db = IntentDatabase::new();

    let intent1 = Intent::new("Test 1".to_string());
    let expired_conv = Conversation::new("expired".to_string(), intent1, Sentiment::Neutral)
        .with_expiry((Utc::now() - Duration::hours(1)).timestamp_micros());
    db.store(expired_conv).unwrap();

    let intent2 = Intent::new("Test 2".to_string());
    let active_conv = Conversation::new("active".to_string(), intent2, Sentiment::Neutral)
        .with_expiry((Utc::now() + Duration::hours(1)).timestamp_micros());
    db.store(active_conv).unwrap();

    let intent3 = Intent::new("Test 3".to_string());
    let no_expiry_conv = Conversation::new("no-expiry".to_string(), intent3, Sentiment::Neutral);
    db.store(no_expiry_conv).unwrap();

    assert_eq!(db.len(), 3);

    let cleaned = db.cleanup_expired();
    assert_eq!(cleaned, 1);
    assert_eq!(db.len(), 2);
    assert!(db.get("expired").is_none());
    assert!(db.get("active").is_some());
    assert!(db.get("no-expiry").is_some());
}

#[test]
fn test_database_clear() {
    let mut db = IntentDatabase::new();
    let intent = Intent::new("Test".to_string());
    let conv = Conversation::new("test-1".to_string(), intent, Sentiment::Neutral);

    db.store(conv).unwrap();
    assert_eq!(db.len(), 1);

    db.clear();
    assert_eq!(db.len(), 0);
    assert!(db.is_empty());
}

#[test]
fn test_database_list_ids() {
    let mut db = IntentDatabase::new();

    let intent1 = Intent::new("Test 1".to_string());
    let conv1 = Conversation::new("id1".to_string(), intent1, Sentiment::Neutral);
    db.store(conv1).unwrap();

    let intent2 = Intent::new("Test 2".to_string());
    let conv2 = Conversation::new("id2".to_string(), intent2, Sentiment::Neutral);
    db.store(conv2).unwrap();

    let ids = db.list_ids();
    assert_eq!(ids.len(), 2);
    assert!(ids.contains(&"id1".to_string()));
    assert!(ids.contains(&"id2".to_string()));
}

#[test]
fn e2e_purge_expired_conversation() {
    let mut db = IntentDatabase::new();
    let expired_intent = Intent::new("Old fact".to_string());
    let expired_conv =
        Conversation::new("conv-expired".to_string(), expired_intent, Sentiment::Neutral)
            .with_expiry((Utc::now() - Duration::hours(1)).timestamp_micros());

    db.store(expired_conv).unwrap();
    let cleaned = db.cleanup_expired();
    assert_eq!(cleaned, 1);
    assert!(db.is_empty());
}

#[test]
fn store_error_message_names_the_id() {
    let mut db = IntentDatabase::new();
    db.store(conv("a", "x")).unwrap();
    assert_eq!(db.store(conv("a", "y")).unwrap_err(), "Conversation with id a already exists");
    assert_eq!(db.update(conv("b", "y")).unwrap_err(), "Conversation with id b does not exist");
    assert_eq!(db.len(), 1);
}

#[test]
fn read_after_write_on_concrete_values() {
    let mut db = IntentDatabase::default();
    db.store(conv("a", "first")).unwrap();
    db.store(conv("b", "second")).unwrap();
    assert_eq!(db.get("a").unwrap().intent.purpose, "first");
    db.update(conv("a", "changed")).unwrap();
    assert_eq!(db.get("a").unwrap().intent.purpose, "changed");
    assert_eq!(db.get("b").unwrap().intent.purpose, "second");
    let removed = db.remove("a").unwrap();
    assert_eq!(removed.intent.purpose, "changed");
    assert!(db.get("a").is_none());
    assert!(db.remove("a").is_none());
    assert_eq!(db.list_ids(), vec!["b".to_string()]);
}

#[test]
fn cleanup_at_an_instant_keeps_order() {
    let mut db = IntentDatabase::new();
    db.store(conv("a", "x").with_expiry(10)).unwrap();
    db.store(conv("b", "x")).unwrap();
    db.store(conv("c", "x").with_expiry(30)).unwrap();
    db.store(conv("d", "x").with_expiry(20)).unwrap();
    assert_eq!(db.cleanup_expired_at(20), 1);
    assert_eq!(db.list_ids(), vec!["b".to_string(), "c".to_string(), "d".to_string()]);
    assert_eq!(db.cleanup_expired_at(31), 2);
    assert_eq!(db.list_ids(), vec!["b".to_string()]);
}

#[test]
fn ranking_is_descending_stable_and_excludes_the_query() {
    let mut db = IntentDatabase::with_threshold(5);
    for id in ["q", "a", "b", "c", "d", "e"] {
        db.store(conv(id, "x")).unwrap();
    }
    let query = conv("q", "x");
    let scores = vec![100, 7, 9, 4, 9, 5];
    let ranked = db.find_similar(&query, &scores);
    let expected: Vec<(String, u64)> =
        vec![("b".to_string(), 9), ("d".to_string(), 9), ("a".to_string(), 7), ("e".to_string(), 5)];
    assert_eq!(ranked, expected);
    assert_eq!(db.get_best_match(&query, &scores), Some(("b".to_string(), 9)));
    assert_eq!(db.get_best_match(&query, &vec![100, 1, 2, 3, 4, 0]), None);
}

#[test]
fn default_threshold_stands_for_point_six() {
    assert_eq!(DEFAULT_MATCH_THRESHOLD, key(0.6));
    assert_eq!(IntentDatabase::new().threshold(), key(0.6));
    assert!(key(0.59) < key(0.6) && key(0.6) < key(0.61) && key(-1.0) < key(0.0));
}

#[test]
fn identical_intents_score_one() {
    let a = Intent::new("Get weather forecast".to_string())
        .with_topics(vec!["weather".to_string(), "temperature".to_string()])
        .with_context_tags(vec!["casual".to_string()]);
    assert_eq!(intent_similarity(&a, &a.clone()), 1.0);
}
