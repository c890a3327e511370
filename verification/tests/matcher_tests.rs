use intent_database::conversation::{Conversation, Intent, Sentiment};
use intent_database::matcher::{list_overlap, text_overlap, Fraction};
use intent_database::ranking::rank_matches;
use intent_database::text::{count_shared_words, split_whitespace, words_of};

fn value(f: Fraction) -> f64 {
    f.numerator as f64 / f.denominator as f64
}

/// The weighted score that callers compute from the library's fractions
/// (purpose 0.5, topics 0.3, context tags 0.2); it supplies score keys here.
fn intent_similarity(a: &Intent, b: &Intent) -> f64 {
    let mut similarity = 0.0;
    let mut weight_sum = 0.0;
    similarity += value(text_overlap(&a.purpose, &b.purpose)) * 0.5;
    weight_sum += 0.5;
    similarity += value(list_overlap(&a.topics, &b.topics)) * 0.3;
    weight_sum += 0.3;
    similarity += value(list_overlap(&a.context_tags, &b.context_tags)) * 0.2;
    weight_sum += 0.2;
    similarity / weight_sum
}

fn similarity(a: &Conversation, b: &Conversation) -> f64 {
    if a.is_expired() || b.is_expired() {
        return 0.0;
    }
    let bonus = if a.sentiment == b.sentiment { 0.1 } else { 0.0 };
    let total: f64 = intent_similarity(&a.intent, &b.intent) + bonus;
    total.min(1.0).clamp(0.0, 1.0)
}

#[test]
fn test_text_similarity() {
    let sim1 = value(text_overlap("hello world", "hello world"));
    assert_eq!(sim1, 1.0);

    let sim2 = value(text_overlap("hello world", "goodbye moon"));
    assert_eq!(sim2, 0.0);

    let sim3 = value(text_overlap("hello world", "hello there"));
    assert!(sim3 > 0.0 && sim3 < 1.0);
}

#[test]
fn test_intent_similarity() {
    let intent1 = Intent::new("Get weather forecast".to_string())
        .with_topics(vec!["weather".to_string(), "temperature".to_string()])
        .with_context_tags(vec!["casual".to_string()]);

    let intent2 = Intent::new("Get weather forecast".to_string())
        .with_topics(vec!["weather".to_string(), "temperature".to_string()])
        .with_context_tags(vec!["casual".to_string()]);

    // every part of the two intents agrees completely
    let f = |n, d| Fraction { numerator: n, denominator: d };
    assert_eq!(text_overlap(&intent1.purpose, &intent2.purpose), f(3, 3));
    assert_eq!(list_overlap(&intent1.topics, &intent2.topics), f(2, 2));
    assert_eq!(list_overlap(&intent1.context_tags, &intent2.context_tags), f(1, 1));
    assert_eq!(intent_similarity(&intent1, &intent2), 1.0);
}

#[test]
fn test_conversation_similarity() {
    let intent1 = Intent::new("Get weather".to_string()).with_topics(vec!["weather".to_string()]);
    let intent2 = Intent::new("Get weather".to_string()).with_topics(vec!["weather".to_string()]);

    let conv1 = Conversation::new("c1".to_string(), intent1, Sentiment::Neutral);
    let conv2 = Conversation::new("c2".to_string(), intent2, Sentiment::Neutral);

    // same purpose, same topics, no tags on either side, same sentiment
    let f = |n, d| Fraction { numerator: n, denominator: d };
    assert_eq!(text_overlap(&conv1.intent.purpose, &conv2.intent.purpose), f(2, 2));
    assert_eq!(list_overlap(&conv1.intent.topics, &conv2.intent.topics), f(1, 1));
    assert_eq!(list_overlap(&conv1.intent.context_tags, &conv2.intent.context_tags), f(1, 1));
    assert_eq!(conv1.sentiment, conv2.sentiment);
    assert!(!conv1.is_expired() && !conv2.is_expired());
    let score = similarity(&conv1, &conv2);
    assert!(score > 0.8);
}

#[test]
fn text_overlap_exact_fractions() {
    let f = |n, d| Fraction { numerator: n, denominator: d };
    assert_eq!(text_overlap("hello world", "hello world"), f(2, 2));
    assert_eq!(text_overlap("hello world", "goodbye moon"), f(0, 2));
    assert_eq!(text_overlap("hello world", "hello there"), f(1, 2));
    assert_eq!(text_overlap("Get Weather", "get weather forecast now"), f(2, 4));
    assert_eq!(text_overlap("", "anything"), f(0, 1));
    assert_eq!(text_overlap("a a b", "a"), f(2, 3));
    assert_eq!(text_overlap("   ", "a"), f(0, 1));
}

#[test]
fn list_overlap_exact_fractions() {
    let s = |v: &[&str]| v.iter().map(|x| x.to_string()).collect::<Vec<String>>();
    let f = |n, d| Fraction { numerator: n, denominator: d };
    assert_eq!(list_overlap(&s(&[]), &s(&[])), f(1, 1));
    assert_eq!(list_overlap(&s(&["a"]), &s(&[])), f(0, 1));
    assert_eq!(list_overlap(&s(&[]), &s(&["a"])), f(0, 1));
    assert_eq!(list_overlap(&s(&["a", "b"]), &s(&["b", "c", "d"])), f(1, 3));
    assert_eq!(list_overlap(&s(&["Weather"]), &s(&["weather"])), f(0, 1));
}

#[test]
fn words_are_split_on_any_whitespace() {
    let words: Vec<String> =
        split_whitespace("  one\ttwo\n three  ").iter().map(|w| w.iter().collect()).collect();
    assert_eq!(words, vec!["one", "two", "three"]);
    let lower: Vec<String> = words_of("HeLLo World").iter().map(|w| w.iter().collect()).collect();
    assert_eq!(lower, vec!["hello", "world"]);
    assert!(split_whitespace("").is_empty());
    let a = words_of("a b a");
    let b = words_of("a");
    assert_eq!(count_shared_words(&a, &b), 2);
}

#[test]
fn rank_matches_filters_and_orders() {
    let ids: Vec<String> = ["q", "a", "b", "c", "d"].iter().map(|s| s.to_string()).collect();
    let scores = vec![100, 50, 70, 50, 10];
    // the query itself and scores under the threshold are left out; ties keep their order
    assert_eq!(rank_matches("q", &ids, &scores, 20), vec![(2, 70), (1, 50), (3, 50)]);
    assert!(rank_matches("q", &ids, &scores, 200).is_empty());
    assert!(rank_matches("x", &Vec::new(), &Vec::new(), 0).is_empty());
}

fn key(x: f64) -> u64 {
    let x = if x == 0.0 { 0.0 } else { x };
    let bits = x.to_bits();
    if bits >> 63 == 0 {
        bits | (1u64 << 63)
    } else {
        !bits
    }
}

#[test]
fn test_find_matches() {
    let query_intent = Intent::new("Get weather information".to_string())
        .with_topics(vec!["weather".to_string(), "forecast".to_string()]);
    let query = Conversation::new("query".to_string(), query_intent, Sentiment::Neutral);

    let match_intent = Intent::new("Get weather information".to_string())
        .with_topics(vec!["weather".to_string(), "forecast".to_string()]);
    let matching_conv = Conversation::new("match".to_string(), match_intent, Sentiment::Neutral);

    let no_match_intent = Intent::new("Order pizza".to_string()).with_topics(vec!["food".to_string()]);
    let no_match_conv = Conversation::new("nomatch".to_string(), no_match_intent, Sentiment::Positive);

    let candidates = vec![matching_conv, no_match_conv];
    let ids: Vec<String> = candidates.iter().map(|c| c.id.clone()).collect();
    let scores: Vec<u64> = candidates.iter().map(|c| key(similarity(&query, c))).collect();
    let matches = rank_matches(&query.id, &ids, &scores, key(0.6));

    assert_eq!(matches.len(), 1);
    assert_eq!(candidates[matches[0].0].id, "match");
}

#[test]
fn whitespace_agrees_with_std_on_every_char() {
    for u in 0..=0x10FFFFu32 {
        if let Some(c) = char::from_u32(u) {
            assert_eq!(intent_database::text::char_is_whitespace(c), c.is_whitespace(), "U+{:04X}", u);
        }
    }
}
