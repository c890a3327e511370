use intent_database::conversation::{Conversation, Intent, Sentiment};
use intent_database::flow::{
    bad_status_message, builder_key, chat_feedback_records, conversation_key, decide_lookup,
    funnel_key, keep_generated, node_key, LookupDecision, RetryAction, RetryState,
    ShortCircuitResult,
};
use intent_database::generation::{interpret_reply, reply_result, Json};
use intent_database::web::chat_request;

#[test]
fn lookup_uses_stored_match_when_good_enough() {
    let best = Some(("s1".to_string(), 10u64));
    assert_eq!(decide_lookup(best.clone(), None), LookupDecision::UseStored("s1".to_string()));
    assert_eq!(decide_lookup(best.clone(), Some(10)), LookupDecision::UseStored("s1".to_string()));
    assert_eq!(decide_lookup(best, Some(11)), LookupDecision::Generate);
    assert_eq!(decide_lookup(None, None), LookupDecision::Generate);
}

#[test]
fn generated_conversations_are_kept_on_positive_feedback() {
    assert!(keep_generated(None));
    assert!(keep_generated(Some(true)));
    assert!(!keep_generated(Some(false)));
}

#[test]
fn short_circuit_results() {
    let c = Conversation::new("s".to_string(), Intent::new("x".to_string()), Sentiment::Positive);
    let m = ShortCircuitResult::from_match("s".to_string(), 7, Some(c));
    assert!(m.feedback);
    assert_eq!(m.matched.as_ref().unwrap().0, "s");
    let p = ShortCircuitResult::from_inner(false);
    assert!(p.matched.is_none() && !p.feedback);
}

#[test]
fn storage_keys() {
    assert_eq!(conversation_key("id1"), "conv:id1");
    assert_eq!(funnel_key("id2"), "funnel:id2");
    assert_eq!(builder_key("testf"), "funnel:builder:testf");
    assert_eq!(node_key("b:n0"), "funnel:node:b:n0");
    assert!(chat_feedback_records(false, "id1").is_none());
    let (ck, funnel, fk) = chat_feedback_records(true, "id2").unwrap();
    assert_eq!(ck, "conv:id2");
    assert_eq!(funnel.id, "funnel:id2");
    assert_eq!(fk, "funnel:id2");
}

#[test]
fn retries_give_up_with_the_last_error() {
    let mut st = RetryState::new(2);
    assert_eq!(st.next_action(), RetryAction::Attempt);
    st.record_failure("connection refused".to_string());
    assert_eq!(st.next_action(), RetryAction::Attempt);
    st.record_failure(bad_status_message("500 Internal Server Error"));
    assert_eq!(
        st.next_action(),
        RetryAction::GiveUp("bad status: 500 Internal Server Error".to_string())
    );
    assert_eq!(
        RetryState::new(0).next_action(),
        RetryAction::GiveUp("unknown http error".to_string())
    );
}

fn s(x: &str) -> Json {
    Json::Str(x.to_string())
}

fn obj(fields: Vec<(&str, Json)>) -> Json {
    Json::Object(fields.into_iter().map(|(k, v)| (k.to_string(), v)).collect())
}

#[test]
fn reply_text_from_known_shapes() {
    let gemini = obj(vec![(
        "candidates",
        Json::Array(vec![obj(vec![("content", Json::Array(vec![obj(vec![("text", s("Hello from Gemini"))])]))])]),
    )]);
    assert_eq!(interpret_reply(200, "{..}".to_string(), Some(gemini)), Ok("Hello from Gemini".to_string()));

    let output = obj(vec![(
        "candidates",
        Json::Array(vec![obj(vec![(
            "output",
            Json::Array(vec![obj(vec![("content", Json::Array(vec![obj(vec![("text", s("out"))])]))])]),
        )])]),
    )]);
    assert_eq!(interpret_reply(200, String::new(), Some(output)), Ok("out".to_string()));

    let outputs = obj(vec![(
        "outputs",
        Json::Array(vec![obj(vec![("content", Json::Array(vec![obj(vec![("text", s("third"))])]))])]),
    )]);
    assert_eq!(interpret_reply(201, String::new(), Some(outputs)), Ok("third".to_string()));

    let leaf = obj(vec![("a", Json::Other), ("b", Json::Array(vec![Json::Other, s("leaf")])), ("c", s("later"))]);
    assert_eq!(interpret_reply(200, String::new(), Some(leaf)), Ok("leaf".to_string()));

    let none = obj(vec![("a", Json::Other), ("b", Json::Array(vec![]))]);
    assert_eq!(interpret_reply(200, String::new(), Some(none)), Err("no-text-output-found".to_string()));
}

#[test]
fn reply_errors_and_raw_text() {
    assert_eq!(interpret_reply(200, "plain words".to_string(), None), Ok("plain words".to_string()));
    assert_eq!(
        interpret_reply(404, "missing".to_string(), Some(s("ignored"))),
        Err("http 404: missing".to_string())
    );
    assert_eq!(interpret_reply(199, "x".to_string(), None), Err("http 199: x".to_string()));
    assert_eq!(interpret_reply(300, "".to_string(), None), Err("http 300: ".to_string()));
}

#[test]
fn reply_result_parses_the_body() {
    let structured = r#"{"candidates":[{"content":[{"text":"Hello from Gemini"}]}]}"#;
    assert_eq!(reply_result(200, structured.to_string()), Ok("Hello from Gemini".to_string()));
    let output = r#"{"candidates":[{"output":[{"content":[{"text":"out"}]}]}]}"#;
    assert_eq!(reply_result(200, output.to_string()), Ok("out".to_string()));
    let generic = r#"{"outputs":[{"content":[{"text":"gen"}]}]}"#;
    assert_eq!(reply_result(200, generic.to_string()), Ok("gen".to_string()));
    // the first string leaf, walking object fields in the parser's order
    assert_eq!(reply_result(200, r#"{"z":1,"b":["leaf"],"a":2}"#.to_string()), Ok("leaf".to_string()));
    assert_eq!(reply_result(200, "plain text".to_string()), Ok("plain text".to_string()));
    assert_eq!(reply_result(200, "[1, true, null]".to_string()), Err("no-text-output-found".to_string()));
    assert_eq!(reply_result(503, "busy".to_string()), Err("http 503: busy".to_string()));
}

#[test]
fn chat_request_fields() {
    assert_eq!(
        chat_request(r#"{"context":"billing","adapter":"sim"}"#, "template"),
        ("billing".to_string(), "sim".to_string())
    );
    assert_eq!(chat_request(r#"{"context":"x"}"#, "gemini"), ("x".to_string(), "gemini".to_string()));
    assert_eq!(chat_request("not json", "template"), (String::new(), "template".to_string()));
    assert_eq!(
        chat_request(r#"{"context":5,"adapter":null}"#, "template"),
        (String::new(), "template".to_string())
    );
    assert_eq!(chat_request(r#"["context"]"#, "t"), (String::new(), "t".to_string()));
}
