use intent_database::conversation::{Conversation, ConversationEntry, Intent, Sentiment};
use intent_database::database::IntentDatabase;
use intent_database::web::{
    broadcast_graph, choose_adapter, default_adapter_name, graph_nodes, last_entry_content,
    log_needs_rotation, log_tail_start, retain_flagged, retry_with_template, sse_frame, take_chunk,
    ui_conversation_id, uses_simulated_connector,
};
use intent_database::web::{chat_reply, review_entry, ChatReply};
use std::sync::mpsc;

#[test]
fn sse_framing_and_chunks() {
    assert_eq!(sse_frame("{\"a\":1}"), "data: {\"a\":1}\n\n");
    let mut buf = b"data: x\n\n".to_vec();
    assert_eq!(take_chunk(&mut buf, 4), b"data".to_vec());
    assert_eq!(buf, b": x\n\n".to_vec());
    assert_eq!(take_chunk(&mut buf, 100), b": x\n\n".to_vec());
    assert!(buf.is_empty());
    assert!(take_chunk(&mut buf, 3).is_empty());
}

#[test]
fn retain_by_flags() {
    assert_eq!(retain_flagged(vec![1, 2, 3, 4], &vec![true, false, false, true]), vec![1, 4]);
    assert!(retain_flagged(Vec::<u8>::new(), &vec![]).is_empty());
}

fn send_over(tx: &mpsc::Sender<String>, m: String) -> bool {
    tx.send(m).is_ok()
}

#[test]
fn broadcast_drops_closed_subscribers() {
    let (tx1, rx1) = mpsc::channel::<String>();
    let (tx2, rx2) = mpsc::channel::<String>();
    let (tx3, rx3) = mpsc::channel::<String>();
    drop(rx2);
    let mut subscribers = vec![tx1, tx2, tx3];
    assert_eq!(broadcast_graph(&mut subscribers, "graph".to_string(), send_over), vec![true, false, true]);
    assert_eq!(subscribers.len(), 2);
    assert_eq!(rx1.recv().unwrap(), "graph");
    assert_eq!(rx3.recv().unwrap(), "graph");
    drop(rx3);
    assert_eq!(broadcast_graph(&mut subscribers, "again".to_string(), send_over), vec![true, false]);
    assert_eq!(subscribers.len(), 1);
    assert_eq!(rx1.recv().unwrap(), "again");
}

#[test]
fn adapter_choices() {
    assert_eq!(choose_adapter(Some("sim".to_string()), "template"), "sim");
    assert_eq!(choose_adapter(None, "template"), "template");
    assert_eq!(default_adapter_name(true), "gemini");
    assert_eq!(default_adapter_name(false), "template");
    assert!(retry_with_template("gemini"));
    assert!(!retry_with_template("template"));
    assert!(uses_simulated_connector("sim"));
    assert!(!uses_simulated_connector("simulator"));
}

#[test]
fn ids_and_logs() {
    assert_eq!(ui_conversation_id(1700000000123), "ui-1700000000123");
    assert_eq!(ui_conversation_id(-5), "ui--5");
    assert_eq!(ui_conversation_id(i64::MIN), format!("ui-{}", i64::MIN));
    assert!(!log_needs_rotation(5_000_000));
    assert!(log_needs_rotation(5_000_001));
    assert_eq!(log_tail_start(150), 0);
    assert_eq!(log_tail_start(200), 0);
    assert_eq!(log_tail_start(250), 50);
}

#[test]
fn graph_nodes_carry_last_message() {
    let mut db = IntentDatabase::new();
    let mut a = Conversation::new("a".to_string(), Intent::new("x".to_string()), Sentiment::Neutral);
    a.add_entry(ConversationEntry::new("user".to_string(), "hi".to_string()));
    a.add_entry(ConversationEntry::new("assistant".to_string(), "hello".to_string()));
    let b = Conversation::new("b".to_string(), Intent::new("y".to_string()), Sentiment::Neutral);
    assert_eq!(last_entry_content(&a), Some("hello".to_string()));
    assert_eq!(last_entry_content(&b), None);
    db.store(a).unwrap();
    db.store(b).unwrap();
    assert_eq!(
        graph_nodes(&db),
        vec![("a".to_string(), Some("hello".to_string())), ("b".to_string(), None)]
    );
}

#[test]
fn receiver_reader_streams_events() {
    let (tx, rx) = std::sync::mpsc::channel::<String>();
    let mut reader = intent_database::web::ReceiverReader::new(rx);
    tx.send("{\"a\":1}".to_string()).unwrap();
    let first = reader.read_chunk(4);
    assert_eq!(first, b"data".to_vec());
    let rest = reader.read_chunk(100);
    assert_eq!(rest, b": {\"a\":1}\n\n".to_vec());
    tx.send("é".to_string()).unwrap();
    assert_eq!(reader.read_chunk(100), "data: é\n\n".as_bytes().to_vec());
    drop(tx);
    assert!(reader.read_chunk(10).is_empty());
    assert!(reader.buf.is_empty());
}

#[test]
fn chat_reply_shapes() {
    let mut conv = Conversation::new("ui-1".to_string(), Intent::new("hi".to_string()), Sentiment::Neutral);
    conv.add_entry(ConversationEntry::new("assistant".to_string(), "hello".to_string()));
    let ok: Result<Option<Conversation>, String> = Ok(Some(conv.clone()));
    match chat_reply(&ok, Some(("c1".to_string(), 7)), "direct".to_string()) {
        ChatReply::Answered { matched, user_response, db_response } => {
            assert_eq!(matched, Some(("c1".to_string(), 7)));
            assert_eq!(user_response, "direct");
            assert_eq!(db_response, "hello");
        }
        _ => panic!("expected an answer"),
    }
    let bare = Conversation::new("ui-2".to_string(), Intent::new("x".to_string()), Sentiment::Neutral);
    match chat_reply(&Ok(Some(bare.clone())), None, "u".to_string()) {
        ChatReply::Answered { matched, db_response, .. } => {
            assert_eq!(matched, None);
            assert_eq!(db_response, "");
        }
        _ => panic!("expected an answer"),
    }
    match chat_reply(&Ok(None), None, "u".to_string()) {
        ChatReply::NoResult { user_response } => assert_eq!(user_response, "u"),
        _ => panic!("expected no result"),
    }
    match chat_reply(&Err("boom".to_string()), None, "u".to_string()) {
        ChatReply::Failed { error, user_response } => {
            assert_eq!(error, "boom");
            assert_eq!(user_response, "u");
        }
        _ => panic!("expected a failure"),
    }
    let entry = review_entry(conv, "direct".to_string());
    assert_eq!(entry.id, "ui-1");
    assert_eq!(entry.conv.id, "ui-1");
    assert_eq!(entry.user_response, "direct");
    assert_eq!(entry.ai_response, "hello");
    assert_eq!(review_entry(bare, "u".to_string()).ai_response, "");
}

#[test]
fn graph_edges_point_to_best_matches() {
    let mut db = IntentDatabase::with_threshold(5);
    for id in ["a", "b", "c"] {
        db.store(Conversation::new(id.to_string(), Intent::new(id.to_string()), Sentiment::Neutral))
            .unwrap();
    }
    // row i: the order keys of the similarity of conversation i to a, b, c
    let scores = vec![vec![9, 6, 7], vec![6, 9, 1], vec![1, 2, 9]];
    let edges = intent_database::web::graph_edges(&db, &scores);
    assert_eq!(
        edges,
        vec![("a".to_string(), "c".to_string(), 7), ("b".to_string(), "a".to_string(), 6)]
    );
}

#[test]
fn copies_and_event_start() {
    assert_eq!(
        intent_database::web::copies_for(&"m".to_string(), 3),
        vec!["m".to_string(), "m".to_string(), "m".to_string()]
    );
    assert!(intent_database::web::copies_for(&"m".to_string(), 0).is_empty());
    let (_tx, rx) = mpsc::channel::<String>();
    let mut reader = intent_database::web::ReceiverReader::new(rx);
    assert_eq!(reader.begin_event("ab".to_string(), 3), b"dat".to_vec());
    assert_eq!(reader.buf, b"a: ab\n\n".to_vec());
    assert_eq!(reader.read_chunk(100), b"a: ab\n\n".to_vec());
}

#[test]
fn broadcast_hands_each_subscriber_the_message() {
    let seen = std::cell::RefCell::new(Vec::new());
    let (tx1, _rx1) = mpsc::channel::<String>();
    let (tx2, _rx2) = mpsc::channel::<String>();
    let mut subscribers = vec![tx1, tx2];
    let flags = broadcast_graph(&mut subscribers, "update".to_string(), |_tx: &mpsc::Sender<String>, m: String| {
        let first = seen.borrow().is_empty();
        seen.borrow_mut().push(m);
        first
    });
    assert_eq!(flags, vec![true, false]);
    assert_eq!(*seen.borrow(), vec!["update".to_string(), "update".to_string()]);
    assert_eq!(subscribers.len(), 1);
}
