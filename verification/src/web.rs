//! The decisions and text handling of the web front end: server-sent event
//! framing, broadcasting graph updates, choosing adapters, and the review queue.
use vstd::prelude::*;
use std::sync::mpsc::{Receiver, Sender};
use vstd::utf8::encode_utf8;

use crate::conversation::Conversation;
use crate::database::{candidates, IntentDatabase};
use crate::ranking::{rank_desc, Scored};
use crate::format::{push_signed_decimal, signed_decimal};
use crate::generation::{Json, as_text, as_text_exec, get_key, get_key_exec, parse_json, parsed_json};

verus! {

/// Makes `std::sync::mpsc::Sender` known to the verifier, as an opaque type.
#[verifier::external_type_specification]
#[verifier::external_body]
#[verifier::reject_recursive_types(T)]
pub struct ExSender<T>(Sender<T>);

/// Makes `std::sync::mpsc::Receiver` known to the verifier, as an opaque type.
#[verifier::external_type_specification]
#[verifier::external_body]
#[verifier::reject_recursive_types(T)]
pub struct ExReceiver<T>(Receiver<T>);

/// A conversation waiting for a human to approve or reject it.
#[derive(Clone)]
pub struct PendingReview {
    pub id: String,
    pub conv: Conversation,
    pub user_response: String,
    pub ai_response: String,
}

/// A message framed as a server-sent event: "data: <message>" and a blank line.
pub fn sse_frame(message: &str) -> (r: String)
    ensures
        r@ == "data: "@ + message@ + "\n\n"@,
{
    let mut s = "data: ".to_owned();
    s.append(message);
    s.append("\n\n");
    s
}

/// Takes the first `max` bytes of `buf` (all of them when there are fewer),
/// leaving the rest in `buf`.
pub fn take_chunk(buf: &mut Vec<u8>, max: usize) -> (r: Vec<u8>)
    ensures
        r@.len() == if max < old(buf)@.len() { max as int } else { old(buf)@.len() as int },
        r@ == old(buf)@.take(r@.len() as int),
        final(buf)@ == old(buf)@.skip(r@.len() as int),
{
    let n = if max < buf.len() { max } else { buf.len() };
    let mut head: Vec<u8> = Vec::new();
    let mut tail: Vec<u8> = Vec::new();
    let mut i: usize = 0;
    while i < buf.len()
        invariant
            0 <= i <= buf@.len(),
            n <= buf@.len(),
            head@ == buf@.take(if i < n { i as int } else { n as int }),
            tail@ == if i <= n { Seq::<u8>::empty() } else { buf@.subrange(n as int, i as int) },
        decreases buf@.len() - i,
    {
        if i < n {
            head.push(buf[i]);
            proof {
                assert(head@ =~= buf@.take(i + 1));
            }
        } else {
            tail.push(buf[i]);
            proof {
                assert(tail@ =~= buf@.subrange(n as int, i + 1));
            }
        }
        i = i + 1;
    }
    proof {
        assert(tail@ =~= buf@.skip(n as int));
    }
    *buf = tail;
    head
}

/// The bytes of a message framed as a server-sent event.
pub open spec fn event_bytes(message: Seq<char>) -> Seq<u8> {
    encode_utf8("data: "@ + message + "\n\n"@)
}

/// The smaller of two lengths.
pub open spec fn min_len(a: int, b: int) -> int {
    if a < b {
        a
    } else {
        b
    }
}

/// Waits for the next message of the channel with `Receiver::recv`; none
/// once every sender is gone. What arrives depends on the senders, so
/// nothing is stated of it.
#[verifier::external_body]
fn receive(rx: &Receiver<String>) -> (r: Option<String>) {
    rx.recv().ok()
}

/// Reads the messages of a channel as a stream of server-sent events.
pub struct ReceiverReader {
    pub rx: Receiver<String>,
    /// Bytes of the current event not yet read.
    pub buf: Vec<u8>,
}

impl ReceiverReader {
    pub fn new(rx: Receiver<String>) -> (r: ReceiverReader)
        ensures
            r.rx == rx,
            r.buf@.len() == 0,
    {
        ReceiverReader { rx, buf: Vec::new() }
    }

    /// Starts the event of `message`: frames it, returns its first `max` bytes
    /// (all of them when there are fewer) and keeps the rest pending.
    pub fn begin_event(&mut self, message: String, max: usize) -> (r: Vec<u8>)
        requires
            old(self).buf@.len() == 0,
        ensures
            final(self).rx == old(self).rx,
            r@ == event_bytes(message@).take(min_len(max as int, event_bytes(message@).len() as int)),
            final(self).buf@ == event_bytes(message@).skip(r@.len() as int),
    {
        let frame = sse_frame(message.as_str());
        self.buf = frame.as_str().as_bytes_vec();
        take_chunk(&mut self.buf, max)
    }

    /// Up to `max` bytes of the stream. Pending bytes of the current event come
    /// first; when none are pending, the next message is framed as an event
    /// and read from its start; once the channel is closed, nothing.
    pub fn read_chunk(&mut self, max: usize) -> (r: Vec<u8>)
        ensures
            final(self).rx == old(self).rx,
            old(self).buf@.len() > 0 ==> {
                &&& r@ == old(self).buf@.take(min_len(max as int, old(self).buf@.len() as int))
                &&& final(self).buf@ == old(self).buf@.skip(r@.len() as int)
            },
            old(self).buf@.len() == 0 ==> {
                ||| r@.len() == 0 && final(self).buf@.len() == 0
                ||| exists|message: Seq<char>|
                    {
                        let frame = #[trigger] event_bytes(message);
                        &&& r@ == frame.take(min_len(max as int, frame.len() as int))
                        &&& final(self).buf@ == frame.skip(r@.len() as int)
                    }
            },
    {
        if self.buf.len() == 0 {
            match receive(&self.rx) {
                Some(message) => {
                    return self.begin_event(message, max);
                },
                None => {
                    return Vec::new();
                },
            }
        }
        take_chunk(&mut self.buf, max)
    }
}

/// The items of `v` whose flag is set, in order.
pub open spec fn kept<T>(v: Seq<T>, flags: Seq<bool>) -> Seq<T>
    decreases v.len(),
{
    if v.len() == 0 {
        Seq::empty()
    } else {
        let prev = kept(v.drop_last(), flags);
        if flags[v.len() - 1] {
            prev.push(v.last())
        } else {
            prev
        }
    }
}

/// The items of `v` whose flag is set, in order.
pub fn retain_flagged<T>(v: Vec<T>, flags: &Vec<bool>) -> (r: Vec<T>)
    requires
        flags@.len() == v@.len(),
    ensures
        r@ == kept(v@, flags@),
{
    let n = v.len();
    let ghost s = v@;
    let mut src = v;
    let mut rev: Vec<T> = Vec::new();
    while src.len() > 0
        invariant
            n == s.len(),
            src@ == s.take(n - rev@.len()),
            rev@.len() <= n,
            forall|k: int| 0 <= k < rev@.len() ==> rev@[k] == s[n - 1 - k],
        decreases src@.len(),
    {
        let x = src.pop().unwrap();
        proof {
            assert(s.take(n - rev@.len() - 1) =~= src@);
        }
        rev.push(x);
    }
    let mut out: Vec<T> = Vec::new();
    let mut i: usize = 0;
    proof {
        assert(s.take(0) =~= Seq::<T>::empty());
    }
    while i < n
        invariant
            n == s.len(),
            flags@.len() == n,
            0 <= i <= n,
            rev@.len() == n - i,
            forall|k: int| 0 <= k < n - i ==> rev@[k] == s[n - 1 - k],
            out@ == kept(s.take(i as int), flags@),
        decreases n - i,
    {
        let x = rev.pop().unwrap();
        proof {
            assert(x == s[i as int]);
            assert(s.take(i + 1).drop_last() =~= s.take(i as int));
            assert(s.take(i + 1).last() == x);
        }
        if flags[i] {
            out.push(x);
        }
        i = i + 1;
    }
    proof {
        assert(s.take(n as int) =~= s);
    }
    out
}

/// `n` copies of a message.
pub fn copies_for(message: &String, n: usize) -> (r: Vec<String>)
    ensures
        r@.len() == n,
        forall|i: int| 0 <= i < n ==> #[trigger] r@[i] == *message,
{
    let mut out: Vec<String> = Vec::new();
    let mut i: usize = 0;
    while i < n
        invariant
            0 <= i <= n,
            out@.len() == i,
            forall|k: int| 0 <= k < i ==> #[trigger] out@[k] == *message,
        decreases n - i,
    {
        out.push(message.clone());
        i = i + 1;
    }
    out
}

/// Sends a graph update to every subscriber through `send`, which hands one
/// message to one subscriber and reports whether it was delivered: each
/// subscriber, in order, is handed its own copy of the message, once. The
/// subscribers that could not receive it are dropped; the others keep their
/// order. Returns, for each subscriber in order, what `send` reported.
pub fn broadcast_graph<F: Fn(&Sender<String>, String) -> bool>(
    broadcasters: &mut Vec<Sender<String>>,
    message: String,
    send: F,
) -> (delivered: Vec<bool>)
    requires
        forall|tx: &Sender<String>, m: String| #[trigger] send.requires((tx, m)),
    ensures
        delivered@.len() == old(broadcasters)@.len(),
        forall|i: int|
            0 <= i < old(broadcasters)@.len() ==> #[trigger] send.ensures(
                (&old(broadcasters)@[i], message),
                delivered@[i],
            ),
        final(broadcasters)@ == kept(old(broadcasters)@, delivered@),
{
    let n = broadcasters.len();
    let mut copies = copies_for(&message, n);
    let mut delivered: Vec<bool> = Vec::new();
    let mut i: usize = 0;
    while i < n
        invariant
            n == broadcasters@.len(),
            broadcasters@ == old(broadcasters)@,
            forall|tx: &Sender<String>, m: String| #[trigger] send.requires((tx, m)),
            0 <= i <= n,
            delivered@.len() == i,
            copies@.len() == n - i,
            forall|k: int| 0 <= k < copies@.len() ==> #[trigger] copies@[k] == message,
            forall|k: int|
                0 <= k < i ==> #[trigger] send.ensures((&broadcasters@[k], message), delivered@[k]),
        decreases n - i,
    {
        let copy = copies.pop().unwrap();
        let ghost prev = delivered@;
        let ok = send(&broadcasters[i], copy);
        delivered.push(ok);
        proof {
            assert forall|k: int| 0 <= k < i + 1 implies #[trigger] send.ensures(
                (&broadcasters@[k], message),
                delivered@[k],
            ) by {
                if k < i {
                    assert(delivered@[k] == prev[k]);
                }
            }
        }
        i = i + 1;
    }
    let mut all: Vec<Sender<String>> = Vec::new();
    std::mem::swap(&mut all, broadcasters);
    let remaining = retain_flagged(all, &delivered);
    *broadcasters = remaining;
    delivered
}

/// The text of the string field `key` of a parsed request, if it has one.
pub open spec fn request_field(parsed: Option<Json>, key: Seq<char>) -> Option<Seq<char>> {
    as_text(get_key(parsed, key))
}

/// The context and the adapter of a chat request body: the string fields
/// "context" (else "") and "adapter" (else the default adapter) of the body
/// parsed as JSON; a body that is not JSON has neither.
pub fn chat_request(body: &str, default_adapter: &str) -> (r: (String, String))
    ensures
        r.0@ == match request_field(parsed_json(body@), "context"@) {
            Some(t) => t,
            None => ""@,
        },
        r.1@ == match request_field(parsed_json(body@), "adapter"@) {
            Some(t) => t,
            None => default_adapter@,
        },
{
    let parsed = parse_json(body);
    let context = match as_text_exec(get_key_exec(parsed.as_ref(), "context")) {
        Some(t) => t,
        None => {
            proof {
                reveal_strlit("");
            }
            String::new()
        },
    };
    let requested = as_text_exec(get_key_exec(parsed.as_ref(), "adapter"));
    let adapter = choose_adapter(requested, default_adapter);
    (context, adapter)
}

/// The adapter a chat request uses: the one it names, else the default.
pub fn choose_adapter(requested: Option<String>, default_adapter: &str) -> (r: String)
    ensures
        r@ == match requested {
            Some(a) => a@,
            None => default_adapter@,
        },
{
    match requested {
        Some(a) => a,
        None => default_adapter.to_owned(),
    }
}

/// The default adapter: "gemini" when one is registered under that name,
/// else "template".
pub fn default_adapter_name(gemini_registered: bool) -> (r: String)
    ensures
        r@ == if gemini_registered {
            "gemini"@
        } else {
            "template"@
        },
{
    if gemini_registered {
        "gemini".to_owned()
    } else {
        "template".to_owned()
    }
}

/// Whether a failed generation is retried with the "template" adapter: only
/// when the failed adapter was another one.
pub fn retry_with_template(adapter: &str) -> (r: bool)
    ensures
        r == (adapter@ != "template"@),
{
    adapter.to_owned() != "template".to_owned()
}

/// Whether chat requests on this adapter go through the simulated connector
/// (the adapter named "sim").
pub fn uses_simulated_connector(adapter: &str) -> (r: bool)
    ensures
        r == (adapter@ == "sim"@),
{
    adapter.to_owned() == "sim".to_owned()
}

/// The id of a conversation started from the web UI: "ui-<milliseconds>".
pub fn ui_conversation_id(timestamp_millis: i64) -> (r: String)
    ensures
        r@ == "ui-"@ + signed_decimal(timestamp_millis as int),
{
    let mut s = "ui-".to_owned();
    push_signed_decimal(&mut s, timestamp_millis);
    s
}

/// The size in bytes above which the request log is rotated.
pub const LOG_ROTATION_BYTES: u64 = 5_000_000;

/// Whether a request log of this size is rotated.
pub fn log_needs_rotation(size: u64) -> (r: bool)
    ensures
        r == (size > LOG_ROTATION_BYTES),
{
    size > LOG_ROTATION_BYTES
}

/// How many of the last log lines are shown.
pub const LOG_TAIL_LINES: usize = 200;

/// The first line shown of a log with `line_count` lines: the last 200 lines are shown.
pub fn log_tail_start(line_count: usize) -> (r: usize)
    ensures
        r == if line_count > LOG_TAIL_LINES {
            line_count - LOG_TAIL_LINES
        } else {
            0
        },
{
    if line_count > LOG_TAIL_LINES {
        line_count - LOG_TAIL_LINES
    } else {
        0
    }
}

/// The content of the last message of a conversation, if it has one.
pub fn last_entry_content(conv: &Conversation) -> (r: Option<String>)
    ensures
        conv.entries@.len() == 0 ==> r is None,
        conv.entries@.len() > 0 ==> (r matches Some(c) && c@ == conv.entries@.last().content@),
{
    let n = conv.entries.len();
    if n == 0 {
        None
    } else {
        Some(conv.entries[n - 1].content.clone())
    }
}

/// The text of the last message of a conversation, or "" when it has none.
pub open spec fn last_content_or_empty(conv: Conversation) -> Seq<char> {
    if conv.entries@.len() == 0 {
        Seq::empty()
    } else {
        conv.entries@.last().content@
    }
}

/// The answer to a chat request, before it is written out as JSON.
pub enum ChatReply {
    /// A conversation was found or generated: the best stored match of the
    /// query (its id and the order key of its score) if there is one, the
    /// adapter's direct answer, and the last message of the conversation.
    Answered { matched: Option<(String, u64)>, user_response: String, db_response: String },
    /// The flow returned no conversation.
    NoResult { user_response: String },
    /// The flow failed with this error.
    Failed { error: String, user_response: String },
}

/// The answer to a chat request from the outcome of the find-or-generate
/// flow, the best stored match of the query after it, and the adapter's answer.
pub fn chat_reply(
    outcome: &Result<Option<Conversation>, String>,
    best: Option<(String, u64)>,
    user_response: String,
) -> (r: ChatReply)
    ensures
        match outcome {
            Ok(Some(conv)) => r matches ChatReply::Answered { matched, user_response: u, db_response: d }
                && matched == best && u@ == user_response@ && d@ == last_content_or_empty(*conv),
            Ok(None) => r matches ChatReply::NoResult { user_response: u } && u@ == user_response@,
            Err(e) => r matches ChatReply::Failed { error, user_response: u } && error@ == e@ && u@
                == user_response@,
        },
{
    match outcome {
        Ok(Some(conv)) => {
            let db_response = match last_entry_content(conv) {
                Some(c) => c,
                None => String::new(),
            };
            ChatReply::Answered { matched: best, user_response, db_response }
        },
        Ok(None) => ChatReply::NoResult { user_response },
        Err(e) => ChatReply::Failed { error: e.clone(), user_response },
    }
}

/// The review-queue entry of a conversation produced by a chat request: the
/// conversation, the adapter's direct answer, and the conversation's last
/// message ("" when it has none).
pub fn review_entry(conv: Conversation, user_response: String) -> (r: PendingReview)
    ensures
        r.id@ == conv.id@,
        r.conv == conv,
        r.user_response@ == user_response@,
        r.ai_response@ == last_content_or_empty(conv),
{
    let ai_response = match last_entry_content(&conv) {
        Some(c) => c,
        None => String::new(),
    };
    PendingReview { id: conv.id.clone(), conv, user_response, ai_response }
}

/// The nodes of the conversation graph: each stored conversation's id with
/// the content of its last message, in storage order.
pub fn graph_nodes(db: &IntentDatabase) -> (r: Vec<(String, Option<String>)>)
    ensures
        r@.len() == db@.len(),
        forall|i: int|
            0 <= i < db@.len() ==> {
                let node = #[trigger] r@[i];
                &&& node.0@ == db@[i].id@
                &&& (db@[i].entries@.len() == 0 ==> node.1 is None)
                &&& (db@[i].entries@.len() > 0 ==> (node.1 matches Some(c) && c@
                    == db@[i].entries@.last().content@))
            },
{
    let convs = db.conversations();
    let n = convs.len();
    let mut out: Vec<(String, Option<String>)> = Vec::new();
    let mut i: usize = 0;
    while i < n
        invariant
            n == convs@.len(),
            convs@ == db@,
            0 <= i <= n,
            out@.len() == i,
            forall|k: int|
                0 <= k < i ==> {
                    let node = #[trigger] out@[k];
                    &&& node.0@ == db@[k].id@
                    &&& (db@[k].entries@.len() == 0 ==> node.1 is None)
                    &&& (db@[k].entries@.len() > 0 ==> (node.1 matches Some(c) && c@
                        == db@[k].entries@.last().content@))
                },
        decreases n - i,
    {
        let c = &convs[i];
        out.push((c.id.clone(), last_entry_content(c)));
        i = i + 1;
    }
    out
}


/// The best of a set of matches: the first of their ranking, if any.
pub open spec fn best_of(cands: Seq<Scored>) -> Option<Scored> {
    if cands.len() == 0 {
        None
    } else {
        Some(rank_desc(cands)[0])
    }
}

/// The edges of the conversation graph among the first `n` stored
/// conversations: from each conversation that has a match to its best match,
/// with the order key of the score, in storage order. `scores[i]` holds the
/// order keys of the similarity of conversation `i` to each stored conversation.
pub open spec fn graph_edge_views(
    s: Seq<Conversation>,
    scores: Seq<Vec<u64>>,
    threshold: u64,
    n: nat,
) -> Seq<(Seq<char>, Seq<char>, u64)>
    decreases n,
{
    if n == 0 {
        Seq::empty()
    } else {
        let prev = graph_edge_views(s, scores, threshold, (n - 1) as nat);
        let q = s[n - 1];
        match best_of(candidates(s, scores[n - 1]@, q.id@, threshold)) {
            Some(b) => prev.push((q.id@, b.0, b.1)),
            None => prev,
        }
    }
}

/// The edges of the conversation graph: from each stored conversation that has
/// a match to its best match (source id, target id, order key of the score),
/// in storage order.
pub fn graph_edges(db: &IntentDatabase, scores: &Vec<Vec<u64>>) -> (r: Vec<(String, String, u64)>)
    requires
        scores@.len() == db@.len(),
        forall|i: int| 0 <= i < scores@.len() ==> #[trigger] scores@[i]@.len() == db@.len(),
    ensures
        r@.map_values(|e: (String, String, u64)| (e.0@, e.1@, e.2)) == graph_edge_views(
            db@,
            scores@,
            db.match_threshold(),
            db@.len(),
        ),
{
    let convs = db.conversations();
    let n = convs.len();
    let mut out: Vec<(String, String, u64)> = Vec::new();
    let mut i: usize = 0;
    while i < n
        invariant
            n == convs@.len(),
            convs@ == db@,
            scores@.len() == n,
            forall|k: int| 0 <= k < scores@.len() ==> #[trigger] scores@[k]@.len() == db@.len(),
            0 <= i <= n,
            out@.map_values(|e: (String, String, u64)| (e.0@, e.1@, e.2)) == graph_edge_views(
                db@,
                scores@,
                db.match_threshold(),
                i as nat,
            ),
        decreases n - i,
    {
        let c = &convs[i];
        let best = db.get_best_match(c, &scores[i]);
        let ghost before = out@;
        match best {
            Some(b) => {
                let edge = (c.id.clone(), b.0, b.1);
                out.push(edge);
                proof {
                    let cands = candidates(db@, scores@[i as int]@, db@[i as int].id@, db.match_threshold());
                    assert(best_of(cands) == Some(rank_desc(cands)[0]));
                    assert(out@.map_values(|e: (String, String, u64)| (e.0@, e.1@, e.2))
                        =~= before.map_values(|e: (String, String, u64)| (e.0@, e.1@, e.2)).push(
                        (edge.0@, edge.1@, edge.2),
                    ));
                }
            },
            None => {},
        }
        i = i + 1;
    }
    out
}

} // verus!
