//! The decisions of the asynchronous flows (find-or-generate, short-circuiting,
//! chat feedback, retried generation); the waiting itself is done by the caller.
use vstd::prelude::*;

use crate::conversation::Conversation;
use crate::funnel::Funnel;

verus! {

/// What to do once the best stored match of a query is known.
#[derive(Debug, Clone, PartialEq, Eq)]
pub enum LookupDecision {
    /// Answer with the stored conversation that has this id.
    UseStored(String),
    /// No stored conversation is good enough: generate one.
    Generate,
}

/// Whether the best match is good enough: there is one, and its score
/// reaches `min_score` when a minimum is given.
pub open spec fn accepts_match(best: Option<(String, u64)>, min_score: Option<u64>) -> bool {
    match best {
        None => false,
        Some(b) => match min_score {
            None => true,
            Some(m) => b.1 >= m,
        },
    }
}

/// Chooses between the best stored match (an id with the order key of its
/// score) and generating a new conversation.
pub fn decide_lookup(best: Option<(String, u64)>, min_score: Option<u64>) -> (r: LookupDecision)
    ensures
        accepts_match(best, min_score) ==> (r matches LookupDecision::UseStored(id) && id@ == (best->0).0@),
        !accepts_match(best, min_score) ==> r is Generate,
{
    match best {
        None => LookupDecision::Generate,
        Some(b) => {
            let accept = match min_score {
                None => true,
                Some(m) => b.1 >= m,
            };
            if accept {
                LookupDecision::UseStored(b.0)
            } else {
                LookupDecision::Generate
            }
        },
    }
}

/// Whether a generated conversation is stored: always without a connector,
/// otherwise when the connector's feedback is positive.
pub fn keep_generated(feedback: Option<bool>) -> (r: bool)
    ensures
        r == match feedback {
            None => true,
            Some(f) => f,
        },
{
    match feedback {
        None => true,
        Some(f) => f,
    }
}

/// The outcome of a short-circuit attempt: the matched stored conversation
/// (its id, the order key of its score, and the conversation when it could be
/// fetched) with positive feedback, or no match and the inner connector's feedback.
pub struct ShortCircuitResult {
    pub matched: Option<(String, u64, Option<Conversation>)>,
    pub feedback: bool,
}

impl ShortCircuitResult {
    /// A short-circuit to a stored conversation: the feedback is positive.
    pub fn from_match(id: String, score: u64, conversation: Option<Conversation>) -> (r: ShortCircuitResult)
        ensures
            r.matched == Some((id, score, conversation)),
            r.feedback,
    {
        ShortCircuitResult { matched: Some((id, score, conversation)), feedback: true }
    }

    /// No stored match: the inner connector's feedback is passed on.
    pub fn from_inner(feedback: bool) -> (r: ShortCircuitResult)
        ensures
            r.matched is None,
            r.feedback == feedback,
    {
        ShortCircuitResult { matched: None, feedback }
    }
}

/// The storage key of a conversation: "conv:<id>".
pub fn conversation_key(id: &str) -> (r: String)
    ensures
        r@ == "conv:"@ + id@,
{
    let mut s = "conv:".to_owned();
    s.append(id);
    s
}

/// The storage key of the funnel of a conversation: "funnel:<id>".
pub fn funnel_key(id: &str) -> (r: String)
    ensures
        r@ == "funnel:"@ + id@,
{
    let mut s = "funnel:".to_owned();
    s.append(id);
    s
}

/// The storage key of a built funnel: "funnel:builder:<id>".
pub fn builder_key(id: &str) -> (r: String)
    ensures
        r@ == "funnel:builder:"@ + id@,
{
    let mut s = "funnel:builder:".to_owned();
    s.append(id);
    s
}

/// The storage key of a funnel node: "funnel:node:<node id>".
pub fn node_key(node_id: &str) -> (r: String)
    ensures
        r@ == "funnel:node:"@ + node_id@,
{
    let mut s = "funnel:node:".to_owned();
    s.append(node_id);
    s
}

/// What is persisted after chat feedback: nothing on negative feedback; on
/// positive feedback the conversation under "conv:<id>" and a new funnel with
/// id "funnel:<id>" under the key "funnel:<id>".
pub fn chat_feedback_records(positive: bool, conversation_id: &str) -> (r: Option<(String, Funnel, String)>)
    ensures
        !positive ==> r is None,
        positive ==> r is Some && (r->0).0@ == "conv:"@ + conversation_id@ && (r->0).1.id@ == "funnel:"@
            + conversation_id@ && (r->0).1.description is None && (r->0).1.node_ids@.len() == 0
            && (r->0).2@ == "funnel:"@ + conversation_id@,
{
    if !positive {
        return None;
    }
    let conv_key = conversation_key(conversation_id);
    let fkey = funnel_key(conversation_id);
    let funnel = Funnel::new(fkey.as_str());
    Some((conv_key, funnel, fkey))
}

/// The next step of a retried generation.
#[derive(Debug, Clone, PartialEq, Eq)]
pub enum RetryAction {
    /// Make another attempt.
    Attempt,
    /// Stop, reporting this error.
    GiveUp(String),
}

/// The attempts left and the error of the last failed attempt.
pub struct RetryState {
    pub remaining: usize,
    pub last_error: Option<String>,
}

impl RetryState {
    /// A generation allowed `retries` attempts.
    pub fn new(retries: usize) -> (r: RetryState)
        ensures
            r.remaining == retries,
            r.last_error is None,
    {
        RetryState { remaining: retries, last_error: None }
    }

    /// Attempt again while attempts are left; otherwise give up with the last
    /// error, or "unknown http error" when no attempt was made.
    pub fn next_action(&self) -> (r: RetryAction)
        ensures
            self.remaining > 0 ==> r is Attempt,
            self.remaining == 0 ==> (r matches RetryAction::GiveUp(msg) && msg@ == match self.last_error {
                Some(e) => e@,
                None => "unknown http error"@,
            }),
    {
        if self.remaining > 0 {
            RetryAction::Attempt
        } else {
            match &self.last_error {
                Some(e) => RetryAction::GiveUp(e.clone()),
                None => RetryAction::GiveUp("unknown http error".to_owned()),
            }
        }
    }

    /// Records a failed attempt with its error message.
    pub fn record_failure(&mut self, message: String)
        requires
            old(self).remaining > 0,
        ensures
            final(self).remaining == old(self).remaining - 1,
            final(self).last_error == Some(message),
    {
        self.remaining = self.remaining - 1;
        self.last_error = Some(message);
    }
}

/// The error of an attempt answered with an unsuccessful status:
/// "bad status: <status>".
pub fn bad_status_message(status: &str) -> (r: String)
    ensures
        r@ == "bad status: "@ + status@,
{
    let mut s = "bad status: ".to_owned();
    s.append(status);
    s
}

} // verus!
