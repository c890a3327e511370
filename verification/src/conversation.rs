//! Conversations: the intent behind them, their sentiment, their messages and
//! the instant after which the facts they hold are no longer valid.
//!
//! Instants are microseconds since the Unix epoch (UTC).
use vstd::prelude::*;

use crate::clock::now_micros;

verus! {

/// The intent or purpose behind a conversation.
#[derive(Debug, Clone, PartialEq)]
pub struct Intent {
    /// The primary goal or purpose.
    pub purpose: String,
    /// Key topics discussed.
    pub topics: Vec<String>,
    /// Contextual tags for categorisation.
    pub context_tags: Vec<String>,
}

impl Intent {
    /// An intent with the given purpose and no topics or tags.
    pub fn new(purpose: String) -> (r: Intent)
        ensures
            r.purpose@ == purpose@,
            r.topics@.len() == 0,
            r.context_tags@.len() == 0,
    {
        Intent { purpose, topics: Vec::new(), context_tags: Vec::new() }
    }

    /// The same intent with its topics replaced.
    pub fn with_topics(self, topics: Vec<String>) -> (r: Intent)
        ensures
            r.purpose == self.purpose,
            r.topics == topics,
            r.context_tags == self.context_tags,
    {
        Intent { purpose: self.purpose, topics, context_tags: self.context_tags }
    }

    /// The same intent with its context tags replaced.
    pub fn with_context_tags(self, tags: Vec<String>) -> (r: Intent)
        ensures
            r.purpose == self.purpose,
            r.topics == self.topics,
            r.context_tags == tags,
    {
        Intent { purpose: self.purpose, topics: self.topics, context_tags: tags }
    }
}

/// The emotional sentiment of a conversation.
#[derive(Debug, Clone, Copy, PartialEq, Eq, Structural)]
pub enum Sentiment {
    Positive,
    Negative,
    Neutral,
    Mixed,
}

/// A single message of a conversation (a user message or an AI response).
#[derive(Debug, Clone)]
pub struct ConversationEntry {
    /// Role of the speaker (user, assistant, system).
    pub role: String,
    /// The message itself.
    pub content: String,
    /// When the entry was made, in microseconds since the Unix epoch.
    pub timestamp: i64,
}

impl ConversationEntry {
    /// An entry stamped with the current time.
    pub fn new(role: String, content: String) -> (r: ConversationEntry)
        ensures
            r.role@ == role@,
            r.content@ == content@,
    {
        ConversationEntry { role, content, timestamp: now_micros() }
    }
}

/// The value stored under `key` in a metadata list: that of the first pair
/// whose key is `key`.
pub open spec fn metadata_lookup(m: Seq<(String, String)>, key: Seq<char>) -> Option<Seq<char>>
    decreases m.len(),
{
    if m.len() == 0 {
        None
    } else if m[0].0@ == key {
        Some(m[0].1@)
    } else {
        metadata_lookup(m.drop_first(), key)
    }
}

/// Whether a conversation that expires at `expires_at` has expired at instant `now`.
pub open spec fn expired_at(expires_at: Option<i64>, now: i64) -> bool {
    match expires_at {
        Some(e) => now > e,
        None => false,
    }
}

/// A complete conversation with its intent and sentiment.
#[derive(Debug, Clone)]
pub struct Conversation {
    /// Unique identifier of the conversation.
    pub id: String,
    /// The intent behind this conversation.
    pub intent: Intent,
    /// Overall sentiment of the conversation.
    pub sentiment: Sentiment,
    /// The messages, oldest first.
    pub entries: Vec<ConversationEntry>,
    /// When the conversation was created (microseconds since the Unix epoch).
    pub created_at: i64,
    /// When the conversation expires (microseconds since the Unix epoch), if ever.
    pub expires_at: Option<i64>,
    /// Additional metadata as key/value pairs; a key is looked up at its first occurrence.
    pub metadata: Vec<(String, String)>,
}

impl Conversation {
    /// A conversation created now, with no entries, no expiry and no metadata.
    pub fn new(id: String, intent: Intent, sentiment: Sentiment) -> (r: Conversation)
        ensures
            r.id@ == id@,
            r.intent == intent,
            r.sentiment == sentiment,
            r.entries@.len() == 0,
            r.expires_at is None,
            r.metadata@.len() == 0,
    {
        Conversation {
            id,
            intent,
            sentiment,
            entries: Vec::new(),
            created_at: now_micros(),
            expires_at: None,
            metadata: Vec::new(),
        }
    }

    /// Appends a message.
    pub fn add_entry(&mut self, entry: ConversationEntry)
        ensures
            final(self).entries@ == old(self).entries@.push(entry),
            final(self).id == old(self).id,
            final(self).intent == old(self).intent,
            final(self).sentiment == old(self).sentiment,
            final(self).created_at == old(self).created_at,
            final(self).expires_at == old(self).expires_at,
            final(self).metadata == old(self).metadata,
    {
        self.entries.push(entry);
    }

    /// The same conversation, expiring at `expires_at`.
    pub fn with_expiry(self, expires_at: i64) -> (r: Conversation)
        ensures
            r.expires_at == Some(expires_at),
            r.id == self.id,
            r.intent == self.intent,
            r.sentiment == self.sentiment,
            r.entries == self.entries,
            r.created_at == self.created_at,
            r.metadata == self.metadata,
    {
        let mut r = self;
        r.expires_at = Some(expires_at);
        r
    }

    /// Whether the conversation has expired at instant `now`: it has an
    /// expiry and `now` lies after it.
    pub fn is_expired_at(&self, now: i64) -> (r: bool)
        ensures
            r == expired_at(self.expires_at, now),
    {
        match self.expires_at {
            Some(e) => now > e,
            None => false,
        }
    }

    /// Whether the conversation has expired now. Whatever the clock reads, a
    /// conversation without an expiry has not expired.
    pub fn is_expired(&self) -> (r: bool)
        ensures
            exists|now: i64| r == expired_at(self.expires_at, now),
            self.expires_at is None ==> !r,
    {
        let now = now_micros();
        self.is_expired_at(now)
    }

    /// Sets the metadata value for `key`, replacing the first value stored
    /// under it or, when there is none, appending the pair.
    pub fn add_metadata(&mut self, key: String, value: String)
        ensures
            forall|k: Seq<char>|
                #[trigger] metadata_lookup(final(self).metadata@, k) == if k == key@ {
                    Some(value@)
                } else {
                    metadata_lookup(old(self).metadata@, k)
                },
            final(self).id == old(self).id,
            final(self).intent == old(self).intent,
            final(self).sentiment == old(self).sentiment,
            final(self).entries == old(self).entries,
            final(self).created_at == old(self).created_at,
            final(self).expires_at == old(self).expires_at,
    {
        let n = self.metadata.len();
        let mut i: usize = 0;
        while i < n
            invariant
                n == self.metadata@.len(),
                self.metadata == old(self).metadata,
                *self == *old(self),
                0 <= i <= n,
                forall|j: int| 0 <= j < i ==> self.metadata@[j].0@ != key@,
            decreases n - i,
        {
            if self.metadata[i].0 == key {
                proof {
                    assert forall|k: Seq<char>|
                        #[trigger] metadata_lookup(self.metadata@.update(i as int, (key, value)), k)
                            == if k == key@ {
                            Some(value@)
                        } else {
                            metadata_lookup(self.metadata@, k)
                        } by {
                        lemma_lookup_update(self.metadata@, i as int, key, value, k);
                    }
                }
                self.metadata.set(i, (key, value));
                return;
            }
            i = i + 1;
        }
        proof {
            assert forall|k: Seq<char>|
                #[trigger] metadata_lookup(self.metadata@.push((key, value)), k) == if k == key@ {
                    Some(value@)
                } else {
                    metadata_lookup(self.metadata@, k)
                } by {
                lemma_lookup_push(self.metadata@, key, value, k);
            }
        }
        self.metadata.push((key, value));
    }

    /// The metadata value stored under `key`, if any.
    pub fn get_metadata(&self, key: &str) -> (r: Option<String>)
        ensures
            match r {
                Some(v) => metadata_lookup(self.metadata@, key@) == Some(v@),
                None => metadata_lookup(self.metadata@, key@) is None,
            },
    {
        let wanted = key.to_owned();
        let n = self.metadata.len();
        let mut i: usize = 0;
        proof {
            assert(self.metadata@.skip(0) =~= self.metadata@);
        }
        while i < n
            invariant
                n == self.metadata@.len(),
                0 <= i <= n,
                wanted@ == key@,
                metadata_lookup(self.metadata@, key@) == metadata_lookup(
                    self.metadata@.skip(i as int),
                    key@,
                ),
            decreases n - i,
        {
            if self.metadata[i].0 == wanted {
                let v = self.metadata[i].1.clone();
                proof {
                    let rest = self.metadata@.skip(i as int);
                    assert(rest[0] == self.metadata@[i as int]);
                    assert(rest[0].0@ == key@);
                    assert(metadata_lookup(rest, key@) == Some(rest[0].1@));
                    assert(v@ == rest[0].1@);
                }
                return Some(v);
            }
            proof {
                assert(self.metadata@.skip(i as int).drop_first() =~= self.metadata@.skip(
                    i + 1,
                ));
            }
            i = i + 1;
        }
        None
    }
}

/// Lookup in a list where the first `i` keys differ from `key` and the pair
/// at `i` is replaced by `(key, value)`.
proof fn lemma_lookup_update(m: Seq<(String, String)>, i: int, key: String, value: String, k: Seq<char>)
    requires
        0 <= i < m.len(),
        m[i].0@ == key@,
        forall|j: int| 0 <= j < i ==> m[j].0@ != key@,
    ensures
        metadata_lookup(m.update(i, (key, value)), k) == if k == key@ {
            Some(value@)
        } else {
            metadata_lookup(m, k)
        },
    decreases i,
{
    let u = m.update(i, (key, value));
    if i == 0 {
        assert(u.drop_first() =~= m.drop_first());
        assert(u[0] == (key, value));
    } else {
        assert(m[0].0@ != key@);
        assert forall|j: int| 0 <= j < i - 1 implies m.drop_first()[j].0@ != key@ by {
            assert(m.drop_first()[j] == m[j + 1]);
        }
        lemma_lookup_update(m.drop_first(), i - 1, key, value, k);
        assert(u.drop_first() =~= m.drop_first().update(i - 1, (key, value)));
        assert(u[0] == m[0]);
    }
}

/// Lookup in a list without `key`, after `(key, value)` is appended.
proof fn lemma_lookup_push(m: Seq<(String, String)>, key: String, value: String, k: Seq<char>)
    requires
        forall|j: int| 0 <= j < m.len() ==> m[j].0@ != key@,
    ensures
        metadata_lookup(m.push((key, value)), k) == if k == key@ {
            Some(value@)
        } else {
            metadata_lookup(m, k)
        },
    decreases m.len(),
{
    let p = m.push((key, value));
    if m.len() == 0 {
        assert(p.drop_first() =~= Seq::<(String, String)>::empty());
        assert(metadata_lookup(p.drop_first(), k) is None);
        assert(p[0] == (key, value));
    } else {
        assert(m[0].0@ != key@);
        assert forall|j: int| 0 <= j < m.len() - 1 implies m.drop_first()[j].0@ != key@ by {
            assert(m.drop_first()[j] == m[j + 1]);
        }
        lemma_lookup_push(m.drop_first(), key, value, k);
        assert(p.drop_first() =~= m.drop_first().push((key, value)));
        assert(p[0] == m[0]);
    }
}

} // verus!
