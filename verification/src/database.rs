//! The intent database: stored conversations, keyed by their unique ids.
use vstd::prelude::*;

use crate::clock::now_micros;
use crate::conversation::{expired_at, Conversation};
use crate::text::string_views;
use crate::ranking::{
    insert_ranked, lemma_rank_desc, rank_desc, scored_views, sorted_desc, Scored,
};

verus! {

/// The order key of the default match threshold, 0.6: the bits of the `f64`
/// 0.6 with the sign bit set (see `IntentDatabase`).
pub const DEFAULT_MATCH_THRESHOLD: u64 = 0xBFE3_3333_3333_3333;

/// No two conversations share an id.
pub open spec fn ids_unique(s: Seq<Conversation>) -> bool {
    forall|i: int, j: int|
        0 <= i < s.len() && 0 <= j < s.len() && i != j ==> #[trigger] s[i].id@ != #[trigger] s[j].id@
}

/// Some conversation has the id.
pub open spec fn has_id(s: Seq<Conversation>, id: Seq<char>) -> bool {
    exists|i: int| 0 <= i < s.len() && #[trigger] s[i].id@ == id
}

/// The conversation with the id, if any.
pub open spec fn lookup(s: Seq<Conversation>, id: Seq<char>) -> Option<Conversation> {
    if has_id(s, id) {
        Some(s[choose|i: int| 0 <= i < s.len() && #[trigger] s[i].id@ == id])
    } else {
        None
    }
}

/// The ids of the conversations, in order.
pub open spec fn ids_of(s: Seq<Conversation>) -> Seq<Seq<char>> {
    s.map_values(|c: Conversation| c.id@)
}

/// Each conversation's id with the order key of its score.
pub open spec fn scored(s: Seq<Conversation>, scores: Seq<u64>) -> Seq<Scored> {
    Seq::new(s.len(), |i: int| (s[i].id@, scores[i]))
}

/// A scored conversation matches a query when it is not the query itself and
/// its score reaches the threshold.
pub open spec fn matches_query(query_id: Seq<char>, threshold: u64) -> spec_fn(Scored) -> bool {
    |p: Scored| p.0 != query_id && p.1 >= threshold
}

/// The matches of a query, in storage order.
pub open spec fn candidates(
    s: Seq<Conversation>,
    scores: Seq<u64>,
    query_id: Seq<char>,
    threshold: u64,
) -> Seq<Scored> {
    scored(s, scores).filter(matches_query(query_id, threshold))
}

/// The conversations that have not expired at `now`, in order.
pub open spec fn unexpired(s: Seq<Conversation>, now: i64) -> Seq<Conversation> {
    s.filter(|c: Conversation| !expired_at(c.expires_at, now))
}

/// The main intent database for caching conversations.
///
/// Similarity scores are floating-point numbers, computed by the caller; the
/// database receives each score as its order key, a `u64` whose integer order is the order
/// of the scores (for an `f64` that is not NaN: its bits with the sign bit set
/// when it is positive, all bits flipped when it is negative), and the
/// threshold in the same form.
pub struct IntentDatabase {
    conversations: Vec<Conversation>,
    threshold: u64,
}

impl View for IntentDatabase {
    type V = Seq<Conversation>;

    closed spec fn view(&self) -> Seq<Conversation> {
        self.conversations@
    }
}

impl IntentDatabase {
    #[verifier::type_invariant]
    spec fn inv(self) -> bool {
        ids_unique(self.conversations@)
    }

    /// The order key of the minimum score for a match.
    pub closed spec fn match_threshold(&self) -> u64 {
        self.threshold
    }

    /// An empty database with the default threshold.
    pub fn new() -> (r: IntentDatabase)
        ensures
            r@ == Seq::<Conversation>::empty(),
            r.match_threshold() == DEFAULT_MATCH_THRESHOLD,
    {
        IntentDatabase { conversations: Vec::new(), threshold: DEFAULT_MATCH_THRESHOLD }
    }

    /// An empty database with the given threshold (an order key).
    pub fn with_threshold(threshold: u64) -> (r: IntentDatabase)
        ensures
            r@ == Seq::<Conversation>::empty(),
            r.match_threshold() == threshold,
    {
        IntentDatabase { conversations: Vec::new(), threshold }
    }

    /// The order key of the minimum score for a match.
    pub fn threshold(&self) -> (r: u64)
        ensures
            r == self.match_threshold(),
    {
        self.threshold
    }

    /// The stored conversations, in storage order.
    pub fn conversations(&self) -> (r: &Vec<Conversation>)
        ensures
            r@ == self@,
            ids_unique(self@),
    {
        proof {
            use_type_invariant(self);
        }
        &self.conversations
    }

    /// The position of the conversation with the id, if any.
    fn position_of(&self, id: &String) -> (r: Option<usize>)
        ensures
            match r {
                Some(i) => i < self@.len() && self@[i as int].id@ == id@,
                None => !has_id(self@, id@),
            },
    {
        let n = self.conversations.len();
        let mut i: usize = 0;
        while i < n
            invariant
                n == self.conversations@.len(),
                0 <= i <= n,
                forall|j: int| 0 <= j < i ==> self.conversations@[j].id@ != id@,
            decreases n - i,
        {
            if self.conversations[i].id == *id {
                return Some(i);
            }
            i = i + 1;
        }
        None
    }

    /// Stores a new conversation. Fails, leaving the database unchanged, when
    /// a conversation with the same id is already stored.
    pub fn store(&mut self, conversation: Conversation) -> (r: Result<(), String>)
        ensures
            ids_unique(final(self)@),
            final(self).match_threshold() == old(self).match_threshold(),
            match r {
                Ok(()) => !has_id(old(self)@, conversation.id@)
                    && final(self)@ == old(self)@.push(conversation),
                Err(msg) => has_id(old(self)@, conversation.id@) && final(self)@ == old(self)@
                    && msg@ == "Conversation with id "@ + conversation.id@ + " already exists"@,
            },
    {
        proof {
            use_type_invariant(&*self);
        }
        match self.position_of(&conversation.id) {
            Some(_) => {
                let mut msg = "Conversation with id ".to_owned();
                msg.append(conversation.id.as_str());
                msg.append(" already exists");
                Err(msg)
            },
            None => {
                let mut v: Vec<Conversation> = Vec::new();
                std::mem::swap(&mut v, &mut self.conversations);
                proof {
                    assert forall|i: int, j: int|
                        0 <= i < v@.push(conversation).len() && 0 <= j < v@.push(
                            conversation,
                        ).len() && i != j implies #[trigger] v@.push(conversation)[i].id@
                        != #[trigger] v@.push(conversation)[j].id@ by {
                        if i == v@.len() {
                            assert(v@[j].id@ != conversation.id@);
                        } else if j == v@.len() {
                            assert(v@[i].id@ != conversation.id@);
                        }
                    }
                }
                v.push(conversation);
                self.conversations = v;
                Ok(())
            },
        }
    }

    /// The conversation with the given id.
    pub fn get(&self, id: &str) -> (r: Option<&Conversation>)
        ensures
            ids_unique(self@),
            match r {
                Some(c) => lookup(self@, id@) == Some(*c),
                None => lookup(self@, id@) is None,
            },
    {
        proof {
            use_type_invariant(self);
        }
        let wanted = id.to_owned();
        match self.position_of(&wanted) {
            Some(i) => Some(&self.conversations[i]),
            None => None,
        }
    }

    /// Removes and returns the conversation with the given id; the others
    /// keep their order.
    pub fn remove(&mut self, id: &str) -> (r: Option<Conversation>)
        ensures
            ids_unique(final(self)@),
            final(self).match_threshold() == old(self).match_threshold(),
            r == lookup(old(self)@, id@),
            match r {
                Some(c) => exists|i: int|
                    0 <= i < old(self)@.len() && old(self)@[i] == c
                        && final(self)@ == old(self)@.remove(i),
                None => final(self)@ == old(self)@,
            },
    {
        proof {
            use_type_invariant(&*self);
        }
        let wanted = id.to_owned();
        match self.position_of(&wanted) {
            Some(i) => {
                let mut v: Vec<Conversation> = Vec::new();
                std::mem::swap(&mut v, &mut self.conversations);
                let ghost old_v = v@;
                let c = v.remove(i);
                proof {
                    assert forall|a: int, b: int|
                        0 <= a < v@.len() && 0 <= b < v@.len() && a != b implies #[trigger] v@[a].id@
                        != #[trigger] v@[b].id@ by {
                        let a2 = if a < i { a } else { a + 1 };
                        let b2 = if b < i { b } else { b + 1 };
                        assert(v@[a] == old_v[a2]);
                        assert(v@[b] == old_v[b2]);
                    }
                    assert(v@ =~= old_v.remove(i as int));
                    let k = choose|k: int| 0 <= k < old_v.len() && #[trigger] old_v[k].id@ == id@;
                    assert(k == i);
                }
                self.conversations = v;
                Some(c)
            },
            None => None,
        }
    }

    /// Replaces the stored conversation that has the same id. Fails, leaving
    /// the database unchanged, when there is none.
    pub fn update(&mut self, conversation: Conversation) -> (r: Result<(), String>)
        ensures
            ids_unique(final(self)@),
            final(self).match_threshold() == old(self).match_threshold(),
            match r {
                Ok(()) => exists|i: int|
                    0 <= i < old(self)@.len() && old(self)@[i].id@ == conversation.id@
                        && final(self)@ == old(self)@.update(i, conversation),
                Err(msg) => !has_id(old(self)@, conversation.id@) && final(self)@ == old(self)@
                    && msg@ == "Conversation with id "@ + conversation.id@ + " does not exist"@,
            },
    {
        proof {
            use_type_invariant(&*self);
        }
        match self.position_of(&conversation.id) {
            Some(i) => {
                let mut v: Vec<Conversation> = Vec::new();
                std::mem::swap(&mut v, &mut self.conversations);
                let ghost old_v = v@;
                v.set(i, conversation);
                proof {
                    assert forall|a: int, b: int|
                        0 <= a < v@.len() && 0 <= b < v@.len() && a != b implies #[trigger] v@[a].id@
                        != #[trigger] v@[b].id@ by {
                        assert(v@[a].id@ == old_v[a].id@);
                        assert(v@[b].id@ == old_v[b].id@);
                    }
                }
                self.conversations = v;
                Ok(())
            },
            None => {
                let mut msg = "Conversation with id ".to_owned();
                msg.append(conversation.id.as_str());
                msg.append(" does not exist");
                Err(msg)
            },
        }
    }

    /// The matches of `query` ranked by non-increasing score; matches of equal
    /// score keep their storage order. `scores[i]` is the order key of the
    /// similarity of `query` and the i-th stored conversation.
    pub fn find_similar(&self, query: &Conversation, scores: &Vec<u64>) -> (r: Vec<(String, u64)>)
        requires
            scores@.len() == self@.len(),
        ensures
            scored_views(r@) == rank_desc(
                candidates(self@, scores@, query.id@, self.match_threshold()),
            ),
            sorted_desc(scored_views(r@)),
            scored_views(r@).to_multiset() == candidates(
                self@,
                scores@,
                query.id@,
                self.match_threshold(),
            ).to_multiset(),
    {
        let ghost pred = matches_query(query.id@, self.threshold);
        let ghost all = scored(self.conversations@, scores@);
        let n = self.conversations.len();
        let mut out: Vec<(String, u64)> = Vec::new();
        let mut i: usize = 0;
        proof {
            assert(all.take(0) =~= Seq::<Scored>::empty());
            assert(all.take(0).filter(pred) =~= Seq::<Scored>::empty()) by {
                reveal(Seq::filter);
            }
        }
        while i < n
            invariant
                n == self.conversations@.len(),
                scores@.len() == n,
                0 <= i <= n,
                all == scored(self.conversations@, scores@),
                pred == matches_query(query.id@, self.threshold),
                scored_views(out@) == rank_desc(all.take(i as int).filter(pred)),
            decreases n - i,
        {
            let c = &self.conversations[i];
            let s = scores[i];
            proof {
                assert(all.take(i + 1) =~= all.take(i as int).push(all[i as int]));
                all.take(i as int).lemma_filter_push(all[i as int], pred);
            }
            if c.id != query.id && s >= self.threshold {
                let ghost before = all.take(i as int).filter(pred);
                insert_ranked(&mut out, (c.id.clone(), s));
                proof {
                    assert(before.push(all[i as int]).drop_last() =~= before);
                }
            }
            i = i + 1;
        }
        proof {
            assert(all.take(n as int) =~= all);
            lemma_rank_desc(all.filter(pred));
        }
        out
    }

    /// The highest-scoring match of `query`: the first of `find_similar`.
    pub fn get_best_match(&self, query: &Conversation, scores: &Vec<u64>) -> (r: Option<(String, u64)>)
        requires
            scores@.len() == self@.len(),
        ensures
            match r {
                None => candidates(self@, scores@, query.id@, self.match_threshold()).len() == 0,
                Some(best) => {
                    let cands = candidates(self@, scores@, query.id@, self.match_threshold());
                    &&& (best.0@, best.1) == rank_desc(cands)[0]
                    &&& cands.contains((best.0@, best.1))
                    &&& forall|k: int| 0 <= k < cands.len() ==> #[trigger] cands[k].1 <= best.1
                },
            },
    {
        let mut ranked = self.find_similar(query, scores);
        let ghost cands = candidates(self@, scores@, query.id@, self.threshold);
        proof {
            lemma_rank_desc(cands);
        }
        if ranked.len() == 0 {
            proof {
                assert(scored_views(ranked@).len() == 0);
            }
            None
        } else {
            let best = ranked.swap_remove(0);
            proof {
                broadcast use vstd::seq_lib::group_to_multiset_ensures;

                let rv = rank_desc(cands);
                assert(rv[0] == (best.0@, best.1));
                assert(rv.to_multiset().count(rv[0]) > 0);
                assert(cands.contains(rv[0]));
                assert forall|k: int| 0 <= k < cands.len() implies #[trigger] cands[k].1 <= best.1 by {
                    assert(cands.to_multiset().count(cands[k]) > 0);
                    assert(rv.contains(cands[k]));
                    let m = choose|m: int| 0 <= m < rv.len() && rv[m] == cands[k];
                    if m > 0 {
                        assert(rv[0].1 >= rv[m].1);
                    }
                }
            }
            Some(best)
        }
    }

    /// Removes every conversation that has expired at `now` and returns how
    /// many were removed; the others keep their order.
    pub fn cleanup_expired_at(&mut self, now: i64) -> (r: usize)
        ensures
            ids_unique(final(self)@),
            final(self).match_threshold() == old(self).match_threshold(),
            final(self)@ == unexpired(old(self)@, now),
            r == old(self)@.len() - final(self)@.len(),
    {
        proof {
            use_type_invariant(&*self);
        }
        let ghost pred = |c: Conversation| !expired_at(c.expires_at, now);
        let mut old_v: Vec<Conversation> = Vec::new();
        std::mem::swap(&mut old_v, &mut self.conversations);
        let n = old_v.len();
        let mut kept: Vec<Conversation> = Vec::new();
        let mut removed: usize = 0;
        let mut i: usize = 0;
        let ghost s = old_v@;
        // Move the conversations into `rest` in reverse order, so that popping
        // from `rest` visits them front to back.
        let mut src = old_v;
        let mut rest: Vec<Conversation> = Vec::new();
        while src.len() > 0
            invariant
                n == s.len(),
                src@ == s.take(n - rest@.len()),
                rest@.len() <= n,
                forall|k: int| 0 <= k < rest@.len() ==> rest@[k] == s[n - 1 - k],
            decreases src@.len(),
        {
            let c = src.pop().unwrap();
            proof {
                assert(s.take(n - rest@.len() - 1) =~= src@);
            }
            rest.push(c);
        }
        proof {
            assert(s.take(0) =~= Seq::<Conversation>::empty());
            assert(s.take(0).filter(pred) =~= Seq::<Conversation>::empty()) by {
                reveal(Seq::filter);
            }
        }
        while i < n
            invariant
                n == s.len(),
                ids_unique(s),
                0 <= i <= n,
                rest@.len() == n - i,
                forall|k: int| 0 <= k < n - i ==> rest@[k] == s[n - 1 - k],
                kept@ == s.take(i as int).filter(pred),
                removed == i - kept@.len(),
                ids_unique(kept@),
                forall|k: int|
                    0 <= k < kept@.len() ==> exists|j: int|
                        0 <= j < i && s[j] == #[trigger] kept@[k],
                pred == (|c: Conversation| !expired_at(c.expires_at, now)),
            decreases n - i,
        {
            let c = rest.pop().unwrap();
            proof {
                assert(c == s[i as int]);
                assert(s.take(i + 1) =~= s.take(i as int).push(c));
                s.take(i as int).lemma_filter_push(c, pred);
            }
            if c.is_expired_at(now) {
                removed = removed + 1;
            } else {
                proof {
                    assert forall|a: int, b: int|
                        0 <= a < kept@.push(c).len() && 0 <= b < kept@.push(c).len() && a != b implies #[trigger] kept@.push(
                            c,
                        )[a].id@ != #[trigger] kept@.push(c)[b].id@ by {
                        if a == kept@.len() && b < kept@.len() {
                            let j = choose|j: int| 0 <= j < i && s[j] == #[trigger] kept@[b];
                            assert(s[j].id@ != s[i as int].id@);
                        } else if b == kept@.len() && a < kept@.len() {
                            let j = choose|j: int| 0 <= j < i && s[j] == #[trigger] kept@[a];
                            assert(s[j].id@ != s[i as int].id@);
                        }
                    }
                    assert forall|k: int| 0 <= k < kept@.push(c).len() implies exists|j: int|
                        0 <= j < i + 1 && s[j] == #[trigger] kept@.push(c)[k] by {
                        if k == kept@.len() {
                            assert(s[i as int] == kept@.push(c)[k]);
                        } else {
                            let j = choose|j: int| 0 <= j < i && s[j] == #[trigger] kept@[k];
                            assert(s[j] == kept@.push(c)[k]);
                        }
                    }
                }
                kept.push(c);
            }
            i = i + 1;
        }
        proof {
            assert(s.take(n as int) =~= s);
        }
        self.conversations = kept;
        removed
    }

    /// Removes every conversation that has expired now, by the clock, and
    /// returns how many were removed.
    pub fn cleanup_expired(&mut self) -> (r: usize)
        ensures
            ids_unique(final(self)@),
            final(self).match_threshold() == old(self).match_threshold(),
            exists|now: i64| final(self)@ == unexpired(old(self)@, now),
            r == old(self)@.len() - final(self)@.len(),
    {
        let now = now_micros();
        self.cleanup_expired_at(now)
    }

    /// The number of stored conversations.
    pub fn len(&self) -> (r: usize)
        ensures
            r == self@.len(),
    {
        self.conversations.len()
    }

    /// Whether no conversation is stored.
    pub fn is_empty(&self) -> (r: bool)
        ensures
            r == (self@.len() == 0),
    {
        self.conversations.len() == 0
    }

    /// Removes every conversation.
    pub fn clear(&mut self)
        ensures
            final(self)@ == Seq::<Conversation>::empty(),
            final(self).match_threshold() == old(self).match_threshold(),
    {
        self.conversations = Vec::new();
    }

    /// The ids of the stored conversations, in storage order.
    pub fn list_ids(&self) -> (r: Vec<String>)
        ensures
            string_views(r@) == ids_of(self@),
    {
        let n = self.conversations.len();
        let mut out: Vec<String> = Vec::new();
        let mut i: usize = 0;
        while i < n
            invariant
                n == self.conversations@.len(),
                0 <= i <= n,
                string_views(out@) == ids_of(self.conversations@).take(i as int),
            decreases n - i,
        {
            let id = self.conversations[i].id.clone();
            let ghost before = out@;
            out.push(id);
            proof {
                assert(out@ == before.push(id));
                assert(id@ == self.conversations@[i as int].id@);
                assert(ids_of(self.conversations@)[i as int] == id@);
                assert(string_views(out@) =~= string_views(before).push(id@));
                assert(ids_of(self.conversations@).take(i + 1) =~= ids_of(
                    self.conversations@,
                ).take(i as int).push(id@));
                assert(string_views(out@) =~= ids_of(self.conversations@).take(
                    i + 1,
                ));
            }
            i = i + 1;
        }
        proof {
            assert(ids_of(self.conversations@).take(n as int) =~= ids_of(self.conversations@));
        }
        out
    }
}

impl Default for IntentDatabase {
    fn default() -> (r: IntentDatabase)
        ensures
            r@ == Seq::<Conversation>::empty(),
            r.match_threshold() == DEFAULT_MATCH_THRESHOLD,
    {
        IntentDatabase::new()
    }
}

/// Storing a conversation under a new id keeps the ids unique; looking the id
/// up gives the conversation back, and every other id looks up what it did before.
pub proof fn law_store_then_get(s: Seq<Conversation>, c: Conversation, id: Seq<char>)
    requires
        ids_unique(s),
        !has_id(s, c.id@),
    ensures
        ids_unique(s.push(c)),
        lookup(s.push(c), c.id@) == Some(c),
        id != c.id@ ==> lookup(s.push(c), id) == lookup(s, id),
{
    let t = s.push(c);
    assert forall|a: int, b: int|
        0 <= a < t.len() && 0 <= b < t.len() && a != b implies #[trigger] t[a].id@
        != #[trigger] t[b].id@ by {
        if a == s.len() {
            assert(t[b] == s[b]);
        } else if b == s.len() {
            assert(t[a] == s[a]);
        }
    }
    assert(t[s.len() as int].id@ == c.id@);
    if id != c.id@ {
        if has_id(s, id) {
            let k = choose|k: int| 0 <= k < s.len() && #[trigger] s[k].id@ == id;
            assert(t[k].id@ == id);
        }
        if has_id(t, id) {
            let k = choose|k: int| 0 <= k < t.len() && #[trigger] t[k].id@ == id;
            assert(k < s.len());
            assert(s[k].id@ == id);
        }
    }
}

/// Removing the conversation at `i` makes its id unknown and leaves every
/// other id as it was.
pub proof fn law_remove_then_get(s: Seq<Conversation>, i: int, id: Seq<char>)
    requires
        ids_unique(s),
        0 <= i < s.len(),
    ensures
        ids_unique(s.remove(i)),
        lookup(s, s[i].id@) == Some(s[i]),
        lookup(s.remove(i), s[i].id@) is None,
        id != s[i].id@ ==> lookup(s.remove(i), id) == lookup(s, id),
{
    let t = s.remove(i);
    assert forall|a: int, b: int|
        0 <= a < t.len() && 0 <= b < t.len() && a != b implies #[trigger] t[a].id@
        != #[trigger] t[b].id@ by {
        let a2 = if a < i { a } else { a + 1 };
        let b2 = if b < i { b } else { b + 1 };
        assert(t[a] == s[a2]);
        assert(t[b] == s[b2]);
    }
    assert(s[i].id@ == s[i].id@);
    if has_id(t, s[i].id@) {
        let k = choose|k: int| 0 <= k < t.len() && #[trigger] t[k].id@ == s[i].id@;
        let k2 = if k < i { k } else { k + 1 };
        assert(t[k] == s[k2]);
    }
    if id != s[i].id@ {
        if has_id(s, id) {
            let k = choose|k: int| 0 <= k < s.len() && #[trigger] s[k].id@ == id;
            let k2 = if k < i { k } else { k - 1 };
            assert(t[k2] == s[k]);
        }
        if has_id(t, id) {
            let k = choose|k: int| 0 <= k < t.len() && #[trigger] t[k].id@ == id;
            let k2 = if k < i { k } else { k + 1 };
            assert(t[k] == s[k2]);
        }
    }
}

/// Replacing the conversation at `i` by one with the same id keeps the ids
/// unique; the id then looks up the new conversation, and every other id
/// looks up what it did before.
pub proof fn law_update_then_get(s: Seq<Conversation>, i: int, c: Conversation, id: Seq<char>)
    requires
        ids_unique(s),
        0 <= i < s.len(),
        s[i].id@ == c.id@,
    ensures
        ids_unique(s.update(i, c)),
        lookup(s.update(i, c), c.id@) == Some(c),
        id != c.id@ ==> lookup(s.update(i, c), id) == lookup(s, id),
{
    let t = s.update(i, c);
    assert forall|a: int, b: int|
        0 <= a < t.len() && 0 <= b < t.len() && a != b implies #[trigger] t[a].id@
        != #[trigger] t[b].id@ by {
        assert(t[a].id@ == s[a].id@);
        assert(t[b].id@ == s[b].id@);
    }
    assert(t[i].id@ == c.id@);
    if id != c.id@ {
        if has_id(s, id) {
            let k = choose|k: int| 0 <= k < s.len() && #[trigger] s[k].id@ == id;
            assert(t[k].id@ == id);
        }
        if has_id(t, id) {
            let k = choose|k: int| 0 <= k < t.len() && #[trigger] t[k].id@ == id;
            assert(s[k].id@ == id);
        }
    }
}

/// Cleaning up at an instant keeps the ids unique and forgets exactly the
/// conversations that have expired at that instant.
pub proof fn law_cleanup_forgets_expired(s: Seq<Conversation>, now: i64, id: Seq<char>)
    requires
        ids_unique(s),
    ensures
        ids_unique(unexpired(s, now)),
        lookup(unexpired(s, now), id) == match lookup(s, id) {
            Some(c) => if expired_at(c.expires_at, now) {
                None
            } else {
                Some(c)
            },
            None => None,
        },
        forall|k: int|
            0 <= k < unexpired(s, now).len() ==> !expired_at(
                #[trigger] unexpired(s, now)[k].expires_at,
                now,
            ),
{
    broadcast use vstd::seq_lib::group_filter_ensures;

    let pred = |c: Conversation| !expired_at(c.expires_at, now);
    let t = unexpired(s, now);
    assert(t == s.filter(pred));
    assert forall|a: int| 0 <= a < t.len() implies s.contains(#[trigger] t[a]) && pred(t[a]) by {
        assert(t.contains(t[a]));
        s.lemma_filter_contains_rev(pred, t[a]);
    }
    assert forall|a: int, b: int|
        0 <= a < t.len() && 0 <= b < t.len() && a != b implies #[trigger] t[a].id@
        != #[trigger] t[b].id@ by {
        lemma_filter_distinct_positions(s, pred, a, b);
    }
    if has_id(s, id) {
        let k = choose|k: int| 0 <= k < s.len() && #[trigger] s[k].id@ == id;
        if pred(s[k]) {
            assert(t.contains(s[k]));
            let m = choose|m: int| 0 <= m < t.len() && t[m] == s[k];
            assert(t[m].id@ == id);
        } else if has_id(t, id) {
            let m = choose|m: int| 0 <= m < t.len() && #[trigger] t[m].id@ == id;
            assert(s.contains(t[m]));
            let j = choose|j: int| 0 <= j < s.len() && s[j] == t[m];
            assert(s[j].id@ == id);
        }
    } else if has_id(t, id) {
        let m = choose|m: int| 0 <= m < t.len() && #[trigger] t[m].id@ == id;
        assert(s.contains(t[m]));
        let j = choose|j: int| 0 <= j < s.len() && s[j] == t[m];
        assert(s[j].id@ == id);
    }
    if has_id(t, id) {
        let m = choose|m: int| 0 <= m < t.len() && #[trigger] t[m].id@ == id;
        assert(s.contains(t[m]));
        let j = choose|j: int| 0 <= j < s.len() && s[j] == t[m];
        assert(s[j].id@ == id);
    }
}

/// Two positions of a filtered sequence of unique ids hold different ids.
proof fn lemma_filter_distinct_positions(
    s: Seq<Conversation>,
    pred: spec_fn(Conversation) -> bool,
    a: int,
    b: int,
)
    requires
        ids_unique(s),
        0 <= a < s.filter(pred).len(),
        0 <= b < s.filter(pred).len(),
        a != b,
    ensures
        s.filter(pred)[a].id@ != s.filter(pred)[b].id@,
    decreases s.len(),
{
    reveal(Seq::filter);
    let d = s.drop_last();
    let f = d.filter(pred);
    assert(ids_unique(d)) by {
        assert forall|x: int, y: int|
            0 <= x < d.len() && 0 <= y < d.len() && x != y implies #[trigger] d[x].id@
            != #[trigger] d[y].id@ by {
            assert(d[x] == s[x]);
            assert(d[y] == s[y]);
        }
    }
    if pred(s.last()) && (a == f.len() || b == f.len()) {
        let other = if a == f.len() { b } else { a };
        broadcast use vstd::seq_lib::group_filter_ensures;

        assert(s.filter(pred)[other] == f[other]);
        assert(f.contains(f[other]));
        d.lemma_filter_contains_rev(pred, f[other]);
        let j = choose|j: int| 0 <= j < d.len() && d[j] == f[other];
        assert(s[j] == d[j]);
        assert(s[s.len() - 1] == s.last());
    } else {
        lemma_filter_distinct_positions(d, pred, a, b);
    }
}

/// Every ranked match of a query is another conversation whose score reaches
/// the threshold, and every such conversation is ranked.
pub proof fn law_matches_are_candidates(
    s: Seq<Conversation>,
    scores: Seq<u64>,
    query_id: Seq<char>,
    threshold: u64,
)
    requires
        scores.len() == s.len(),
    ensures
        forall|k: int|
            0 <= k < rank_desc(candidates(s, scores, query_id, threshold)).len() ==> {
                let m = #[trigger] rank_desc(candidates(s, scores, query_id, threshold))[k];
                &&& m.0 != query_id
                &&& m.1 >= threshold
                &&& exists|i: int| 0 <= i < s.len() && s[i].id@ == m.0 && scores[i] == m.1
            },
        forall|i: int|
            0 <= i < s.len() && s[i].id@ != query_id && scores[i] >= threshold ==> rank_desc(
                candidates(s, scores, query_id, threshold),
            ).contains((#[trigger] s[i].id@, scores[i])),
{
    broadcast use vstd::seq_lib::group_to_multiset_ensures;
    broadcast use vstd::seq_lib::group_filter_ensures;

    let c = candidates(s, scores, query_id, threshold);
    let r = rank_desc(c);
    let all = scored(s, scores);
    lemma_rank_desc(c);
    assert forall|k: int| 0 <= k < r.len() implies {
        let m = #[trigger] r[k];
        &&& m.0 != query_id
        &&& m.1 >= threshold
        &&& exists|i: int| 0 <= i < s.len() && s[i].id@ == m.0 && scores[i] == m.1
    } by {
        assert(r.to_multiset().count(r[k]) > 0);
        assert(c.contains(r[k]));
        let j = choose|j: int| 0 <= j < c.len() && c[j] == r[k];
        assert(matches_query(query_id, threshold)(c[j]));
        assert(c.contains(c[j]));
        all.lemma_filter_contains_rev(matches_query(query_id, threshold), c[j]);
        let i = choose|i: int| 0 <= i < all.len() && all[i] == c[j];
        assert(s[i].id@ == r[k].0 && scores[i] == r[k].1);
    }
    assert forall|i: int|
        0 <= i < s.len() && s[i].id@ != query_id && scores[i] >= threshold implies r.contains(
            (#[trigger] s[i].id@, scores[i]),
        ) by {
        assert(all[i] == (s[i].id@, scores[i]));
        assert(matches_query(query_id, threshold)(all[i]));
        assert(c.contains(all[i]));
        assert(c.to_multiset().count(all[i]) > 0);
    }
}

} // verus!
