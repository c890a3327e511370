//! Funnels: trees of questions that narrow a conversation down, the sessions
//! that walk them, and the deterministic embedders and question makers used
//! to build and test them.
use vstd::prelude::*;
use vstd::string::StringSliceAdditionalSpecFns;
use vstd::wrapping::u64_specs;
use std::sync::Arc;

use crate::conversation::Conversation;
use crate::text::string_views;

verus! {

/// A question asked by a funnel.
#[derive(Debug, Clone)]
pub struct QuestionSpec {
    pub id: String,
    pub prompt: String,
    pub answer_type: String,
}

/// A funnel and the nodes that belong to it.
#[derive(Debug, Clone)]
pub struct Funnel {
    pub id: String,
    pub description: Option<String>,
    /// Ids of the nodes belonging to this funnel.
    pub node_ids: Vec<String>,
}

impl Funnel {
    /// A funnel with the id, no description and no nodes.
    pub fn new(id: &str) -> (r: Funnel)
        ensures
            r.id@ == id@,
            r.description is None,
            r.node_ids@.len() == 0,
    {
        Funnel { id: id.to_owned(), description: None, node_ids: Vec::new() }
    }

    /// Starts a session on the funnel, at its first step.
    pub fn activate(funnel: Arc<Funnel>) -> (r: FunnelSession)
        ensures
            r.funnel == funnel,
            r.state == 0,
    {
        FunnelSession { funnel, state: 0 }
    }
}

/// A running activation of a funnel; `state` counts the steps taken.
pub struct FunnelSession {
    pub funnel: Arc<Funnel>,
    pub state: usize,
}

impl FunnelSession {
    /// At the first step, the canned question (id "q1", prompt "Is this about
    /// billing or usage?", answer type "choice"), moving to the next step;
    /// afterwards no question and no change.
    pub fn next_question(&mut self) -> (r: Option<QuestionSpec>)
        ensures
            final(self).funnel == old(self).funnel,
            old(self).state == 0 ==> final(self).state == 1 && r is Some && r->0.id@ == "q1"@
                && r->0.prompt@ == "Is this about billing or usage?"@ && r->0.answer_type@
                == "choice"@,
            old(self).state != 0 ==> final(self).state == old(self).state && r is None,
    {
        if self.state == 0 {
            self.state = 1;
            Some(
                QuestionSpec {
                    id: "q1".to_owned(),
                    prompt: "Is this about billing or usage?".to_owned(),
                    answer_type: "choice".to_owned(),
                },
            )
        } else {
            None
        }
    }

    /// Accepts any answer and moves to the next step.
    pub fn submit_answer(&mut self, answer: &str) -> (r: Result<(), String>)
        requires
            old(self).state < usize::MAX,
        ensures
            r is Ok,
            final(self).funnel == old(self).funnel,
            final(self).state == old(self).state + 1,
    {
        self.state = self.state + 1;
        Ok(())
    }
}

/// A node of a funnel tree: a decision point with its example conversations.
/// The centroid's coordinates are held as the bit patterns of their `f32`
/// values (`f32::to_bits`).
#[derive(Debug, Clone)]
pub struct FunnelNode {
    pub id: String,
    pub parent_id: Option<String>,
    pub centroid: Option<Vec<u32>>,
    pub example_ids: Vec<String>,
    pub question: Option<QuestionSpec>,
}

impl FunnelNode {
    /// A node with the id and nothing else.
    pub fn new(id: &str) -> (r: FunnelNode)
        ensures
            r.id@ == id@,
            r.parent_id is None,
            r.centroid is None,
            r.example_ids@.len() == 0,
            r.question is None,
    {
        FunnelNode {
            id: id.to_owned(),
            parent_id: None,
            centroid: None,
            example_ids: Vec::new(),
            question: None,
        }
    }
}

/// An embedder for tests and development: every text embeds to the zero
/// vector of dimension 8.
pub struct StubEmbedder {}

impl StubEmbedder {
    /// The dimension of its embeddings.
    pub fn dimension(&self) -> (r: usize)
        ensures
            r == 8,
    {
        8
    }
}

/// A question maker for tests and development.
pub struct StubModelAdapter {}

impl StubModelAdapter {
    /// The question generated for a context: "Question based on: <context>".
    pub fn compose_question(&self, context: &str) -> (r: String)
        ensures
            r@ == "Question based on: "@ + context@,
    {
        let mut s = "Question based on: ".to_owned();
        s.append(context);
        s
    }
}

/// The topic a conversation is grouped under: its first topic, or "__misc__"
/// when it has none.
pub open spec fn topic_key(c: Conversation) -> Seq<char> {
    if c.intent.topics@.len() > 0 {
        c.intent.topics@[0]@
    } else {
        "__misc__"@
    }
}

/// The ids of the conversations grouped under `key`, in order.
pub open spec fn ids_with_topic(convs: Seq<Conversation>, key: Seq<char>) -> Seq<Seq<char>>
    decreases convs.len(),
{
    if convs.len() == 0 {
        Seq::empty()
    } else {
        let prev = ids_with_topic(convs.drop_last(), key);
        if topic_key(convs.last()) == key {
            prev.push(convs.last().id@)
        } else {
            prev
        }
    }
}

/// Whether `groups` is the grouping of `convs` by topic: one group per topic
/// that occurs, each holding the ids of its conversations in order.
pub open spec fn is_topic_grouping(groups: Seq<(String, Vec<String>)>, convs: Seq<Conversation>) -> bool {
    &&& forall|g: int, h: int|
        0 <= g < h < groups.len() ==> #[trigger] groups[g].0@ != #[trigger] groups[h].0@
    &&& forall|g: int|
        0 <= g < groups.len() ==> string_views(#[trigger] groups[g].1@) == ids_with_topic(
            convs,
            groups[g].0@,
        ) && groups[g].1@.len() > 0
    &&& forall|i: int|
        0 <= i < convs.len() ==> exists|g: int|
            0 <= g < groups.len() && #[trigger] groups[g].0@ == topic_key(#[trigger] convs[i])
}

/// Builds a funnel for a set of conversations without clustering: the
/// conversations are grouped by topic, and the funnel has the requested id and
/// no nodes, and is stored under "funnel:builder:<id>".
pub struct SimpleFunnelBuilder {}

impl SimpleFunnelBuilder {
    pub fn new() -> (r: SimpleFunnelBuilder) {
        SimpleFunnelBuilder {}
    }

    /// The funnel to store and the key to store it under.
    pub fn build(&self, id: &str) -> (r: (Funnel, String))
        ensures
            r.0.id@ == id@,
            r.0.description is None,
            r.0.node_ids@.len() == 0,
            r.1@ == "funnel:builder:"@ + id@,
    {
        (Funnel::new(id), crate::flow::builder_key(id))
    }

    /// The conversations grouped by their first topic ("__misc__" for those
    /// without one).
    pub fn topic_groups(&self, convs: &Vec<Conversation>) -> (r: Vec<(String, Vec<String>)>)
        ensures
            is_topic_grouping(r@, convs@),
    {
        let mut groups: Vec<(String, Vec<String>)> = Vec::new();
        let n = convs.len();
        let mut i: usize = 0;
        while i < n
            invariant
                n == convs@.len(),
                0 <= i <= n,
                is_topic_grouping(groups@, convs@.take(i as int)),
            decreases n - i,
        {
            let c = &convs[i];
            let key = if c.intent.topics.len() > 0 {
                c.intent.topics[0].clone()
            } else {
                "__misc__".to_owned()
            };
            let ghost before = groups@;
            let ghost prefix = convs@.take(i as int);
            let ghost next = convs@.take(i + 1);
            proof {
                assert(next.drop_last() =~= prefix);
                assert(next.last() == convs@[i as int]);
                assert(key@ == topic_key(convs@[i as int]));
            }
            let mut g: usize = 0;
            let mut found = false;
            while g < groups.len() && !found
                invariant
                    groups@ == before,
                    0 <= g <= groups@.len(),
                    found ==> g < groups@.len() && groups@[g as int].0@ == key@,
                    !found ==> forall|h: int| 0 <= h < g ==> groups@[h].0@ != key@,
                decreases groups@.len() - g + (if found { 0int } else { 1int }),
            {
                if groups[g].0 == key {
                    found = true;
                } else {
                    g = g + 1;
                }
            }
            if found {
                let mut entry = groups.remove(g);
                entry.1.push(c.id.clone());
                groups.insert(g, entry);
                proof {
                    assert(groups@ =~= before.update(g as int, groups@[g as int]));
                    assert forall|h: int| 0 <= h < groups@.len() implies string_views(
                        #[trigger] groups@[h].1@,
                    ) == ids_with_topic(next, groups@[h].0@) && groups@[h].1@.len() > 0 by {
                        if h == g {
                            assert(string_views(groups@[h].1@) =~= string_views(before[h].1@).push(
                                c.id@,
                            ));
                        }
                    }
                    assert forall|j: int| 0 <= j < next.len() implies exists|h: int|
                        0 <= h < groups@.len() && #[trigger] groups@[h].0@ == topic_key(
                            #[trigger] next[j],
                        ) by {
                        if j < i {
                            assert(next[j] == prefix[j]);
                            let h = choose|h: int|
                                0 <= h < before.len() && #[trigger] before[h].0@ == topic_key(
                                    #[trigger] prefix[j],
                                );
                            assert(groups@[h].0@ == before[h].0@);
                        } else {
                            assert(groups@[g as int].0@ == key@);
                        }
                    }
                }
            } else {
                let mut ids: Vec<String> = Vec::new();
                ids.push(c.id.clone());
                groups.push((key, ids));
                proof {
                    assert forall|h: int| 0 <= h < groups@.len() implies string_views(
                        #[trigger] groups@[h].1@,
                    ) == ids_with_topic(next, groups@[h].0@) && groups@[h].1@.len() > 0 by {
                        if h == before.len() {
                            lemma_no_ids_with_topic(prefix, key@);
                            assert(string_views(groups@[h].1@) =~= seq![c.id@]);
                            assert(ids_with_topic(prefix, key@) =~= Seq::<Seq<char>>::empty());
                        } else {
                            assert(groups@[h] == before[h]);
                        }
                    }
                    assert forall|j: int| 0 <= j < next.len() implies exists|h: int|
                        0 <= h < groups@.len() && #[trigger] groups@[h].0@ == topic_key(
                            #[trigger] next[j],
                        ) by {
                        if j < i {
                            assert(next[j] == prefix[j]);
                            let h = choose|h: int|
                                0 <= h < before.len() && #[trigger] before[h].0@ == topic_key(
                                    #[trigger] prefix[j],
                                );
                            assert(groups@[h] == before[h]);
                        } else {
                            assert(groups@[before.len() as int].0@ == key@);
                        }
                    }
                }
            }
            i = i + 1;
        }
        proof {
            assert(convs@.take(n as int) =~= convs@);
        }
        groups
    }
}

/// A topic that no conversation is grouped under has no ids.
proof fn lemma_no_ids_with_topic(convs: Seq<Conversation>, key: Seq<char>)
    requires
        forall|i: int| 0 <= i < convs.len() ==> topic_key(#[trigger] convs[i]) != key,
    ensures
        ids_with_topic(convs, key).len() == 0,
    decreases convs.len(),
{
    if convs.len() > 0 {
        let d = convs.drop_last();
        assert forall|i: int| 0 <= i < d.len() implies topic_key(#[trigger] d[i]) != key by {
            assert(d[i] == convs[i]);
        }
        assert(topic_key(convs[convs.len() - 1]) != key);
        lemma_no_ids_with_topic(d, key);
    }
}

impl Default for SimpleFunnelBuilder {
    fn default() -> (r: SimpleFunnelBuilder) {
        SimpleFunnelBuilder::new()
    }
}

/// The FNV-1a offset basis.
pub const FNV_OFFSET: u64 = 1469598103934665603;

/// The FNV-1a prime.
pub const FNV_PRIME: u64 = 1099511628211;

/// The multiplier of the linear congruential generator.
pub const LCG_MULTIPLIER: u64 = 6364136223846793005;

/// The increment of the linear congruential generator.
pub const LCG_INCREMENT: u64 = 1442695040888963407;

/// The 64-bit FNV-1a hash of the bytes.
pub open spec fn fnv1a(bytes: Seq<u8>) -> u64
    decreases bytes.len(),
{
    if bytes.len() == 0 {
        FNV_OFFSET
    } else {
        u64_specs::wrapping_mul(fnv1a(bytes.drop_last()) ^ (bytes.last() as u64), FNV_PRIME)
    }
}

/// One step of the linear congruential generator.
pub open spec fn lcg_step(x: u64) -> u64 {
    u64_specs::wrapping_add(u64_specs::wrapping_mul(x, LCG_MULTIPLIER), LCG_INCREMENT)
}

/// The generator's state after `i` steps from `x`.
pub open spec fn lcg_state(x: u64, i: nat) -> u64
    decreases i,
{
    if i == 0 {
        x
    } else {
        lcg_step(lcg_state(x, (i - 1) as nat))
    }
}

/// The i-th 16-bit code of the embedding of a text whose hash is `h`: bits
/// `i % 32` to `i % 32 + 15` of the generator's state after `i + 1` steps.
pub open spec fn embedding_code(h: u64, i: nat) -> u16 {
    ((lcg_state(h, i + 1) >> ((i % 32) as u64)) & 0xffff) as u16
}

/// A deterministic embedder based on hashing: a text is hashed with FNV-1a and
/// the hash seeds a generator that yields one 16-bit code per dimension; code
/// `c` stands for the coordinate `c / 65535 * 2 - 1` in [-1, 1].
pub struct HashEmbedder {
    pub dim: usize,
}

impl HashEmbedder {
    pub fn new(dim: usize) -> (r: HashEmbedder)
        ensures
            r.dim == dim,
    {
        HashEmbedder { dim }
    }

    /// The codes of the embedding of `text`, one per dimension.
    pub fn embedding_codes(&self, text: &str) -> (r: Vec<u16>)
        ensures
            r@.len() == self.dim,
            forall|i: int|
                0 <= i < self.dim ==> #[trigger] r@[i] == embedding_code(
                    fnv1a(text.spec_bytes()),
                    i as nat,
                ),
    {
        let bytes = text.as_bytes();
        let n = bytes.len();
        let mut h: u64 = FNV_OFFSET;
        let mut j: usize = 0;
        while j < n
            invariant
                n == bytes@.len(),
                bytes@ == text.spec_bytes(),
                0 <= j <= n,
                h == fnv1a(bytes@.take(j as int)),
            decreases n - j,
        {
            proof {
                assert(bytes@.take(j + 1).drop_last() =~= bytes@.take(j as int));
                assert(bytes@.take(j + 1).last() == bytes@[j as int]);
            }
            h = h ^ (bytes[j] as u64);
            h = h.wrapping_mul(FNV_PRIME);
            j = j + 1;
        }
        proof {
            assert(bytes@.take(n as int) =~= bytes@);
        }
        let mut codes: Vec<u16> = Vec::new();
        let mut seed = h;
        let mut i: usize = 0;
        while i < self.dim
            invariant
                0 <= i <= self.dim,
                h == fnv1a(text.spec_bytes()),
                seed == lcg_state(h, i as nat),
                codes@.len() == i,
                forall|k: int| 0 <= k < i ==> #[trigger] codes@[k] == embedding_code(h, k as nat),
            decreases self.dim - i,
        {
            seed = seed.wrapping_mul(LCG_MULTIPLIER).wrapping_add(LCG_INCREMENT);
            let shift = (i % 32) as u64;
            let bits = (seed >> shift) & 0xffff;
            proof {
                assert((seed >> shift) & 0xffff <= 0xffff) by (bit_vector);
            }
            codes.push(bits as u16);
            i = i + 1;
        }
        codes
    }
}

} // verus!
