//! Model adapters and connectors that need no outside service, and the
//! registry of named adapters.
use vstd::prelude::*;

use crate::format::{decimal, push_decimal};

verus! {

/// A deterministic adapter that phrases a question from a template.
pub struct TemplateModelAdapter {}

impl TemplateModelAdapter {
    pub fn new() -> (r: TemplateModelAdapter) {
        TemplateModelAdapter {}
    }

    /// The question generated for a context: "Is the issue about: <context>?".
    pub fn compose_question(&self, context: &str) -> (r: String)
        ensures
            r@ == "Is the issue about: "@ + context@ + "?"@,
    {
        let mut s = "Is the issue about: ".to_owned();
        s.append(context);
        s.append("?");
        s
    }
}

impl Default for TemplateModelAdapter {
    fn default() -> (r: TemplateModelAdapter) {
        TemplateModelAdapter::new()
    }
}

/// A deterministic simulated adapter that produces a "thought outcome"
/// string from a context, a prefix and a seed.
pub struct SimulatedModelAdapter {
    seed: u64,
    prefix: String,
}

impl SimulatedModelAdapter {
    /// The seed the adapter was made with.
    pub closed spec fn spec_seed(&self) -> u64 {
        self.seed
    }

    /// The prefix the adapter was made with.
    pub closed spec fn spec_prefix(&self) -> Seq<char> {
        self.prefix@
    }

    pub fn new(seed: u64, prefix: String) -> (r: SimulatedModelAdapter)
        ensures
            r.spec_seed() == seed,
            r.spec_prefix() == prefix@,
    {
        SimulatedModelAdapter { seed, prefix }
    }

    /// The text generated for a context: "<prefix>-s<seed>:<context>".
    pub fn compose_question(&self, context: &str) -> (r: String)
        ensures
            r@ == self.spec_prefix() + "-s"@ + decimal(self.spec_seed() as nat) + ":"@ + context@,
    {
        let mut s = self.prefix.clone();
        s.append("-s");
        push_decimal(&mut s, self.seed);
        s.append(":");
        s.append(context);
        s
    }
}

/// The feedback a simulated connector gives at a counter value: positive when
/// `positive_every` is 0 or the counter is a multiple of it.
pub open spec fn feedback_at(positive_every: usize, counter: usize) -> bool {
    positive_every == 0 || counter % positive_every == 0
}

/// The counter after one more request: unchanged when `positive_every` is 0,
/// otherwise one more, wrapping around at the end of `usize`.
pub open spec fn next_counter(positive_every: usize, counter: usize) -> usize {
    if positive_every == 0 {
        counter
    } else if counter == usize::MAX {
        0
    } else {
        (counter + 1) as usize
    }
}

/// The counter of a new connector after `j` requests.
pub open spec fn counter_after(positive_every: usize, j: nat) -> usize
    decreases j,
{
    if j == 0 {
        0
    } else {
        next_counter(positive_every, counter_after(positive_every, (j - 1) as nat))
    }
}

/// On a new connector, request `j` (counting from 0) finds the counter at `j`
/// (at 0 when `positive_every` is 0) and is answered positively exactly when
/// `positive_every` is 0 or divides `j`; this holds for the first
/// `usize::MAX + 1` requests, after which the counter wraps around.
pub proof fn law_every_nth_request_is_positive(positive_every: usize, j: nat)
    requires
        j <= usize::MAX,
    ensures
        counter_after(positive_every, j) == (if positive_every == 0 {
            0
        } else {
            j
        }),
        feedback_at(positive_every, counter_after(positive_every, j)) == (positive_every == 0 || j
            % (positive_every as nat) == 0),
    decreases j,
{
    if j > 0 {
        law_every_nth_request_is_positive(positive_every, (j - 1) as nat);
    }
}

/// A connector that gives thumbs-up or thumbs-down on a fixed schedule: with
/// `positive_every == 0` every answer is positive; otherwise the n-th request
/// (counting from 0) is positive exactly when n is a multiple of
/// `positive_every`. The model is only invoked for realism.
pub struct SimulatedConnector<M> {
    pub model: M,
    pub positive_every: usize,
    /// How many requests have been counted so far.
    pub counter: usize,
}

impl<M> SimulatedConnector<M> {
    pub fn new(model: M, positive_every: usize) -> (r: SimulatedConnector<M>)
        ensures
            r.model == model,
            r.positive_every == positive_every,
            r.counter == 0,
    {
        SimulatedConnector { model, positive_every, counter: 0 }
    }

    /// The feedback for the next request. Requests are only counted when
    /// `positive_every` is not 0; the counter wraps around as an atomic
    /// `fetch_add` does.
    pub fn next_feedback(&mut self) -> (r: bool)
        ensures
            final(self).model == old(self).model,
            final(self).positive_every == old(self).positive_every,
            r == feedback_at(old(self).positive_every, old(self).counter),
            final(self).counter == next_counter(old(self).positive_every, old(self).counter),
    {
        if self.positive_every == 0 {
            return true;
        }
        let i = self.counter;
        self.counter = self.counter.wrapping_add(1);
        i % self.positive_every == 0
    }
}

/// A connector whose feedback is fixed.
pub struct MockConnector {
    pub positive: bool,
}

impl MockConnector {
    /// The feedback given to every conversation.
    pub fn feedback(&self) -> (r: bool)
        ensures
            r == self.positive,
    {
        self.positive
    }
}

/// No two entries share a name.
pub open spec fn names_unique<A>(s: Seq<(String, A)>) -> bool {
    forall|i: int, j: int|
        0 <= i < s.len() && 0 <= j < s.len() && i != j ==> #[trigger] s[i].0@ != #[trigger] s[j].0@
}

/// Some entry has the name.
pub open spec fn has_name<A>(s: Seq<(String, A)>, name: Seq<char>) -> bool {
    exists|i: int| 0 <= i < s.len() && #[trigger] s[i].0@ == name
}

/// The adapter registered under the name, if any.
pub open spec fn registered<A>(s: Seq<(String, A)>, name: Seq<char>) -> Option<A> {
    if has_name(s, name) {
        Some(s[choose|i: int| 0 <= i < s.len() && #[trigger] s[i].0@ == name].1)
    } else {
        None
    }
}

/// Named model adapters, chosen at run time.
pub struct AiManager<A> {
    adapters: Vec<(String, A)>,
}

impl<A> View for AiManager<A> {
    type V = Seq<(String, A)>;

    closed spec fn view(&self) -> Seq<(String, A)> {
        self.adapters@
    }
}

impl<A> AiManager<A> {
    #[verifier::type_invariant]
    spec fn inv(self) -> bool {
        names_unique(self.adapters@)
    }

    /// A manager without adapters.
    pub fn new() -> (r: AiManager<A>)
        ensures
            forall|name: Seq<char>| #[trigger] registered(r@, name) is None,
            names_unique(r@),
    {
        AiManager { adapters: Vec::new() }
    }

    fn position_of(&self, name: &String) -> (r: Option<usize>)
        ensures
            match r {
                Some(i) => i < self@.len() && self@[i as int].0@ == name@,
                None => !has_name(self@, name@),
            },
    {
        let n = self.adapters.len();
        let mut i: usize = 0;
        while i < n
            invariant
                n == self.adapters@.len(),
                0 <= i <= n,
                forall|j: int| 0 <= j < i ==> self.adapters@[j].0@ != name@,
            decreases n - i,
        {
            if self.adapters[i].0 == *name {
                return Some(i);
            }
            i = i + 1;
        }
        None
    }

    /// Registers an adapter under a name, replacing any adapter registered
    /// under it before.
    pub fn register(&mut self, name: String, adapter: A)
        ensures
            names_unique(final(self)@),
            registered(final(self)@, name@) == Some(adapter),
            forall|other: Seq<char>|
                other != name@ ==> #[trigger] registered(final(self)@, other) == registered(
                    old(self)@,
                    other,
                ),
    {
        proof {
            use_type_invariant(&*self);
        }
        let ghost nm = name@;
        let mut v: Vec<(String, A)> = Vec::new();
        std::mem::swap(&mut v, &mut self.adapters);
        let ghost s = v@;
        match self.position_of_in(&v, &name) {
            Some(i) => {
                v.set(i, (name, adapter));
                proof {
                    lemma_registered_update(s, i as int, nm, adapter);
                }
            },
            None => {
                v.push((name, adapter));
                proof {
                    lemma_registered_push(s, nm, adapter);
                }
            },
        }
        self.adapters = v;
    }

    fn position_of_in(&self, v: &Vec<(String, A)>, name: &String) -> (r: Option<usize>)
        ensures
            match r {
                Some(i) => i < v@.len() && v@[i as int].0@ == name@,
                None => !has_name(v@, name@),
            },
    {
        let n = v.len();
        let mut i: usize = 0;
        while i < n
            invariant
                n == v@.len(),
                0 <= i <= n,
                forall|j: int| 0 <= j < i ==> v@[j].0@ != name@,
            decreases n - i,
        {
            if v[i].0 == *name {
                return Some(i);
            }
            i = i + 1;
        }
        None
    }

    /// Removes the adapter registered under a name, if any.
    pub fn unregister(&mut self, name: &str)
        ensures
            names_unique(final(self)@),
            registered(final(self)@, name@) is None,
            forall|other: Seq<char>|
                other != name@ ==> #[trigger] registered(final(self)@, other) == registered(
                    old(self)@,
                    other,
                ),
    {
        proof {
            use_type_invariant(&*self);
        }
        let wanted = name.to_owned();
        let mut v: Vec<(String, A)> = Vec::new();
        std::mem::swap(&mut v, &mut self.adapters);
        let ghost s = v@;
        match self.position_of_in(&v, &wanted) {
            Some(i) => {
                let _removed = v.remove(i);
                proof {
                    lemma_registered_remove(s, i as int, name@);
                    assert(v@ =~= s.remove(i as int));
                }
            },
            None => {},
        }
        self.adapters = v;
    }

    /// The adapter registered under a name.
    pub fn get(&self, name: &str) -> (r: Option<&A>)
        ensures
            match r {
                Some(a) => registered(self@, name@) == Some(*a),
                None => registered(self@, name@) is None,
            },
    {
        proof {
            use_type_invariant(self);
        }
        let wanted = name.to_owned();
        match self.position_of(&wanted) {
            Some(i) => Some(&self.adapters[i].1),
            None => None,
        }
    }

    /// The adapter registered under a name, or the error reported when there
    /// is none: "adapter '<name>' not found".
    pub fn resolve(&self, name: &str) -> (r: Result<&A, String>)
        ensures
            match r {
                Ok(a) => registered(self@, name@) == Some(*a),
                Err(msg) => registered(self@, name@) is None && msg@ == "adapter '"@ + name@
                    + "' not found"@,
            },
    {
        match self.get(name) {
            Some(a) => Ok(a),
            None => {
                let mut msg = "adapter '".to_owned();
                msg.append(name);
                msg.append("' not found");
                Err(msg)
            },
        }
    }
}

impl<A> Default for AiManager<A> {
    fn default() -> (r: AiManager<A>)
        ensures
            forall|name: Seq<char>| #[trigger] registered(r@, name) is None,
    {
        AiManager::new()
    }
}

proof fn lemma_registered_update<A>(s: Seq<(String, A)>, i: int, name: Seq<char>, adapter: A)
    requires
        names_unique(s),
        0 <= i < s.len(),
        s[i].0@ == name,
    ensures
        forall|v: String| v@ == name ==> names_unique(#[trigger] s.update(i, (v, adapter))),
        forall|v: String|
            v@ == name ==> registered(#[trigger] s.update(i, (v, adapter)), name) == Some(adapter),
        forall|v: String, other: Seq<char>|
            v@ == name && other != name ==> #[trigger] registered(s.update(i, (v, adapter)), other)
                == registered(s, other),
{
    assert forall|v: String| v@ == name implies names_unique(#[trigger] s.update(i, (v, adapter)))
        && registered(s.update(i, (v, adapter)), name) == Some(adapter) by {
        let t = s.update(i, (v, adapter));
        assert forall|a: int, b: int|
            0 <= a < t.len() && 0 <= b < t.len() && a != b implies #[trigger] t[a].0@
            != #[trigger] t[b].0@ by {
            assert(t[a].0@ == s[a].0@);
            assert(t[b].0@ == s[b].0@);
        }
        assert(t[i].0@ == name);
    }
    assert forall|v: String, other: Seq<char>|
        v@ == name && other != name implies #[trigger] registered(s.update(i, (v, adapter)), other)
        == registered(s, other) by {
        let t = s.update(i, (v, adapter));
        if has_name(s, other) {
            let k = choose|k: int| 0 <= k < s.len() && #[trigger] s[k].0@ == other;
            assert(t[k].0@ == other);
        }
        if has_name(t, other) {
            let k = choose|k: int| 0 <= k < t.len() && #[trigger] t[k].0@ == other;
            assert(s[k].0@ == other);
        }
    }
}

proof fn lemma_registered_push<A>(s: Seq<(String, A)>, name: Seq<char>, adapter: A)
    requires
        names_unique(s),
        !has_name(s, name),
    ensures
        forall|v: String| v@ == name ==> names_unique(#[trigger] s.push((v, adapter))),
        forall|v: String|
            v@ == name ==> registered(#[trigger] s.push((v, adapter)), name) == Some(adapter),
        forall|v: String, other: Seq<char>|
            v@ == name && other != name ==> #[trigger] registered(s.push((v, adapter)), other)
                == registered(s, other),
{
    assert forall|v: String| v@ == name implies names_unique(#[trigger] s.push((v, adapter)))
        && registered(s.push((v, adapter)), name) == Some(adapter) by {
        let t = s.push((v, adapter));
        assert forall|a: int, b: int|
            0 <= a < t.len() && 0 <= b < t.len() && a != b implies #[trigger] t[a].0@
            != #[trigger] t[b].0@ by {
            if a == s.len() {
                assert(t[b] == s[b]);
            } else if b == s.len() {
                assert(t[a] == s[a]);
            }
        }
        assert(t[s.len() as int].0@ == name);
    }
    assert forall|v: String, other: Seq<char>|
        v@ == name && other != name implies #[trigger] registered(s.push((v, adapter)), other)
        == registered(s, other) by {
        let t = s.push((v, adapter));
        if has_name(s, other) {
            let k = choose|k: int| 0 <= k < s.len() && #[trigger] s[k].0@ == other;
            assert(t[k].0@ == other);
        }
        if has_name(t, other) {
            let k = choose|k: int| 0 <= k < t.len() && #[trigger] t[k].0@ == other;
            assert(k < s.len());
            assert(s[k].0@ == other);
        }
    }
}

proof fn lemma_registered_remove<A>(s: Seq<(String, A)>, i: int, name: Seq<char>)
    requires
        names_unique(s),
        0 <= i < s.len(),
        s[i].0@ == name,
    ensures
        names_unique(s.remove(i)),
        registered(s.remove(i), name) is None,
        forall|other: Seq<char>|
            other != name ==> #[trigger] registered(s.remove(i), other) == registered(s, other),
{
    let t = s.remove(i);
    assert forall|a: int, b: int|
        0 <= a < t.len() && 0 <= b < t.len() && a != b implies #[trigger] t[a].0@
        != #[trigger] t[b].0@ by {
        let a2 = if a < i { a } else { a + 1 };
        let b2 = if b < i { b } else { b + 1 };
        assert(t[a] == s[a2]);
        assert(t[b] == s[b2]);
    }
    if has_name(t, name) {
        let k = choose|k: int| 0 <= k < t.len() && #[trigger] t[k].0@ == name;
        let k2 = if k < i { k } else { k + 1 };
        assert(t[k] == s[k2]);
    }
    assert forall|other: Seq<char>| other != name implies #[trigger] registered(t, other)
        == registered(s, other) by {
        if has_name(s, other) {
            let k = choose|k: int| 0 <= k < s.len() && #[trigger] s[k].0@ == other;
            let k2 = if k < i { k } else { k - 1 };
            assert(t[k2] == s[k]);
        }
        if has_name(t, other) {
            let k = choose|k: int| 0 <= k < t.len() && #[trigger] t[k].0@ == other;
            let k2 = if k < i { k } else { k + 1 };
            assert(t[k] == s[k2]);
        }
    }
}

} // verus!
