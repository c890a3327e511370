//! The integer side of clustering: the seeded visiting order of points,
//! grouping points by cluster label, and assembling a funnel from clusters.
//! Distances and centroids are computed in floating point by the caller.
use vstd::prelude::*;
use vstd::wrapping::u64_specs;

use crate::format::{decimal, push_decimal};
use crate::funnel::{lcg_step, Funnel, FunnelNode};
use crate::text::string_views;

verus! {

/// The constant added to a seed before shuffling (the 64-bit golden ratio).
pub const SHUFFLE_GOLDEN: u64 = 0x9e37_79b9_7f4a_7c15;

/// `v` with the items at `i` and `j` exchanged.
pub open spec fn swap_items(v: Seq<usize>, i: int, j: int) -> Seq<usize> {
    v.update(i, v[j]).update(j, v[i])
}

/// Fisher-Yates from position `i` down to 1: the generator advances, and the
/// item at `i` is exchanged with the one at the generator's value modulo `i + 1`.
pub open spec fn shuffle_down(v: Seq<usize>, rnd: u64, i: nat) -> Seq<usize>
    decreases i,
{
    if i == 0 {
        v
    } else {
        let next = lcg_step(rnd);
        let j = ((next as usize) as int) % ((i + 1) as int);
        shuffle_down(swap_items(v, i as int, j), next, (i - 1) as nat)
    }
}

/// The indices 0, 1, ..., n - 1.
pub open spec fn identity(n: nat) -> Seq<usize> {
    Seq::new(n, |i: int| i as usize)
}

/// The order in which k-means visits the points: the identity without a
/// seed, a seeded shuffle with one.
pub open spec fn visiting_order(n: nat, seed: Option<u64>) -> Seq<usize> {
    match seed {
        None => identity(n),
        Some(s) => if n == 0 {
            identity(n)
        } else {
            shuffle_down(identity(n), u64_specs::wrapping_add(s, SHUFFLE_GOLDEN), (n - 1) as nat)
        },
    }
}

/// `v` holds each of 0, 1, ..., n - 1 exactly once.
pub open spec fn is_permutation(v: Seq<usize>, n: nat) -> bool {
    &&& v.len() == n
    &&& forall|k: int| 0 <= k < n ==> #[trigger] v[k] < n
    &&& forall|a: int, b: int| 0 <= a < n && 0 <= b < n && a != b ==> #[trigger] v[a] != #[trigger] v[b]
}

/// Exchanging two items keeps a permutation a permutation.
proof fn lemma_swap_permutation(v: Seq<usize>, n: nat, i: int, j: int)
    requires
        is_permutation(v, n),
        0 <= i < n,
        0 <= j < n,
    ensures
        is_permutation(swap_items(v, i, j), n),
{
    let w = swap_items(v, i, j);
    assert forall|a: int, b: int| 0 <= a < n && 0 <= b < n && a != b implies #[trigger] w[a]
        != #[trigger] w[b] by {
        let a2 = if a == i { j } else if a == j { i } else { a };
        let b2 = if b == i { j } else if b == j { i } else { b };
        assert(w[a] == v[a2]);
        assert(w[b] == v[b2]);
    }
    assert forall|k: int| 0 <= k < n implies #[trigger] w[k] < n by {
        let k2 = if k == i { j } else if k == j { i } else { k };
        assert(w[k] == v[k2]);
    }
}

/// Shuffling keeps a permutation a permutation.
pub proof fn lemma_shuffle_permutation(v: Seq<usize>, n: nat, rnd: u64, i: nat)
    requires
        is_permutation(v, n),
        i < n,
    ensures
        is_permutation(shuffle_down(v, rnd, i), n),
    decreases i,
{
    if i > 0 {
        let next = lcg_step(rnd);
        let j = ((next as usize) as int) % ((i + 1) as int);
        lemma_swap_permutation(v, n, i as int, j);
        lemma_shuffle_permutation(swap_items(v, i as int, j), n, next, (i - 1) as nat);
    }
}

/// The visiting order of n points is a permutation of their indices.
pub proof fn law_visiting_order_is_permutation(n: nat, seed: Option<u64>)
    requires
        n <= usize::MAX,
    ensures
        is_permutation(visiting_order(n, seed), n),
{
    let id = identity(n);
    assert forall|k: int| 0 <= k < n implies #[trigger] id[k] < n && id[k] == k by {}
    assert(is_permutation(id, n));
    if seed is Some && n > 0 {
        lemma_shuffle_permutation(
            id,
            n,
            u64_specs::wrapping_add(seed->0, SHUFFLE_GOLDEN),
            (n - 1) as nat,
        );
    }
}

/// The order in which k-means visits `n` points.
pub fn seeded_order(n: usize, seed: Option<u64>) -> (r: Vec<usize>)
    ensures
        r@ == visiting_order(n as nat, seed),
        is_permutation(r@, n as nat),
{
    let mut indices: Vec<usize> = Vec::new();
    let mut k: usize = 0;
    while k < n
        invariant
            0 <= k <= n,
            indices@ == identity(k as nat),
        decreases n - k,
    {
        indices.push(k);
        proof {
            assert(indices@ =~= identity((k + 1) as nat));
        }
        k = k + 1;
    }
    proof {
        law_visiting_order_is_permutation(n as nat, seed);
    }
    match seed {
        None => indices,
        Some(s) => {
            if n == 0 {
                return indices;
            }
            let mut rnd = s.wrapping_add(SHUFFLE_GOLDEN);
            let ghost target = visiting_order(n as nat, seed);
            let mut i: usize = n - 1;
            while i > 0
                invariant
                    0 <= i < n,
                    indices@.len() == n,
                    shuffle_down(indices@, rnd, i as nat) == target,
                decreases i,
            {
                rnd = rnd.wrapping_mul(crate::funnel::LCG_MULTIPLIER).wrapping_add(
                    crate::funnel::LCG_INCREMENT,
                );
                let j = (rnd as usize) % (i + 1);
                let ghost before = indices@;
                let a = indices[i];
                let b = indices[j];
                indices.set(i, b);
                indices.set(j, a);
                proof {
                    assert(indices@ =~= swap_items(before, i as int, j as int));
                }
                i = i - 1;
            }
            indices
        },
    }
}

/// The indices of the points labelled `c`, in increasing order.
pub open spec fn members(labels: Seq<usize>, c: usize) -> Seq<usize>
    decreases labels.len(),
{
    if labels.len() == 0 {
        Seq::empty()
    } else {
        let prev = members(labels.drop_last(), c);
        if labels.last() == c {
            prev.push((labels.len() - 1) as usize)
        } else {
            prev
        }
    }
}

/// The members of a cluster are points labelled with it, in increasing order.
proof fn lemma_members_sound(labels: Seq<usize>, c: usize)
    requires
        labels.len() <= usize::MAX + 1,
    ensures
        forall|k: int|
            0 <= k < members(labels, c).len() ==> #[trigger] members(labels, c)[k] < labels.len()
                && labels[members(labels, c)[k] as int] == c,
        forall|k: int, l: int|
            0 <= k < l < members(labels, c).len() ==> #[trigger] members(labels, c)[k]
                < #[trigger] members(labels, c)[l],
    decreases labels.len(),
{
    if labels.len() > 0 {
        let d = labels.drop_last();
        lemma_members_sound(d, c);
        let prev = members(d, c);
        assert forall|k: int| 0 <= k < prev.len() implies labels[prev[k] as int] == c by {
            assert(labels[prev[k] as int] == d[prev[k] as int]);
        }
    }
}

/// Every point labelled `c` is a member of cluster `c`.
proof fn lemma_members_complete(labels: Seq<usize>, c: usize, i: int)
    requires
        labels.len() <= usize::MAX + 1,
        0 <= i < labels.len(),
        labels[i] == c,
    ensures
        members(labels, c).contains(i as usize),
    decreases labels.len(),
{
    let d = labels.drop_last();
    if i < labels.len() - 1 {
        assert(d[i] == labels[i]);
        lemma_members_complete(d, c, i);
        let prev = members(d, c);
        let k = choose|k: int| 0 <= k < prev.len() && prev[k] == i as usize;
        if labels.last() == c {
            assert(prev.push((labels.len() - 1) as usize)[k] == i as usize);
        }
    } else {
        assert(members(labels, c).last() == (labels.len() - 1) as usize);
    }
}

/// Grouping by label partitions the points: a point is a member of the
/// cluster of its label and of no other, and each member occurs once.
pub proof fn law_members_partition(labels: Seq<usize>, i: int, c: usize)
    requires
        labels.len() <= usize::MAX + 1,
        0 <= i < labels.len(),
    ensures
        members(labels, c).contains(i as usize) <==> labels[i] == c,
        forall|k: int, l: int|
            0 <= k < l < members(labels, c).len() ==> #[trigger] members(labels, c)[k]
                != #[trigger] members(labels, c)[l],
{
    lemma_members_sound(labels, c);
    if labels[i] == c {
        lemma_members_complete(labels, c, i);
    }
    if members(labels, c).contains(i as usize) {
        let k = choose|k: int| 0 <= k < members(labels, c).len() && members(labels, c)[k] == i as usize;
        assert(labels[members(labels, c)[k] as int] == c);
    }
}

/// The indices of the points labelled `c`, in increasing order.
pub fn cluster_members(labels: &Vec<usize>, c: usize) -> (r: Vec<usize>)
    ensures
        r@ == members(labels@, c),
{
    let n = labels.len();
    let mut out: Vec<usize> = Vec::new();
    let mut i: usize = 0;
    while i < n
        invariant
            n == labels@.len(),
            0 <= i <= n,
            out@ == members(labels@.take(i as int), c),
        decreases n - i,
    {
        proof {
            assert(labels@.take(i + 1).drop_last() =~= labels@.take(i as int));
            assert(labels@.take(i + 1).last() == labels@[i as int]);
        }
        if labels[i] == c {
            out.push(i);
        }
        i = i + 1;
    }
    proof {
        assert(labels@.take(n as int) =~= labels@);
    }
    out
}

/// The points grouped by cluster: entry `c` holds the indices labelled `c`.
pub fn group_by_label(labels: &Vec<usize>, k: usize) -> (r: Vec<Vec<usize>>)
    ensures
        r@.len() == k,
        forall|c: int| 0 <= c < k ==> #[trigger] r@[c]@ == members(labels@, c as usize),
{
    let mut groups: Vec<Vec<usize>> = Vec::new();
    let mut c: usize = 0;
    while c < k
        invariant
            0 <= c <= k,
            groups@.len() == c,
            forall|d: int| 0 <= d < c ==> #[trigger] groups@[d]@ == members(labels@, d as usize),
        decreases k - c,
    {
        groups.push(cluster_members(labels, c));
        c = c + 1;
    }
    groups
}

/// The size of the smallest of the clusters 0, 1, ..., k - 1 (0 when k is 0).
pub fn min_cluster_size(labels: &Vec<usize>, k: usize) -> (r: usize)
    ensures
        k == 0 ==> r == 0,
        k > 0 ==> exists|c: int| 0 <= c < k && r == #[trigger] members(labels@, c as usize).len(),
        forall|c: int| 0 <= c < k ==> r <= #[trigger] members(labels@, c as usize).len(),
{
    if k == 0 {
        return 0;
    }
    let first = cluster_members(labels, 0);
    let mut best = first.len();
    let mut c: usize = 1;
    proof {
        assert(best == members(labels@, 0usize).len());
        assert(best == members(labels@, (0 as int) as usize).len());
    }
    while c < k
        invariant
            1 <= c <= k,
            exists|d: int| 0 <= d < c && best == #[trigger] members(labels@, d as usize).len(),
            forall|d: int| 0 <= d < c ==> best <= #[trigger] members(labels@, d as usize).len(),
        decreases k - c,
    {
        let size = cluster_members(labels, c).len();
        proof {
            assert(size == members(labels@, (c as int) as usize).len());
        }
        if size < best {
            best = size;
        }
        c = c + 1;
    }
    best
}

/// The id of node `index` of funnel `funnel_id`: "<funnel_id>:n<index>".
pub open spec fn node_id(funnel_id: Seq<char>, index: nat) -> Seq<char> {
    funnel_id + ":n"@ + decimal(index)
}

fn copy_codes(v: &Vec<u32>) -> (r: Vec<u32>)
    ensures
        r@ == v@,
{
    let mut out: Vec<u32> = Vec::new();
    let mut i: usize = 0;
    while i < v.len()
        invariant
            0 <= i <= v@.len(),
            out@ == v@.take(i as int),
        decreases v@.len() - i,
    {
        out.push(v[i]);
        proof {
            assert(out@ =~= v@.take(i + 1));
        }
        i = i + 1;
    }
    proof {
        assert(v@.take(v@.len() as int) =~= v@);
    }
    out
}

/// The funnel built from clusters: node `c` has id `node_id(funnel_id, c)`,
/// centroid `centroids[c]`, and as examples the ids of the conversations in
/// cluster `c`; the funnel lists the node ids in cluster order.
pub fn assemble_cluster_funnel(
    funnel_id: &str,
    clusters: &Vec<Vec<usize>>,
    conversation_ids: &Vec<String>,
    centroids: &Vec<Vec<u32>>,
) -> (r: (Funnel, Vec<FunnelNode>))
    requires
        centroids@.len() >= clusters@.len(),
        forall|c: int, m: int|
            0 <= c < clusters@.len() && 0 <= m < clusters@[c]@.len() ==> #[trigger] clusters@[c]@[m]
                < conversation_ids@.len(),
    ensures
        r.0.id@ == funnel_id@,
        r.0.description is None,
        r.1@.len() == clusters@.len(),
        string_views(r.0.node_ids@) == Seq::new(
            clusters@.len(),
            |c: int| node_id(funnel_id@, c as nat),
        ),
        forall|c: int|
            0 <= c < clusters@.len() ==> {
                let node = #[trigger] r.1@[c];
                &&& node.id@ == node_id(funnel_id@, c as nat)
                &&& node.parent_id is None
                &&& node.question is None
                &&& node.centroid is Some && node.centroid->0@ == centroids@[c]@
                &&& string_views(node.example_ids@) == clusters@[c]@.map_values(
                    |m: usize| conversation_ids@[m as int]@,
                )
            },
{
    let mut funnel = Funnel::new(funnel_id);
    let mut nodes: Vec<FunnelNode> = Vec::new();
    let k = clusters.len();
    let mut c: usize = 0;
    while c < k
        invariant
            k == clusters@.len(),
            0 <= c <= k,
            centroids@.len() >= k,
            forall|c2: int, m: int|
                0 <= c2 < clusters@.len() && 0 <= m < clusters@[c2]@.len()
                    ==> #[trigger] clusters@[c2]@[m] < conversation_ids@.len(),
            funnel.id@ == funnel_id@,
            funnel.description is None,
            nodes@.len() == c,
            string_views(funnel.node_ids@) == Seq::new(
                c as nat,
                |d: int| node_id(funnel_id@, d as nat),
            ),
            forall|d: int|
                0 <= d < c ==> {
                    let node = #[trigger] nodes@[d];
                    &&& node.id@ == node_id(funnel_id@, d as nat)
                    &&& node.parent_id is None
                    &&& node.question is None
                    &&& node.centroid is Some && node.centroid->0@ == centroids@[d]@
                    &&& string_views(node.example_ids@) == clusters@[d]@.map_values(
                        |m: usize| conversation_ids@[m as int]@,
                    )
                },
        decreases k - c,
    {
        let mut id = funnel_id.to_owned();
        id.append(":n");
        push_decimal(&mut id, c as u64);
        let mut node = FunnelNode::new(id.as_str());
        node.centroid = Some(copy_codes(&centroids[c]));
        let members = &clusters[c];
        let mut m: usize = 0;
        while m < members.len()
            invariant
                0 <= m <= members@.len(),
                k == clusters@.len(),
                c < k,
                centroids@.len() >= k,
                members@ == clusters@[c as int]@,
                forall|x: int| 0 <= x < members@.len() ==> #[trigger] members@[x] < conversation_ids@.len(),
                string_views(node.example_ids@) == members@.take(m as int).map_values(
                    |i: usize| conversation_ids@[i as int]@,
                ),
                node.id@ == node_id(funnel_id@, c as nat),
                node.parent_id is None,
                node.question is None,
                node.centroid is Some && node.centroid->0@ == centroids@[c as int]@,
            decreases members@.len() - m,
        {
            let ex = conversation_ids[members[m]].clone();
            let ghost before = node.example_ids@;
            node.example_ids.push(ex);
            proof {
                assert(string_views(node.example_ids@) =~= string_views(before).push(ex@));
                assert(members@.take(m + 1).map_values(|i: usize| conversation_ids@[i as int]@)
                    =~= members@.take(m as int).map_values(
                    |i: usize| conversation_ids@[i as int]@,
                ).push(ex@));
            }
            m = m + 1;
        }
        proof {
            assert(members@.take(members@.len() as int) =~= members@);
        }
        let ghost before_ids = funnel.node_ids@;
        funnel.node_ids.push(id);
        proof {
            assert(string_views(funnel.node_ids@) =~= string_views(before_ids).push(
                node_id(funnel_id@, c as nat),
            ));
            assert(Seq::new((c + 1) as nat, |d: int| node_id(funnel_id@, d as nat)) =~= Seq::new(
                c as nat,
                |d: int| node_id(funnel_id@, d as nat),
            ).push(node_id(funnel_id@, c as nat)));
        }
        nodes.push(node);
        c = c + 1;
    }
    (funnel, nodes)
}

} // verus!
