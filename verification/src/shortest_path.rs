//! Shortest path lengths from one node to all nodes that it reaches.

use crate::graph::Graph;
use std::collections::HashMap;
use std::collections::VecDeque;
use vstd::prelude::*;
use vstd::set_lib::{lemma_int_range, lemma_len_subset, set_int_range};

verus! {

broadcast use vstd::std_specs::hash::group_hash_axioms;

/// Whether the graph has an edge from `from` to `to`.
pub open spec fn has_edge(adj: Seq<Seq<usize>>, from: usize, to: usize) -> bool {
    from < adj.len() && adj[from as int].contains(to)
}

/// Whether `path` lists the nodes of a walk from `from` to `to`: it starts
/// at `from`, ends at `to`, and an edge leads from each node to the next.
pub open spec fn is_path(adj: Seq<Seq<usize>>, path: Seq<usize>, from: usize, to: usize) -> bool {
    &&& path.len() > 0
    &&& path[0] == from
    &&& path.last() == to
    &&& forall|i: int| 0 <= i < path.len() - 1 ==> has_edge(adj, #[trigger] path[i], path[i + 1])
}

/// Whether some walk of exactly `length` edges leads from `from` to `to`.
pub open spec fn reaches_in(adj: Seq<Seq<usize>>, from: usize, to: usize, length: nat) -> bool {
    exists|path: Seq<usize>| #[trigger] is_path(adj, path, from, to) && path.len() == length + 1
}

/// Whether `length` is the least number of edges on a walk from `from` to
/// `to`.
pub open spec fn is_distance(adj: Seq<Seq<usize>>, from: usize, to: usize, length: nat) -> bool {
    &&& reaches_in(adj, from, to, length)
    &&& forall|shorter: nat| shorter < length ==> !reaches_in(adj, from, to, shorter)
}

/// Whether a path length is within the cutoff, if there is one.
pub open spec fn within(cutoff: Option<u32>, length: nat) -> bool {
    match cutoff {
        Some(most) => length <= most,
        None => true,
    }
}

/// Whether `to` is recorded, at most one step further than `from`.
spec fn relaxed(lengths: Map<usize, u32>, from: usize, to: usize) -> bool {
    lengths.contains_key(to) && lengths[to] <= lengths[from] + 1
}

/// What holds of a search in progress. `order` lists the recorded nodes as
/// they were found, and the nodes before `head` have had their edges followed.
spec fn search_state(
    adj: Seq<Seq<usize>>,
    source: usize,
    cutoff: Option<u32>,
    lengths: Map<usize, u32>,
    order: Seq<usize>,
    head: int,
) -> bool {
    &&& 0 <= head <= order.len()
    &&& order.len() > 0
    &&& order[0] == source
    &&& lengths[source] == 0
    &&& order.no_duplicates()
    &&& source < adj.len() ==> forall|i: int| 0 <= i < order.len() ==> #[trigger] order[i] < adj.len()
    &&& source >= adj.len() ==> order.len() == 1
    &&& forall|node: usize|
        #![trigger lengths.contains_key(node)]
        #![trigger order.contains(node)]
        lengths.contains_key(node) <==> order.contains(node)
    &&& forall|i: int, j: int|
        0 <= i <= j < order.len() ==> lengths[#[trigger] order[i]] <= lengths[#[trigger] order[j]]
    &&& head < order.len() ==> forall|i: int|
        0 <= i < order.len() ==> lengths[#[trigger] order[i]] <= lengths[order[head]] + 1
    &&& forall|i: int| 0 <= i < order.len() ==> lengths[#[trigger] order[i]] <= i
    &&& forall|node: usize| #[trigger]
        lengths.contains_key(node) ==> reaches_in(adj, source, node, lengths[node] as nat)
    &&& forall|i: int, k: int|
        0 <= i < head && 0 <= k < adj[order[i] as int].len() ==> relaxed(
            lengths,
            order[i],
            #[trigger] adj[order[i] as int][k],
        )
    &&& forall|node: usize| #[trigger] lengths.contains_key(node) ==> within(cutoff, lengths[node] as nat)
}

/// A sequence of distinct numbers below `bound` has at most `bound` items.
proof fn lemma_distinct_below(items: Seq<usize>, bound: nat)
    requires
        items.no_duplicates(),
        forall|i: int| 0 <= i < items.len() ==> #[trigger] items[i] < bound,
    ensures
        items.len() <= bound,
{
    let plain = items.map_values(|item: usize| item as int);
    assert(plain.no_duplicates()) by {
        assert forall|i: int, j: int| 0 <= i < plain.len() && 0 <= j < plain.len() && i != j implies plain[i]
            != plain[j] by {
            assert(items[i] != items[j]);
        }
    }
    plain.unique_seq_to_set();
    lemma_int_range(0, bound as int);
    assert(plain.to_set().subset_of(set_int_range(0, bound as int))) by {
        assert forall|x: int| plain.to_set().contains(x) implies set_int_range(0, bound as int).contains(
            x,
        ) by {
            let i = choose|i: int| 0 <= i < plain.len() && plain[i] == x;
            assert(items[i] < bound);
        }
    }
    lemma_len_subset(plain.to_set(), set_int_range(0, bound as int));
}

/// The search starts with the source alone, at length 0.
proof fn lemma_search_starts(adj: Seq<Seq<usize>>, source: usize, cutoff: Option<u32>)
    ensures
        search_state(
            adj,
            source,
            cutoff,
            Map::<usize, u32>::empty().insert(source, 0),
            seq![source],
            0,
        ),
{
    let lengths = Map::<usize, u32>::empty().insert(source, 0);
    let order = seq![source];
    assert(is_path(adj, seq![source], source, source));
    assert(reaches_in(adj, source, source, 0));
    assert forall|node: usize| lengths.contains_key(node) <==> order.contains(node) by {
        if node == source {
            assert(order[0] == node);
        }
    }
}

/// Recording a node that was not yet recorded, one step after the node at
/// `head`, keeps the search state.
proof fn lemma_discover(
    adj: Seq<Seq<usize>>,
    source: usize,
    cutoff: Option<u32>,
    lengths: Map<usize, u32>,
    order: Seq<usize>,
    head: int,
    found: usize,
)
    requires
        search_state(adj, source, cutoff, lengths, order, head),
        head < order.len(),
        source < adj.len(),
        has_edge(adj, order[head], found),
        found < adj.len(),
        !lengths.contains_key(found),
        lengths[order[head]] + 1 <= u32::MAX,
        within(cutoff, (lengths[order[head]] + 1) as nat),
    ensures
        search_state(
            adj,
            source,
            cutoff,
            lengths.insert(found, (lengths[order[head]] + 1) as u32),
            order.push(found),
            head,
        ),
{
    let from = order[head];
    let length = (lengths[from] + 1) as u32;
    let lengths2 = lengths.insert(found, length);
    let order2 = order.push(found);
    assert(lengths.contains_key(from)) by {
        assert(order.contains(from));
    }
    assert(!order.contains(found));
    assert forall|i: int| 0 <= i < order.len() implies lengths2[#[trigger] order2[i]] == lengths[order[i]] by {
        assert(order.contains(order[i]));
    }
    assert(order2.no_duplicates());
    assert forall|node: usize| lengths2.contains_key(node) <==> order2.contains(node) by {
        if node == found {
            assert(order2[order.len() as int] == found);
        } else if lengths.contains_key(node) {
            assert(order.contains(node));
            let i = choose|i: int| 0 <= i < order.len() && order[i] == node;
            assert(order2[i] == node);
        } else if order2.contains(node) {
            let i = choose|i: int| 0 <= i < order2.len() && order2[i] == node;
            assert(order[i] == node);
        }
    }
    assert forall|i: int, j: int| 0 <= i <= j < order2.len() implies lengths2[#[trigger] order2[i]]
        <= lengths2[#[trigger] order2[j]] by {
        if j < order.len() {
            assert(lengths[order[i]] <= lengths[order[j]]);
        } else if i < order.len() {
            assert(lengths[order[i]] <= lengths[order[head]] + 1);
        }
    }
    assert forall|i: int| 0 <= i < order2.len() implies lengths2[#[trigger] order2[i]] <= lengths2[order2[head]]
        + 1 by {
        if i < order.len() {
            assert(lengths[order[i]] <= lengths[order[head]] + 1);
        }
    }
    assert forall|i: int| 0 <= i < order2.len() implies lengths2[#[trigger] order2[i]] <= i by {
        if i < order.len() {
            assert(lengths[order[i]] <= i);
        } else {
            assert(lengths[order[head]] <= head);
        }
    }
    assert forall|node: usize| #[trigger] lengths2.contains_key(node) implies reaches_in(
        adj,
        source,
        node,
        lengths2[node] as nat,
    ) by {
        if node == found {
            assert(reaches_in(adj, source, from, lengths[from] as nat));
            let path = choose|path: Seq<usize>| #[trigger]
                is_path(adj, path, source, from) && path.len() == lengths[from] as nat + 1;
            let longer = path.push(found);
            assert forall|i: int| 0 <= i < longer.len() - 1 implies has_edge(
                adj,
                #[trigger] longer[i],
                longer[i + 1],
            ) by {
                if i < path.len() - 1 {
                    assert(has_edge(adj, path[i], path[i + 1]));
                }
            }
            assert(is_path(adj, longer, source, found));
        } else {
            assert(lengths.contains_key(node));
        }
    }
    assert forall|i: int, k: int| 0 <= i < head && 0 <= k < adj[order2[i] as int].len() implies relaxed(
        lengths2,
        order2[i],
        #[trigger] adj[order2[i] as int][k],
    ) by {
        assert(relaxed(lengths, order[i], adj[order[i] as int][k]));
        assert(order.contains(order[i]));
    }
    assert forall|node: usize| #[trigger] lengths2.contains_key(node) implies within(
        cutoff,
        lengths2[node] as nat,
    ) by {
        if node != found {
            assert(lengths.contains_key(node));
        }
    }
    assert forall|i: int| 0 <= i < order2.len() implies #[trigger] order2[i] < adj.len() by {
        if i < order.len() {
            assert(order[i] < adj.len());
        }
    }
}

/// Once every edge of the node at `head` leads to a recorded node, the
/// search may go on to the next node.
proof fn lemma_advance(
    adj: Seq<Seq<usize>>,
    source: usize,
    cutoff: Option<u32>,
    lengths: Map<usize, u32>,
    order: Seq<usize>,
    head: int,
)
    requires
        search_state(adj, source, cutoff, lengths, order, head),
        head < order.len(),
        forall|k: int|
            0 <= k < adj[order[head] as int].len() ==> relaxed(
                lengths,
                order[head],
                #[trigger] adj[order[head] as int][k],
            ),
    ensures
        search_state(adj, source, cutoff, lengths, order, head + 1),
{
    if head + 1 < order.len() {
        assert forall|i: int| 0 <= i < order.len() implies lengths[#[trigger] order[i]] <= lengths[order[head
            + 1]] + 1 by {
            assert(lengths[order[i]] <= lengths[order[head]] + 1);
            assert(lengths[order[head]] <= lengths[order[head + 1]]);
        }
    }
    assert forall|i: int, k: int| 0 <= i < head + 1 && 0 <= k < adj[order[i] as int].len() implies relaxed(
        lengths,
        order[i],
        #[trigger] adj[order[i] as int][k],
    ) by {
        if i < head {
            assert(relaxed(lengths, order[i], adj[order[i] as int][k]));
        }
    }
}

/// Where every edge that leaves a recorded node below the cutoff leads to a
/// node recorded at most one step further, each walk from the source within
/// the cutoff ends at a recorded node, and is no shorter than its record.
proof fn lemma_walks_are_recorded(
    adj: Seq<Seq<usize>>,
    source: usize,
    cutoff: Option<u32>,
    lengths: Map<usize, u32>,
    path: Seq<usize>,
    to: usize,
)
    requires
        lengths.contains_key(source),
        lengths[source] == 0,
        forall|from: usize, next: usize|
            lengths.contains_key(from) && within(cutoff, (lengths[from] + 1) as nat) && #[trigger] has_edge(
                adj,
                from,
                next,
            ) ==> relaxed(lengths, from, next),
        is_path(adj, path, source, to),
        within(cutoff, (path.len() - 1) as nat),
    ensures
        lengths.contains_key(to),
        lengths[to] <= path.len() - 1,
    decreases path.len(),
{
    if path.len() > 1 {
        let before = path.drop_last();
        let from = before.last();
        assert forall|i: int| 0 <= i < before.len() - 1 implies has_edge(
            adj,
            #[trigger] before[i],
            before[i + 1],
        ) by {
            assert(has_edge(adj, path[i], path[i + 1]));
        }
        assert(is_path(adj, before, source, from));
        lemma_walks_are_recorded(adj, source, cutoff, lengths, before, from);
        assert(has_edge(adj, path[path.len() - 2], path[path.len() - 2 + 1]));
        assert(has_edge(adj, from, to));
    }
}

/// What the finished search has recorded is what was asked for: the nodes
/// within the cutoff, each with its distance from the source.
proof fn lemma_search_done(
    adj: Seq<Seq<usize>>,
    source: usize,
    cutoff: Option<u32>,
    lengths: Map<usize, u32>,
    order: Seq<usize>,
    head: int,
)
    requires
        search_state(adj, source, cutoff, lengths, order, head),
        head < order.len() ==> !within(cutoff, (lengths[order[head]] + 1) as nat),
    ensures
        forall|node: usize| #[trigger]
            lengths.contains_key(node) <==> exists|length: nat|
                within(cutoff, length) && #[trigger] reaches_in(adj, source, node, length),
        forall|node: usize| #[trigger]
            lengths.contains_key(node) ==> is_distance(adj, source, node, lengths[node] as nat),
{
    assert(lengths.contains_key(source)) by {
        assert(order.contains(order[0]));
    }
    assert forall|from: usize, next: usize|
        lengths.contains_key(from) && within(cutoff, (lengths[from] + 1) as nat) && #[trigger] has_edge(
            adj,
            from,
            next,
        ) implies relaxed(lengths, from, next) by {
        assert(order.contains(from));
        let i = choose|i: int| 0 <= i < order.len() && order[i] == from;
        if i >= head {
            assert(lengths[order[head]] <= lengths[order[i]]);
        }
        let k = choose|k: int| 0 <= k < adj[from as int].len() && adj[from as int][k] == next;
        assert(relaxed(lengths, order[i], adj[order[i] as int][k]));
    }
    assert forall|node: usize| #[trigger] lengths.contains_key(node) <==> exists|length: nat|
        within(cutoff, length) && #[trigger] reaches_in(adj, source, node, length) by {
        if lengths.contains_key(node) {
            assert(within(cutoff, lengths[node] as nat) && reaches_in(
                adj,
                source,
                node,
                lengths[node] as nat,
            ));
        }
        if exists|length: nat| within(cutoff, length) && #[trigger] reaches_in(adj, source, node, length) {
            let length = choose|length: nat|
                within(cutoff, length) && #[trigger] reaches_in(adj, source, node, length);
            let path = choose|path: Seq<usize>| #[trigger]
                is_path(adj, path, source, node) && path.len() == length + 1;
            lemma_walks_are_recorded(adj, source, cutoff, lengths, path, node);
        }
    }
    assert forall|node: usize| #[trigger] lengths.contains_key(node) implies is_distance(
        adj,
        source,
        node,
        lengths[node] as nat,
    ) by {
        assert forall|shorter: nat| shorter < lengths[node] as nat implies !reaches_in(
            adj,
            source,
            node,
            shorter,
        ) by {
            if reaches_in(adj, source, node, shorter) {
                let path = choose|path: Seq<usize>| #[trigger]
                    is_path(adj, path, source, node) && path.len() == shorter + 1;
                assert(within(cutoff, lengths[node] as nat));
                lemma_walks_are_recorded(adj, source, cutoff, lengths, path, node);
            }
        }
    }
}

impl Graph {
    /// Computes the length of the shortest path from `source` to every node
    /// that it reaches.
    ///
    /// The result has one entry per node that a walk from `source` leads to,
    /// with the least number of edges on such a walk. With a cutoff, only the
    /// nodes whose distance is at most the cutoff are reported. The search
    /// goes breadth first.
    pub fn single_source_shortest_path_length(&self, source: usize, cutoff: Option<u32>) -> (lengths:
        HashMap<usize, u32>)
        requires
            self.wf(),
            self@.len() <= u32::MAX,
            cutoff != Some(0u32) ==> source < self@.len(),
        ensures
            forall|node: usize| #[trigger]
                lengths@.contains_key(node) <==> exists|length: nat|
                    within(cutoff, length) && #[trigger] reaches_in(self@, source, node, length),
            forall|node: usize| #[trigger]
                lengths@.contains_key(node) ==> is_distance(
                    self@,
                    source,
                    node,
                    lengths@[node] as nat,
                ),
    {
        let mut q: VecDeque<usize> = VecDeque::new();
        let mut path_lengths: HashMap<usize, u32> = HashMap::new();
        q.push_back(source);
        path_lengths.insert(source, 0);
        let ghost mut order: Seq<usize> = seq![source];
        let ghost mut head: int = 0;
        proof {
            lemma_search_starts(self@, source, cutoff);
            assert(q@ =~= order.skip(head));
        }
        while q.len() > 0
            invariant
                self.wf(),
                self@.len() <= u32::MAX,
                cutoff != Some(0u32) ==> source < self@.len(),
                search_state(self@, source, cutoff, path_lengths@, order, head),
                q@ == order.skip(head),
            decreases self@.len() - head,
        {
            let reached_node = q.pop_front().unwrap();
            assert(reached_node == order[head]);
            assert(path_lengths@.contains_key(reached_node)) by {
                assert(order.contains(order[head]));
            }
            let reached_length = *path_lengths.get(&reached_node).unwrap();
            proof {
                assert(path_lengths@[order[head]] <= head);
                if source < self@.len() {
                    lemma_distinct_below(order, self@.len());
                }
            }
            let path_length = reached_length + 1;
            if cutoff.is_some() && cutoff.unwrap() < path_length {
                proof {
                    lemma_search_done(self@, source, cutoff, path_lengths@, order, head);
                }
                return path_lengths;
            }
            let row = &self.nodes[reached_node];
            assert(row@ == self@[reached_node as int]);
            let mut k: usize = 0;
            while k < row.len()
                invariant
                    self.wf(),
                    self@.len() <= u32::MAX,
                    source < self@.len(),
                    k <= row.len(),
                    row@ == self@[reached_node as int],
                    0 <= head < order.len(),
                    reached_node == order[head],
                    reached_node < self@.len(),
                    path_lengths@.contains_key(reached_node),
                    path_length == path_lengths@[reached_node] + 1,
                    within(cutoff, path_length as nat),
                    search_state(self@, source, cutoff, path_lengths@, order, head),
                    q@ == order.skip(head + 1),
                    forall|j: int|
                        0 <= j < k ==> relaxed(path_lengths@, reached_node, #[trigger] row@[j]),
                decreases row.len() - k,
            {
                let reachable_node = row[k];
                assert(has_edge(self@, reached_node, reachable_node)) by {
                    assert(self@[reached_node as int][k as int] == reachable_node);
                }
                assert(reachable_node < self@.len()) by {
                    assert(self@[reached_node as int][k as int] < self@.len());
                }
                let ghost before = path_lengths@;
                if !path_lengths.contains_key(&reachable_node) {
                    proof {
                        lemma_discover(
                            self@,
                            source,
                            cutoff,
                            path_lengths@,
                            order,
                            head,
                            reachable_node,
                        );
                        assert(order.push(reachable_node).skip(head + 1) =~= order.skip(head + 1).push(
                            reachable_node,
                        ));
                        order = order.push(reachable_node);
                    }
                    path_lengths.insert(reachable_node, path_length);
                    q.push_back(reachable_node);
                    assert forall|j: int| 0 <= j < k implies relaxed(
                        path_lengths@,
                        reached_node,
                        #[trigger] row@[j],
                    ) by {
                        assert(relaxed(before, reached_node, row@[j]));
                    }
                } else {
                    assert(relaxed(path_lengths@, reached_node, reachable_node)) by {
                        assert(order.contains(reachable_node));
                        let i = choose|i: int| 0 <= i < order.len() && order[i] == reachable_node;
                        assert(path_lengths@[order[i]] <= path_lengths@[order[head]] + 1);
                    }
                }
                k = k + 1;
            }
            proof {
                lemma_advance(self@, source, cutoff, path_lengths@, order, head);
                lemma_distinct_below(order, self@.len());
                head = head + 1;
            }
        }
        proof {
            assert(head == order.len()) by {
                assert(order.skip(head).len() == 0);
            }
            lemma_search_done(self@, source, cutoff, path_lengths@, order, head);
        }
        path_lengths
    }
}

} // verus!
