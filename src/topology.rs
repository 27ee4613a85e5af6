use vstd::prelude::*;

verus! {

/// A directed edge between two nodes, given by their positions in the graph,
/// with the output port it leaves and the input port it enters.
#[derive(Debug, Clone, Copy, PartialEq, Eq, Structural)]
pub struct Edge {
    pub src: usize,
    pub src_port: u16,
    pub dst: usize,
    pub dst_port: u16,
}

/// Every edge joins two of the `n` nodes.
pub open spec fn edges_in_range(n: nat, edges: Seq<Edge>) -> bool {
    forall|k: int| 0 <= k < edges.len() ==> (#[trigger] edges[k]).src < n && edges[k].dst < n
}

/// `order` lists each of the `n` nodes exactly once, and every edge leads from
/// a node to one listed after it.
pub open spec fn is_topological(order: Seq<usize>, n: nat, edges: Seq<Edge>) -> bool {
    &&& forall|i: int| 0 <= i < order.len() ==> #[trigger] order[i] < n
    &&& forall|i: int, j: int|
        0 <= i < order.len() && 0 <= j < order.len() && i != j ==> #[trigger] order[i] != #[trigger] order[j]
    &&& forall|v: usize| v < n ==> #[trigger] lists(order, v)
    &&& forall|k: int, i: int, j: int|
        0 <= k < edges.len() && 0 <= i < order.len() && 0 <= j < order.len()
            && #[trigger] order[i] == edges[k].src && #[trigger] order[j] == #[trigger] edges[k].dst
            ==> i < j
}

/// `v` stands somewhere in `order`.
pub open spec fn lists(order: Seq<usize>, v: usize) -> bool {
    exists|i: int| 0 <= i < order.len() && order[i] == v
}

/// The graph has no cycle: its nodes can be listed in topological order.
pub open spec fn acyclic(n: nat, edges: Seq<Edge>) -> bool {
    exists|order: Seq<usize>| is_topological(order, n, edges)
}

/// Some edge enters `v` from a node that is not yet placed.
pub open spec fn has_unplaced_pred(edges: Seq<Edge>, placed: Seq<bool>, v: usize) -> bool {
    exists|k: int| 0 <= k < edges.len() && #[trigger] edges[k].dst == v && !placed[edges[k].src as int]
}

pub open spec fn count_false(s: Seq<bool>) -> nat
    decreases s.len(),
{
    if s.len() == 0 {
        0
    } else {
        count_false(s.drop_last()) + if s.last() { 0nat } else { 1nat }
    }
}

proof fn lemma_count_false_set(s: Seq<bool>, i: int)
    requires
        0 <= i < s.len(),
        !s[i],
    ensures
        count_false(s.update(i, true)) + 1 == count_false(s),
    decreases s.len(),
{
    let t = s.update(i, true);
    if i == s.len() - 1 {
        assert(t.drop_last() =~= s.drop_last());
    } else {
        assert(t.drop_last() =~= s.drop_last().update(i, true));
        lemma_count_false_set(s.drop_last(), i);
    }
}

/// Where every unplaced node has an unplaced predecessor, each unplaced node
/// stands at position `m` or later in any topological order.
proof fn lemma_stuck_depth(order: Seq<usize>, n: nat, edges: Seq<Edge>, placed: Seq<bool>, m: nat)
    requires
        is_topological(order, n, edges),
        edges_in_range(n, edges),
        placed.len() == n,
        forall|v: usize| v < n && !placed[v as int] ==> has_unplaced_pred(edges, placed, v),
    ensures
        forall|i: int| 0 <= i < order.len() && !placed[order[i] as int] ==> i >= m,
    decreases m,
{
    if m > 0 {
        lemma_stuck_depth(order, n, edges, placed, (m - 1) as nat);
        assert forall|i: int| 0 <= i < order.len() && !placed[order[i] as int] implies i >= m by {
            let v = order[i];
            assert(has_unplaced_pred(edges, placed, v));
            let k = choose|k: int| 0 <= k < edges.len() && #[trigger] edges[k].dst == v && !placed[edges[k].src as int];
            let u = edges[k].src;
            assert(u < n);
            assert(lists(order, u));
            let j = choose|j: int| 0 <= j < order.len() && #[trigger] order[j] == u;
            assert(order[j] == edges[k].src && order[i] == edges[k].dst);
            assert(j < i);
        }
    }
}

/// A graph where some node is unplaced and every unplaced node has an unplaced
/// predecessor has a cycle.
proof fn lemma_stuck_not_acyclic(n: nat, edges: Seq<Edge>, placed: Seq<bool>, v0: usize)
    requires
        edges_in_range(n, edges),
        placed.len() == n,
        v0 < n,
        !placed[v0 as int],
        forall|v: usize| v < n && !placed[v as int] ==> has_unplaced_pred(edges, placed, v),
    ensures
        !acyclic(n, edges),
{
    if acyclic(n, edges) {
        let order = choose|order: Seq<usize>| is_topological(order, n, edges);
        lemma_stuck_depth(order, n, edges, placed, order.len());
        assert(lists(order, v0));
        let i = choose|i: int| 0 <= i < order.len() && #[trigger] order[i] == v0;
        assert(i >= order.len());
    }
}

/// True when every edge entering `v` leaves a placed node.
fn preds_placed(edges: &Vec<Edge>, placed: &Vec<bool>, v: usize) -> (r: bool)
    requires
        edges_in_range(placed@.len(), edges@),
    ensures
        r == !has_unplaced_pred(edges@, placed@, v),
{
    let mut k: usize = 0;
    while k < edges.len()
        invariant
            k <= edges@.len(),
            edges_in_range(placed@.len(), edges@),
            forall|j: int| 0 <= j < k && #[trigger] edges@[j].dst == v ==> placed@[edges@[j].src as int],
        decreases edges@.len() - k,
    {
        let e = edges[k];
        if e.dst == v && !placed[e.src] {
            return false;
        }
        k = k + 1;
    }
    true
}

/// Lists the `n` nodes in topological order, or fails when the edges form a cycle.
pub fn topological_order(n: usize, edges: &Vec<Edge>) -> (r: Option<Vec<usize>>)
    requires
        edges_in_range(n as nat, edges@),
    ensures
        match r {
            Some(order) => is_topological(order@, n as nat, edges@),
            None => !acyclic(n as nat, edges@),
        },
{
    let mut placed: Vec<bool> = Vec::new();
    let mut i: usize = 0;
    while i < n
        invariant
            i <= n,
            placed@.len() == i,
            forall|j: int| 0 <= j < i ==> !#[trigger] placed@[j],
        decreases n - i,
    {
        placed.push(false);
        i = i + 1;
    }
    let mut order: Vec<usize> = Vec::new();
    let ghost mut pos: Seq<int> = Seq::new(n as nat, |v: int| 0);
    loop
        invariant
            placed@.len() == n,
            pos.len() == n,
            edges_in_range(n as nat, edges@),
            forall|i: int| 0 <= i < order@.len() ==> #[trigger] order@[i] < n
                && placed@[order@[i] as int] && pos[order@[i] as int] == i,
            forall|v: int| 0 <= v < n && #[trigger] placed@[v] ==> 0 <= pos[v] < order@.len()
                && order@[pos[v]] == v,
            forall|k: int| 0 <= k < edges@.len() && #[trigger] placed@[edges@[k].dst as int]
                ==> placed@[edges@[k].src as int] && pos[edges@[k].src as int] < pos[edges@[k].dst as int],
        decreases count_false(placed@),
    {
        let ghost start = placed@;
        let mut progress = false;
        let mut v: usize = 0;
        while v < n
            invariant
                v <= n,
                placed@.len() == n,
                pos.len() == n,
                edges_in_range(n as nat, edges@),
                forall|i: int| 0 <= i < order@.len() ==> #[trigger] order@[i] < n
                    && placed@[order@[i] as int] && pos[order@[i] as int] == i,
                forall|w: int| 0 <= w < n && #[trigger] placed@[w] ==> 0 <= pos[w] < order@.len()
                    && order@[pos[w]] == w,
                forall|k: int| 0 <= k < edges@.len() && #[trigger] placed@[edges@[k].dst as int]
                    ==> placed@[edges@[k].src as int] && pos[edges@[k].src as int] < pos[edges@[k].dst as int],
                progress ==> count_false(placed@) < count_false(start),
                !progress ==> placed@ == start,
                !progress ==> forall|w: usize| w < v && !placed@[w as int] ==> has_unplaced_pred(edges@, placed@, w),
            decreases n - v,
        {
            if !placed[v] && preds_placed(edges, &placed, v) {
                proof {
                    lemma_count_false_set(placed@, v as int);
                }
                let ghost before = placed@;
                placed.set(v, true);
                proof {
                    pos = pos.update(v as int, order@.len() as int);
                }
                order.push(v);
                progress = true;
                assert forall|k: int| 0 <= k < edges@.len() && #[trigger] placed@[edges@[k].dst as int]
                    implies placed@[edges@[k].src as int] && pos[edges@[k].src as int] < pos[edges@[k].dst as int] by {
                    if edges@[k].dst == v {
                        assert(!has_unplaced_pred(edges@, before, v));
                        assert(before[edges@[k].src as int]);
                    } else {
                        assert(edges@[k].dst < n);
                        assert(placed@ == before.update(v as int, true));
                        assert(before[edges@[k].dst as int]);
                    }
                }
            }
            v = v + 1;
        }
        if !progress {
            let mut w: usize = 0;
            while w < n
                invariant
                    w <= n,
                    placed@.len() == n,
                    edges_in_range(n as nat, edges@),
                    forall|x: int| 0 <= x < w ==> #[trigger] placed@[x],
                    forall|x: usize| x < n && !placed@[x as int] ==> has_unplaced_pred(edges@, placed@, x),
                decreases n - w,
            {
                if !placed[w] {
                    proof {
                        lemma_stuck_not_acyclic(n as nat, edges@, placed@, w);
                    }
                    return None;
                }
                w = w + 1;
            }
            proof {
                assert forall|v: usize| v < n implies #[trigger] lists(order@, v) by {
                    assert(placed@[v as int]);
                    assert(order@[pos[v as int]] == v);
                }
                assert forall|k: int, i: int, j: int|
                    0 <= k < edges@.len() && 0 <= i < order@.len() && 0 <= j < order@.len()
                        && #[trigger] order@[i] == edges@[k].src && #[trigger] order@[j] == #[trigger] edges@[k].dst
                        implies i < j by {
                    assert(placed@[edges@[k].dst as int]);
                }
            }
            return Some(order);
        }
    }
}

} // verus!
