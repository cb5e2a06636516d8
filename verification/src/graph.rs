//! The package dependency graph: a safe build order, or a cycle.
//!
//! Nodes are stable indices; an edge `i -> j` says package `i` depends
//! on package `j`. The order computed places every package strictly
//! after all packages it depends on, walking indices lowest-first so
//! the result is deterministic. When no such order exists the graph has
//! a cycle, and the computation says so instead of guessing.

use vstd::prelude::*;
use vstd::set_lib::lemma_int_range;
use vstd::set_lib::lemma_len_subset;
use vstd::set_lib::lemma_subset_equality;
use vstd::set_lib::set_int_range;

verus! {

/// The views of a list of adjacency rows.
pub open spec fn idx_views(v: Seq<Vec<usize>>) -> Seq<Seq<usize>> {
    v.map_values(|x: Vec<usize>| x@)
}

/// Well-formed adjacency: every edge points at a node.
pub open spec fn spec_wf_adj(adj: Seq<Seq<usize>>) -> bool {
    forall|i: int, j: int|
        0 <= i < adj.len() && 0 <= j < adj[i].len() ==> (#[trigger] adj[i][j]) < adj.len()
}

/// No value appears twice.
pub open spec fn spec_distinct(order: Seq<usize>) -> bool {
    forall|k1: int, k2: int|
        0 <= k1 < k2 < order.len() ==> (#[trigger] order[k1]) != (#[trigger] order[k2])
}

/// Does `v` appear in `order`?
pub open spec fn spec_in_order(order: Seq<usize>, v: int) -> bool {
    exists|m: int| 0 <= m < order.len() && (#[trigger] order[m]) == v
}

/// Every dependency of the node at position `k` stands strictly before
/// position `k`.
pub open spec fn spec_deps_before(adj: Seq<Seq<usize>>, order: Seq<usize>, k: int) -> bool {
    forall|j: int|
        0 <= j < adj[order[k] as int].len() ==> spec_in_order(
            order.take(k),
            (#[trigger] adj[order[k] as int][j]) as int,
        )
}

/// A safe build order: every node exactly once, each strictly after
/// all the nodes it depends on.
pub open spec fn spec_is_topo_order(adj: Seq<Seq<usize>>, order: Seq<usize>) -> bool {
    &&& order.len() == adj.len()
    &&& forall|k: int| 0 <= k < order.len() ==> (#[trigger] order[k]) < adj.len()
    &&& spec_distinct(order)
    &&& forall|k: int| 0 <= k < order.len() ==> #[trigger] spec_deps_before(adj, order, k)
}

/// A graph is acyclic exactly when some safe build order exists.
pub open spec fn spec_acyclic(adj: Seq<Seq<usize>>) -> bool {
    exists|order: Seq<usize>| spec_is_topo_order(adj, order)
}

/// The set of values a list of node indices holds.
pub open spec fn spec_members(order: Seq<usize>) -> Set<int> {
    Set::new(|x: int| spec_in_order(order, x))
}

/// A list without repeats holds as many values as it has positions.
proof fn lemma_distinct_card(order: Seq<usize>, n: int)
    requires
        spec_distinct(order),
        forall|k: int| 0 <= k < order.len() ==> (#[trigger] order[k]) < n,
        0 <= n,
    ensures
        spec_members(order).finite(),
        spec_members(order).len() == order.len(),
        spec_members(order).subset_of(set_int_range(0, n)),
    decreases order.len(),
{
    lemma_int_range(0, n);
    if order.len() == 0 {
        assert(spec_members(order) =~= Set::<int>::empty());
    } else {
        let head = order.drop_last();
        let last = order.last();
        lemma_distinct_card(head, n);
        assert(spec_members(order) =~= spec_members(head).insert(last as int)) by {
            assert forall|x: int| spec_in_order(order, x) implies spec_in_order(head, x) || x
                == last as int by {
                let m = choose|m: int| 0 <= m < order.len() && order[m] == x;
                if m < order.len() - 1 {
                    assert(head[m] == x);
                }
            }
            assert forall|x: int| spec_in_order(head, x) implies spec_in_order(order, x) by {
                let m = choose|m: int| 0 <= m < head.len() && head[m] == x;
                assert(order[m] == x);
            }
            assert(order[order.len() - 1] == last);
        }
        assert(!spec_in_order(head, last as int)) by {
            if spec_in_order(head, last as int) {
                let m = choose|m: int| 0 <= m < head.len() && head[m] == last as int;
                assert(order[m] == order[order.len() - 1]);
            }
        }
        assert(spec_members(order).subset_of(set_int_range(0, n))) by {
            assert forall|x: int| spec_in_order(order, x) implies 0 <= x < n by {
                let m = choose|m: int| 0 <= m < order.len() && order[m] == x;
            }
        }
    }
}

/// A list of `n` distinct node indices below `n` holds every one of
/// them.
proof fn lemma_full_order_covers(order: Seq<usize>, n: int, v: int)
    requires
        spec_distinct(order),
        forall|k: int| 0 <= k < order.len() ==> (#[trigger] order[k]) < n,
        order.len() == n,
        0 <= v < n,
    ensures
        spec_in_order(order, v),
{
    lemma_distinct_card(order, n);
    lemma_int_range(0, n);
    lemma_subset_equality(spec_members(order), set_int_range(0, n));
    assert(set_int_range(0, n).contains(v));
    assert(spec_members(order).contains(v));
}

/// When the walk stalls — every node is either ordered or depends on an
/// unordered node — a safe order would force every prefix of itself to
/// be ordered.
proof fn lemma_stalled_order_done(
    adj: Seq<Seq<usize>>,
    ord: Seq<usize>,
    done: Seq<bool>,
    k: int,
)
    requires
        spec_wf_adj(adj),
        spec_is_topo_order(adj, ord),
        done.len() == adj.len(),
        forall|i: int|
            0 <= i < adj.len() ==> (#[trigger] done[i]) || exists|j: int|
                0 <= j < adj[i].len() && !done[#[trigger] adj[i][j] as int],
        0 <= k <= ord.len(),
    ensures
        forall|m: int| 0 <= m < k ==> done[(#[trigger] ord[m]) as int],
    decreases k,
{
    if k > 0 {
        lemma_stalled_order_done(adj, ord, done, k - 1);
        let u = ord[k - 1] as int;
        assert(spec_deps_before(adj, ord, k - 1));
        assert forall|j: int| 0 <= j < adj[u].len() implies done[#[trigger] adj[u][j] as int] by {
            assert(spec_in_order(ord.take(k - 1), adj[u][j] as int));
            let m = choose|m: int|
                0 <= m < ord.take(k - 1).len() && (#[trigger] ord.take(k - 1)[m]) == adj[u][j];
            assert(ord[m] == adj[u][j]);
            assert(done[ord[m] as int]);
        }
        assert(done[u]);
    }
}

/// Do all of this node's dependencies stand in the order already?
fn all_deps_done(deps_i: &Vec<usize>, done: &Vec<bool>) -> (r: bool)
    requires
        forall|j: int| 0 <= j < deps_i.len() ==> (#[trigger] deps_i[j]) < done.len(),
    ensures
        r == forall|j: int| 0 <= j < deps_i.len() ==> done[(#[trigger] deps_i@[j]) as int],
{
    let n = deps_i.len();
    let mut j: usize = 0;
    while j < n
        invariant
            n == deps_i.len(),
            0 <= j <= n,
            forall|k: int| 0 <= k < deps_i.len() ==> (#[trigger] deps_i[k]) < done.len(),
            forall|k: int| 0 <= k < j ==> done[(#[trigger] deps_i@[k]) as int],
        decreases n - j,
    {
        if !done[deps_i[j]] {
            return false;
        }
        j = j + 1;
    }
    true
}

/// Compute a safe build order, lowest index first among the ready
/// nodes, or name a node of the graph when no safe order exists.
pub fn topo_order(adj: &Vec<Vec<usize>>) -> (r: Result<Vec<usize>, usize>)
    requires
        spec_wf_adj(idx_views(adj@)),
    ensures
        match r {
            Result::Ok(o) => spec_is_topo_order(idx_views(adj@), o@),
            Result::Err(i) => i < adj.len() && !spec_acyclic(idx_views(adj@)),
        },
{
    let ghost av = idx_views(adj@);
    let n = adj.len();
    let mut done: Vec<bool> = Vec::new();
    let mut z: usize = 0;
    while z < n
        invariant
            0 <= z <= n,
            done.len() == z,
            forall|i: int| 0 <= i < z ==> !(#[trigger] done@[i]),
        decreases n - z,
    {
        done.push(false);
        z = z + 1;
    }
    let mut order: Vec<usize> = Vec::new();
    while order.len() < n
        invariant
            n == adj.len() == done.len(),
            av == idx_views(adj@),
            av.len() == n,
            spec_wf_adj(av),
            order.len() <= n,
            forall|i: int|
                0 <= i < n ==> ((#[trigger] done@[i]) <==> spec_in_order(order@, i)),
            forall|k: int| 0 <= k < order.len() ==> (#[trigger] order@[k]) < n,
            spec_distinct(order@),
            forall|k: int| 0 <= k < order.len() ==> #[trigger] spec_deps_before(av, order@, k),
        decreases n - order.len(),
    {
        let mut pick: usize = n;
        let mut i: usize = 0;
        while i < n
            invariant_except_break
                pick == n,
            invariant
                n == adj.len() == done.len(),
                av == idx_views(adj@),
                av.len() == n,
                spec_wf_adj(av),
                0 <= i <= n,
                forall|x: int|
                    0 <= x < i ==> (#[trigger] done@[x]) || exists|j: int|
                        0 <= j < av[x].len() && !done@[av[x][j] as int],
            ensures
                pick < n && !done@[pick as int] && (forall|j: int|
                    0 <= j < av[pick as int].len() ==> done@[(#[trigger] av[pick as int][j]) as int])
                    || pick == n && forall|x: int|
                    0 <= x < n ==> (#[trigger] done@[x]) || exists|j: int|
                        0 <= j < av[x].len() && !done@[av[x][j] as int],
            decreases n - i,
        {
            if !done[i] {
                proof {
                    assert(av[i as int] == adj@[i as int]@);
                    assert(forall|j: int|
                        0 <= j < adj@[i as int]@.len() ==> (#[trigger] adj@[i as int]@[j])
                            < done.len());
                }
                if all_deps_done(&adj[i], &done) {
                    pick = i;
                    break ;
                }
            }
            i = i + 1;
        }
        if pick < n {
            let ghost before = order@;
            done[pick] = true;
            order.push(pick);
            proof {
                assert(order@ == before.push(pick));
                assert(order@.take(order@.len() - 1) =~= before);
                assert forall|x: int|
                    0 <= x < n implies ((#[trigger] done@[x]) <==> spec_in_order(order@, x)) by {
                    if x == pick as int {
                        assert(order@[order@.len() - 1] == pick);
                        assert(spec_in_order(order@, x));
                    } else {
                        if spec_in_order(before, x) {
                            let m = choose|m: int| 0 <= m < before.len() && before[m] == x;
                            assert(order@[m] == x);
                        }
                        if spec_in_order(order@, x) {
                            let m = choose|m: int| 0 <= m < order@.len() && order@[m] == x;
                            assert(m < before.len());
                            assert(before[m] == x);
                        }
                    }
                }
                assert(spec_distinct(order@)) by {
                    assert forall|k1: int, k2: int|
                        0 <= k1 < k2 < order@.len() implies (#[trigger] order@[k1]) != (
                    #[trigger] order@[k2]) by {
                        if k2 == order@.len() - 1 {
                            assert(order@[k2] == pick);
                            assert(before[k1] == order@[k1]);
                            if order@[k1] == pick {
                                assert(spec_in_order(before, pick as int));
                            }
                        }
                    }
                }
                assert forall|k: int|
                    0 <= k < order@.len() implies #[trigger] spec_deps_before(av, order@, k) by {
                    if k < order@.len() - 1 {
                        assert(spec_deps_before(av, before, k));
                        assert(order@[k] == before[k]);
                        assert forall|j: int|
                            0 <= j < av[order@[k] as int].len() implies spec_in_order(
                            order@.take(k),
                            (#[trigger] av[order@[k] as int][j]) as int,
                        ) by {
                            assert(spec_in_order(before.take(k), av[before[k] as int][j] as int));
                            let m = choose|m: int|
                                0 <= m < before.take(k).len() && before.take(k)[m] == av[before[
                                k] as int][j];
                            assert(order@.take(k)[m] == before.take(k)[m]);
                            assert(spec_in_order(order@.take(k), av[order@[k] as int][j] as int));
                        }
                    } else {
                        assert(order@[k] == pick);
                        assert(order@.take(k) =~= before);
                        assert forall|j: int|
                            0 <= j < av[pick as int].len() implies spec_in_order(
                            order@.take(k),
                            (#[trigger] av[pick as int][j]) as int,
                        ) by {
                            let ghost old_done = done@;
                            assert(done@[av[pick as int][j] as int] || old_done[av[
                            pick as int][j] as int]);
                        }
                    }
                }
            }
        } else {
            proof {
                assert(!spec_acyclic(av)) by {
                    if spec_acyclic(av) {
                        let ord = choose|ord: Seq<usize>| spec_is_topo_order(av, ord);
                        lemma_stalled_order_done(av, ord, done@, n as int);
                        assert(order@.len() < n);
                        assert(exists|v: int| 0 <= v < n && !done@[v]) by {
                            if forall|v: int| 0 <= v < n ==> #[trigger] done@[v] {
                                lemma_distinct_card(order@, n as int);
                                lemma_int_range(0, n as int);
                                assert forall|v: int| set_int_range(0, n as int).contains(v)
                                    implies spec_members(order@).contains(v) by {
                                    assert(done@[v]);
                                }
                                assert(set_int_range(0, n as int).subset_of(
                                    spec_members(order@),
                                ));
                                lemma_len_subset(
                                    set_int_range(0, n as int),
                                    spec_members(order@),
                                );
                            }
                        }
                        let missing = choose|v: int| 0 <= v < n && !done@[v];
                        lemma_full_order_covers(ord, n as int, missing);
                        let m = choose|m: int| 0 <= m < ord.len() && ord[m] == missing;
                        assert(done@[ord[m] as int]);
                    }
                }
            }
            let mut bad: usize = 0;
            let mut x: usize = 0;
            while x < n
                invariant
                    n == done.len(),
                    0 <= x <= n,
                    bad < n || n > 0 && bad == 0,
                decreases n - x,
            {
                if !done[x] {
                    bad = x;
                    break ;
                }
                x = x + 1;
            }
            return Result::Err(bad);
        }
    }
    proof {
        assert(spec_is_topo_order(av, order@));
    }
    Result::Ok(order)
}

} // verus!
