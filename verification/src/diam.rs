//! The tree-diameter calculator: a double breadth-first sweep over the
//! topology graph, bounded by the node count so that a cyclic or disconnected
//! edge set (a protocol anomaly) still terminates and degrades gracefully.

use vstd::prelude::*;
use vstd::set_lib::{lemma_int_range, lemma_len_subset, set_int_range};
use crate::graph::TopologyGraph;

verus! {

/// The node ids a breadth-first sweep has assigned a distance.
pub open spec fn visited_ids(dist: Seq<Option<usize>>) -> Set<int> {
    Set::new(|i: int| 0 <= i < dist.len() && dist[i] is Some)
}

/// `p` walks along edges of `g`.
pub open spec fn is_path(g: TopologyGraph, p: Seq<int>) -> bool {
    &&& p.len() >= 1
    &&& forall|i: int| 0 <= i < p.len() - 1 ==> g.has_edge(#[trigger] p[i], p[i + 1])
}

/// `p` is a walk of `hops` edges from node `a` to node `b`.
pub open spec fn connects(g: TopologyGraph, p: Seq<int>, a: int, b: int, hops: int) -> bool {
    &&& is_path(g, p)
    &&& p.first() == a
    &&& p.last() == b
    &&& p.len() == hops + 1
}

/// Some walk of `hops` edges leads from node `a` to node `b`.
pub open spec fn reaches(g: TopologyGraph, a: int, b: int, hops: int) -> bool {
    exists|p: Seq<int>| connects(g, p, a, b, hops)
}

/// Breadth-first sweep from `start`: the id of a node farthest from `start`
/// among those reachable, and its hop distance, which stays below the node
/// count however malformed the edge set is.
#[verifier::rlimit(60)]
fn bfs_far(g: &TopologyGraph, start: usize) -> (r: (usize, usize))
    requires
        g.wf(),
        start < g.name_seq().len(),
    ensures
        r.0 < g.name_seq().len(),
        r.1 < g.name_seq().len(),
        reaches(*g, start as int, r.0 as int, r.1 as int),
        (exists|j: int| g.has_edge(start as int, j) && j != start as int) ==> r.1 >= 1,
        r.1 >= 1 ==> exists|j: int| g.has_edge(r.0 as int, j) && j != r.0 as int,
{
    let n = g.node_count();
    let mut dist: Vec<Option<usize>> = vec![None; n];
    dist[start] = Some(0);
    let mut queue: Vec<usize> = Vec::new();
    queue.push(start);
    let mut visited: usize = 1;
    let mut head: usize = 0;
    let mut best: usize = start;
    let mut best_d: usize = 0;
    proof {
        assert(visited_ids(dist@) =~= Set::empty().insert(start as int));
        vstd::set::axiom_set_insert_len(Set::<int>::empty(), start as int);
        assert(connects(*g, seq![start as int], start as int, start as int, 0));
        assert forall|w: int| 0 <= w < n && (#[trigger] dist@[w]) is Some implies reaches(
            *g,
            start as int,
            w,
            dist@[w].unwrap() as int,
        ) by {
            assert(w == start as int);
            assert(connects(*g, seq![start as int], start as int, w, dist@[w].unwrap() as int));
        }
    }
    while head < queue.len()
        invariant
            g.wf(),
            n == g.name_seq().len(),
            dist@.len() == n,
            head <= queue@.len(),
            queue@.len() <= visited,
            visited_ids(dist@).finite(),
            visited == visited_ids(dist@).len(),
            visited <= n,
            forall|qi: int|
                0 <= qi < queue@.len() ==> (#[trigger] queue@[qi]) < n && dist@[queue@[qi] as int]
                    is Some,
            forall|i: int|
                0 <= i < n ==> ((#[trigger] dist@[i]) matches Some(v) ==> v < visited),
            forall|w: int|
                0 <= w < n && (#[trigger] dist@[w]) is Some ==> reaches(
                    *g,
                    start as int,
                    w,
                    dist@[w].unwrap() as int,
                ),
            queue@.len() >= 1,
            queue@[0] == start,
            dist@[start as int] == Some(0usize),
            forall|i: int|
                0 <= i < n && i != start as int ==> ((#[trigger] dist@[i]) matches Some(v) ==> v
                    >= 1 && (exists|j: int| g.has_edge(i, j) && j != i)),
            forall|i: int|
                0 <= i < n ==> ((#[trigger] dist@[i]) matches Some(v) ==> v <= best_d),
            head >= 1 ==> (forall|j: int|
                g.has_edge(start as int, j) && j != start as int ==> (#[trigger] dist@[j])
                    is Some),
            best < n,
            dist@[best as int] == Some(best_d),
            best_d < visited,
        decreases n - head,
    {
        let u = queue[head];
        head = head + 1;
        let du = match dist[u] {
            Some(d) => d,
            None => 0,
        };
        let deg = g.adj[u].len();
        let mut k: usize = 0;
        while k < deg
            invariant
                g.wf(),
                n == g.name_seq().len(),
                dist@.len() == n,
                u < n,
                deg == g.adj@[u as int]@.len(),
                k <= deg,
                du < visited,
                head <= queue@.len(),
                queue@.len() <= visited,
                visited_ids(dist@).finite(),
                visited == visited_ids(dist@).len(),
                visited <= n,
                forall|qi: int|
                    0 <= qi < queue@.len() ==> (#[trigger] queue@[qi]) < n && dist@[queue@[
                        qi
                    ] as int] is Some,
                forall|i: int|
                    0 <= i < n ==> ((#[trigger] dist@[i]) matches Some(v) ==> v < visited),
                forall|w: int|
                    0 <= w < n && (#[trigger] dist@[w]) is Some ==> reaches(
                        *g,
                        start as int,
                        w,
                        dist@[w].unwrap() as int,
                    ),
                reaches(*g, start as int, u as int, du as int),
                queue@.len() >= 1,
                queue@[0] == start,
                dist@[u as int] == Some(du),
                dist@[start as int] == Some(0usize),
                forall|i: int|
                    0 <= i < n && i != start as int ==> ((#[trigger] dist@[i]) matches Some(v)
                        ==> v >= 1 && (exists|j: int| g.has_edge(i, j) && j != i)),
                forall|i: int|
                    0 <= i < n ==> ((#[trigger] dist@[i]) matches Some(v) ==> v <= best_d),
                head == 1 ==> u == start,
                head == 1 ==> (forall|k2: int|
                    0 <= k2 < k ==> (#[trigger] dist@[g.adj@[u as int]@[k2] as int]) is Some),
                head >= 2 ==> (forall|j: int|
                    g.has_edge(start as int, j) && j != start as int ==> (#[trigger] dist@[j])
                        is Some),
                best < n,
                dist@[best as int] == Some(best_d),
                best_d < visited,
            decreases deg - k,
        {
            let w = g.adj[u][k];
            assert(w < n);
            let unseen = match dist[w] {
                Some(_) => false,
                None => true,
            };
            if unseen {
                let ghost pre = dist@;
                proof {
                    lemma_int_range(0, n as int);
                    lemma_len_subset(visited_ids(pre), set_int_range(0, n as int));
                    assert(!visited_ids(pre).contains(w as int));
                    lemma_len_subset(visited_ids(pre).insert(w as int), set_int_range(0, n as int));
                    vstd::set::axiom_set_insert_len(visited_ids(pre), w as int);
                }
                let d2 = du + 1;
                let ghost pu = choose|p: Seq<int>|
                    connects(*g, p, start as int, u as int, du as int);
                let ghost pw = pu.push(w as int);
                proof {
                    assert(g.has_edge(u as int, w as int)) by {
                        assert(g.adj@[u as int]@[k as int] == w);
                    }
                    assert(is_path(*g, pw)) by {
                        assert forall|i: int| 0 <= i < pw.len() - 1 implies g.has_edge(
                            #[trigger] pw[i],
                            pw[i + 1],
                        ) by {
                            if i < pu.len() - 1 {
                                assert(pw[i] == pu[i] && pw[i + 1] == pu[i + 1]);
                                assert(g.has_edge(pu[i], pu[i + 1]));
                            } else {
                                assert(pw[i] == u as int && pw[i + 1] == w as int);
                            }
                        }
                    }
                    assert(connects(*g, pw, start as int, w as int, d2 as int));
                }
                dist[w] = Some(d2);
                proof {
                    assert(visited_ids(dist@) =~= visited_ids(pre).insert(w as int));
                    assert(g.has_edge(w as int, u as int));
                    assert(u as int != w as int);
                    assert forall|w2: int|
                        0 <= w2 < n && (#[trigger] dist@[w2]) is Some implies reaches(
                        *g,
                        start as int,
                        w2,
                        dist@[w2].unwrap() as int,
                    ) by {
                        if w2 != w as int {
                            assert(dist@[w2] == pre[w2]);
                        } else {
                            assert(connects(*g, pw, start as int, w2, dist@[w2].unwrap() as int));
                        }
                    }
                }
                visited = visited + 1;
                queue.push(w);
                if d2 > best_d {
                    best = w;
                    best_d = d2;
                }
            }
            k = k + 1;
        }
        proof {
            if head == 1 {
                assert forall|j: int|
                    g.has_edge(start as int, j) && j != start as int implies (#[trigger] dist@[j])
                    is Some by {
                    let k2 = choose|k2: int|
                        0 <= k2 < g.adj@[start as int]@.len() && g.adj@[start as int]@[k2] as int
                            == j;
                    assert(dist@[g.adj@[u as int]@[k2] as int] is Some);
                }
            }
        }
    }
    proof {
        assert(dist@[best as int] is Some && dist@[best as int].unwrap() == best_d);
        assert(reaches(*g, start as int, best as int, best_d as int));
        if exists|j: int| g.has_edge(start as int, j) && j != start as int {
            let j = choose|j: int| g.has_edge(start as int, j) && j != start as int;
            assert(0 <= j < n);
            assert(dist@[j] is Some);
        }
        if best_d >= 1 {
            assert(best != start);
        }
    }
    (best, best_d)
}

/// The reported hop count is realised by a walk between two nodes that carry
/// the reported endpoint names.
pub open spec fn diameter_witnessed(
    g: TopologyGraph,
    hops: int,
    from: Seq<char>,
    to: Seq<char>,
) -> bool {
    exists|i: int, j: int|
        {
            &&& 0 <= i < g.name_seq().len()
            &&& 0 <= j < g.name_seq().len()
            &&& from == g.name_seq()[i]
            &&& to == g.name_seq()[j]
            &&& #[trigger] reaches(g, i, j, hops)
        }
}

/// Longest shortest path of the discovered tree: hop count and the two
/// endpoint names, absent when fewer than two nodes exist. The hop count is
/// realised by a concrete walk between the two named endpoints.
pub fn diameter(g: &TopologyGraph) -> (r: Option<(usize, String, String)>)
    requires
        g.wf(),
    ensures
        r is None <==> g.name_seq().len() < 2,
        r matches Some(t) ==> t.0 < g.name_seq().len() && diameter_witnessed(
            *g,
            t.0 as int,
            t.1@,
            t.2@,
        ),
        (exists|j: int| g.has_edge(0, j) && j != 0) ==> (r matches Some(t) && t.0 >= 1),
{
    let n = g.node_count();
    if n < 2 {
        proof {
            if exists|j: int| g.has_edge(0, j) && j != 0 {
                let j = choose|j: int| g.has_edge(0, j) && j != 0;
                assert(0 <= j < n);
            }
        }
        return None;
    }
    let (a, da) = bfs_far(g, 0);
    proof {
        if exists|j: int| g.has_edge(0, j) && j != 0 {
            assert(da >= 1);
        }
    }
    let (b, d) = bfs_far(g, a);
    let left = g.name_of(a).clone();
    let right = g.name_of(b).clone();
    proof {
        assert(left@ == g.name_seq()[a as int]);
        assert(right@ == g.name_seq()[b as int]);
        assert(reaches(*g, a as int, b as int, d as int));
        assert(diameter_witnessed(*g, d as int, left@, right@));
    }
    Some((d, left, right))
}

} // verus!
