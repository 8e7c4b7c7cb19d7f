//! Graph structure for Laplacian smoothing: neighbor lists from undirected
//! edges, and clique edges from clusters of nodes.
use vstd::prelude::*;

verus! {

/// Errors returned by the graph construction.
#[derive(Debug)]
pub enum GraphSmoothingError {
    NodeCountMismatch { values: usize, nodes: usize },
}

/// Neighbors of node `i` after the edges `edges`: each non-loop edge `(a, b)`
/// appends `b` to the list of `a` and `a` to the list of `b`, in edge order.
pub open spec fn neighbors_of(edges: Seq<(usize, usize)>, i: int) -> Seq<usize>
    decreases edges.len(),
{
    if edges.len() == 0 {
        Seq::empty()
    } else {
        let prev = neighbors_of(edges.drop_last(), i);
        let (a, b) = edges.last();
        if a == b {
            prev
        } else if a == i {
            prev.push(b)
        } else if b == i {
            prev.push(a)
        } else {
            prev
        }
    }
}

/// Some edge has an endpoint outside `0..node_count`.
pub open spec fn has_bad_edge(node_count: usize, edges: Seq<(usize, usize)>) -> bool {
    exists|k: int| 0 <= k < edges.len() && (#[trigger] edges[k].0 >= node_count || edges[k].1 >= node_count)
}

/// Build neighbor lists from undirected edges.  Fails when an edge names a
/// node outside `0..node_count`; self-loops are ignored.
pub fn build_neighbors(node_count: usize, edges: &[(usize, usize)]) -> (res: Result<
    Vec<Vec<usize>>,
    GraphSmoothingError,
>)
    ensures
        res is Err <==> has_bad_edge(node_count, edges@),
        res matches Err(GraphSmoothingError::NodeCountMismatch { values, nodes }) ==> values
            == node_count && nodes == node_count,
        res matches Ok(neighbors) ==> neighbors@.len() == node_count && forall|i: int|
            0 <= i < node_count ==> (#[trigger] neighbors@[i])@ == neighbors_of(edges@, i),
{
    let mut neighbors: Vec<Vec<usize>> = Vec::new();
    for i in 0..node_count
        invariant
            neighbors@.len() == i,
            forall|k: int| 0 <= k < i ==> (#[trigger] neighbors@[k])@ == Seq::<usize>::empty(),
    {
        neighbors.push(Vec::new());
    }
    let ne = edges.len();
    for k in 0..ne
        invariant
            ne == edges@.len(),
            neighbors@.len() == node_count,
            forall|j: int| 0 <= j < k ==> !(#[trigger] edges@[j].0 >= node_count || edges@[j].1 >= node_count),
            forall|i: int| 0 <= i < node_count ==> (#[trigger] neighbors@[i])@ == neighbors_of(edges@.take(k as int), i),
    {
        let (a, b) = edges[k];
        proof {
            assert(edges@.take(k + 1).drop_last() =~= edges@.take(k as int));
            assert(edges@.take(k + 1).last() == edges@[k as int]);
        }
        if a >= node_count || b >= node_count {
            return Err(GraphSmoothingError::NodeCountMismatch { values: node_count, nodes: node_count });
        }
        if a != b {
            let ghost before = neighbors@;
            neighbors[a].push(b);
            neighbors[b].push(a);
            proof {
                assert forall|i: int| 0 <= i < node_count implies (#[trigger] neighbors@[i])@ == neighbors_of(
                    edges@.take(k + 1),
                    i,
                ) by {
                    if i != a && i != b {
                        assert(neighbors@[i] == before[i]);
                    }
                }
            }
        }
    }
    proof {
        assert(edges@.take(ne as int) =~= edges@);
        assert(!has_bad_edge(node_count, edges@));
    }
    Ok(neighbors)
}

/// Neighbor relations are symmetric and irreflexive: `j` is a neighbor of
/// `i` exactly when `i` is a neighbor of `j`, and no node neighbors itself.
pub proof fn lemma_neighbors_symmetric(edges: Seq<(usize, usize)>, i: usize, j: usize)
    ensures
        neighbors_of(edges, i as int).contains(j) <==> neighbors_of(edges, j as int).contains(i),
        !neighbors_of(edges, i as int).contains(i),
    decreases edges.len(),
{
    if edges.len() > 0 {
        lemma_neighbors_symmetric(edges.drop_last(), i, j);
        let prev_i = neighbors_of(edges.drop_last(), i as int);
        let prev_j = neighbors_of(edges.drop_last(), j as int);
        assert forall|s: Seq<usize>, x: usize, y: usize| #[trigger] s.push(x).contains(y) <==> (s.contains(y) || x == y) by {
            if s.push(x).contains(y) && x != y {
                let t = s.push(x).index_of(y);
                assert(s[t] == y);
            }
            if s.contains(y) {
                let t = s.index_of(y);
                assert(s.push(x)[t] == y);
            }
            if x == y {
                assert(s.push(x)[s.len() as int] == y);
            }
        }
    }
}

/// All pairs `(c[i], c[j])` with `i < j < n`, row by row.
pub open spec fn pairs_upto(c: Seq<usize>, n: int) -> Seq<(usize, usize)>
    decreases n,
{
    if n <= 0 {
        Seq::empty()
    } else {
        pairs_upto(c, n - 1) + row_pairs(c, n - 1)
    }
}

/// Pairs `(c[i], c[j])` for `j > i`, in order of `j`.
pub open spec fn row_pairs(c: Seq<usize>, i: int) -> Seq<(usize, usize)> {
    Seq::new((c.len() - i - 1) as nat, |k: int| (c[i], c[i + 1 + k]))
}

/// Clique edges of the first `m` clusters, cluster by cluster.
pub open spec fn clique_edges(clusters: Seq<Vec<usize>>, m: int) -> Seq<(usize, usize)>
    decreases m,
{
    if m <= 0 {
        Seq::empty()
    } else {
        clique_edges(clusters, m - 1) + pairs_upto(clusters[m - 1]@, clusters[m - 1]@.len() as int)
    }
}

/// Create undirected edges for each cluster of nodes: every pair of members,
/// earlier member first, cluster by cluster.
pub fn edges_from_clusters(clusters: &[Vec<usize>]) -> (edges: Vec<(usize, usize)>)
    ensures
        edges@ == clique_edges(clusters@, clusters@.len() as int),
{
    let mut edges: Vec<(usize, usize)> = Vec::new();
    let nc = clusters.len();
    for ci in 0..nc
        invariant
            nc == clusters@.len(),
            edges@ == clique_edges(clusters@, ci as int),
    {
        let cluster = &clusters[ci];
        let n = cluster.len();
        let ghost base = edges@;
        for i in 0..n
            invariant
                n == cluster@.len(),
                cluster == &clusters@[ci as int],
                edges@ == base + pairs_upto(cluster@, i as int),
        {
            let ghost row_start = edges@;
            let mut j = i + 1;
            while j < n
                invariant
                    n == cluster@.len(),
                    i < n,
                    i + 1 <= j <= n,
                    edges@ == row_start + row_pairs(cluster@, i as int).take(j - i - 1),
                decreases n - j,
            {
                edges.push((cluster[i], cluster[j]));
                proof {
                    assert(row_pairs(cluster@, i as int).take(j - i) =~= row_pairs(cluster@, i as int).take(
                        j - i - 1,
                    ).push((cluster@[i as int], cluster@[j as int])));
                }
                j = j + 1;
            }
            proof {
                assert(row_pairs(cluster@, i as int).take(n - i - 1) =~= row_pairs(cluster@, i as int));
                assert(base + pairs_upto(cluster@, i + 1) =~= base + pairs_upto(cluster@, i as int)
                    + row_pairs(cluster@, i as int));
            }
        }
    }
    edges
}

/// Every pair of members of a cluster, earlier member first, is an edge.
pub proof fn lemma_cluster_clique(clusters: Seq<Vec<usize>>, ci: int, i: int, j: int)
    requires
        0 <= ci < clusters.len(),
        0 <= i < j < clusters[ci]@.len(),
    ensures
        clique_edges(clusters, clusters.len() as int).contains((clusters[ci]@[i], clusters[ci]@[j])),
{
    let c = clusters[ci]@;
    let e = (c[i], c[j]);
    assert(row_pairs(c, i)[j - i - 1] == e);
    lemma_pairs_contain(c, i, j, c.len() as int);
    lemma_clique_contains(clusters, ci, e, clusters.len() as int);
}

proof fn lemma_pairs_contain(c: Seq<usize>, i: int, j: int, n: int)
    requires
        0 <= i < j < c.len(),
        i < n <= c.len(),
    ensures
        pairs_upto(c, n).contains((c[i], c[j])),
    decreases n,
{
    let e = (c[i], c[j]);
    if n - 1 == i {
        let p = pairs_upto(c, n - 1);
        assert(pairs_upto(c, n)[p.len() + j - i - 1] == e);
    } else {
        lemma_pairs_contain(c, i, j, n - 1);
        let p = pairs_upto(c, n - 1);
        let t = p.index_of(e);
        assert(pairs_upto(c, n)[t] == e);
    }
}

proof fn lemma_clique_contains(clusters: Seq<Vec<usize>>, ci: int, e: (usize, usize), m: int)
    requires
        0 <= ci < m <= clusters.len(),
        pairs_upto(clusters[ci]@, clusters[ci]@.len() as int).contains(e),
    ensures
        clique_edges(clusters, m).contains(e),
    decreases m,
{
    let prev = clique_edges(clusters, m - 1);
    if ci == m - 1 {
        let p = pairs_upto(clusters[ci]@, clusters[ci]@.len() as int);
        let t = p.index_of(e);
        assert(clique_edges(clusters, m)[prev.len() + t] == e);
    } else {
        lemma_clique_contains(clusters, ci, e, m - 1);
        let t = prev.index_of(e);
        assert(clique_edges(clusters, m)[t] == e);
    }
}

} // verus!
