use pt_core::graph_smoothing::{build_neighbors, edges_from_clusters, GraphSmoothingError};

#[test]
fn edges_from_clusters_builds_cliques() {
    let clusters = vec![vec![0, 1, 2], vec![3, 4]];
    let edges = edges_from_clusters(&clusters);
    assert!(edges.contains(&(0, 1)));
    assert!(edges.contains(&(1, 2)));
    assert!(edges.contains(&(0, 2)));
    assert!(edges.contains(&(3, 4)));
}

#[test]
fn clique_edges_come_in_member_order() {
    let clusters = vec![vec![5, 6, 7], vec![9], vec![]];
    assert_eq!(edges_from_clusters(&clusters), vec![(5, 6), (5, 7), (6, 7)]);
}

#[test]
fn neighbors_are_symmetric_and_skip_self_loops() {
    let n = build_neighbors(4, &[(0, 1), (2, 2), (1, 3)]).unwrap();
    assert_eq!(n, vec![vec![1], vec![0, 3], vec![], vec![1]]);
}

#[test]
fn neighbors_reject_out_of_range_nodes() {
    let r = build_neighbors(2, &[(0, 1), (1, 2)]);
    assert!(matches!(
        r,
        Err(GraphSmoothingError::NodeCountMismatch { values: 2, nodes: 2 })
    ));
}
