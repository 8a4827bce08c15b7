use graphgen::generator::erdos_renyl;
use graphgen::graph::Graph;
use graphgen::prob::{Probability, PROB_ONE};

/// The probability whose unit count covers the same share of the unit
/// interval as the floating-point probability `p`: a 53-bit draw maps to the
/// uniform sample `draw / 2^53`, which is below `p` exactly when the draw is
/// below `ceil(p * 2^53)`.
fn prob(p: f64) -> Probability {
    if !(p > 0.0) {
        return Probability::never();
    }
    if p >= 1.0 {
        return Probability::always();
    }
    Probability::from_units((p * (PROB_ONE as f64)).ceil() as u64)
}

#[test]
fn test_erdos_renyl_small_graph() {
    let mut graph = Graph::new();
    let n_nodes = 5;
    let p = 0.5;
    let seed = Some([1u8; 32]);
    erdos_renyl(&mut graph, n_nodes, prob(p), seed).unwrap();
    let node_count = graph.count_nodes();
    assert_eq!(node_count, n_nodes);
    let edge_count = graph.count_edges();
    assert!(edge_count > 0);
    assert!(edge_count <= n_nodes * (n_nodes - 1));
}

#[test]
fn test_erdos_renyl_zero_probability() {
    let mut graph = Graph::new();
    let n_nodes = 4;
    let p = 0.0;
    let seed = Some([2u8; 32]);
    erdos_renyl(&mut graph, n_nodes, prob(p), seed).unwrap();
    let edge_count = graph.count_edges();
    assert_eq!(edge_count, 0);
}

#[test]
fn test_erdos_renyl_full_probability() {
    let mut graph = Graph::new();
    let n_nodes = 3;
    let p = 1.0;
    let seed = Some([3u8; 32]);
    erdos_renyl(&mut graph, n_nodes, prob(p), seed).unwrap();
    let edge_count = graph.count_edges();
    assert_eq!(edge_count, n_nodes * (n_nodes - 1));
}

#[test]
fn same_seed_same_edges() {
    let mut a = Graph::new();
    let mut b = Graph::new();
    erdos_renyl(&mut a, 5, prob(0.5), Some([1u8; 32])).unwrap();
    erdos_renyl(&mut b, 5, prob(0.5), Some([1u8; 32])).unwrap();
    assert_eq!(a.all_node_ids(), b.all_node_ids());
    assert_eq!(a.edge_endpoints(), b.edge_endpoints());
    assert_eq!(a.latest_time(), b.latest_time());
}

#[test]
fn different_seeds_differ() {
    let mut a = Graph::new();
    let mut b = Graph::new();
    erdos_renyl(&mut a, 5, prob(0.5), Some([1u8; 32])).unwrap();
    erdos_renyl(&mut b, 5, prob(0.5), Some([2u8; 32])).unwrap();
    assert_ne!(a.edge_endpoints(), b.edge_endpoints());
}

#[test]
fn no_self_loops() {
    let mut graph = Graph::new();
    erdos_renyl(&mut graph, 8, prob(0.9), Some([7u8; 32])).unwrap();
    for (src, dst) in graph.edge_endpoints() {
        assert_ne!(src, dst);
    }
}

#[test]
fn fresh_ids_extend_existing() {
    let mut graph = Graph::new();
    graph.add_node(5, 10).unwrap();
    graph.add_node(6, 3).unwrap();
    erdos_renyl(&mut graph, 4, prob(0.0), Some([4u8; 32])).unwrap();
    let ids = graph.all_node_ids();
    assert_eq!(ids, vec![10, 3, 11, 12, 13, 14]);
    assert_eq!(graph.count_edges(), 0);
}

#[test]
fn zero_nodes_on_empty_graph() {
    let mut graph = Graph::new();
    erdos_renyl(&mut graph, 0, prob(1.0), Some([5u8; 32])).unwrap();
    assert_eq!(graph.count_nodes(), 0);
    assert_eq!(graph.count_edges(), 0);
    assert_eq!(graph.latest_time(), None);
}

#[test]
fn zero_nodes_still_samples_existing_pairs() {
    let mut graph = Graph::new();
    graph.add_node(1, 1).unwrap();
    graph.add_node(2, 2).unwrap();
    erdos_renyl(&mut graph, 0, prob(1.0), Some([6u8; 32])).unwrap();
    assert_eq!(graph.count_nodes(), 2);
    assert_eq!(graph.count_edges(), 2);
    let endpoints = graph.edge_endpoints();
    assert_eq!(endpoints, vec![(1, 2), (2, 1)]);
}

#[test]
fn shared_timestamp_counter() {
    let mut graph = Graph::new();
    erdos_renyl(&mut graph, 3, prob(1.0), Some([8u8; 32])).unwrap();
    // 3 node insertions at times 1..3, then 6 edge insertions at times 4..9.
    assert_eq!(graph.latest_time(), Some(9));
}

#[test]
fn pinned_edge_count_for_seed_one() {
    // The stream of StdRng is a fixed function of the seed, so this count is
    // one exact, reproducible value: 8 of the 20 trials fall below one half.
    let mut graph = Graph::new();
    erdos_renyl(&mut graph, 5, prob(0.5), Some([1u8; 32])).unwrap();
    assert_eq!(graph.count_edges(), 8);
}

#[test]
fn entropy_seeded_generation() {
    let mut graph = Graph::new();
    erdos_renyl(&mut graph, 4, prob(0.5), None).unwrap();
    assert_eq!(graph.count_nodes(), 4);
    assert!(graph.count_edges() <= 12);
    for (src, dst) in graph.edge_endpoints() {
        assert_ne!(src, dst);
    }
}
