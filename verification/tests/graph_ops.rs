use graphgen::graph::{Graph, GraphError};
use graphgen::prob::{Probability, PROB_ONE};

#[test]
fn duplicate_node_id_is_rejected() {
    let mut graph = Graph::new();
    assert_eq!(graph.add_node(1, 7), Ok(()));
    assert_eq!(graph.add_node(2, 7), Err(GraphError::DuplicateNodeId));
    assert_eq!(graph.count_nodes(), 1);
    assert_eq!(graph.latest_time(), Some(1));
}

#[test]
fn edge_needs_both_endpoints() {
    let mut graph = Graph::new();
    graph.add_node(1, 1).unwrap();
    assert_eq!(graph.add_edge(2, 1, 2), Err(GraphError::MissingEndpoint));
    assert_eq!(graph.add_edge(2, 2, 1), Err(GraphError::MissingEndpoint));
    assert_eq!(graph.count_edges(), 0);
    graph.add_node(2, 2).unwrap();
    assert_eq!(graph.add_edge(3, 1, 2), Ok(()));
    assert_eq!(graph.count_edges(), 1);
    assert_eq!(graph.edge_endpoints(), vec![(1, 2)]);
    assert_eq!(graph.latest_time(), Some(3));
}

#[test]
fn latest_time_tracks_maximum() {
    let mut graph = Graph::new();
    assert_eq!(graph.latest_time(), None);
    graph.add_node(10, 1).unwrap();
    graph.add_node(4, 2).unwrap();
    assert_eq!(graph.latest_time(), Some(10));
    graph.add_edge(12, 1, 2).unwrap();
    assert_eq!(graph.latest_time(), Some(12));
}

#[test]
fn probability_units() {
    assert_eq!(Probability::never().units, 0);
    assert_eq!(Probability::always().units, PROB_ONE);
    assert_eq!(PROB_ONE, 1u64 << 53);
    assert_eq!(Probability::from_units(17).units, 17);
}
