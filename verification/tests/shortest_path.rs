use std::collections::HashMap;

use hostbridge::graph::Graph;

#[test]
fn test_distance_to_self() {
    let g = Graph::new(1);
    let path_lengths = g.single_source_shortest_path_length(0, None);
    assert_eq!(0, path_lengths[&0]);
}

#[test]
fn test_only_reaches_self_when_disconnected() {
    let g = Graph::new(10);
    let path_lengths = g.single_source_shortest_path_length(0, None);
    assert!(path_lengths.contains_key(&0));
    assert_eq!(1, path_lengths.len());
}

#[test]
fn test_small() {
    let mut g = Graph::new(4);
    g.add_edge(0, 1).unwrap();
    g.add_edge(1, 2).unwrap();
    g.add_edge(2, 3).unwrap();
    g.add_edge(0, 3).unwrap();

    let path_lengths = g.single_source_shortest_path_length(0, None);
    let target: HashMap<usize, u32> = [(0, 0), (1, 1), (2, 2), (3, 1)].iter().cloned().collect();
    assert_eq!(target, path_lengths);
}

fn chain() -> Graph {
    let mut graph = Graph::new(4);
    graph.add_edge(0, 1).unwrap();
    graph.add_edge(1, 2).unwrap();
    graph.add_edge(2, 3).unwrap();
    graph
}

#[test]
fn test_chain_without_cutoff() {
    let shortest_paths = chain().single_source_shortest_path_length(0, None);
    assert_eq!(3, shortest_paths[&3]);
    assert_eq!(4, shortest_paths.len());
}

#[test]
fn test_chain_with_cutoff() {
    let shortest_paths = chain().single_source_shortest_path_length(0, Some(2));
    assert!(!shortest_paths.contains_key(&3));
    let target: HashMap<usize, u32> = [(0, 0), (1, 1), (2, 2)].iter().cloned().collect();
    assert_eq!(target, shortest_paths);
}

#[test]
fn test_cutoff_at_exact_distance_keeps_node() {
    let shortest_paths = chain().single_source_shortest_path_length(0, Some(3));
    assert_eq!(Some(&3), shortest_paths.get(&3));
}

#[test]
fn test_cutoff_zero_reports_source_alone() {
    let shortest_paths = chain().single_source_shortest_path_length(1, Some(0));
    let target: HashMap<usize, u32> = [(1, 0)].iter().cloned().collect();
    assert_eq!(target, shortest_paths);
}

#[test]
fn test_cutoff_zero_with_source_outside_graph() {
    let shortest_paths = Graph::new(0).single_source_shortest_path_length(7, Some(0));
    let target: HashMap<usize, u32> = [(7, 0)].iter().cloned().collect();
    assert_eq!(target, shortest_paths);
}

#[test]
fn test_edges_are_directed() {
    let shortest_paths = chain().single_source_shortest_path_length(2, None);
    let target: HashMap<usize, u32> = [(2, 0), (3, 1)].iter().cloned().collect();
    assert_eq!(target, shortest_paths);
}

#[test]
fn test_shorter_of_two_routes_wins() {
    let mut graph = Graph::new(6);
    graph.add_edges(vec![(0, 1), (1, 2), (2, 3), (3, 4), (0, 5), (5, 4), (4, 0)]).unwrap();
    let shortest_paths = graph.single_source_shortest_path_length(0, None);
    let target: HashMap<usize, u32> =
        [(0, 0), (1, 1), (2, 2), (3, 3), (4, 2), (5, 1)].iter().cloned().collect();
    assert_eq!(target, shortest_paths);
}

#[test]
fn test_self_loops_and_parallel_edges() {
    let mut graph = Graph::new(3);
    graph.add_edges(vec![(0, 0), (0, 1), (0, 1), (1, 1), (1, 2)]).unwrap();
    let shortest_paths = graph.single_source_shortest_path_length(0, None);
    let target: HashMap<usize, u32> = [(0, 0), (1, 1), (2, 2)].iter().cloned().collect();
    assert_eq!(target, shortest_paths);
}

#[test]
fn test_fully_connected_distances() {
    let graph = Graph::fully_connected(5);
    let shortest_paths = graph.single_source_shortest_path_length(3, None);
    let target: HashMap<usize, u32> =
        [(0, 1), (1, 1), (2, 1), (3, 0), (4, 1)].iter().cloned().collect();
    assert_eq!(target, shortest_paths);
}
