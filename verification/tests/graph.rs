use orbit::graph::{Graph, GraphError};

fn graph_of(nodes: usize, edges: &[(usize, usize)]) -> Graph {
    let mut g = Graph::new();
    for i in 0..nodes {
        assert_eq!(g.add_node(), Some(i));
    }
    for (from, to) in edges {
        assert!(g.add_edge(*from, *to));
    }
    g
}

#[test]
fn new_graph_is_empty() {
    let g = Graph::new();
    assert_eq!(g.node_count(), 0);
    assert_eq!(g.edge_count(), 0);
}

#[test]
fn add_edge_refuses_missing_nodes() {
    let mut g = graph_of(2, &[]);
    assert!(!g.add_edge(0, 2));
    assert!(!g.add_edge(5, 1));
    assert_eq!(g.edge_count(), 0);
    assert!(g.add_edge(0, 1));
    assert_eq!(g.edge_count(), 1);
    assert!(g.has_edge(0, 1));
    assert!(!g.has_edge(1, 0));
}

#[test]
fn neighbours_are_distinct_and_ascending() {
    let g = graph_of(4, &[(2, 3), (0, 3), (2, 3), (0, 1), (0, 2)]);
    assert_eq!(g.predecessors(3), vec![0, 2]);
    assert_eq!(g.successors(0), vec![1, 2, 3]);
    assert_eq!(g.in_degree(3), 2);
    assert_eq!(g.out_degree(0), 3);
    assert_eq!(g.in_degree(0), 0);
    assert_eq!(g.out_degree(3), 0);
}

#[test]
fn ancestors_of_a_node() {
    let g = graph_of(5, &[(0, 1), (1, 2), (3, 2), (2, 4)]);
    assert_eq!(g.ancestors(2), vec![true, true, true, true, false]);
    assert_eq!(g.ancestors(1), vec![true, true, false, false, false]);
    assert_eq!(g.ancestors(0), vec![true, false, false, false, false]);
}

#[test]
fn sort_lists_chain_in_order() {
    let g = graph_of(3, &[(2, 1), (1, 0)]);
    assert_eq!(g.minimal_topological_sort(0), Ok(vec![2, 1, 0]));
    assert_eq!(g.minimal_topological_sort(1), Ok(vec![2, 1]));
    assert_eq!(g.minimal_topological_sort(2), Ok(vec![2]));
}

#[test]
fn sort_leaves_out_what_the_root_does_not_need() {
    // 0 -> 1 -> 4, 2 -> 3; 4 does not need 2 and 3
    let g = graph_of(5, &[(0, 1), (1, 4), (2, 3)]);
    assert_eq!(g.minimal_topological_sort(4), Ok(vec![0, 1, 4]));
    assert_eq!(g.minimal_topological_sort(3), Ok(vec![2, 3]));
}

#[test]
fn sort_breaks_ties_by_index() {
    // 3 and 1 and 2 are all free at the start; 0 needs all of them
    let g = graph_of(4, &[(3, 0), (1, 0), (2, 0)]);
    assert_eq!(g.minimal_topological_sort(0), Ok(vec![1, 2, 3, 0]));
    // a diamond: 4 -> 2 -> 1, 4 -> 3 -> 1
    let g = graph_of(5, &[(4, 2), (4, 3), (2, 1), (3, 1)]);
    assert_eq!(g.minimal_topological_sort(1), Ok(vec![4, 2, 3, 1]));
}

#[test]
fn sort_takes_parallel_edges_as_one() {
    let g = graph_of(2, &[(0, 1), (0, 1), (0, 1)]);
    assert_eq!(g.minimal_topological_sort(1), Ok(vec![0, 1]));
}

#[test]
fn sort_fails_on_a_cycle() {
    let g = graph_of(3, &[(0, 1), (1, 0), (1, 2)]);
    assert_eq!(g.minimal_topological_sort(2), Err(GraphError::CyclicDesign));
    assert_eq!(g.minimal_topological_sort(0), Err(GraphError::CyclicDesign));
}

#[test]
fn sort_fails_on_a_loop_at_one_node() {
    let g = graph_of(2, &[(0, 0), (0, 1)]);
    assert_eq!(g.minimal_topological_sort(1), Err(GraphError::CyclicDesign));
}

#[test]
fn sort_passes_by_a_cycle_that_the_root_does_not_need() {
    let g = graph_of(4, &[(0, 1), (2, 3), (3, 2)]);
    assert_eq!(g.minimal_topological_sort(1), Ok(vec![0, 1]));
}
