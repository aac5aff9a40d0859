use pow::ds::simple_graph::SimpleGraph;
use pow::graph::Graph;

#[test]
fn graph_test_graph_new() {
    let g: Graph<String> = Graph::new();
    assert_eq!(g.len(), 0);
    assert!(g.is_empty());
}

#[test]
fn simple_graph_test_graph_new() {
    let g: SimpleGraph<String> = SimpleGraph::new();
    assert_eq!(g.len(), 0);
    assert!(g.is_empty());
}

#[test]
fn an_empty_graph_as_text() {
    let g: Graph<String> = Graph::new();
    assert_eq!(g.to_string(), "Graph: empty");
    assert_eq!(g.max_key(), 0);
    assert!(!g.contains(0));
}

#[test]
fn vertices_edges_and_text() {
    let grown = |index: usize| (index as f32 * 1.3) as usize + 2;
    let mut g: Graph<String> = Graph::new();
    g.insert_value(3, "Changfeng Lou".to_string(), grown(3));
    assert_eq!(g.matrix.len(), 5);
    assert!(g.matrix.iter().all(|row| row.len() == 5));
    g.connect_edge(0, 5, 2, grown(0), grown(5));
    assert_eq!(g.len(), 3);
    assert!(g.contains(0) && g.contains(3) && g.contains(5));
    assert_eq!(g.max_key(), 5);
    assert_eq!(g.matrix.len(), 8);
    assert_eq!(g.matrix[0][5], Some(2));
    assert_eq!(g.matrix[5][0], Some(2));
    assert_eq!(g.nodes[&3], Some("Changfeng Lou".to_string()));
    assert_eq!(g.nodes[&0], None);
    let expected = "  0 1 2 3 4 5 \n\
                    0 . . . . . 2 \n\
                    1 . . . . . . \n\
                    2 . . . . . . \n\
                    3 . . . . . . \n\
                    4 . . . . . . \n\
                    5 2 . . . . . ";
    assert_eq!(g.to_string(), expected);
}

#[test]
fn the_matrix_grows_only_for_a_graph_that_is_not_larger_than_the_index() {
    let mut g: Graph<u8> = Graph::new();
    assert!(g.may_expand(0, 2));
    assert_eq!(g.matrix, vec![vec![None, None], vec![None, None]]);
    g.insert_none(0, 2);
    g.insert_none(1, 3);
    assert_eq!(g.matrix.len(), 3);
    assert!(!g.may_expand(1, 9));
    assert_eq!(g.matrix.len(), 3);
    g.insert_value(1, 7, 9);
    assert_eq!(g.nodes[&1], Some(7));
    assert_eq!(g.len(), 2);
}

#[test]
fn removing_a_vertex_unlinks_it_below_the_largest_index() {
    let grown = |index: usize| (index as f32 * 1.3) as usize + 2;
    let mut g: Graph<u8> = Graph::new();
    g.connect_edge(0, 1, 4, grown(0), grown(1));
    g.connect_edge(1, 2, 5, grown(1), grown(2));
    g.connect_edge(1, 3, 6, grown(1), grown(3));
    assert!(!g.remove(9));
    assert!(g.remove(1));
    assert!(!g.contains(1));
    assert_eq!(g.max_key(), 3);
    assert_eq!(g.matrix[0][1], None);
    assert_eq!(g.matrix[1][0], None);
    assert_eq!(g.matrix[2][1], None);
    // The edge to the vertex with the largest index stays in the matrix.
    assert_eq!(g.matrix[3][1], Some(6));
    assert_eq!(g.matrix[1][3], Some(6));
    assert!(!g.remove(1));
}
