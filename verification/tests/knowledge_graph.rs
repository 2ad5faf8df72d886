use sam_toolkit::knowledge_graph::{edge_key, Graph};

#[test]
fn add_assigns_fresh_ids_even_after_deletes() {
    let mut graph = Graph::default();
    let a = graph.add_node("a".to_string());
    let b = graph.add_node("b".to_string());
    graph.remove_node(a);
    let c = graph.add_node("c".to_string());
    assert_eq!((a, b, c), (0, 1, 2));
}

#[test]
fn toggle_edge_is_undirected_and_normalized() {
    let mut graph = Graph::default();
    let a = graph.add_node("a".to_string());
    let b = graph.add_node("b".to_string());
    assert!(graph.toggle_edge(b, a));
    assert!(graph.is_linked(a, b));
    assert_eq!(graph.edges, vec![(a, b)]);
    // Toggling from the other direction removes the same edge.
    assert!(!graph.toggle_edge(a, b));
    assert!(graph.edges.is_empty());
    // Self-loops are rejected.
    assert!(!graph.toggle_edge(a, a));
    assert!(graph.edges.is_empty());
}

#[test]
fn remove_node_drops_incident_edges() {
    let mut graph = Graph::default();
    let a = graph.add_node("a".to_string());
    let b = graph.add_node("b".to_string());
    let c = graph.add_node("c".to_string());
    graph.toggle_edge(a, b);
    graph.toggle_edge(b, c);
    graph.toggle_edge(a, c);
    graph.remove_node(b);
    assert_eq!(graph.edges, vec![(a, c)]);
    assert_eq!(graph.neighbors(a), vec![c]);
    assert_eq!(graph.degree(c), 1);
}

#[test]
fn node_mut_edits_the_first_matching_node() {
    let mut graph = Graph::default();
    let a = graph.add_node("Rust".to_string());
    graph.add_node("TUI".to_string());
    graph.node_mut(a).unwrap().markdown = "# Notes\n".to_string();
    assert_eq!(graph.nodes[0].markdown, "# Notes\n");
    assert_eq!(graph.nodes[1].markdown, "");
    assert!(graph.node_mut(7).is_none());
    assert_eq!(graph.node_index(1), Some(1));
}

#[test]
fn toggling_twice_restores_the_links() {
    let mut graph = Graph::default();
    let a = graph.add_node("a".to_string());
    let b = graph.add_node("b".to_string());
    let c = graph.add_node("c".to_string());
    graph.toggle_edge(a, b);
    graph.toggle_edge(b, c);
    assert!(!graph.toggle_edge(b, a));
    assert!(graph.toggle_edge(a, b));
    let mut edges = graph.edges.clone();
    edges.sort();
    assert_eq!(edges, vec![(a, b), (b, c)]);
    assert_eq!(edge_key(5, 2), (2, 5));
    assert!(graph.is_linked(c, b));
    assert!(!graph.is_linked(a, c));
}

#[test]
fn neighbors_follow_edge_order() {
    let mut graph = Graph::default();
    for name in ["a", "b", "c", "d"] {
        graph.add_node(name.to_string());
    }
    graph.toggle_edge(2, 0);
    graph.toggle_edge(1, 2);
    graph.toggle_edge(3, 2);
    assert_eq!(graph.neighbors(2), vec![0, 1, 3]);
    assert_eq!(graph.degree(2), 3);
    assert_eq!(graph.degree(9), 0);
}

#[test]
fn toggling_one_pair_leaves_other_edges_alone() {
    let mut graph = Graph::default();
    let a = graph.add_node("a".to_string());
    let b = graph.add_node("b".to_string());
    let c = graph.add_node("c".to_string());
    assert!(graph.toggle_edge(a, c));
    assert!(graph.toggle_edge(c, b));
    assert!(!graph.toggle_edge(c, a));
    assert_eq!(graph.edges, vec![(b, c)]);
    // A list that holds the pair once and others around it.
    graph.edges = vec![(a, b), (b, c)];
    assert!(!graph.toggle_edge(b, a));
    assert!(!graph.is_linked(a, b));
    assert!(graph.is_linked(b, c));
}
