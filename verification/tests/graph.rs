use agent_rotary::engine::edge::Edge;
use agent_rotary::engine::graph::{can_reach_exit, unknown_sources, unknown_targets};
use agent_rotary::engine::node::Node;
use agent_rotary::table::Table;

fn adjacency(edges: &[(&str, &[&str])]) -> Table<Vec<Edge<()>>> {
    let mut t = Table::new();
    for (from, tos) in edges {
        let list: Vec<Edge<()>> = tos.iter().map(|to| Edge::direct(to.to_string())).collect();
        t.insert(from.to_string(), list);
    }
    t
}

fn nodes(ids: &[&str]) -> Table<Node<()>> {
    let mut t = Table::new();
    for id in ids {
        t.insert(id.to_string(), Node::new(id.to_string(), (), "m".to_string(), "p".to_string(), None));
    }
    t
}

#[test]
fn exit_reachable_along_a_chain() {
    let adj = adjacency(&[("a", &["b"]), ("b", &["c"]), ("c", &["exit"])]);
    assert!(can_reach_exit("a", &adj));
    assert!(can_reach_exit("exit", &adj));
}

#[test]
fn exit_unreachable_from_a_closed_cycle() {
    let adj = adjacency(&[("a", &["b"]), ("b", &["a"]), ("c", &["exit"])]);
    assert!(!can_reach_exit("a", &adj));
    assert!(can_reach_exit("c", &adj));
    assert!(!can_reach_exit("nowhere", &adj));
}

#[test]
fn exit_reachable_through_a_loop_and_a_branch() {
    let adj = adjacency(&[("plan", &["code"]), ("code", &["grade"]), ("grade", &["code", "exit"])]);
    assert!(can_reach_exit("plan", &adj));
}

#[test]
fn unknown_targets_lists_dangling_edges_in_order() {
    let n = nodes(&["a", "b"]);
    let adj = adjacency(&[("a", &["b", "zz", "exit"]), ("q", &["a", "yy"])]);
    let u = unknown_targets(&n, &adj);
    assert_eq!(u, vec![("a".to_string(), "zz".to_string()), ("q".to_string(), "yy".to_string())]);
    let ok = adjacency(&[("a", &["b", "exit"])]);
    assert!(unknown_targets(&n, &ok).is_empty());
}

#[test]
fn unknown_sources_lists_sources_without_a_node() {
    let n = nodes(&["a"]);
    let adj = adjacency(&[("a", &["exit"]), ("ghost", &["a"]), ("other", &[])]);
    assert_eq!(unknown_sources(&n, &adj), vec!["ghost".to_string(), "other".to_string()]);
}

#[test]
fn table_insert_keeps_first_position_and_returns_the_old_value() {
    let mut t: Table<i32> = Table::new();
    assert_eq!(t.insert("x".to_string(), 1), None);
    assert_eq!(t.insert("y".to_string(), 2), None);
    assert_eq!(t.insert("x".to_string(), 3), Some(1));
    assert_eq!(t.get("x"), Some(&3));
    assert!(t.contains_key("y"));
    assert!(!t.contains_key("z"));
    let keys: Vec<&str> = t.entries().iter().map(|(k, _)| k.as_str()).collect();
    assert_eq!(keys, vec!["x", "y"]);
    assert_eq!(t.len(), 2);
}
