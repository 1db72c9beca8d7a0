use monet::{Graph, RouteId};

#[test]
fn graph_inserts_and_matches() {
    let mut g = Graph::new();
    assert!(g.insert("/a/{x}", RouteId(0)).is_ok());
    assert!(g.insert("/b", RouteId(1)).is_ok());
    assert_eq!(g.len(), 2);
    assert_eq!(g.route_id("/b"), Some(RouteId(1)));
    assert_eq!(g.route_id("/a/{x}"), Some(RouteId(0)));
    assert_eq!(g.route_id("/c"), None);
    assert_eq!(g.path_of(RouteId(0)), "/a/{x}");
    let (id, params) = g.at("/a/5").unwrap();
    assert_eq!(id, RouteId(0));
    assert_eq!(params, vec![("x".to_string(), "5".to_string())]);
    assert!(g.at("/a").is_none());
    assert_eq!(g.at("/b").map(|(id, _)| id), Some(RouteId(1)));
}

#[test]
fn graph_refuses_conflicts_and_bad_templates() {
    let mut g = Graph::new();
    assert!(g.insert("/x/{id}", RouteId(0)).is_ok());
    let mut h = Graph::new();
    assert!(h.insert("/x/{id", RouteId(0)).is_err());
    assert!(g.insert("/x/{other}", RouteId(1)).is_err());
}
