use odb_poly_decomp::active::{ActiveEdges, ActiveNodes};
use odb_poly_decomp::edge::EdgeId;
use odb_poly_decomp::geometry::Geometry;
use odb_poly_decomp::node::NodeId;
use odb_poly_decomp::point::Point;

fn l_shape() -> Geometry {
    let points = [(0, 0), (0, 1), (1, 1), (1, 2), (2, 2), (2, 0)]
        .iter()
        .map(|&(x, y)| Point::new(x, y))
        .collect();
    Geometry::new(points).ok().unwrap()
}

fn ids(v: &[usize]) -> Vec<NodeId> {
    v.iter().map(|&i| NodeId::new(i)).collect()
}

fn eids(v: &[usize]) -> Vec<EdgeId> {
    v.iter().map(|&i| EdgeId::new(i)).collect()
}

#[test]
fn nodes_sort_into_scan_order() {
    let g = l_shape();
    let mut nodes = ActiveNodes::with_capacity(6);
    for i in 0..6 {
        nodes.insert(NodeId::new(i));
    }
    nodes.sort(&g);
    assert_eq!(nodes.items(), &ids(&[0, 5, 1, 2, 3, 4]));
    assert_eq!(nodes.cursor(), 0);
    assert_eq!(nodes.scanline(&g), Some(0));
}

#[test]
fn nodes_at_one_point_keep_their_order() {
    let points = [(0, 0), (0, 2), (2, 2), (2, 0), (0, 0)]
        .iter()
        .map(|&(x, y)| Point::new(x, y))
        .collect();
    let g = Geometry::new(points).ok().unwrap();
    let mut nodes = ActiveNodes::from_items(ids(&[4, 2, 0, 1, 3]));
    nodes.sort(&g);
    assert_eq!(nodes.items(), &ids(&[0, 4, 3, 1, 2]));
}

#[test]
fn next_if_consumes_only_what_matches() {
    let g = l_shape();
    let mut nodes = ActiveNodes::from_items(ids(&[0, 5, 1]));
    let on_zero = |id: NodeId| g.node(id).y() == 0;
    assert_eq!(nodes.next_if(on_zero), Some(NodeId::new(0)));
    assert_eq!(nodes.next_if(on_zero), Some(NodeId::new(5)));
    assert_eq!(nodes.next_if(on_zero), None);
    assert_eq!(nodes.cursor(), 2);
    assert_eq!(nodes.scanline(&g), Some(1));
    assert!(!nodes.finished());
    assert_eq!(nodes.next(), Some(NodeId::new(1)));
    assert!(nodes.finished());
    assert_eq!(nodes.next(), None);
    assert_eq!(nodes.peek(), None);
    assert_eq!(nodes.scanline(&g), None);
    assert_eq!(nodes.peek_at(1), Some(NodeId::new(5)));
    nodes.reset_cursor();
    assert_eq!(nodes.peek(), Some(NodeId::new(0)));
    nodes.increment();
    nodes.set_cursor(nodes.cursor() + 1);
    assert_eq!(nodes.peek(), Some(NodeId::new(1)));
    assert_eq!(nodes.len(), 3);
    assert!(!nodes.is_empty());
}

#[test]
fn edges_insert_in_order_of_source_x() {
    let g = l_shape();
    let mut edges = ActiveEdges::with_capacity(4);
    edges.insert(&g, EdgeId::new(2));
    assert_eq!(edges.cursor(), 0);
    edges.insert(&g, EdgeId::new(0));
    assert_eq!(edges.items(), &eids(&[0, 2]));
    assert_eq!(edges.cursor(), 1);
    edges.insert(&g, EdgeId::new(1));
    assert_eq!(edges.items(), &eids(&[0, 1, 2]));
    assert_eq!(edges.cursor(), 2);
    edges.insert(&g, EdgeId::new(2));
    assert_eq!(edges.items(), &eids(&[0, 1, 2, 2]));
    assert_eq!(edges.cursor(), 3);
}

#[test]
fn equal_sources_go_after_the_existing_ones() {
    let g = l_shape();
    let mut edges = ActiveEdges::from_items(eids(&[0, 2]));
    edges.insert(&g, EdgeId::new(0));
    assert_eq!(edges.items(), &eids(&[0, 0, 2]));
    assert_eq!(edges.cursor(), 2);
}

#[test]
fn insert_searches_only_from_the_cursor() {
    let g = l_shape();
    let mut edges = ActiveEdges::from_items(eids(&[2]));
    edges.set_cursor(1);
    edges.insert(&g, EdgeId::new(0));
    assert_eq!(edges.items(), &eids(&[2, 0]));
}

#[test]
fn insert_edges_takes_the_present_slots() {
    let g = l_shape();
    let mut edges = ActiveEdges::with_capacity(4);
    edges.insert_edges(&g, None, Some(EdgeId::new(1)));
    edges.maybe_insert(&g, None);
    assert_eq!(edges.items(), &eids(&[1]));
    edges.reset_cursor();
    edges.insert_edges(&g, Some(EdgeId::new(0)), Some(EdgeId::new(2)));
    assert_eq!(edges.items(), &eids(&[0, 1, 2]));
}

#[test]
fn retain_if_keeps_survivors_in_order() {
    let g = l_shape();
    let mut edges = ActiveEdges::from_items(eids(&[0, 0, 1, 2]));
    edges.set_cursor(3);
    edges.retain_if(|id: EdgeId| g.edge(id).contains_scanline(&g, 2));
    assert_eq!(edges.items(), &eids(&[1, 2]));
    assert_eq!(edges.cursor(), 3);
}
