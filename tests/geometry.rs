use odb_poly_decomp::decomposer::DecompErr;
use odb_poly_decomp::edge::{Containment, Edge, EdgeId};
use odb_poly_decomp::geometry::{GeometricId, Geometry};
use odb_poly_decomp::node::NodeId;
use odb_poly_decomp::point::{Point, Side};

fn pts(list: &[(isize, isize)]) -> Vec<Point> {
    list.iter().map(|&(x, y)| Point::new(x, y)).collect()
}

fn l_shape() -> Geometry {
    Geometry::new(pts(&[(0, 0), (0, 1), (1, 1), (1, 2), (2, 2), (2, 0)])).ok().unwrap()
}

fn edge(i: usize, s: usize, t: usize, side: Side) -> Edge {
    Edge::new(EdgeId::new(i), NodeId::new(s), NodeId::new(t), side)
}

#[test]
fn new_builds_one_edge_per_vertical_step() {
    let g = l_shape();
    assert_eq!(g.len_nodes(), 6);
    assert_eq!(g.len_edges(), 3);
    assert_eq!(g.edge(EdgeId::new(0)), edge(0, 0, 1, Side::Left));
    assert_eq!(g.edge(EdgeId::new(1)), edge(1, 2, 3, Side::Left));
    assert_eq!(g.edge(EdgeId::new(2)), edge(2, 4, 5, Side::Right));
    let n4 = g.node(NodeId::new(4));
    assert_eq!(n4.point, Point::new(2, 2));
    assert_eq!(n4.id(), NodeId::new(4));
    assert_eq!(n4.out_edge(), Some(EdgeId::new(2)));
    assert_eq!(n4.inc_edge(), None);
    assert_eq!(g.node(NodeId::new(5)).inc_edge(), Some(EdgeId::new(2)));
    assert_eq!(g.node(NodeId::new(0)).inc_edge(), None);
    assert_eq!(g.node(NodeId::new(0)).out_edge(), Some(EdgeId::new(0)));
}

#[test]
fn the_closing_step_makes_an_edge_too() {
    let g = Geometry::new(pts(&[(0, 1), (3, 1), (3, 0), (0, 0)])).ok().unwrap();
    assert_eq!(g.len_edges(), 2);
    assert_eq!(g.edge(EdgeId::new(0)), edge(0, 1, 2, Side::Right));
    assert_eq!(g.edge(EdgeId::new(1)), edge(1, 3, 0, Side::Left));
    assert_eq!(g.node(NodeId::new(0)).inc_edge(), Some(EdgeId::new(1)));
}

#[test]
fn too_few_points_are_refused() {
    assert!(matches!(
        Geometry::new(pts(&[(0, 0), (0, 1), (1, 1)])),
        Err(DecompErr::IsAlreadySimple)
    ));
    assert!(matches!(Geometry::new(pts(&[(0, 0), (0, 1)])), Err(DecompErr::NotEnoughPoints)));
    assert!(matches!(Geometry::new(Vec::new()), Err(DecompErr::NotEnoughPoints)));
}

#[test]
fn edge_queries_read_the_end_points() {
    let g = l_shape();
    let e = g.edge(EdgeId::new(2));
    assert_eq!(e.src_x(&g), 2);
    assert_eq!(e.src_y(&g), 2);
    assert_eq!(e.tgt_y(&g), 0);
    assert_eq!(e.min_max_y(&g), (0, 2));
    assert_eq!(e.source(&g).point, Point::new(2, 2));
    assert_eq!(e.target(&g).point, Point::new(2, 0));
    assert!(e.contains_scanline(&g, 0));
    assert!(e.contains_scanline(&g, 2));
    assert!(!e.contains_scanline(&g, 3));
    assert!(e.scanline_strictly_inside(&g, 1));
    assert!(!e.scanline_strictly_inside(&g, 2));
    assert!(!e.holds_scanline(&g, 0, Containment::Strict));
    assert!(e.holds_scanline(&g, 0, Containment::Weak));
}

#[test]
fn splitting_a_right_edge_moves_its_target() {
    let mut g = l_shape();
    let kept = g.split_edge(EdgeId::new(2), 1);
    assert_eq!(kept, edge(2, 4, 6, Side::Right));
    assert_eq!(g.len_nodes(), 7);
    assert_eq!(g.len_edges(), 4);
    let n6 = g.node(NodeId::new(6));
    assert_eq!(n6.point, Point::new(2, 1));
    assert_eq!(n6.inc_edge(), Some(EdgeId::new(2)));
    assert_eq!(n6.out_edge(), Some(EdgeId::new(3)));
    assert_eq!(g.edge(EdgeId::new(3)), edge(3, 6, 5, Side::Right));
    assert_eq!(g.node(NodeId::new(5)).inc_edge(), Some(EdgeId::new(3)));
    assert_eq!(g.edge(EdgeId::new(2)), kept);
}

#[test]
fn splitting_a_left_edge_moves_its_source() {
    let mut g = Geometry::new(pts(&[(0, 0), (0, 4), (3, 4), (3, 0)])).ok().unwrap();
    let kept = g.split_edge(EdgeId::new(0), 2);
    assert_eq!(kept, edge(0, 4, 1, Side::Left));
    let n4 = g.node(NodeId::new(4));
    assert_eq!(n4.point, Point::new(0, 2));
    assert_eq!(n4.out_edge(), Some(EdgeId::new(0)));
    assert_eq!(n4.inc_edge(), Some(EdgeId::new(2)));
    assert_eq!(g.edge(EdgeId::new(2)), edge(2, 0, 4, Side::Left));
    assert_eq!(g.node(NodeId::new(0)).out_edge(), Some(EdgeId::new(2)));
}

#[test]
fn issued_ids_stay_valid_after_growth() {
    let mut g = l_shape();
    let before: Vec<Point> = (0..6).map(|i| g.node(NodeId::new(i)).point).collect();
    let n = g.new_node(Point::new(9, 9), None, None);
    assert_eq!(n, NodeId::new(6));
    assert_eq!(n.index(), 6);
    let m = g.new_node(Point::new(9, 12), None, None);
    let e = g.new_edge(n, m, Side::Left);
    assert_eq!(e.id(), EdgeId::new(3));
    assert_eq!(EdgeId::new(3).index(), 3);
    g.split_edge(EdgeId::new(0), 0);
    for i in 0..6 {
        assert_eq!(g.node(NodeId::new(i)).point, before[i]);
        assert_eq!(g.node(NodeId::new(i)).id, NodeId::new(i));
    }
    assert_eq!(g.node(n).out_edge(), Some(EdgeId::new(3)));
    assert_eq!(g.node(m).inc_edge(), Some(EdgeId::new(3)));
    assert_eq!(g.edge(EdgeId::new(3)).id, EdgeId::new(3));
}
