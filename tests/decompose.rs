use odb_poly_decomp::active::ActiveEdges;
use odb_poly_decomp::decomposer::{DecompErr, Decomposer};
use odb_poly_decomp::edge::EdgeId;
use odb_poly_decomp::edge_scans::{EdgeScans, ScanResult};
use odb_poly_decomp::geometry::Geometry;
use odb_poly_decomp::point::{Point, Side};
use odb_poly_decomp::rect::Rect;

fn pts(list: &[(isize, isize)]) -> Vec<Point> {
    list.iter().map(|&(x, y)| Point::new(x, y)).collect()
}

fn rect(a: (isize, isize), b: (isize, isize)) -> Rect {
    Rect::new(Point::new(a.0, a.1), Point::new(b.0, b.1))
}

#[test]
fn a_rectangle_comes_back_whole() {
    let r = Decomposer::decompose(pts(&[(0, 0), (0, 4), (3, 4), (3, 0)]));
    assert_eq!(r, Ok(vec![rect((0, 0), (3, 4))]));
}

// The right wall from (2,2) down to (2,0) is split on the scanline y = 1,
// and the part below the scanline gives the first rectangle its corner
// (2,1): the two rectangles cover the L without overlap, area 2 + 1.
#[test]
fn l_shape_from_the_lower_left_corner_upwards() {
    let r = Decomposer::decompose(pts(&[(0, 0), (0, 1), (1, 1), (1, 2), (2, 2), (2, 0)]));
    assert_eq!(r, Ok(vec![rect((0, 0), (2, 1)), rect((1, 1), (2, 2))]));
}

// The left wall from (0,0) up to (0,2) is split on the scanline y = 1; its
// part below the scanline starts at (0,0), which becomes the first corner.
#[test]
fn l_shape_with_a_split_left_wall() {
    let r = Decomposer::decompose(pts(&[(0, 0), (0, 2), (1, 2), (1, 1), (2, 1), (2, 0)]));
    assert_eq!(r, Ok(vec![rect((0, 0), (2, 1)), rect((0, 1), (1, 2))]));
}

// This walk runs counter-clockwise, against the clockwise order the sweep
// assumes: every left wall sits right of all right walls on its scanline,
// so no pair is ever found.
#[test]
fn l_shape_from_the_lower_left_corner_rightwards() {
    let r = Decomposer::decompose(pts(&[(0, 0), (2, 0), (2, 2), (1, 2), (1, 1), (0, 1)]));
    assert_eq!(r, Ok(Vec::new()));
}

#[test]
fn three_points_are_already_simple() {
    let r = Decomposer::decompose(pts(&[(0, 0), (0, 1), (1, 1)]));
    assert_eq!(r, Err(DecompErr::IsAlreadySimple));
}

#[test]
fn two_points_are_not_enough() {
    assert_eq!(Decomposer::decompose(pts(&[(0, 0), (0, 1)])), Err(DecompErr::NotEnoughPoints));
    assert_eq!(Decomposer::decompose(Vec::new()), Err(DecompErr::NotEnoughPoints));
}

fn l_shape() -> Geometry {
    Geometry::new(pts(&[(0, 0), (0, 1), (1, 1), (1, 2), (2, 2), (2, 0)])).ok().unwrap()
}

fn empty_scans() -> EdgeScans {
    EdgeScans { le: None, re: None, lc: None, rc: None }
}

#[test]
fn a_pass_without_a_left_wall_ends() {
    let mut g = l_shape();
    let ids = vec![EdgeId::new(0), EdgeId::new(2)];
    let mut edges = ActiveEdges::from_items(ids);
    let r = empty_scans().scan_and_split(&mut g, &mut edges, 0);
    assert!(matches!(r, ScanResult::ReturnRects));
    assert_eq!(edges.cursor(), 2);
}

#[test]
fn a_pass_pairs_walls_and_splits_the_crossed_one() {
    let mut g = l_shape();
    let ids = vec![EdgeId::new(0), EdgeId::new(0), EdgeId::new(1), EdgeId::new(2)];
    let mut edges = ActiveEdges::from_items(ids);
    let found = empty_scans().scan_for_edges(&mut edges, 1, &g);
    match found {
        ScanResult::ContinueSplit(s) => {
            assert_eq!(s.le().id, EdgeId::new(0));
            assert_eq!(s.re().id, EdgeId::new(2));
            assert_eq!(s.lc, Some(1));
            assert_eq!(s.rc, Some(4));
            assert_eq!(s.matches_edge(EdgeId::new(2)), Some(Side::Right));
            assert_eq!(s.matches_edge(EdgeId::new(1)), None);
            assert_eq!(s.matches_cursor(1), Some(Side::Left));
            assert_eq!(s.matches_cursor(4), Some(Side::Right));
            assert_eq!(s.matches_cursor(2), None);
        }
        _ => panic!("expected a pair of walls"),
    }
    edges.reset_cursor();
    let r = empty_scans().scan_and_split(&mut g, &mut edges, 1);
    assert!(matches!(r, ScanResult::NewRect(x) if x == rect((0, 0), (2, 1))));
    assert_eq!(g.len_nodes(), 7);
    assert_eq!(edges.cursor(), 4);
}
