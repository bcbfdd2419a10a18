use vstd::prelude::*;

use crate::active::{all_edges_in, ActiveEdges};
use crate::edge::{Edge, EdgeId};
use crate::geometry::{Boundary, Geometry};
use crate::point::Side;
use crate::rect::Rect;

verus! {

/// The pairing state of one pass over the active edges: the candidate left
/// and right walls, and the cursor positions just past each.
#[derive(Clone, Copy, Debug, Default)]
pub struct EdgeScans {
    pub le: Option<Edge>,
    pub re: Option<Edge>,
    pub lc: Option<usize>,
    pub rc: Option<usize>,
}

/// What one step of the pairing machine came to.
#[derive(Clone, Copy, Debug)]
pub enum ScanResult {
    /// No further pair of walls on this scanline.
    ReturnRects,
    /// The walls found are not a pair; look again from the cursor.
    ContinueLoop(EdgeScans),
    /// The walls found so far, for the next phase of the step.
    ContinueSplit(EdgeScans),
    /// A rectangle between the two walls of a pair.
    NewRect(Rect),
}

/// Edge `id` can serve as a wall of kind `side` on scanline `s`: a left wall
/// must not start on the scanline, a right wall must not end on it.
pub open spec fn is_wall(b: Boundary, id: EdgeId, side: Side, s: int) -> bool {
    let e = b.edge(id);
    e.side == side && match side {
        Side::Left => b.node(e.source).point.y != s,
        Side::Right => b.node(e.target).point.y != s,
    }
}

/// The first position at or after `from` that holds a wall of kind `side`,
/// or the length of `items` if there is none.
pub open spec fn first_wall(b: Boundary, items: Seq<EdgeId>, from: int, side: Side, s: int) -> int
    decreases items.len() - from,
{
    if from >= items.len() {
        items.len() as int
    } else if is_wall(b, items[from], side, s) {
        from
    } else {
        first_wall(b, items, from + 1, side, s)
    }
}

/// The positions of the next left wall at or after the cursor and of the
/// next right wall after it, if both exist.
pub open spec fn walls(b: Boundary, items: Seq<EdgeId>, cursor: int, s: int) -> Option<(int, int)> {
    let p = first_wall(b, items, cursor, Side::Left, s);
    if p >= items.len() {
        None
    } else {
        let q = first_wall(b, items, p + 1, Side::Right, s);
        if q >= items.len() {
            None
        } else {
            Some((p, q))
        }
    }
}

/// The cursor once a search has run off the end.
pub open spec fn cursor_at_end(items: Seq<EdgeId>, cursor: int) -> int {
    if cursor <= items.len() {
        items.len() as int
    } else {
        cursor
    }
}

/// The rectangle between a left and a right wall: the corners are the two
/// walls' sources.
pub open spec fn rect_between(b: Boundary, le: Edge, re: Edge) -> Rect {
    Rect { left: b.node(le.source).point, right: b.node(re.source).point }
}

/// One step of the pairing machine on scanline `s`, from cursor `cursor`:
/// what it returns, the boundary after it, and where the cursor ends.
///
/// Failing to find a left wall, or a right wall after it, ends the pass on
/// this scanline. When both walls are crossed strictly by the scanline, the
/// left candidate moves to the edge after the left cursor; if that is where
/// the right cursor stands, the step starts over. Then the left candidate,
/// or else the right one, is split where the scanline crosses it strictly,
/// and the candidate becomes the new edge of the split, the part of the wall
/// below the scanline. The rectangle between the two candidates is returned:
/// it spans from the lower ends of the walls up to the scanline.
pub open spec fn scan_step(b: Boundary, items: Seq<EdgeId>, cursor: int, s: isize) -> (
    ScanResult,
    Boundary,
    int,
) {
    match walls(b, items, cursor, s as int) {
        None => (ScanResult::ReturnRects, b, cursor_at_end(items, cursor)),
        Some((p, q)) => {
            let le = b.edge(items[p]);
            let re = b.edge(items[q]);
            let both = b.strictly_contains(le, s as int) && b.strictly_contains(re, s as int);
            if both && p + 2 == q + 1 {
                (
                    ScanResult::ContinueLoop(
                        EdgeScans {
                            le: Some(le),
                            re: Some(re),
                            lc: Some((p + 2) as usize),
                            rc: Some((q + 1) as usize),
                        },
                    ),
                    b,
                    q + 1,
                )
            } else {
                let left = if both {
                    b.edge(items[p + 2])
                } else {
                    le
                };
                if b.strictly_contains(left, s as int) {
                    let after = b.split(left.id, s);
                    (ScanResult::NewRect(rect_between(after, after.edge(b.next_edge_id()), re)), after, q + 1)
                } else if b.strictly_contains(re, s as int) {
                    let after = b.split(re.id, s);
                    (ScanResult::NewRect(rect_between(after, left, after.edge(b.next_edge_id()))), after, q + 1)
                } else {
                    (ScanResult::NewRect(rect_between(b, left, re)), b, q + 1)
                }
            }
        },
    }
}

pub proof fn lemma_first_wall(b: Boundary, items: Seq<EdgeId>, from: int, side: Side, s: int)
    requires
        0 <= from,
    ensures
        ({
            let p = first_wall(b, items, from, side, s);
            &&& from <= items.len() ==> from <= p <= items.len()
            &&& from > items.len() ==> p == items.len()
            &&& p < items.len() ==> is_wall(b, items[p], side, s)
            &&& forall|k: int| from <= k < p ==> !is_wall(b, #[trigger] items[k], side, s)
        }),
    decreases items.len() - from,
{
    if from < items.len() && !is_wall(b, items[from], side, s) {
        lemma_first_wall(b, items, from + 1, side, s);
    }
}

/// A step that does not end the pass leaves the cursor further on than it
/// found it.
pub proof fn lemma_scan_step_advances(b: Boundary, items: Seq<EdgeId>, cursor: int, s: isize)
    requires
        0 <= cursor,
    ensures
        walls(b, items, cursor, s as int) matches Some((p, q)) ==> cursor <= p < q < items.len()
            && scan_step(b, items, cursor, s).2 == q + 1,
        !(scan_step(b, items, cursor, s).0 is ReturnRects) ==> scan_step(b, items, cursor, s).2
            > cursor,
        scan_step(b, items, cursor, s).0 is ReturnRects ==> scan_step(b, items, cursor, s).2
            == cursor_at_end(items, cursor),
{
    lemma_first_wall(b, items, cursor, Side::Left, s as int);
    let p = first_wall(b, items, cursor, Side::Left, s as int);
    if p < items.len() {
        lemma_first_wall(b, items, p + 1, Side::Right, s as int);
    }
}

impl EdgeScans {
    /// Which candidate, if any, is the edge `id`.
    pub fn matches_edge(&self, id: EdgeId) -> (r: Option<Side>)
        ensures
            r == if self.le is Some && self.le->0.id == id {
                Some(self.le->0.side)
            } else if self.re is Some && self.re->0.id == id {
                Some(self.re->0.side)
            } else {
                None
            },
    {
        if let Some(le) = self.le {
            if le.id == id {
                return Some(le.side);
            }
        }
        if let Some(re) = self.re {
            if re.id == id {
                return Some(re.side);
            }
        }
        None
    }

    /// Which candidate's cursor, if any, stands at `cursor`.
    pub fn matches_cursor(&self, cursor: usize) -> (r: Option<Side>)
        ensures
            r == if self.lc == Some(cursor) {
                Some(Side::Left)
            } else if self.rc == Some(cursor) {
                Some(Side::Right)
            } else {
                None
            },
    {
        if let Some(lc) = self.lc {
            if lc == cursor {
                return Some(Side::Left);
            }
        }
        if let Some(rc) = self.rc {
            if rc == cursor {
                return Some(Side::Right);
            }
        }
        None
    }

    /// The left candidate, which must have been found.
    pub fn le(&self) -> (e: Edge)
        requires
            self.le is Some,
        ensures
            e == self.le->0,
    {
        self.le.unwrap()
    }

    /// The right candidate, which must have been found.
    pub fn re(&self) -> (e: Edge)
        requires
            self.re is Some,
        ensures
            e == self.re->0,
    {
        self.re.unwrap()
    }

    fn continue_split(self) -> (r: ScanResult)
        ensures
            r == ScanResult::ContinueSplit(self),
    {
        ScanResult::ContinueSplit(self)
    }

    fn continue_loop(self) -> (r: ScanResult)
        ensures
            r == ScanResult::ContinueLoop(self),
    {
        ScanResult::ContinueLoop(self)
    }

    /// Looks for the two walls of the next pair, moving the cursor: first a
    /// left wall, then a right wall after it. If either is missing the pass
    /// on this scanline is over.
    pub fn scan_for_edges(self, active_edges: &mut ActiveEdges, scanline: isize, geometry: &Geometry) -> (r:
        ScanResult)
        requires
            geometry@.wf(),
            all_edges_in(geometry@, old(active_edges).items@),
        ensures
            final(active_edges).items@ == old(active_edges).items@,
            ({
                let b = geometry@;
                let items = old(active_edges).items@;
                match walls(b, items, old(active_edges).cursor as int, scanline as int) {
                    None => r is ReturnRects && final(active_edges).cursor == cursor_at_end(
                        items,
                        old(active_edges).cursor as int,
                    ),
                    Some((p, q)) => r == ScanResult::ContinueSplit(
                        EdgeScans {
                            le: Some(b.edge(items[p])),
                            re: Some(b.edge(items[q])),
                            lc: Some((p + 1) as usize),
                            rc: Some((q + 1) as usize),
                        },
                    ) && final(active_edges).cursor == q + 1,
                }
            }),
    {
        let mut scans = self;
        let ghost c0 = active_edges.cursor as int;
        proof {
            lemma_first_wall(geometry@, active_edges.items@, c0, Side::Left, scanline as int);
        }
        match find_wall(active_edges, geometry, scanline, Side::Left) {
            Some(le) => {
                scans.le = Some(le);
                scans.lc = Some(active_edges.cursor());
            },
            None => {
                return ScanResult::ReturnRects;
            },
        }
        match find_wall(active_edges, geometry, scanline, Side::Right) {
            Some(re) => {
                scans.re = Some(re);
                scans.rc = Some(active_edges.cursor());
            },
            None => {
                return ScanResult::ReturnRects;
            },
        }
        ScanResult::ContinueSplit(scans)
    }

    /// When the scanline crosses both candidate walls strictly, they are not
    /// yet neighbours: the left cursor moves one place on, the step starts
    /// over if that is where the right cursor stands, and otherwise the edge
    /// there becomes the left candidate.
    fn check_both_splittable(self, geometry: &Geometry, active_edges: &ActiveEdges, scanline: isize) -> (r:
        ScanResult)
        requires
            geometry@.wf(),
            all_edges_in(geometry@, active_edges.items@),
            self.le is Some,
            self.re is Some,
            self.lc is Some,
            self.rc is Some,
            self.lc->0 < usize::MAX,
            geometry@.holds_ends(self.le->0),
            geometry@.holds_ends(self.re->0),
        ensures
            ({
                let b = geometry@;
                let both = b.strictly_contains(self.le->0, scanline as int) && b.strictly_contains(
                    self.re->0,
                    scanline as int,
                );
                let lc = (self.lc->0 + 1) as usize;
                &&& !both ==> r == ScanResult::ContinueSplit(self)
                &&& both && Some(lc) == self.rc ==> r == ScanResult::ContinueLoop(
                    EdgeScans { lc: Some(lc), ..self },
                )
                &&& both && Some(lc) != self.rc && lc < active_edges.items.len() ==> r
                    == ScanResult::ContinueSplit(
                    EdgeScans { lc: Some(lc), le: Some(b.edge(active_edges.items@[lc as int])), ..self },
                )
                &&& both && Some(lc) != self.rc && lc >= active_edges.items.len() ==> r
                    == ScanResult::ContinueSplit(EdgeScans { lc: Some(lc), ..self })
            }),
    {
        let mut scans = self;
        if scans.le().scanline_strictly_inside(geometry, scanline)
            && scans.re().scanline_strictly_inside(geometry, scanline) {
            let c = scans.lc.unwrap() + 1;
            scans.lc = Some(c);
            if c == scans.rc.unwrap() {
                return scans.continue_loop();
            } else if let Some(id) = active_edges.peek_at(c) {
                proof {
                    assert(geometry@.has_edge(active_edges.items@[c as int]));
                }
                scans.le = Some(geometry.edge(id));
            }
        }
        scans.continue_split()
    }

    /// One step of the pairing machine: find a pair of walls, settle which
    /// to use, split the one that the scanline crosses strictly, and return
    /// the rectangle between them. Never returns `ContinueSplit`.
    pub fn scan_and_split(self, geometry: &mut Geometry, active_edges: &mut ActiveEdges, scanline: isize) -> (r:
        ScanResult)
        requires
            old(geometry)@.wf(),
            all_edges_in(old(geometry)@, old(active_edges).items@),
        ensures
            (r, final(geometry)@, final(active_edges).cursor as int) == scan_step(
                old(geometry)@,
                old(active_edges).items@,
                old(active_edges).cursor as int,
                scanline,
            ),
            !(r is ContinueSplit),
            final(active_edges).items@ == old(active_edges).items@,
            final(geometry)@.wf(),
            final(geometry)@.extends(old(geometry)@),
            all_edges_in(final(geometry)@, final(active_edges).items@),
    {
        let ghost b = geometry@;
        let ghost items = active_edges.items@;
        let ghost c0 = active_edges.cursor as int;
        proof {
            lemma_scan_step_advances(b, items, c0, scanline);
        }
        let found = match self.scan_for_edges(active_edges, scanline, geometry) {
            ScanResult::ContinueSplit(s) => s,
            r => {
                return r;
            },
        };
        let ghost pq = walls(b, items, c0, scanline as int)->0;
        let ghost p = pq.0;
        let ghost q = pq.1;
        proof {
            assert(b.has_edge(items[p]));
            assert(b.has_edge(items[q]));
            assert(b.holds_ends(b.edges[items[p].index as int]));
            assert(b.holds_ends(b.edges[items[q].index as int]));
        }
        let mut pair = match found.check_both_splittable(geometry, active_edges, scanline) {
            ScanResult::ContinueSplit(s) => s,
            r => {
                return r;
            },
        };
        proof {
            if pair.le != found.le {
                assert(b.has_edge(items[p + 2]));
                assert(b.holds_ends(b.edges[items[p + 2].index as int]));
                assert(b.edges[items[p + 2].index as int].id == items[p + 2]);
            }
            assert(b.edges[items[p].index as int].id == items[p]);
            assert(b.edges[items[q].index as int].id == items[q]);
        }
        if pair.le().scanline_strictly_inside(geometry, scanline) {
            let below = EdgeId::new(geometry.len_edges());
            geometry.split_edge(pair.le().id(), scanline);
            pair.le = Some(geometry.edge(below));
        } else if pair.re().scanline_strictly_inside(geometry, scanline) {
            let below = EdgeId::new(geometry.len_edges());
            geometry.split_edge(pair.re().id(), scanline);
            pair.re = Some(geometry.edge(below));
        }
        proof {
            let g = geometry@;
            assert(g.holds_ends(g.edges[pair.le->0.id.index as int]));
            assert(g.holds_ends(g.edges[pair.re->0.id.index as int]));
            assert forall|i: int| 0 <= i < items.len() implies g.has_edge(#[trigger] items[i]) by {
                assert(b.has_edge(items[i]));
            }
        }
        ScanResult::NewRect(
            Rect::new(pair.le().source(geometry).point, pair.re().source(geometry).point),
        )
    }
}

/// Moves the cursor to just past the next wall of kind `side` and returns
/// that wall; without one, the cursor runs to the end.
fn find_wall(active_edges: &mut ActiveEdges, geometry: &Geometry, scanline: isize, side: Side) -> (r:
    Option<Edge>)
    requires
        geometry@.wf(),
        all_edges_in(geometry@, old(active_edges).items@),
    ensures
        final(active_edges).items@ == old(active_edges).items@,
        ({
            let items = old(active_edges).items@;
            let c = old(active_edges).cursor as int;
            let p = first_wall(geometry@, items, c, side, scanline as int);
            &&& p < items.len() ==> r == Some(geometry@.edge(items[p])) && final(active_edges).cursor
                == p + 1
            &&& p >= items.len() ==> r is None && final(active_edges).cursor == cursor_at_end(
                items,
                c,
            )
        }),
{
    let ghost b = geometry@;
    let ghost items = active_edges.items@;
    let ghost c0 = active_edges.cursor as int;
    let mut found: Option<Edge> = None;
    while found.is_none() && active_edges.cursor < active_edges.items.len()
        invariant
            b == geometry@,
            b.wf(),
            items == old(active_edges).items@,
            c0 == old(active_edges).cursor,
            active_edges.items@ == items,
            all_edges_in(b, items),
            c0 <= items.len() ==> c0 <= active_edges.cursor <= items.len(),
            c0 > items.len() ==> active_edges.cursor == c0,
            found is None ==> first_wall(b, items, c0, side, scanline as int) == first_wall(
                b,
                items,
                active_edges.cursor as int,
                side,
                scanline as int,
            ),
            found is Some ==> c0 <= items.len() && first_wall(b, items, c0, side, scanline as int)
                == active_edges.cursor - 1 && found == Some(b.edge(items[active_edges.cursor - 1])),
        decreases active_edges.items.len() - active_edges.cursor,
    {
        let id = active_edges.next().unwrap();
        proof {
            assert(b.has_edge(items[active_edges.cursor - 1]));
            assert(b.holds_ends(b.edges[id.index as int]));
        }
        let edge = geometry.edge(id);
        let on_wall = match side {
            Side::Left => edge.side == Side::Left && edge.src_y(geometry) != scanline,
            Side::Right => edge.side == Side::Right && edge.tgt_y(geometry) != scanline,
        };
        if on_wall {
            found = Some(edge);
        }
    }
    proof {
        if found is None {
            assert(first_wall(b, items, active_edges.cursor as int, side, scanline as int)
                == items.len());
        }
    }
    found
}

} // verus!
