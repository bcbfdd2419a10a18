use vstd::prelude::*;

use crate::edge::EdgeId;
use crate::geometry::{Boundary, Geometry};
use crate::node::NodeId;
use crate::point::point_lt;

verus! {

broadcast use vstd::seq_lib::group_to_multiset_ensures;

/// A working sequence of identifiers with a cursor into it. The cursor can
/// look ahead without consuming, consume conditionally, and be moved back.
pub struct ActiveVec<I> {
    pub items: Vec<I>,
    pub cursor: usize,
}

/// The boundary nodes in scan order, consumed from front to back.
pub type ActiveNodes = ActiveVec<NodeId>;

/// The edges that the current scanline meets, ordered by the `x` of their
/// sources.
pub type ActiveEdges = ActiveVec<EdgeId>;

impl<I: Copy> ActiveVec<I> {
    pub fn with_capacity(capacity: usize) -> (a: ActiveVec<I>)
        ensures
            a.items@ == Seq::<I>::empty(),
            a.cursor == 0,
    {
        ActiveVec { items: Vec::with_capacity(capacity), cursor: 0 }
    }

    /// A set over `items`, with the cursor at the start.
    pub fn from_items(items: Vec<I>) -> (a: ActiveVec<I>)
        ensures
            a.items@ == items@,
            a.cursor == 0,
    {
        ActiveVec { items, cursor: 0 }
    }

    pub fn cursor(&self) -> (c: usize)
        ensures
            c == self.cursor,
    {
        self.cursor
    }

    pub fn items(&self) -> (v: &Vec<I>)
        ensures
            v@ == self.items@,
    {
        &self.items
    }

    pub fn set_cursor(&mut self, new: usize)
        ensures
            final(self).cursor == new,
            final(self).items@ == old(self).items@,
    {
        self.cursor = new;
    }

    /// Moves the cursor one place on.
    pub fn increment(&mut self)
        requires
            old(self).cursor < usize::MAX,
        ensures
            final(self).cursor == old(self).cursor + 1,
            final(self).items@ == old(self).items@,
    {
        self.cursor = self.cursor + 1;
    }

    /// The item at position `ix`, if there is one; the cursor is not moved.
    pub fn peek_at(&self, ix: usize) -> (r: Option<I>)
        ensures
            ix < self.items.len() ==> r == Some(self.items@[ix as int]),
            ix >= self.items.len() ==> r is None,
    {
        if ix < self.items.len() {
            Some(self.items[ix])
        } else {
            None
        }
    }

    /// The item at the cursor, if there is one; the cursor is not moved.
    pub fn peek(&self) -> (r: Option<I>)
        ensures
            self.cursor < self.items.len() ==> r == Some(self.items@[self.cursor as int]),
            self.cursor >= self.items.len() ==> r is None,
    {
        self.peek_at(self.cursor)
    }

    /// The item at the cursor, which then moves past it; nothing, and no
    /// move, at the end.
    pub fn next(&mut self) -> (r: Option<I>)
        ensures
            final(self).items@ == old(self).items@,
            old(self).cursor < old(self).items.len() ==> r == Some(
                old(self).items@[old(self).cursor as int],
            ) && final(self).cursor == old(self).cursor + 1,
            old(self).cursor >= old(self).items.len() ==> r is None && final(self).cursor == old(
                self,
            ).cursor,
    {
        match self.peek() {
            Some(id) => {
                self.increment();
                Some(id)
            },
            None => None,
        }
    }

    /// The item at the cursor, consumed only if `f` accepts it; otherwise
    /// nothing is returned and the cursor stays.
    pub fn next_if<F: Fn(I) -> bool>(&mut self, f: F) -> (r: Option<I>)
        requires
            old(self).cursor < old(self).items.len() ==> f.requires(
                (old(self).items@[old(self).cursor as int],),
            ),
        ensures
            final(self).items@ == old(self).items@,
            old(self).cursor >= old(self).items.len() ==> r is None && final(self).cursor == old(
                self,
            ).cursor,
            old(self).cursor < old(self).items.len() ==> {
                let item = old(self).items@[old(self).cursor as int];
                ||| f.ensures((item,), true) && r == Some(item) && final(self).cursor == old(
                    self,
                ).cursor + 1
                ||| f.ensures((item,), false) && r is None && final(self).cursor == old(
                    self,
                ).cursor
            },
    {
        match self.peek() {
            Some(id) => {
                if f(id) {
                    self.increment();
                    Some(id)
                } else {
                    None
                }
            },
            None => None,
        }
    }

    /// Moves the cursor back to the start.
    pub fn reset_cursor(&mut self)
        ensures
            final(self).cursor == 0,
            final(self).items@ == old(self).items@,
    {
        self.set_cursor(0);
    }

    pub fn len(&self) -> (n: usize)
        ensures
            n == self.items.len(),
    {
        self.items.len()
    }

    /// Whether the cursor has reached the end of the sequence.
    pub fn finished(&self) -> (r: bool)
        ensures
            r == (self.cursor >= self.items.len()),
    {
        self.cursor >= self.items.len()
    }

    pub fn is_empty(&self) -> (r: bool)
        ensures
            r == (self.items.len() == 0),
    {
        self.items.len() == 0
    }
}

/// `a` comes before `c` in scan order: by point, and by identifier between
/// nodes at the same point.
pub open spec fn node_before(b: Boundary, a: NodeId, c: NodeId) -> bool {
    let p = b.node(a).point;
    let q = b.node(c).point;
    point_lt(p, q) || (p == q && a.index < c.index)
}

/// `ids` is in scan order, without going back.
pub open spec fn in_scan_order(b: Boundary, ids: Seq<NodeId>) -> bool {
    forall|i: int, j: int| 0 <= i < j < ids.len() ==> !node_before(b, #[trigger] ids[j], #[trigger] ids[i])
}

/// Every identifier in `ids` names a node of `b`.
pub open spec fn all_nodes_in(b: Boundary, ids: Seq<NodeId>) -> bool {
    forall|i: int| 0 <= i < ids.len() ==> b.has_node(#[trigger] ids[i])
}

/// Every identifier in `ids` names an edge of `b` whose end points are nodes
/// of `b`.
pub open spec fn all_edges_in(b: Boundary, ids: Seq<EdgeId>) -> bool {
    forall|i: int| 0 <= i < ids.len() ==> b.has_edge(#[trigger] ids[i])
}

proof fn lemma_node_before_total(b: Boundary, a: NodeId, c: NodeId)
    ensures
        !node_before(b, a, c) ==> a == c || node_before(b, c, a),
        !(node_before(b, a, c) && node_before(b, c, a)),
{
}

impl ActiveVec<NodeId> {
    /// Appends a node; the set is put in order once, by [`Self::sort`].
    pub fn insert(&mut self, item: NodeId)
        ensures
            final(self).items@ == old(self).items@.push(item),
            final(self).cursor == old(self).cursor,
    {
        self.items.push(item);
    }

    /// Puts the nodes in scan order. Nodes at the same point keep the order
    /// of their identifiers.
    pub fn sort(&mut self, geometry: &Geometry)
        requires
            all_nodes_in(geometry@, old(self).items@),
        ensures
            final(self).items@.to_multiset() == old(self).items@.to_multiset(),
            in_scan_order(geometry@, final(self).items@),
            all_nodes_in(geometry@, final(self).items@),
            final(self).cursor == old(self).cursor,
    {
        let ghost b = geometry@;
        let mut sorted: Vec<NodeId> = Vec::with_capacity(self.items.len());
        let mut i: usize = 0;
        while i < self.items.len()
            invariant
                b == geometry@,
                i <= self.items.len(),
                all_nodes_in(b, self.items@),
                all_nodes_in(b, sorted@),
                in_scan_order(b, sorted@),
                sorted@.to_multiset() == self.items@.take(i as int).to_multiset(),
            decreases self.items.len() - i,
        {
            let id = self.items[i];
            let point = geometry.node(id).point;
            let mut p: usize = 0;
            while p < sorted.len() && !node_precedes(geometry, id, point, sorted[p])
                invariant
                    b == geometry@,
                    b.has_node(id),
                    point == b.node(id).point,
                    p <= sorted.len(),
                    all_nodes_in(b, sorted@),
                    forall|k: int| 0 <= k < p ==> !node_before(b, id, #[trigger] sorted@[k]),
                decreases sorted.len() - p,
            {
                p = p + 1;
            }
            proof {
                let s = sorted@;
                assert forall|k: int| 0 <= k < p implies !node_before(b, id, #[trigger] s[k]) by {}
                assert forall|k: int| p <= k < s.len() implies node_before(b, id, #[trigger] s[k]) by {
                    if p < s.len() {
                        assert(node_before(b, id, s[p as int]));
                        assert(!node_before(b, s[k], s[p as int]));
                        lemma_node_before_total(b, s[k], s[p as int]);
                    }
                }
                assert(self.items@.take(i + 1) == self.items@.take(i as int).push(id));
                vstd::seq_lib::to_multiset_insert(s, p as int, id);
            }
            sorted.insert(p, id);
            proof {
                let s = sorted@;
                assert forall|x: int, y: int| 0 <= x < y < s.len() implies !node_before(
                    b,
                    #[trigger] s[y],
                    #[trigger] s[x],
                ) by {
                    lemma_node_before_total(b, s[x], s[y]);
                }
            }
            i = i + 1;
        }
        proof {
            assert(self.items@.take(self.items.len() as int) == self.items@);
        }
        self.items = sorted;
    }

    /// The `y` of the node at the cursor: the next scanline, if any node is
    /// left.
    pub fn scanline(&self, geometry: &Geometry) -> (r: Option<isize>)
        requires
            all_nodes_in(geometry@, self.items@),
        ensures
            self.cursor < self.items.len() ==> r == Some(
                geometry@.node(self.items@[self.cursor as int]).point.y,
            ),
            self.cursor >= self.items.len() ==> r is None,
    {
        match self.peek() {
            Some(id) => Some(geometry.node(id).y()),
            None => None,
        }
    }
}

/// Whether node `a`, at `point`, comes before node `c` in scan order.
fn node_precedes(geometry: &Geometry, a: NodeId, point: crate::point::Point, c: NodeId) -> (r: bool)
    requires
        geometry@.has_node(a),
        geometry@.has_node(c),
        point == geometry@.node(a).point,
    ensures
        r == node_before(geometry@, a, c),
{
    let q = geometry.node(c).point;
    point.precedes(&q) || (point == q && a.index < c.index)
}

/// The first position at or after `from` whose edge has its source strictly
/// right of `x`, or the length of `items` if there is none.
pub open spec fn first_right_of(b: Boundary, items: Seq<EdgeId>, from: int, x: int) -> int
    decreases items.len() - from,
{
    if from >= items.len() {
        items.len() as int
    } else if x < b.src_x(items[from]) {
        from
    } else {
        first_right_of(b, items, from + 1, x)
    }
}

/// The active edges and cursor after inserting `id`: the search starts at
/// the cursor, and the edge goes just before the first edge whose source lies
/// strictly right of its own, or at the end. The cursor ends just past the
/// new edge, or at the end.
pub open spec fn edges_after_insert(b: Boundary, items: Seq<EdgeId>, cursor: int, id: EdgeId) -> (
    Seq<EdgeId>,
    int,
) {
    let p = first_right_of(b, items, cursor, b.src_x(id));
    if p < items.len() {
        (items.insert(p, id), p + 1)
    } else {
        (items.push(id), if cursor <= items.len() {
            items.len() as int
        } else {
            cursor
        })
    }
}

/// Inserting an edge that may be absent changes nothing when it is absent.
pub open spec fn edges_after_maybe_insert(
    b: Boundary,
    items: Seq<EdgeId>,
    cursor: int,
    id: Option<EdgeId>,
) -> (Seq<EdgeId>, int) {
    match id {
        Some(e) => edges_after_insert(b, items, cursor, e),
        None => (items, cursor),
    }
}

/// The sources of the edges in `items` do not go leftwards.
pub open spec fn sorted_by_src_x(b: Boundary, items: Seq<EdgeId>) -> bool {
    forall|i: int, j: int| 0 <= i < j < items.len() ==> b.src_x(#[trigger] items[i]) <= b.src_x(#[trigger] items[j])
}

/// What survives of `items` when the `i`th is kept just where `keep[i]`
/// holds, in the order they had.
pub open spec fn kept(items: Seq<EdgeId>, keep: Seq<bool>) -> Seq<EdgeId>
    decreases items.len(),
{
    if items.len() == 0 || keep.len() == 0 {
        Seq::empty()
    } else {
        let rest = kept(items.drop_last(), keep.drop_last());
        if keep.last() {
            rest.push(items.last())
        } else {
            rest
        }
    }
}

proof fn lemma_first_right_of(b: Boundary, items: Seq<EdgeId>, from: int, x: int)
    requires
        0 <= from,
    ensures
        ({
            let p = first_right_of(b, items, from, x);
            &&& from <= items.len() ==> from <= p <= items.len()
            &&& from > items.len() ==> p == items.len()
            &&& p < items.len() ==> x < b.src_x(items[p])
            &&& forall|k: int| from <= k < p ==> b.src_x(#[trigger] items[k]) <= x
        }),
    decreases items.len() - from,
{
    if from < items.len() && !(x < b.src_x(items[from])) {
        lemma_first_right_of(b, items, from + 1, x);
    }
}

/// Ordered insertion keeps the active edges sorted by source `x`, provided
/// they were sorted and no edge before the cursor lies right of the new one;
/// after the insertion no edge before the cursor lies right of it again. So a
/// run of insertions in non-decreasing `x` from a cursor at the start keeps
/// the edges sorted.
pub proof fn lemma_insert_keeps_order(b: Boundary, items: Seq<EdgeId>, cursor: int, id: EdgeId)
    requires
        0 <= cursor,
        sorted_by_src_x(b, items),
        forall|k: int| 0 <= k < cursor && k < items.len() ==> b.src_x(#[trigger] items[k]) <= b.src_x(id),
    ensures
        sorted_by_src_x(b, edges_after_insert(b, items, cursor, id).0),
        forall|k: int|
            0 <= k < edges_after_insert(b, items, cursor, id).1 && k < edges_after_insert(
                b,
                items,
                cursor,
                id,
            ).0.len() ==> b.src_x(#[trigger] edges_after_insert(b, items, cursor, id).0[k])
                <= b.src_x(id),
{
    let x = b.src_x(id);
    lemma_first_right_of(b, items, cursor, x);
    let p = first_right_of(b, items, cursor, x);
    let after = edges_after_insert(b, items, cursor, id).0;
    if p < items.len() {
        assert forall|k: int| 0 <= k < p implies b.src_x(#[trigger] items[k]) <= x by {}
        assert forall|k: int| p <= k < items.len() implies x < b.src_x(#[trigger] items[k]) by {
            assert(b.src_x(items[p]) <= b.src_x(items[k]) || k == p);
        }
        assert forall|i: int, j: int| 0 <= i < j < after.len() implies b.src_x(#[trigger] after[i])
            <= b.src_x(#[trigger] after[j]) by {
            if i < p && j > p {
                assert(after[j] == items[j - 1]);
            } else if i > p {
                assert(after[i] == items[i - 1] && after[j] == items[j - 1]);
            }
        }
    } else {
        assert forall|k: int| 0 <= k < items.len() implies b.src_x(#[trigger] items[k]) <= x by {}
        assert forall|i: int, j: int| 0 <= i < j < after.len() implies b.src_x(#[trigger] after[i])
            <= b.src_x(#[trigger] after[j]) by {}
    }
}

impl ActiveVec<EdgeId> {
    /// Inserts edge `id` in order of source `x`, searching forward from the
    /// cursor: it goes just before the first edge whose source lies strictly
    /// right of its own, or at the end if there is none.
    pub fn insert(&mut self, geometry: &Geometry, id: EdgeId)
        requires
            geometry@.wf(),
            geometry@.has_edge(id),
            all_edges_in(geometry@, old(self).items@),
        ensures
            (final(self).items@, final(self).cursor as int) == edges_after_insert(
                geometry@,
                old(self).items@,
                old(self).cursor as int,
                id,
            ),
            all_edges_in(geometry@, final(self).items@),
    {
        let ghost b = geometry@;
        let ghost items0 = self.items@;
        let ghost c0 = self.cursor as int;
        proof {
            assert(b.holds_ends(b.edges[id.index as int]));
            lemma_first_right_of(b, items0, c0, b.src_x(id));
        }
        let x = geometry.edge(id).src_x(geometry);
        while self.cursor < self.items.len()
            invariant
                b == geometry@,
                b.wf(),
                b.has_edge(id),
                items0 == old(self).items@,
                c0 == old(self).cursor,
                self.items@ == items0,
                all_edges_in(b, items0),
                x == b.src_x(id),
                c0 <= items0.len() ==> c0 <= self.cursor <= items0.len(),
                c0 > items0.len() ==> self.cursor == c0,
                first_right_of(b, items0, c0, x as int) == first_right_of(
                    b,
                    items0,
                    self.cursor as int,
                    x as int,
                ),
            decreases self.items.len() - self.cursor,
        {
            let other = self.next().unwrap();
            proof {
                assert(b.has_edge(items0[self.cursor - 1]));
                assert(b.holds_ends(b.edges[other.index as int]));
            }
            if x < geometry.edge(other).src_x(geometry) {
                let at = self.cursor - 1;
                proof {
                    assert(first_right_of(b, items0, at as int, x as int) == at);
                    items0.insert_ensures(at as int, id);
                }
                self.items.insert(at, id);
                proof {
                    assert forall|i: int| 0 <= i < self.items@.len() implies b.has_edge(
                        #[trigger] self.items@[i],
                    ) by {
                        if i > at {
                            assert(self.items@[i] == items0[i - 1]);
                        } else if i < at {
                            assert(self.items@[i] == items0[i]);
                        }
                    }
                }
                return;
            }
        }
        self.items.push(id);
        proof {
            assert forall|i: int| 0 <= i < self.items@.len() implies b.has_edge(
                #[trigger] self.items@[i],
            ) by {
                if i < items0.len() {
                    assert(self.items@[i] == items0[i]);
                }
            }
        }
    }

    /// Inserts `edge_id` in order, if there is one.
    pub fn maybe_insert(&mut self, geometry: &Geometry, edge_id: Option<EdgeId>)
        requires
            geometry@.wf(),
            geometry@.slot_ok(edge_id),
            all_edges_in(geometry@, old(self).items@),
        ensures
            (final(self).items@, final(self).cursor as int) == edges_after_maybe_insert(
                geometry@,
                old(self).items@,
                old(self).cursor as int,
                edge_id,
            ),
            all_edges_in(geometry@, final(self).items@),
    {
        if let Some(id) = edge_id {
            self.insert(geometry, id);
        }
    }

    /// Inserts in order the incoming and then the outgoing edge of a node,
    /// those of them that exist.
    pub fn insert_edges(&mut self, geometry: &Geometry, inc: Option<EdgeId>, out: Option<EdgeId>)
        requires
            geometry@.wf(),
            geometry@.slot_ok(inc),
            geometry@.slot_ok(out),
            all_edges_in(geometry@, old(self).items@),
        ensures
            ({
                let (items1, cursor1) = edges_after_maybe_insert(
                    geometry@,
                    old(self).items@,
                    old(self).cursor as int,
                    inc,
                );
                (final(self).items@, final(self).cursor as int) == edges_after_maybe_insert(
                    geometry@,
                    items1,
                    cursor1,
                    out,
                )
            }),
            all_edges_in(geometry@, final(self).items@),
    {
        self.maybe_insert(geometry, inc);
        self.maybe_insert(geometry, out);
    }

    /// Keeps the edges that `f` accepts, in their order, and drops the rest.
    /// The cursor is not moved.
    pub fn retain_if<F: Fn(EdgeId) -> bool>(&mut self, f: F)
        requires
            forall|i: int| 0 <= i < old(self).items.len() ==> f.requires((#[trigger] old(self).items@[i],)),
        ensures
            final(self).cursor == old(self).cursor,
            exists|keep: Seq<bool>|
                {
                    &&& keep.len() == old(self).items.len()
                    &&& forall|i: int|
                        0 <= i < keep.len() ==> f.ensures((old(self).items@[i],), #[trigger] keep[i])
                    &&& final(self).items@ == kept(old(self).items@, keep)
                },
    {
        let ghost items0 = self.items@;
        let ghost mut keep: Seq<bool> = Seq::empty();
        let mut survivors: Vec<EdgeId> = Vec::with_capacity(self.items.len());
        let mut i: usize = 0;
        while i < self.items.len()
            invariant
                self.items@ == items0,
                forall|k: int| 0 <= k < items0.len() ==> f.requires((#[trigger] items0[k],)),
                i <= items0.len(),
                keep.len() == i,
                forall|k: int| 0 <= k < i ==> f.ensures((items0[k],), #[trigger] keep[k]),
                survivors@ == kept(items0.take(i as int), keep),
            decreases self.items.len() - i,
        {
            let id = self.items[i];
            let verdict = f(id);
            if verdict {
                survivors.push(id);
            }
            proof {
                let before = keep;
                keep = keep.push(verdict);
                assert(items0.take(i + 1).drop_last() =~= items0.take(i as int));
                assert(items0.take(i + 1).last() == id);
                assert(keep.drop_last() =~= before);
            }
            i = i + 1;
        }
        proof {
            assert(items0.take(i as int) == items0);
        }
        self.items = survivors;
    }
}

} // verus!
