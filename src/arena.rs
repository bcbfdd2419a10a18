//! The node and edge arenas of a geometry are `id_arena` arenas. What Verus
//! is told of them is stated here, one item per arena operation.
use vstd::prelude::*;

use id_arena::{Arena, ArenaBehavior, DefaultArenaBehavior};

use crate::edge::Edge;
use crate::node::Node;

verus! {

/// `id_arena::Arena`, declared so that a geometry can hold two of them. Verus
/// sees nothing inside one; what it holds is named below.
#[verifier::external_type_specification]
#[verifier::external_body]
#[verifier::reject_recursive_types(T)]
#[verifier::reject_recursive_types(A)]
pub struct ExArena<T, A>(Arena<T, A>);

/// `id_arena::DefaultArenaBehavior`, the arena's default id scheme, declared
/// because it is the arena type's second parameter.
#[verifier::external_type_specification]
#[verifier::external_body]
#[verifier::reject_recursive_types(T)]
pub struct ExDefaultArenaBehavior<T>(DefaultArenaBehavior<T>);

/// The nodes held by an arena, in the order of their slots.
pub uninterp spec fn node_items(arena: Arena<Node>) -> Seq<Node>;

/// The edges held by an arena, in the order of their slots.
pub uninterp spec fn edge_items(arena: Arena<Edge>) -> Seq<Edge>;

/// Relies on `Arena::with_capacity`: a new arena holds no item.
#[verifier::external_body]
pub(crate) fn new_node_arena(capacity: usize) -> (arena: Arena<Node>)
    ensures
        node_items(arena) == Seq::<Node>::empty(),
{
    Arena::with_capacity(capacity)
}

/// Relies on `Arena::with_capacity`: a new arena holds no item.
#[verifier::external_body]
pub(crate) fn new_edge_arena(capacity: usize) -> (arena: Arena<Edge>)
    ensures
        edge_items(arena) == Seq::<Edge>::empty(),
{
    Arena::with_capacity(capacity)
}

/// Relies on `Arena::len`: the number of items pushed so far.
#[verifier::external_body]
pub(crate) fn node_count(arena: &Arena<Node>) -> (n: usize)
    ensures
        n == node_items(*arena).len(),
{
    arena.len()
}

/// Relies on `Arena::len`: the number of items pushed so far.
#[verifier::external_body]
pub(crate) fn edge_count(arena: &Arena<Edge>) -> (n: usize)
    ensures
        n == edge_items(*arena).len(),
{
    arena.len()
}

/// Relies on `Arena::alloc`, which pushes the item at the end of the arena
/// and returns the id of the slot it went to, and on `Id::index`, which gives
/// that slot's number.
#[verifier::external_body]
pub(crate) fn alloc_node(arena: &mut Arena<Node>, node: Node) -> (index: usize)
    ensures
        node_items(*final(arena)) == node_items(*old(arena)).push(node),
        index == node_items(*old(arena)).len(),
{
    arena.alloc(node).index()
}

/// Relies on `Arena::alloc`, which pushes the item at the end of the arena
/// and returns the id of the slot it went to, and on `Id::index`, which gives
/// that slot's number.
#[verifier::external_body]
pub(crate) fn alloc_edge(arena: &mut Arena<Edge>, edge: Edge) -> (index: usize)
    ensures
        edge_items(*final(arena)) == edge_items(*old(arena)).push(edge),
        index == edge_items(*old(arena)).len(),
{
    arena.alloc(edge).index()
}

/// Relies on `Arena::next_id`, whose id carries the arena's own number, on
/// `DefaultArenaBehavior::arena_id` and `new_id`, which read that number and
/// build the id of slot `index` with it, and on indexing the arena by that id,
/// which yields the item in the slot.
#[verifier::external_body]
pub(crate) fn node_at(arena: &Arena<Node>, index: usize) -> (node: Node)
    requires
        index < node_items(*arena).len(),
    ensures
        node == node_items(*arena)[index as int],
{
    let arena_id = DefaultArenaBehavior::<Node>::arena_id(arena.next_id());
    arena[DefaultArenaBehavior::<Node>::new_id(arena_id, index)]
}

/// Relies on `Arena::next_id`, whose id carries the arena's own number, on
/// `DefaultArenaBehavior::arena_id` and `new_id`, which read that number and
/// build the id of slot `index` with it, and on indexing the arena by that id,
/// which yields the item in the slot.
#[verifier::external_body]
pub(crate) fn edge_at(arena: &Arena<Edge>, index: usize) -> (edge: Edge)
    requires
        index < edge_items(*arena).len(),
    ensures
        edge == edge_items(*arena)[index as int],
{
    let arena_id = DefaultArenaBehavior::<Edge>::arena_id(arena.next_id());
    arena[DefaultArenaBehavior::<Edge>::new_id(arena_id, index)]
}

/// Relies on the same id construction as [`node_at`], and on `IndexMut`,
/// which gives the slot itself, so that storing into it replaces that item
/// alone.
#[verifier::external_body]
pub(crate) fn set_node_at(arena: &mut Arena<Node>, index: usize, node: Node)
    requires
        index < node_items(*old(arena)).len(),
    ensures
        node_items(*final(arena)) == node_items(*old(arena)).update(index as int, node),
{
    let arena_id = DefaultArenaBehavior::<Node>::arena_id(arena.next_id());
    arena[DefaultArenaBehavior::<Node>::new_id(arena_id, index)] = node;
}

/// Relies on the same id construction as [`edge_at`], and on `IndexMut`,
/// which gives the slot itself, so that storing into it replaces that item
/// alone.
#[verifier::external_body]
pub(crate) fn set_edge_at(arena: &mut Arena<Edge>, index: usize, edge: Edge)
    requires
        index < edge_items(*old(arena)).len(),
    ensures
        edge_items(*final(arena)) == edge_items(*old(arena)).update(index as int, edge),
{
    let arena_id = DefaultArenaBehavior::<Edge>::arena_id(arena.next_id());
    arena[DefaultArenaBehavior::<Edge>::new_id(arena_id, index)] = edge;
}

} // verus!
