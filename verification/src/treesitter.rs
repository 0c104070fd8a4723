//! Points and ranges in a text, and the errors of working with a syntax
//! tree.
use vstd::prelude::*;

use crate::java::syntax::{depth_of, nodes_view, NodeView, SyntaxNode};

verus! {

#[derive(Debug, PartialEq, Eq, Structural)]
pub enum TreesitterError {
    NoNodeFound,
}

/// A place in a text: its row and its column, both from zero.
#[derive(Debug, Clone, Copy, PartialEq, Eq, Structural)]
pub struct Point {
    pub row: usize,
    pub column: usize,
}

/// The bytes and the points where a node starts and ends.
#[derive(Debug, Clone, Copy, PartialEq, Eq, Structural)]
pub struct Range {
    pub start_byte: usize,
    pub end_byte: usize,
    pub start_point: Point,
    pub end_point: Point,
}

/// Points are ordered by row, then by column.
pub open spec fn point_le(a: Point, b: Point) -> bool {
    a.row < b.row || (a.row == b.row && a.column <= b.column)
}

/// Whether `point` lies between the start and the end of `range`, both
/// included.
pub fn is_point_in_range(point: &Point, range: &Range) -> (b: bool)
    ensures
        b == (point_le(range.start_point, *point) && point_le(*point, range.end_point)),
{
    let start = range.start_point;
    let end = range.end_point;
    if start.row < point.row || (start.row == point.row && start.column <= point.column) {
        if point.row < end.row || (point.row == end.row && point.column <= end.column) {
            return true;
        }
    }
    false
}


/// `a` lies strictly before `b`.
pub open spec fn point_lt(a: Point, b: Point) -> bool {
    !point_le(b, a)
}

/// Scanning the subtree of `c` from `j` for the first child of `c` that ends
/// past the first byte and after `goal`.
pub open spec fn child_for_point_from(ns: Seq<NodeView>, c: int, j: int, goal: Point) -> Option<int>
    decreases ns.len() - j,
{
    if j <= c || j >= ns.len() || ns[j].depth <= ns[c].depth {
        None
    } else if ns[j].depth == ns[c].depth + 1 && ns[j].end > 0 && point_lt(goal, ns[j].end_point) {
        Some(j)
    } else {
        child_for_point_from(ns, c, j + 1, goal)
    }
}

/// The first child of `c` that ends after `goal`, as a tree cursor moves
/// to it.
pub open spec fn child_for_point(ns: Seq<NodeView>, c: int, goal: Point) -> Option<int> {
    child_for_point_from(ns, c, c + 1, goal)
}

pub proof fn lemma_child_for_point_from(ns: Seq<NodeView>, c: int, j: int, goal: Point)
    ensures
        child_for_point_from(ns, c, j, goal) matches Some(k) ==> c < j <= k < ns.len(),
    decreases ns.len() - j,
{
    if c < j < ns.len() && ns[j].depth > ns[c].depth {
        lemma_child_for_point_from(ns, c, j + 1, goal);
    }
}

/// Moves from `c` to its first child that ends after `goal` (see
/// `child_for_point`).
pub fn goto_first_child_for_point(ns: &Vec<SyntaxNode>, c: usize, goal: &Point) -> (r: Option<usize>)
    requires
        c < ns.len(),
    ensures
        match r {
            Some(k) => child_for_point(nodes_view(ns@), c as int, *goal) == Some(k as int) && c < k < ns.len(),
            None => child_for_point(nodes_view(ns@), c as int, *goal) is None,
        },
{
    let ghost nv = nodes_view(ns@);
    assert(nv.len() == ns@.len());
    let d = depth_of(ns, c);
    let mut j = c + 1;
    while j < ns.len()
        invariant
            c < j <= ns.len(),
            nv == nodes_view(ns@),
            nv.len() == ns@.len(),
            d == nv[c as int].depth,
            child_for_point(nv, c as int, *goal) == child_for_point_from(nv, c as int, j as int, *goal),
        decreases ns.len() - j,
    {
        let dj = depth_of(ns, j);
        if dj <= d {
            return None;
        }
        assert(nv[j as int] == ns@[j as int]@);
        let n = &ns[j];
        let after = goal.row < n.span[4] || (goal.row == n.span[4] && goal.column < n.span[5]);
        if dj - 1 == d && n.span[1] > 0 && after {
            return Some(j);
        }
        j += 1;
    }
    None
}

/// From the root, goes on to the first child that ends after `point` until
/// a node without children is reached: that node. Where a node with
/// children has none that ends after `point`, no node is found.
pub open spec fn node_at_point_from(ns: Seq<NodeView>, c: int, point: Point) -> Result<int, TreesitterError>
    decreases ns.len() - c,
{
    match child_for_point(ns, c, point) {
        None => Err(TreesitterError::NoNodeFound),
        Some(k) => if k <= c || k >= ns.len() {
            Err(TreesitterError::NoNodeFound)
        } else if !(k + 1 < ns.len() && ns[k + 1].depth == ns[k].depth + 1) {
            Ok(k)
        } else {
            node_at_point_from(ns, k, point)
        },
    }
}

/// The node of the tree `ns` found at `point` (see `node_at_point_from`).
pub fn get_node_at_point(ns: &Vec<SyntaxNode>, point: &Point) -> (r: Result<usize, TreesitterError>)
    requires
        ns.len() >= 1,
    ensures
        match node_at_point_from(nodes_view(ns@), 0, *point) {
            Ok(k) => r == Ok::<usize, TreesitterError>(k as usize) && k < ns.len(),
            Err(e) => r == Err::<usize, TreesitterError>(e),
        },
{
    let ghost nv = nodes_view(ns@);
    let mut c: usize = 0;
    loop
        invariant
            c < ns.len(),
            nv == nodes_view(ns@),
            nv.len() == ns@.len(),
            node_at_point_from(nv, 0, *point) == node_at_point_from(nv, c as int, *point),
        decreases ns.len() - c,
    {
        let Some(k) = goto_first_child_for_point(ns, c, point) else {
            return Err(TreesitterError::NoNodeFound);
        };
        if !(k + 1 < ns.len() && depth_of(ns, k + 1) > 0 && depth_of(ns, k + 1) - 1 == depth_of(ns, k)) {
            return Ok(k);
        }
        c = k;
    }
}

} // verus!
