//! The left-to-right tree layout: depth runs along x, and every leaf gets a
//! row of its own along y, in pre-order; a parent sits at the middle of the
//! rows of its leaves. Every sum is held at the bounds of `i64`, so a forest
//! of any size has a layout; for a forest whose ids are distinct no sum
//! comes near them.

use crate::fixed::{add_fixed, saturate};
use crate::model::{NodeView, SceneObject, Vec2, forest_view, lemma_children_view, node_view};
use std::collections::HashMap;
use vstd::prelude::*;

verus! {

/// Horizontal distance between a node and its children.
pub const X_SPACING: i64 = 250000;

/// Vertical distance between the rows of two neighbouring leaves.
pub const Y_SPACING: i64 = 120000;

/// Column of the roots.
pub const ORIGIN_X: i64 = 200000;

/// Row of the first leaf.
pub const ORIGIN_Y: i64 = 100000;

/// Height of the rows that a tree takes: `Y_SPACING` for a childless node,
/// else the height of its children's trees.
pub open spec fn tree_height(n: NodeView) -> i64
    decreases n,
{
    if n.children.len() == 0 {
        Y_SPACING
    } else {
        forest_height(n.children)
    }
}

/// Height of the rows that the trees of a forest take, one below the other.
pub open spec fn forest_height(s: Seq<NodeView>) -> i64
    decreases s,
{
    if s.len() == 0 {
        0
    } else {
        saturate(forest_height(s.drop_last()) + tree_height(s.last()))
    }
}

/// The first row below the trees of a forest that is laid out from row
/// `y_start` down.
pub open spec fn row_after(s: Seq<NodeView>, y_start: i64) -> i64
    decreases s,
{
    if s.len() == 0 {
        y_start
    } else {
        saturate(row_after(s.drop_last(), y_start) + tree_height(s.last()))
    }
}

/// Where a tree's root stands when the tree is laid out from column `x` and
/// row `y_start`: in that column; a childless root at row `cursor`, any
/// other at the middle of the rows of its children's trees, half a row up.
pub open spec fn root_position(n: NodeView, x: i64, y_start: i64, cursor: i64) -> Vec2 {
    if n.children.len() == 0 {
        Vec2 { x, y: cursor }
    } else {
        Vec2 {
            x,
            y: saturate(saturate(y_start + forest_height(n.children) / 2) - Y_SPACING / 2),
        }
    }
}

/// The map `m` after a tree has been laid out into it: first its children's
/// trees from first to last, one column further right, then the root. A
/// later entry replaces an earlier one under the same id.
pub open spec fn node_placed(
    m: Map<u32, Vec2>,
    n: NodeView,
    x: i64,
    y_start: i64,
    cursor: i64,
) -> Map<u32, Vec2>
    decreases n,
{
    forest_placed(m, n.children, saturate(x + X_SPACING), y_start).insert(
        n.id,
        root_position(n, x, y_start, cursor),
    )
}

/// The map `m` after the trees of a forest have been laid out into it, one
/// after the other, each from the first row below the one before.
pub open spec fn forest_placed(m: Map<u32, Vec2>, s: Seq<NodeView>, x: i64, y_start: i64) -> Map<
    u32,
    Vec2,
>
    decreases s,
{
    if s.len() == 0 {
        m
    } else {
        let row = row_after(s.drop_last(), y_start);
        node_placed(forest_placed(m, s.drop_last(), x, y_start), s.last(), x, row, row)
    }
}

/// A tree is at least a row high, and a forest not less than nothing.
pub proof fn lemma_tree_height_positive(n: NodeView)
    ensures
        tree_height(n) >= Y_SPACING,
    decreases n,
{
    if n.children.len() > 0 {
        lemma_forest_height_positive(n.children);
    }
}

/// A forest of one tree or more is at least a row high.
pub proof fn lemma_forest_height_positive(s: Seq<NodeView>)
    ensures
        forest_height(s) >= 0,
        s.len() > 0 ==> forest_height(s) >= Y_SPACING,
    decreases s,
{
    if s.len() > 0 {
        lemma_forest_height_positive(s.drop_last());
        lemma_tree_height_positive(s.last());
    }
}

/// One more tree of the forest: its height joins the prefix's, and it is
/// laid out from the first row below the prefix.
pub proof fn lemma_layout_step(s: Seq<NodeView>, k: int)
    requires
        0 <= k < s.len(),
    ensures
        forest_height(s.take(k + 1)) == saturate(forest_height(s.take(k)) + tree_height(s[k])),
        forall|y: i64| #[trigger]
            row_after(s.take(k + 1), y) == saturate(row_after(s.take(k), y) + tree_height(s[k])),
        forall|m: Map<u32, Vec2>, x: i64, y: i64| #[trigger]
            forest_placed(m, s.take(k + 1), x, y) == node_placed(
                forest_placed(m, s.take(k), x, y),
                s[k],
                x,
                row_after(s.take(k), y),
                row_after(s.take(k), y),
            ),
{
    assert(s.take(k + 1).drop_last() =~= s.take(k));
    assert(s.take(k + 1).last() == s[k]);
}

/// Lays out the tree of `obj` from column `x` and row `y_start` into
/// `positions`, children before their parent, and returns the height of the
/// rows that the tree takes. `y_cursor` is left at the first row below them.
pub fn layout_recursive(
    obj: &SceneObject,
    x: i64,
    y_start: i64,
    y_cursor: &mut i64,
    positions: &mut HashMap<u32, Vec2>,
) -> (height: i64)
    ensures
        height == tree_height(node_view(*obj)),
        *final(y_cursor) == saturate(y_start + height),
        final(positions)@ == node_placed(
            old(positions)@,
            node_view(*obj),
            x,
            y_start,
            *old(y_cursor),
        ),
    decreases obj,
{
    let ghost kids = forest_view(obj.children@);
    let ghost start = positions@;
    proof {
        lemma_children_view(*obj);
    }
    let mut children_height: i64 = 0;
    let mut child_y_cursor: i64 = y_start;
    let mut i: usize = 0;
    while i < obj.children.len()
        invariant
            i <= obj.children.len(),
            kids == forest_view(obj.children@),
            kids == node_view(*obj).children,
            children_height == forest_height(kids.take(i as int)),
            child_y_cursor == row_after(kids.take(i as int), y_start),
            positions@ == forest_placed(
                start,
                kids.take(i as int),
                saturate(x + X_SPACING),
                y_start,
            ),
        decreases obj.children.len() - i,
    {
        proof {
            lemma_layout_step(kids, i as int);
        }
        let h = layout_recursive(
            &obj.children[i],
            add_fixed(x, X_SPACING),
            child_y_cursor,
            &mut child_y_cursor,
            positions,
        );
        children_height = add_fixed(children_height, h);
        i += 1;
    }
    proof {
        assert(kids.take(i as int) =~= kids);
        lemma_forest_height_positive(kids);
    }
    let my_pos = if !obj.children.is_empty() {
        Vec2 { x, y: add_fixed(add_fixed(y_start, children_height / 2), -(Y_SPACING / 2)) }
    } else {
        Vec2 { x, y: *y_cursor }
    };
    positions.insert(obj.id, my_pos);
    let my_height = if children_height > 0 {
        children_height
    } else {
        Y_SPACING
    };
    *y_cursor = add_fixed(y_start, my_height);
    my_height
}

/// The positions that `layout` gives: the forest laid out from the origin
/// into an empty map.
pub open spec fn layout_map(s: Seq<NodeView>) -> Map<u32, Vec2> {
    forest_placed(Map::empty(), s, ORIGIN_X, ORIGIN_Y)
}

/// Positions of all nodes of the forest, by id: the roots in the column
/// `ORIGIN_X`, each level `X_SPACING` further right, the leaves `Y_SPACING`
/// apart from row `ORIGIN_Y` down in pre-order, each parent at the middle of
/// the rows of its leaves. The result depends on nothing but the forest.
pub fn layout(objects: &Vec<SceneObject>) -> (positions: HashMap<u32, Vec2>)
    ensures
        positions@ == layout_map(forest_view(objects@)),
{
    let ghost roots = forest_view(objects@);
    let mut positions: HashMap<u32, Vec2> = HashMap::new();
    let mut start_y: i64 = ORIGIN_Y;
    let mut i: usize = 0;
    while i < objects.len()
        invariant
            i <= objects.len(),
            roots == forest_view(objects@),
            start_y == row_after(roots.take(i as int), ORIGIN_Y),
            positions@ == forest_placed(Map::empty(), roots.take(i as int), ORIGIN_X, ORIGIN_Y),
        decreases objects.len() - i,
    {
        proof {
            lemma_layout_step(roots, i as int);
        }
        layout_recursive(&objects[i], ORIGIN_X, start_y, &mut start_y, &mut positions);
        i += 1;
    }
    proof {
        assert(roots.take(i as int) =~= roots);
    }
    positions
}

} // verus!
