//! What holds of every layout: it depends on the shape of the forest alone,
//! its keys are the ids of the forest, and where no id occurs twice it holds
//! one position for every node, no two of them closer than a full row or a
//! full column.

use crate::fixed::saturate;
use crate::ids::lemma_contains_concat;
use crate::layout::{
    ORIGIN_X, ORIGIN_Y, X_SPACING, forest_height, forest_placed, layout_map, node_placed,
    row_after, tree_height,
};
use crate::layout_exact::{
    apart, layout_slots, lemma_distinct_layout_exact, lemma_exact_apart, lemma_exact_complete,
};
use crate::model::{NodeView, Vec2, forest_ids, node_ids};
use vstd::prelude::*;

verus! {

/// Whether two trees hold the same ids in the same arrangement, whatever
/// else their nodes hold.
pub open spec fn same_shape(a: NodeView, b: NodeView) -> bool
    decreases a,
{
    &&& a.id == b.id
    &&& a.children.len() == b.children.len()
    &&& forall|i: int|
        0 <= i < a.children.len() ==> same_shape(#[trigger] a.children[i], b.children[i])
}

/// Whether two forests hold the same ids in the same arrangement.
pub open spec fn forest_same_shape(s: Seq<NodeView>, t: Seq<NodeView>) -> bool {
    &&& s.len() == t.len()
    &&& forall|i: int| 0 <= i < s.len() ==> same_shape(#[trigger] s[i], t[i])
}

/// Trees of the same shape are laid out alike: from the same start they
/// take the same height and leave the same map.
pub proof fn lemma_same_shape_placed(
    m: Map<u32, Vec2>,
    a: NodeView,
    b: NodeView,
    x: i64,
    y_start: i64,
    cursor: i64,
)
    requires
        same_shape(a, b),
    ensures
        tree_height(a) == tree_height(b),
        node_placed(m, a, x, y_start, cursor) == node_placed(m, b, x, y_start, cursor),
    decreases a,
{
    assert(forest_same_shape(a.children, b.children));
    lemma_forest_same_shape_placed(
        m,
        a.children,
        b.children,
        saturate(x + X_SPACING),
        y_start,
    );
}

/// Forests of the same shape are laid out alike.
pub proof fn lemma_forest_same_shape_placed(
    m: Map<u32, Vec2>,
    s: Seq<NodeView>,
    t: Seq<NodeView>,
    x: i64,
    y_start: i64,
)
    requires
        forest_same_shape(s, t),
    ensures
        forest_height(s) == forest_height(t),
        row_after(s, y_start) == row_after(t, y_start),
        forest_placed(m, s, x, y_start) == forest_placed(m, t, x, y_start),
    decreases s,
{
    if s.len() > 0 {
        let front_s = s.drop_last();
        let front_t = t.drop_last();
        assert(forest_same_shape(front_s, front_t)) by {
            assert forall|i: int| 0 <= i < front_s.len() implies same_shape(
                #[trigger] front_s[i],
                front_t[i],
            ) by {
                assert(same_shape(s[i], t[i]));
            }
        }
        lemma_forest_same_shape_placed(m, front_s, front_t, x, y_start);
        assert(same_shape(s[s.len() - 1], t[s.len() - 1]));
        let row = row_after(front_s, y_start);
        lemma_same_shape_placed(
            forest_placed(m, front_s, x, y_start),
            s.last(),
            t.last(),
            x,
            row,
            row,
        );
    }
}

/// The layout depends on the shape of the forest alone: on which ids it
/// holds and how they are arranged, not on labels, colours, shapes or
/// rotation. Laying out the same shape again gives the same positions.
pub proof fn lemma_layout_depends_on_shape(s: Seq<NodeView>, t: Seq<NodeView>)
    requires
        forest_same_shape(s, t),
    ensures
        layout_map(s) == layout_map(t),
{
    lemma_forest_same_shape_placed(
        Map::empty(),
        s,
        t,
        ORIGIN_X,
        ORIGIN_Y,
    );
}

/// Laying out a tree enters the ids of the tree and touches nothing else:
/// the keys after it are the keys before it and the tree's ids, every other
/// key leads to what it led to, and the map grows by the ids that were no
/// keys before.
pub proof fn lemma_node_placed_keys(
    m: Map<u32, Vec2>,
    n: NodeView,
    x: i64,
    y_start: i64,
    cursor: i64,
)
    ensures
        node_placed(m, n, x, y_start, cursor).dom() == m.dom().union(node_ids(n).to_set()),
        forall|key: u32|
            !node_ids(n).contains(key) && m.contains_key(key) ==> #[trigger] node_placed(
                m,
                n,
                x,
                y_start,
                cursor,
            )[key] == m[key],
        m.dom().finite() ==> node_placed(m, n, x, y_start, cursor).dom().finite() && node_placed(
            m,
            n,
            x,
            y_start,
            cursor,
        ).dom().len() == m.dom().len() + node_ids(n).to_set().difference(m.dom()).len(),
    decreases n,
{
    let below = forest_ids(n.children);
    let column = saturate(x + X_SPACING);
    let inner = forest_placed(m, n.children, column, y_start);
    let placed = node_placed(m, n, x, y_start, cursor);
    lemma_forest_placed_keys(m, n.children, column, y_start);
    assert(seq![n.id][0] == n.id);
    assert forall|key: u32|
        placed.dom().contains(key) <==> m.dom().union(node_ids(n).to_set()).contains(key) by {
        lemma_contains_concat(seq![n.id], below, key);
        assert(node_ids(n).to_set().contains(key) <==> node_ids(n).contains(key));
        assert(below.to_set().contains(key) <==> below.contains(key));
    }
    assert(placed.dom() =~= m.dom().union(node_ids(n).to_set()));
    assert forall|key: u32|
        !node_ids(n).contains(key) && m.contains_key(key) implies #[trigger] placed[key]
        == m[key] by {
        lemma_contains_concat(seq![n.id], below, key);
    }
    lemma_union_len(m.dom(), node_ids(n));
}

/// Laying out a forest enters the ids of the forest and touches nothing
/// else.
pub proof fn lemma_forest_placed_keys(m: Map<u32, Vec2>, s: Seq<NodeView>, x: i64, y_start: i64)
    ensures
        forest_placed(m, s, x, y_start).dom() == m.dom().union(forest_ids(s).to_set()),
        forall|key: u32|
            !forest_ids(s).contains(key) && m.contains_key(key) ==> #[trigger] forest_placed(
                m,
                s,
                x,
                y_start,
            )[key] == m[key],
        m.dom().finite() ==> forest_placed(m, s, x, y_start).dom().finite() && forest_placed(
            m,
            s,
            x,
            y_start,
        ).dom().len() == m.dom().len() + forest_ids(s).to_set().difference(m.dom()).len(),
    decreases s,
{
    let placed = forest_placed(m, s, x, y_start);
    if s.len() == 0 {
        assert(placed.dom() =~= m.dom().union(forest_ids(s).to_set()));
    } else {
        let front = s.drop_last();
        let last = s.last();
        let row = row_after(front, y_start);
        let before = forest_placed(m, front, x, y_start);
        lemma_forest_placed_keys(m, front, x, y_start);
        lemma_node_placed_keys(before, last, x, row, row);
        assert forall|key: u32|
            placed.dom().contains(key) <==> m.dom().union(forest_ids(s).to_set()).contains(
                key,
            ) by {
            lemma_contains_concat(forest_ids(front), node_ids(last), key);
            assert(forest_ids(s).to_set().contains(key) <==> forest_ids(s).contains(key));
            assert(forest_ids(front).to_set().contains(key) <==> forest_ids(front).contains(key));
            assert(node_ids(last).to_set().contains(key) <==> node_ids(last).contains(key));
        }
        assert(placed.dom() =~= m.dom().union(forest_ids(s).to_set()));
        assert forall|key: u32|
            !forest_ids(s).contains(key) && m.contains_key(key) implies #[trigger] placed[key]
            == m[key] by {
            lemma_contains_concat(forest_ids(front), node_ids(last), key);
            assert(before.dom().contains(key));
        }
    }
    lemma_union_len(m.dom(), forest_ids(s));
}

/// A finite set grows, by the ids of a sequence, by those that it did not
/// hold.
pub proof fn lemma_union_len(keys: Set<u32>, ids: Seq<u32>)
    ensures
        keys.finite() ==> keys.union(ids.to_set()).finite() && keys.union(ids.to_set()).len()
            == keys.len() + ids.to_set().difference(keys).len(),
{
    if keys.finite() {
        vstd::seq_lib::seq_to_set_is_finite(ids);
        vstd::set_lib::lemma_set_union_finite_iff(keys, ids.to_set());
        vstd::set_lib::lemma_set_difference_len(keys, ids.to_set());
    }
}

/// Where no id occurs twice, `layout` holds exactly one position for every
/// node and nothing else: its keys are the forest's ids, as many as there
/// are nodes, and each id leads to its node's position.
pub proof fn lemma_layout_complete(s: Seq<NodeView>)
    requires
        forest_ids(s).no_duplicates(),
    ensures
        layout_map(s).dom() == forest_ids(s).to_set(),
        layout_map(s).dom().finite(),
        layout_map(s).dom().len() == forest_ids(s).len(),
        layout_slots(s).len() == forest_ids(s).len(),
        forall|k: int|
            0 <= k < forest_ids(s).len() ==> layout_map(s)[#[trigger] forest_ids(s)[k]]
                == layout_slots(s)[k],
{
    lemma_distinct_layout_exact(s);
    lemma_exact_complete(s);
}

/// Where no id occurs twice, the positions of any two nodes are a full
/// column or a full row apart.
pub proof fn lemma_layout_apart(s: Seq<NodeView>, j: int, k: int)
    requires
        forest_ids(s).no_duplicates(),
        0 <= j < forest_ids(s).len(),
        0 <= k < forest_ids(s).len(),
        j != k,
    ensures
        apart(layout_map(s)[forest_ids(s)[j]], layout_map(s)[forest_ids(s)[k]]),
{
    lemma_distinct_layout_exact(s);
    lemma_exact_apart(s, j, k);
}

} // verus!
