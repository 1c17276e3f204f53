//! The layout as it is where no sum reaches the bounds of `i64`: rows and
//! columns as plain multiples of the spacing. A forest whose ids are
//! distinct is laid out so, and what holds of its positions is shown here.

use crate::layout::{
    ORIGIN_X, ORIGIN_Y, X_SPACING, Y_SPACING, forest_height, forest_placed, layout_map,
    node_placed, row_after, tree_height,
};
use crate::model::{NodeView, Vec2, forest_ids, node_ids};
use vstd::prelude::*;
use vstd::set_lib::set_int_range;

verus! {

/// Number of leaves of a tree. A childless node is its own leaf.
pub open spec fn leaf_count(n: NodeView) -> nat
    decreases n,
{
    if n.children.len() == 0 {
        1
    } else {
        forest_leaf_count(n.children)
    }
}

/// Number of leaves of a forest.
pub open spec fn forest_leaf_count(s: Seq<NodeView>) -> nat
    decreases s,
{
    if s.len() == 0 {
        0
    } else {
        forest_leaf_count(s.drop_last()) + leaf_count(s.last())
    }
}

/// Number of levels below the root of a tree.
pub open spec fn tree_depth(n: NodeView) -> nat
    decreases n,
{
    if n.children.len() == 0 {
        0
    } else {
        1 + forest_depth(n.children)
    }
}

/// The largest `tree_depth` among the trees of a forest.
pub open spec fn forest_depth(s: Seq<NodeView>) -> nat
    decreases s,
{
    if s.len() == 0 {
        0
    } else {
        let front = forest_depth(s.drop_last());
        let back = tree_depth(s.last());
        if front >= back {
            front
        } else {
            back
        }
    }
}

/// Where a tree's root stands when the tree is laid out from column `x` and
/// row `y_start`: in that column, at the middle of the rows of its leaves.
pub open spec fn anchor(n: NodeView, x: int, y_start: int) -> Vec2 {
    Vec2 { x: x as i64, y: (y_start + (Y_SPACING / 2) * (leaf_count(n) - 1)) as i64 }
}

/// The positions of a tree's nodes in pre-order, laid out from column `x`
/// and row `y_start`.
pub open spec fn node_slots(n: NodeView, x: int, y_start: int) -> Seq<Vec2>
    decreases n,
{
    seq![anchor(n, x, y_start)] + forest_slots(n.children, x + X_SPACING, y_start)
}

/// The positions of a forest's nodes in pre-order: each tree starts at the
/// row below the leaves of the trees before it.
pub open spec fn forest_slots(s: Seq<NodeView>, x: int, y_start: int) -> Seq<Vec2>
    decreases s,
{
    if s.len() == 0 {
        Seq::empty()
    } else {
        forest_slots(s.drop_last(), x, y_start) + node_slots(
            s.last(),
            x,
            y_start + Y_SPACING * forest_leaf_count(s.drop_last()),
        )
    }
}

/// The map `m` after a tree has been laid out into it in plain numbers:
/// first its children's trees from first to last, then the root. A
/// childless root is put at row `cursor`.
pub open spec fn node_laid(
    m: Map<u32, Vec2>,
    n: NodeView,
    x: int,
    y_start: int,
    cursor: int,
) -> Map<u32, Vec2>
    decreases n,
{
    let at = if n.children.len() == 0 {
        Vec2 { x: x as i64, y: cursor as i64 }
    } else {
        anchor(n, x, y_start)
    };
    forest_laid(m, n.children, x + X_SPACING, y_start).insert(n.id, at)
}

/// The map `m` after the trees of a forest have been laid out into it in
/// plain numbers, one after the other.
pub open spec fn forest_laid(m: Map<u32, Vec2>, s: Seq<NodeView>, x: int, y_start: int) -> Map<
    u32,
    Vec2,
>
    decreases s,
{
    if s.len() == 0 {
        m
    } else {
        let y = y_start + Y_SPACING * forest_leaf_count(s.drop_last());
        node_laid(forest_laid(m, s.drop_last(), x, y_start), s.last(), x, y, y)
    }
}

/// Whether the layout of a tree from `x` and `y_start` stays within `i64`.
pub open spec fn tree_fits(n: NodeView, x: int, y_start: int) -> bool {
    &&& x + X_SPACING * tree_depth(n) <= i64::MAX
    &&& Y_SPACING * leaf_count(n) <= i64::MAX
    &&& y_start + Y_SPACING * leaf_count(n) <= i64::MAX
}

/// Whether the layout of a forest from `x` and `y_start` stays within `i64`.
pub open spec fn forest_fits(s: Seq<NodeView>, x: int, y_start: int) -> bool {
    &&& x + X_SPACING * forest_depth(s) <= i64::MAX
    &&& Y_SPACING * forest_leaf_count(s) <= i64::MAX
    &&& y_start + Y_SPACING * forest_leaf_count(s) <= i64::MAX
}

/// A prefix of a forest has no more leaves and no more depth than the forest.
pub proof fn lemma_prefix_extent(s: Seq<NodeView>, k: int)
    requires
        0 <= k <= s.len(),
    ensures
        forest_leaf_count(s.take(k)) <= forest_leaf_count(s),
        forest_depth(s.take(k)) <= forest_depth(s),
        k < s.len() ==> forest_leaf_count(s.take(k)) + leaf_count(s[k]) <= forest_leaf_count(s),
        k < s.len() ==> tree_depth(s[k]) <= forest_depth(s),
    decreases s.len(),
{
    if k == s.len() {
        assert(s.take(k) =~= s);
    } else {
        let front = s.drop_last();
        assert(front.take(k) =~= s.take(k));
        lemma_prefix_extent(front, k);
        if k == front.len() {
            assert(front.take(k) =~= front);
        }
    }
}

/// Every tree has a leaf.
pub proof fn lemma_leaf_count_positive(n: NodeView)
    ensures
        leaf_count(n) >= 1,
    decreases n,
{
    if n.children.len() > 0 {
        lemma_leaf_count_positive(n.children.last());
    }
}

/// The forest laid out from the origin into an empty map, with no bound on
/// the numbers.
pub open spec fn exact_layout(s: Seq<NodeView>) -> Map<u32, Vec2> {
    forest_laid(Map::empty(), s, ORIGIN_X as int, ORIGIN_Y as int)
}

/// The positions of the forest's nodes in pre-order, laid out from the origin.
pub open spec fn layout_slots(s: Seq<NodeView>) -> Seq<Vec2> {
    forest_slots(s, ORIGIN_X as int, ORIGIN_Y as int)
}

/// The most nodes that ids of 32 bits can tell apart.
pub const MAX_NODES: u64 = 0x1_0000_0000;

/// A tree has no more leaves than nodes, and fewer levels below the root.
pub proof fn lemma_node_extent_bounded(n: NodeView)
    ensures
        leaf_count(n) <= node_ids(n).len(),
        tree_depth(n) < node_ids(n).len(),
    decreases n,
{
    lemma_forest_extent_bounded(n.children);
}

/// A forest has no more leaves than nodes, and no more levels.
pub proof fn lemma_forest_extent_bounded(s: Seq<NodeView>)
    ensures
        forest_leaf_count(s) <= forest_ids(s).len(),
        forest_depth(s) <= forest_ids(s).len(),
        s.len() > 0 ==> forest_depth(s) < forest_ids(s).len(),
    decreases s,
{
    if s.len() > 0 {
        lemma_forest_extent_bounded(s.drop_last());
        lemma_node_extent_bounded(s.last());
    }
}

/// The layout of a forest of at most `MAX_NODES` nodes from the origin
/// stays within `i64`.
pub proof fn lemma_bounded_forest_fits(s: Seq<NodeView>)
    requires
        forest_ids(s).len() <= MAX_NODES,
    ensures
        forest_fits(s, ORIGIN_X as int, ORIGIN_Y as int),
{
    lemma_forest_extent_bounded(s);
    let leaves = forest_leaf_count(s) as int;
    let depth = forest_depth(s) as int;
    assert(X_SPACING * depth <= X_SPACING * MAX_NODES && Y_SPACING * leaves <= Y_SPACING
        * MAX_NODES) by (nonlinear_arith)
        requires
            0 <= depth <= MAX_NODES,
            0 <= leaves <= MAX_NODES,
    ;
}

/// Two sequences that hold no value twice when put in a row hold none twice
/// each, and share none.
pub proof fn lemma_no_duplicates_split(a: Seq<u32>, b: Seq<u32>)
    requires
        (a + b).no_duplicates(),
    ensures
        a.no_duplicates(),
        b.no_duplicates(),
        forall|i: int, j: int| 0 <= i < a.len() && 0 <= j < b.len() ==> a[i] != b[j],
{
    let ab = a + b;
    assert forall|i: int, j: int| 0 <= i < a.len() && 0 <= j < a.len() && i != j implies a[i]
        != a[j] by {
        assert(ab[i] == a[i] && ab[j] == a[j]);
    }
    assert forall|i: int, j: int| 0 <= i < b.len() && 0 <= j < b.len() && i != j implies b[i]
        != b[j] by {
        assert(ab[a.len() + i] == b[i] && ab[a.len() + j] == b[j]);
    }
    assert forall|i: int, j: int| 0 <= i < a.len() && 0 <= j < b.len() implies a[i] != b[j] by {
        assert(ab[i] == a[i] && ab[a.len() + j] == b[j]);
    }
}

/// What laying out a tree leaves in the map, where no id occurs twice in
/// the tree: every node's id leads to the node's own position, and every
/// other key to what it led to before.
pub proof fn lemma_node_laid(m: Map<u32, Vec2>, n: NodeView, x: int, y: int)
    requires
        node_ids(n).no_duplicates(),
    ensures
        node_slots(n, x, y).len() == node_ids(n).len(),
        node_laid(m, n, x, y, y).dom() == m.dom().union(node_ids(n).to_set()),
        forall|k: int|
            0 <= k < node_ids(n).len() ==> node_laid(m, n, x, y, y)[#[trigger] node_ids(n)[k]]
                == node_slots(n, x, y)[k],
        forall|key: u32|
            !node_ids(n).contains(key) && m.contains_key(key) ==> #[trigger] node_laid(
                m,
                n,
                x,
                y,
                y,
            )[key] == m[key],
    decreases n,
{
    let below = forest_ids(n.children);
    let inner = forest_laid(m, n.children, x + X_SPACING, y);
    let placed = node_laid(m, n, x, y, y);
    lemma_no_duplicates_split(seq![n.id], below);
    lemma_forest_laid(m, n.children, x + X_SPACING, y);
    assert(placed == inner.insert(n.id, anchor(n, x, y))) by {
        if n.children.len() == 0 {
            assert(leaf_count(n) == 1);
            assert((Y_SPACING / 2) * (leaf_count(n) - 1) == 0) by (nonlinear_arith)
                requires
                    leaf_count(n) == 1,
            ;
        }
    }
    assert forall|k: int| 0 <= k < node_ids(n).len() implies placed[#[trigger] node_ids(n)[k]]
        == node_slots(n, x, y)[k] by {
        if k > 0 {
            assert(node_ids(n)[k] == below[k - 1]);
            assert(seq![n.id][0] != below[k - 1]);
        }
    }
    assert forall|key: u32|
        !node_ids(n).contains(key) && m.contains_key(key) implies #[trigger] placed[key]
        == m[key] by {
        assert(node_ids(n)[0] == n.id);
        if below.contains(key) {
            let j = choose|j: int| 0 <= j < below.len() && below[j] == key;
            assert(node_ids(n)[j + 1] == key);
        }
    }
    assert forall|key: u32|
        placed.dom().contains(key) <==> m.dom().union(node_ids(n).to_set()).contains(key) by {
        assert(node_ids(n)[0] == n.id);
        assert(node_ids(n).to_set().contains(key) <==> node_ids(n).contains(key));
        assert(below.to_set().contains(key) <==> below.contains(key));
        if below.contains(key) {
            let j = choose|j: int| 0 <= j < below.len() && below[j] == key;
            assert(node_ids(n)[j + 1] == key);
        }
        if node_ids(n).contains(key) {
            let j = choose|j: int| 0 <= j < node_ids(n).len() && node_ids(n)[j] == key;
            if j > 0 {
                assert(below[j - 1] == key);
            }
        }
    }
    assert(placed.dom() =~= m.dom().union(node_ids(n).to_set()));
}

/// What laying out a forest leaves in the map, where no id occurs twice in
/// the forest.
pub proof fn lemma_forest_laid(m: Map<u32, Vec2>, s: Seq<NodeView>, x: int, y: int)
    requires
        forest_ids(s).no_duplicates(),
    ensures
        forest_slots(s, x, y).len() == forest_ids(s).len(),
        forest_laid(m, s, x, y).dom() == m.dom().union(forest_ids(s).to_set()),
        forall|k: int|
            0 <= k < forest_ids(s).len() ==> forest_laid(m, s, x, y)[#[trigger] forest_ids(
                s,
            )[k]] == forest_slots(s, x, y)[k],
        forall|key: u32|
            !forest_ids(s).contains(key) && m.contains_key(key) ==> #[trigger] forest_laid(
                m,
                s,
                x,
                y,
            )[key] == m[key],
    decreases s,
{
    if s.len() == 0 {
        assert(forest_laid(m, s, x, y).dom() =~= m.dom().union(forest_ids(s).to_set()));
    } else {
        let front = s.drop_last();
        let last = s.last();
        let ids = forest_ids(s);
        let fids = forest_ids(front);
        let lids = node_ids(last);
        let row = y + Y_SPACING * forest_leaf_count(front);
        let before = forest_laid(m, front, x, y);
        let placed = forest_laid(m, s, x, y);
        lemma_no_duplicates_split(fids, lids);
        lemma_forest_laid(m, front, x, y);
        lemma_node_laid(before, last, x, row);
        assert forall|k: int| 0 <= k < ids.len() implies placed[#[trigger] ids[k]] == forest_slots(
            s,
            x,
            y,
        )[k] by {
            if k < fids.len() {
                assert(ids[k] == fids[k]);
                if lids.contains(fids[k]) {
                    let j = choose|j: int| 0 <= j < lids.len() && lids[j] == fids[k];
                    assert(fids[k] != lids[j]);
                }
            } else {
                assert(ids[k] == lids[k - fids.len()]);
            }
        }
        assert forall|key: u32|
            !ids.contains(key) && m.contains_key(key) implies #[trigger] placed[key]
            == m[key] by {
            if lids.contains(key) {
                let j = choose|j: int| 0 <= j < lids.len() && lids[j] == key;
                assert(ids[fids.len() + j] == key);
            }
            if fids.contains(key) {
                let j = choose|j: int| 0 <= j < fids.len() && fids[j] == key;
                assert(ids[j] == key);
            }
        }
        assert forall|key: u32|
            placed.dom().contains(key) <==> m.dom().union(ids.to_set()).contains(key) by {
            assert(ids.to_set().contains(key) <==> ids.contains(key));
            assert(fids.to_set().contains(key) <==> fids.contains(key));
            assert(lids.to_set().contains(key) <==> lids.contains(key));
            if lids.contains(key) {
                let j = choose|j: int| 0 <= j < lids.len() && lids[j] == key;
                assert(ids[fids.len() + j] == key);
            }
            if fids.contains(key) {
                let j = choose|j: int| 0 <= j < fids.len() && fids[j] == key;
                assert(ids[j] == key);
            }
            if ids.contains(key) {
                let j = choose|j: int| 0 <= j < ids.len() && ids[j] == key;
                if j < fids.len() {
                    assert(fids[j] == key);
                } else {
                    assert(lids[j - fids.len()] == key);
                }
            }
        }
        assert(placed.dom() =~= m.dom().union(ids.to_set()));
    }
}

/// Where no id occurs twice, the exact layout holds exactly one position
/// for every node and nothing else.
pub proof fn lemma_exact_complete(s: Seq<NodeView>)
    requires
        forest_ids(s).no_duplicates(),
    ensures
        exact_layout(s).dom() == forest_ids(s).to_set(),
        exact_layout(s).dom().finite(),
        exact_layout(s).dom().len() == forest_ids(s).len(),
        layout_slots(s).len() == forest_ids(s).len(),
        forall|k: int|
            0 <= k < forest_ids(s).len() ==> exact_layout(s)[#[trigger] forest_ids(s)[k]]
                == layout_slots(s)[k],
{
    lemma_forest_laid(Map::empty(), s, ORIGIN_X as int, ORIGIN_Y as int);
    assert(Map::<u32, Vec2>::empty().dom().union(forest_ids(s).to_set()) =~= forest_ids(
        s,
    ).to_set());
    forest_ids(s).unique_seq_to_set();
    vstd::seq_lib::seq_to_set_is_finite(forest_ids(s));
}

/// Whether two positions are a full column or a full row apart.
pub open spec fn apart(a: Vec2, b: Vec2) -> bool {
    ||| a.x - b.x >= X_SPACING
    ||| b.x - a.x >= X_SPACING
    ||| a.y - b.y >= Y_SPACING
    ||| b.y - a.y >= Y_SPACING
}

/// The positions of a tree: the root in column `x`, all others at least a
/// column further right, all within the rows of the tree's leaves, and any
/// two of them a full column or a full row apart.
pub proof fn lemma_node_slots_apart(n: NodeView, x: int, y: int)
    requires
        i64::MIN <= x,
        i64::MIN <= y,
        tree_fits(n, x, y),
    ensures
        node_slots(n, x, y).len() >= 1,
        node_slots(n, x, y)[0].x == x,
        forall|k: int|
            0 < k < node_slots(n, x, y).len() ==> (#[trigger] node_slots(n, x, y)[k]).x >= x
                + X_SPACING,
        forall|k: int|
            0 <= k < node_slots(n, x, y).len() ==> y <= (#[trigger] node_slots(n, x, y)[k]).y <= y
                + Y_SPACING * (leaf_count(n) - 1),
        forall|j: int, k: int|
            0 <= j < k < node_slots(n, x, y).len() ==> apart(
                #[trigger] node_slots(n, x, y)[j],
                #[trigger] node_slots(n, x, y)[k],
            ),
    decreases n,
{
    let slots = node_slots(n, x, y);
    let below = forest_slots(n.children, x + X_SPACING, y);
    let leaves = leaf_count(n) as int;
    lemma_leaf_count_positive(n);
    assert(0 <= (Y_SPACING / 2) * (leaves - 1) <= Y_SPACING * (leaves - 1) <= Y_SPACING * leaves)
        by (nonlinear_arith)
        requires
            leaves >= 1,
    ;
    assert(X_SPACING * tree_depth(n) >= 0) by (nonlinear_arith);
    if n.children.len() > 0 {
        assert(X_SPACING * (1 + forest_depth(n.children)) == X_SPACING + X_SPACING * forest_depth(
            n.children,
        )) by (nonlinear_arith);
        lemma_forest_slots_apart(n.children, x + X_SPACING, y);
    }
    assert forall|k: int| 0 < k < slots.len() implies (#[trigger] slots[k]).x >= x + X_SPACING by {
        assert(slots[k] == below[k - 1]);
    }
    assert forall|k: int| 0 <= k < slots.len() implies y <= (#[trigger] slots[k]).y <= y
        + Y_SPACING * (leaves - 1) by {
        if k > 0 {
            assert(slots[k] == below[k - 1]);
        }
    }
    assert forall|j: int, k: int| 0 <= j < k < slots.len() implies apart(
        #[trigger] slots[j],
        #[trigger] slots[k],
    ) by {
        assert(slots[k] == below[k - 1]);
        if j > 0 {
            assert(slots[j] == below[j - 1]);
        }
    }
}

/// The positions of a forest: none left of column `x`, all within the rows
/// of the forest's leaves, and any two of them a full column or a full row
/// apart.
pub proof fn lemma_forest_slots_apart(s: Seq<NodeView>, x: int, y: int)
    requires
        i64::MIN <= x,
        i64::MIN <= y,
        forest_fits(s, x, y),
    ensures
        forall|k: int|
            0 <= k < forest_slots(s, x, y).len() ==> (#[trigger] forest_slots(s, x, y)[k]).x >= x,
        forall|k: int|
            0 <= k < forest_slots(s, x, y).len() ==> y <= (#[trigger] forest_slots(s, x, y)[k]).y
                <= y + Y_SPACING * forest_leaf_count(s) - Y_SPACING,
        forall|j: int, k: int|
            0 <= j < k < forest_slots(s, x, y).len() ==> apart(
                #[trigger] forest_slots(s, x, y)[j],
                #[trigger] forest_slots(s, x, y)[k],
            ),
    decreases s,
{
    if s.len() > 0 {
        let front = s.drop_last();
        let last = s.last();
        let slots = forest_slots(s, x, y);
        let fs = forest_slots(front, x, y);
        let before = forest_leaf_count(front) as int;
        let leaves = leaf_count(last) as int;
        let row = y + Y_SPACING * before;
        let ls = node_slots(last, x, row);
        assert(s.take(s.len() - 1) =~= front);
        lemma_prefix_extent(s, s.len() - 1);
        assert(0 <= X_SPACING * tree_depth(last) <= X_SPACING * forest_depth(s) && 0 <= X_SPACING
            * forest_depth(front) <= X_SPACING * forest_depth(s)) by (nonlinear_arith)
            requires
                tree_depth(last) <= forest_depth(s),
                forest_depth(front) <= forest_depth(s),
        ;
        assert(Y_SPACING * (before + leaves) == Y_SPACING * before + Y_SPACING * leaves && 0
            <= Y_SPACING * before && 0 <= Y_SPACING * leaves && Y_SPACING * (leaves - 1)
            == Y_SPACING * leaves - Y_SPACING) by (nonlinear_arith)
            requires
                before >= 0,
                leaves >= 0,
        ;
        lemma_forest_slots_apart(front, x, y);
        lemma_node_slots_apart(last, x, row);
        assert forall|k: int| 0 <= k < slots.len() implies (#[trigger] slots[k]).x >= x && y
            <= slots[k].y <= y + Y_SPACING * forest_leaf_count(s) - Y_SPACING by {
            if k < fs.len() {
                assert(slots[k] == fs[k]);
            } else {
                assert(slots[k] == ls[k - fs.len()]);
            }
        }
        assert forall|j: int, k: int| 0 <= j < k < slots.len() implies apart(
            #[trigger] slots[j],
            #[trigger] slots[k],
        ) by {
            if k < fs.len() {
                assert(slots[j] == fs[j] && slots[k] == fs[k]);
            } else if j < fs.len() {
                assert(slots[j] == fs[j] && slots[k] == ls[k - fs.len()]);
            } else {
                assert(slots[j] == ls[j - fs.len()] && slots[k] == ls[k - fs.len()]);
            }
        }
    }
}

/// A sequence of 32-bit ids that holds none twice has at most `MAX_NODES`
/// entries.
pub proof fn lemma_distinct_ids_bounded(ids: Seq<u32>)
    requires
        ids.no_duplicates(),
    ensures
        ids.len() <= MAX_NODES,
{
    let wide = ids.map_values(|id: u32| id as int);
    assert forall|i: int, j: int|
        0 <= i < wide.len() && 0 <= j < wide.len() && i != j implies wide[i] != wide[j] by {
        assert(ids[i] != ids[j]);
    }
    wide.unique_seq_to_set();
    vstd::set_lib::lemma_int_range(0, MAX_NODES as int);
    assert forall|v: int| wide.to_set().contains(v) implies set_int_range(
        0,
        MAX_NODES as int,
    ).contains(v) by {
        let i = choose|i: int| 0 <= i < wide.len() && wide[i] == v;
        assert(wide[i] == ids[i] as int);
    }
    vstd::set_lib::lemma_len_subset(wide.to_set(), set_int_range(0, MAX_NODES as int));
}

/// The layout of a forest in which no id occurs twice stays within `i64`.
pub proof fn lemma_distinct_forest_fits(s: Seq<NodeView>)
    requires
        forest_ids(s).no_duplicates(),
    ensures
        forest_fits(s, ORIGIN_X as int, ORIGIN_Y as int),
{
    lemma_distinct_ids_bounded(forest_ids(s));
    lemma_bounded_forest_fits(s);
}

/// Where no id occurs twice, the exact positions of any two nodes are a
/// full column or a full row apart.
pub proof fn lemma_exact_apart(s: Seq<NodeView>, j: int, k: int)
    requires
        forest_ids(s).no_duplicates(),
        0 <= j < forest_ids(s).len(),
        0 <= k < forest_ids(s).len(),
        j != k,
    ensures
        apart(exact_layout(s)[forest_ids(s)[j]], exact_layout(s)[forest_ids(s)[k]]),
{
    lemma_exact_complete(s);
    lemma_distinct_forest_fits(s);
    lemma_forest_slots_apart(s, ORIGIN_X as int, ORIGIN_Y as int);
    let slots = layout_slots(s);
    if j < k {
        assert(apart(slots[j], slots[k]));
    } else {
        assert(apart(slots[k], slots[j]));
    }
}

/// Within the bounds, laying out a tree gives the exact layout: no sum is
/// held back.
pub proof fn lemma_node_exact(m: Map<u32, Vec2>, n: NodeView, x: i64, y: i64, cursor: i64)
    requires
        tree_fits(n, x as int, y as int),
    ensures
        tree_height(n) == Y_SPACING * leaf_count(n),
        node_placed(m, n, x, y, cursor) == node_laid(m, n, x as int, y as int, cursor as int),
    decreases n,
{
    let leaves = leaf_count(n) as int;
    lemma_leaf_count_positive(n);
    if n.children.len() > 0 {
        assert(X_SPACING * (1 + forest_depth(n.children)) == X_SPACING + X_SPACING * forest_depth(
            n.children,
        ) && X_SPACING * forest_depth(n.children) >= 0) by (nonlinear_arith);
        lemma_forest_exact(m, n.children, (x + X_SPACING) as i64, y);
        assert((Y_SPACING * leaves) / 2 == (Y_SPACING / 2) * leaves && (Y_SPACING / 2) * (leaves
            - 1) == (Y_SPACING / 2) * leaves - Y_SPACING / 2 && 0 <= (Y_SPACING / 2) * leaves
            <= Y_SPACING * leaves) by (nonlinear_arith)
            requires
                leaves >= 1,
                Y_SPACING == 120000,
        ;
    } else {
        assert(forest_laid(m, n.children, x + X_SPACING, y as int) == m);
    }
}

/// Within the bounds, laying out a forest gives the exact layout.
pub proof fn lemma_forest_exact(m: Map<u32, Vec2>, s: Seq<NodeView>, x: i64, y: i64)
    requires
        forest_fits(s, x as int, y as int),
    ensures
        forest_height(s) == Y_SPACING * forest_leaf_count(s),
        row_after(s, y) == y + Y_SPACING * forest_leaf_count(s),
        forest_placed(m, s, x, y) == forest_laid(m, s, x as int, y as int),
    decreases s,
{
    if s.len() > 0 {
        let front = s.drop_last();
        let last = s.last();
        let before = forest_leaf_count(front) as int;
        let leaves = leaf_count(last) as int;
        assert(s.take(s.len() - 1) =~= front);
        lemma_prefix_extent(s, s.len() - 1);
        assert(0 <= X_SPACING * tree_depth(last) <= X_SPACING * forest_depth(s) && 0 <= X_SPACING
            * forest_depth(front) <= X_SPACING * forest_depth(s)) by (nonlinear_arith)
            requires
                tree_depth(last) <= forest_depth(s),
                forest_depth(front) <= forest_depth(s),
        ;
        assert(Y_SPACING * (before + leaves) == Y_SPACING * before + Y_SPACING * leaves && 0
            <= Y_SPACING * before && 0 <= Y_SPACING * leaves) by (nonlinear_arith)
            requires
                before >= 0,
                leaves >= 0,
        ;
        lemma_forest_exact(m, front, x, y);
        let row = row_after(front, y);
        lemma_node_exact(forest_placed(m, front, x, y), last, x, row, row);
    }
}

/// A forest in which no id occurs twice is laid out exactly.
pub proof fn lemma_distinct_layout_exact(s: Seq<NodeView>)
    requires
        forest_ids(s).no_duplicates(),
    ensures
        layout_map(s) == exact_layout(s),
{
    lemma_distinct_forest_fits(s);
    lemma_forest_exact(Map::empty(), s, ORIGIN_X, ORIGIN_Y);
}

} // verus!
