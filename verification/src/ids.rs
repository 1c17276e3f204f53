//! How the ids of a forest, in pre-order, follow its structure: through
//! lookup, replacement and deletion.

use crate::model::{
    NodeView, forest_find, forest_ids, forest_replace, node_find, node_ids, node_replace,
    with_child,
};
use crate::tree::{
    below_index, forest_delete, lemma_find_prefix, lemma_find_some, lemma_find_step, root_index,
};
use vstd::prelude::*;

verus! {

/// A value occurs in two sequences in a row exactly if it occurs in one.
pub proof fn lemma_contains_concat(a: Seq<u32>, b: Seq<u32>, x: u32)
    ensures
        (a + b).contains(x) <==> a.contains(x) || b.contains(x),
{
    if a.contains(x) {
        let i = choose|i: int| 0 <= i < a.len() && a[i] == x;
        assert((a + b)[i] == x);
    }
    if b.contains(x) {
        let i = choose|i: int| 0 <= i < b.len() && b[i] == x;
        assert((a + b)[a.len() + i] == x);
    }
    if (a + b).contains(x) {
        let i = choose|i: int| 0 <= i < (a + b).len() && (a + b)[i] == x;
        if i < a.len() {
            assert(a[i] == x);
        } else {
            assert(b[i - a.len()] == x);
        }
    }
}

/// The ids of a forest with one more tree at its end.
pub proof fn lemma_forest_ids_push(s: Seq<NodeView>, n: NodeView)
    ensures
        forest_ids(s.push(n)) == forest_ids(s) + node_ids(n),
{
    assert(s.push(n).drop_last() =~= s);
}

/// The ids of one more tree follow those of the prefix.
pub proof fn lemma_ids_step(s: Seq<NodeView>, k: int)
    requires
        0 <= k < s.len(),
    ensures
        forest_ids(s.take(k + 1)) == forest_ids(s.take(k)) + node_ids(s[k]),
{
    assert(s.take(k + 1).drop_last() =~= s.take(k));
    assert(s.take(k + 1).last() == s[k]);
}

/// The ids of two forests in a row.
pub proof fn lemma_forest_ids_concat(a: Seq<NodeView>, b: Seq<NodeView>)
    ensures
        forest_ids(a + b) == forest_ids(a) + forest_ids(b),
    decreases b.len(),
{
    if b.len() == 0 {
        assert(a + b =~= a);
        assert(forest_ids(a) + forest_ids(b) =~= forest_ids(a));
    } else {
        assert((a + b).drop_last() =~= a + b.drop_last());
        lemma_forest_ids_concat(a, b.drop_last());
        assert(forest_ids(a + b) =~= forest_ids(a) + forest_ids(b));
    }
}

/// The ids of a forest of one tree.
pub proof fn lemma_forest_ids_single(n: NodeView)
    ensures
        forest_ids(seq![n]) == node_ids(n),
{
    assert(seq![n].drop_last() =~= Seq::<NodeView>::empty());
    assert(forest_ids(Seq::<NodeView>::empty()) =~= Seq::<u32>::empty());
    assert(seq![n].last() == n);
    assert(forest_ids(seq![n]) =~= node_ids(n));
}

/// The ids of a forest around its tree at `k`, and what they become when
/// that tree is removed or exchanged.
pub proof fn lemma_forest_ids_at(s: Seq<NodeView>, k: int)
    requires
        0 <= k < s.len(),
    ensures
        forest_ids(s) == forest_ids(s.take(k)) + node_ids(s[k]) + forest_ids(s.skip(k + 1)),
        forest_ids(s.remove(k)) == forest_ids(s.take(k)) + forest_ids(s.skip(k + 1)),
        forall|n: NodeView| #[trigger]
            forest_ids(s.update(k, n)) == forest_ids(s.take(k)) + node_ids(n) + forest_ids(
                s.skip(k + 1),
            ),
{
    let front = s.take(k);
    let back = s.skip(k + 1);
    assert(s =~= front + seq![s[k]] + back);
    lemma_forest_ids_concat(front + seq![s[k]], back);
    lemma_forest_ids_concat(front, seq![s[k]]);
    lemma_forest_ids_single(s[k]);
    assert(s.remove(k) =~= front + back);
    lemma_forest_ids_concat(front, back);
    assert forall|n: NodeView| #[trigger]
        forest_ids(s.update(k, n)) == forest_ids(front) + node_ids(n) + forest_ids(back) by {
        assert(s.update(k, n) =~= front + seq![n] + back);
        lemma_forest_ids_concat(front + seq![n], back);
        lemma_forest_ids_concat(front, seq![n]);
        lemma_forest_ids_single(n);
    }
}

/// A tree holds an id exactly if a lookup of the id in it succeeds.
pub proof fn lemma_node_find_ids(n: NodeView, id: u32)
    ensures
        node_find(n, id) is Some <==> node_ids(n).contains(id),
        node_find(n, id) is Some ==> node_find(n, id)->0.id == id,
    decreases n,
{
    lemma_forest_find_ids(n.children, id);
    lemma_contains_concat(seq![n.id], forest_ids(n.children), id);
    if n.id == id {
        assert(seq![n.id][0] == id);
    }
}

/// A forest holds an id exactly if a lookup of the id in it succeeds, and
/// what is found carries the id.
pub proof fn lemma_forest_find_ids(s: Seq<NodeView>, id: u32)
    ensures
        forest_find(s, id) is Some <==> forest_ids(s).contains(id),
        forest_find(s, id) is Some ==> forest_find(s, id)->0.id == id,
    decreases s,
{
    if s.len() > 0 {
        lemma_forest_find_ids(s.drop_last(), id);
        lemma_node_find_ids(s.last(), id);
        lemma_contains_concat(forest_ids(s.drop_last()), node_ids(s.last()), id);
    }
}

/// Replacing the node found under `id` by `with` exchanges that node's ids
/// for those of `with`, where they stand: the ids before and after them, the
/// two sequences returned, stay.
pub proof fn lemma_node_replace_ids(n: NodeView, id: u32, with: NodeView) -> (around: (
    Seq<u32>,
    Seq<u32>,
))
    requires
        node_find(n, id) is Some,
    ensures
        node_ids(n) == around.0 + node_ids(node_find(n, id)->0) + around.1,
        node_ids(node_replace(n, id, with)) == around.0 + node_ids(with) + around.1,
    decreases n,
{
    if n.id == id {
        let empty = Seq::<u32>::empty();
        assert(node_ids(n) =~= empty + node_ids(n) + empty);
        assert(node_ids(with) =~= empty + node_ids(with) + empty);
        (empty, empty)
    } else {
        let below = lemma_forest_replace_ids(n.children, id, with);
        let before = seq![n.id] + below.0;
        assert(node_ids(n) =~= before + node_ids(node_find(n, id)->0) + below.1);
        assert(node_ids(node_replace(n, id, with)) =~= before + node_ids(with) + below.1);
        (before, below.1)
    }
}

/// Replacing the node found under `id` in a forest by `with` exchanges that
/// node's ids for those of `with`, where they stand.
pub proof fn lemma_forest_replace_ids(s: Seq<NodeView>, id: u32, with: NodeView) -> (around: (
    Seq<u32>,
    Seq<u32>,
))
    requires
        forest_find(s, id) is Some,
    ensures
        forest_ids(s) == around.0 + node_ids(forest_find(s, id)->0) + around.1,
        forest_ids(forest_replace(s, id, with)) == around.0 + node_ids(with) + around.1,
    decreases s,
{
    let front = s.drop_last();
    let last = s.last();
    let found = forest_find(s, id)->0;
    if forest_find(front, id) is Some {
        let inner = lemma_forest_replace_ids(front, id, with);
        let after = inner.1 + node_ids(last);
        lemma_forest_ids_push(forest_replace(front, id, with), last);
        assert(forest_ids(s) =~= inner.0 + node_ids(found) + after);
        assert(forest_ids(forest_replace(s, id, with)) =~= inner.0 + node_ids(with) + after);
        (inner.0, after)
    } else {
        let inner = lemma_node_replace_ids(last, id, with);
        let before = forest_ids(front) + inner.0;
        lemma_forest_ids_push(front, node_replace(last, id, with));
        assert(forest_ids(s) =~= before + node_ids(found) + inner.1);
        assert(forest_ids(forest_replace(s, id, with)) =~= before + node_ids(with) + inner.1);
        (before, inner.1)
    }
}

/// What `root_index` is: no root before it carries the id, and the root at
/// it, if there is one, does.
pub proof fn lemma_root_index_is(s: Seq<NodeView>, id: u32)
    ensures
        root_index(s, id) <= s.len(),
        forall|j: int| 0 <= j < root_index(s, id) ==> (#[trigger] s[j]).id != id,
        root_index(s, id) < s.len() ==> s[root_index(s, id) as int].id == id,
    decreases s.len(),
{
    if s.len() > 0 && s[0].id != id {
        let rest = s.skip(1);
        lemma_root_index_is(rest, id);
        assert forall|j: int| 0 <= j < root_index(s, id) implies (#[trigger] s[j]).id != id by {
            if j > 0 {
                assert(s[j] == rest[j - 1]);
            }
        }
        if root_index(s, id) < s.len() {
            assert(s[root_index(s, id) as int] == rest[root_index(rest, id) as int]);
        }
    }
}

/// What `below_index` is: no tree before it holds the id below its root,
/// and the tree at it, if there is one, does.
pub proof fn lemma_below_index_is(s: Seq<NodeView>, id: u32)
    ensures
        below_index(s, id) <= s.len(),
        forall|j: int|
            0 <= j < below_index(s, id) ==> forest_find((#[trigger] s[j]).children, id) is None,
        below_index(s, id) < s.len() ==> forest_find(
            s[below_index(s, id) as int].children,
            id,
        ) is Some,
    decreases s.len(),
{
    if s.len() > 0 && forest_find(s[0].children, id) is None {
        let rest = s.skip(1);
        lemma_below_index_is(rest, id);
        assert forall|j: int| 0 <= j < below_index(s, id) implies forest_find(
            (#[trigger] s[j]).children,
            id,
        ) is None by {
            if j > 0 {
                assert(s[j] == rest[j - 1]);
            }
        }
        if below_index(s, id) < s.len() {
            assert(s[below_index(s, id) as int] == rest[below_index(rest, id) as int]);
        }
    }
}

/// Deleting an id that occurs removes the ids of one node that carries it,
/// the node returned, from where they stand: the ids before and after them,
/// the two sequences returned, stay. Where no id occurs twice, that node is
/// the one that a lookup of the id finds.
pub proof fn lemma_forest_delete_ids(s: Seq<NodeView>, id: u32) -> (cut: (
    Seq<u32>,
    NodeView,
    Seq<u32>,
))
    requires
        forest_find(s, id) is Some,
    ensures
        cut.1.id == id,
        forest_ids(s) == cut.0 + node_ids(cut.1) + cut.2,
        forest_ids(forest_delete(s, id)) == cut.0 + cut.2,
        forest_ids(s).no_duplicates() ==> forest_find(s, id) == Some(cut.1),
    decreases s,
{
    lemma_root_index_is(s, id);
    lemma_below_index_is(s, id);
    lemma_find_some(s, id);
    let r = root_index(s, id) as int;
    let b = below_index(s, id) as int;
    if r < s.len() {
        lemma_forest_ids_at(s, r);
        let before = forest_ids(s.take(r));
        let after = forest_ids(s.skip(r + 1));
        if forest_ids(s).no_duplicates() {
            if forest_find(s.take(r), id) is Some {
                lemma_forest_find_ids(s.take(r), id);
                let i = choose|i: int| 0 <= i < before.len() && before[i] == id;
                assert(forest_ids(s)[i] == id);
                assert(forest_ids(s)[before.len() as int] == node_ids(s[r])[0]);
            }
            lemma_find_step(s, r, id);
            lemma_find_prefix(s, r + 1, id);
        }
        (before, s[r], after)
    } else {
        let w = choose|i: int| 0 <= i < s.len() && node_find(#[trigger] s[i], id) is Some;
        assert(s[w].id != id);
        assert(b < s.len()) by {
            if b >= s.len() {
                assert(forest_find(s[w].children, id) is None);
            }
        }
        lemma_forest_ids_at(s, b);
        let inner = lemma_forest_delete_ids(s[b].children, id);
        let pruned = NodeView { children: forest_delete(s[b].children, id), ..s[b] };
        let before = forest_ids(s.take(b)) + seq![s[b].id] + inner.0;
        let after = inner.2 + forest_ids(s.skip(b + 1));
        assert(forest_ids(s) =~= before + node_ids(inner.1) + after);
        assert(forest_ids(forest_delete(s, id)) =~= before + after) by {
            assert(forest_delete(s, id) == s.update(b, pruned));
            assert(node_ids(pruned) =~= seq![s[b].id] + inner.0 + inner.2);
        }
        if forest_ids(s).no_duplicates() {
            let below = forest_ids(s[b].children);
            assert(below.no_duplicates()) by {
                let offset = forest_ids(s.take(b)).len() + 1;
                assert forall|i: int, j: int|
                    0 <= i < below.len() && 0 <= j < below.len() && i != j implies below[i]
                    != below[j] by {
                    assert(forest_ids(s)[offset + i] == below[i]);
                    assert(forest_ids(s)[offset + j] == below[j]);
                }
            }
            assert forall|j: int| 0 <= j < b implies node_find(
                #[trigger] s.take(b)[j],
                id,
            ) is None by {
                assert(s.take(b)[j] == s[j]);
            }
            lemma_find_some(s.take(b), id);
            lemma_find_step(s, b, id);
            lemma_find_prefix(s, b + 1, id);
        }
        (before, inner.1, after)
    }
}

/// Taking the middle out of a sequence that holds no value twice leaves a
/// sequence that holds none twice, and none of the middle's values.
pub proof fn lemma_distinct_without_middle(a: Seq<u32>, m: Seq<u32>, b: Seq<u32>)
    requires
        (a + m + b).no_duplicates(),
    ensures
        (a + b).no_duplicates(),
        m.no_duplicates(),
        forall|x: u32| m.contains(x) ==> !(a + b).contains(x),
        forall|x: u32| (a + b).contains(x) ==> (a + m + b).contains(x),
{
    let all = a + m + b;
    let rest = a + b;
    assert forall|i: int, j: int|
        0 <= i < rest.len() && 0 <= j < rest.len() && i != j implies rest[i] != rest[j] by {
        let wi = if i < a.len() {
            i
        } else {
            i + m.len()
        };
        let wj = if j < a.len() {
            j
        } else {
            j + m.len()
        };
        assert(all[wi] == rest[i] && all[wj] == rest[j]);
    }
    assert forall|i: int, j: int| 0 <= i < m.len() && 0 <= j < m.len() && i != j implies m[i]
        != m[j] by {
        assert(all[a.len() + i] == m[i] && all[a.len() + j] == m[j]);
    }
    assert forall|x: u32| m.contains(x) implies !rest.contains(x) by {
        let i = choose|i: int| 0 <= i < m.len() && m[i] == x;
        assert(all[a.len() + i] == x);
        if rest.contains(x) {
            let j = choose|j: int| 0 <= j < rest.len() && rest[j] == x;
            let wj = if j < a.len() {
                j
            } else {
                j + m.len()
            };
            assert(all[wj] == x);
        }
    }
    assert forall|x: u32| rest.contains(x) implies all.contains(x) by {
        let j = choose|j: int| 0 <= j < rest.len() && rest[j] == x;
        let wj = if j < a.len() {
            j
        } else {
            j + m.len()
        };
        assert(all[wj] == x);
    }
}

/// Putting a new value behind the middle of a sequence that holds no value
/// twice gives a sequence that holds none twice: the old values and the new
/// one.
pub proof fn lemma_distinct_with_one_more(a: Seq<u32>, m: Seq<u32>, b: Seq<u32>, x: u32)
    requires
        (a + m + b).no_duplicates(),
        !(a + m + b).contains(x),
    ensures
        (a + (m + seq![x]) + b).no_duplicates(),
        forall|y: u32|
            (a + (m + seq![x]) + b).contains(y) <==> y == x || (a + m + b).contains(y),
{
    let old_all = a + m + b;
    let all = a + (m + seq![x]) + b;
    let at = a.len() + m.len();
    assert forall|i: int| 0 <= i < all.len() && i != at implies #[trigger] all[i] != x && all[i]
        == old_all[if i < at {
        i
    } else {
        i - 1
    }] by {
        let w = if i < at {
            i
        } else {
            i - 1
        };
        assert(all[i] == old_all[w]);
        assert(old_all.contains(old_all[w]));
    }
    assert(all[at as int] == x);
    assert forall|i: int, j: int| 0 <= i < all.len() && 0 <= j < all.len() && i != j implies all[i]
        != all[j] by {
        if i != at && j != at {
            let wi = if i < at {
                i
            } else {
                i - 1
            };
            let wj = if j < at {
                j
            } else {
                j - 1
            };
            assert(old_all[wi] != old_all[wj]);
        }
    }
    assert forall|y: u32| all.contains(y) <==> y == x || old_all.contains(y) by {
        if all.contains(y) {
            let i = choose|i: int| 0 <= i < all.len() && all[i] == y;
            if i != at {
                assert(old_all.contains(y));
            }
        }
        if old_all.contains(y) {
            let i = choose|i: int| 0 <= i < old_all.len() && old_all[i] == y;
            let w = if i < at {
                i
            } else {
                i + 1
            };
            assert(all[w] == old_all[i]);
        }
    }
}

/// Deleting from a forest that holds no id twice leaves a forest that holds
/// none twice, and no id that was not there.
pub proof fn lemma_delete_keeps_distinct(s: Seq<NodeView>, id: u32)
    requires
        forest_ids(s).no_duplicates(),
    ensures
        forest_ids(forest_delete(s, id)).no_duplicates(),
        forall|x: u32| forest_ids(forest_delete(s, id)).contains(x) ==> forest_ids(s).contains(x),
{
    if forest_find(s, id) is Some {
        let cut = lemma_forest_delete_ids(s, id);
        lemma_distinct_without_middle(cut.0, node_ids(cut.1), cut.2);
    } else {
        crate::tree::lemma_delete_absent(s, id);
    }
}

/// Deleting a node takes its whole subtree along: in a forest that holds no
/// id twice, after the node found under `id` has been deleted, a lookup
/// fails for the id of every node of its subtree, its own among them, and
/// succeeds for every other id as before.
pub proof fn lemma_delete_cascades(s: Seq<NodeView>, id: u32)
    requires
        forest_ids(s).no_duplicates(),
        forest_find(s, id) is Some,
    ensures
        forest_find(forest_delete(s, id), id) is None,
        forall|d: u32|
            node_ids(forest_find(s, id)->0).contains(d) ==> forest_find(
                forest_delete(s, id),
                d,
            ) is None,
        forall|d: u32|
            !node_ids(forest_find(s, id)->0).contains(d) ==> (forest_find(
                forest_delete(s, id),
                d,
            ) is Some <==> forest_find(s, d) is Some),
{
    let cut = lemma_forest_delete_ids(s, id);
    let gone = node_ids(cut.1);
    let after = forest_delete(s, id);
    lemma_distinct_without_middle(cut.0, gone, cut.2);
    assert forall|d: u32| gone.contains(d) implies forest_find(after, d) is None by {
        lemma_forest_find_ids(after, d);
    }
    assert(gone[0] == id);
    assert(gone.contains(id));
    assert forall|d: u32| !gone.contains(d) implies (forest_find(after, d) is Some <==> forest_find(
        s,
        d,
    ) is Some) by {
        lemma_forest_find_ids(after, d);
        lemma_forest_find_ids(s, d);
        lemma_contains_concat(cut.0 + gone, cut.2, d);
        lemma_contains_concat(cut.0, gone, d);
        lemma_contains_concat(cut.0, cut.2, d);
    }
}

/// Adding a childless node under a new id to a forest that holds no id
/// twice gives a forest that holds none twice: the old ids and, if the
/// parent exists, the new one.
pub proof fn lemma_add_child_keeps_distinct(s: Seq<NodeView>, parent_id: u32, child: NodeView)
    requires
        forest_ids(s).no_duplicates(),
        child.children.len() == 0,
        !forest_ids(s).contains(child.id),
    ensures
        forest_ids(crate::tree::forest_add_child(s, parent_id, child)).no_duplicates(),
        forall|x: u32|
            forest_ids(crate::tree::forest_add_child(s, parent_id, child)).contains(x) ==> x
                == child.id || forest_ids(s).contains(x),
        forest_find(s, parent_id) is Some ==> forest_ids(
            crate::tree::forest_add_child(s, parent_id, child),
        ).contains(child.id),
{
    if forest_find(s, parent_id) is Some {
        let parent = forest_find(s, parent_id)->0;
        let grown = with_child(parent, child);
        let around = lemma_forest_replace_ids(s, parent_id, grown);
        lemma_forest_ids_push(parent.children, child);
        assert(node_ids(child) =~= seq![child.id]);
        assert(node_ids(grown) =~= node_ids(parent) + seq![child.id]);
        lemma_distinct_with_one_more(around.0, node_ids(parent), around.1, child.id);
    }
}

/// Adding a child takes no id away: what a lookup found before, a lookup
/// finds after.
pub proof fn lemma_add_child_keeps_ids(s: Seq<NodeView>, parent_id: u32, child: NodeView, x: u32)
    requires
        forest_find(s, x) is Some,
    ensures
        forest_find(crate::tree::forest_add_child(s, parent_id, child), x) is Some,
{
    let after = crate::tree::forest_add_child(s, parent_id, child);
    if forest_find(s, parent_id) is Some {
        let parent = forest_find(s, parent_id)->0;
        let grown = with_child(parent, child);
        let around = lemma_forest_replace_ids(s, parent_id, grown);
        lemma_forest_ids_push(parent.children, child);
        assert(node_ids(grown) =~= node_ids(parent) + node_ids(child));
        lemma_forest_find_ids(s, x);
        lemma_forest_find_ids(after, x);
        lemma_contains_concat(around.0 + node_ids(parent), around.1, x);
        lemma_contains_concat(around.0, node_ids(parent), x);
        lemma_contains_concat(around.0 + node_ids(grown), around.1, x);
        lemma_contains_concat(around.0, node_ids(grown), x);
        lemma_contains_concat(node_ids(parent), node_ids(child), x);
    }
}

/// What takes the place of the node found under `id` is found under `id`,
/// if it carries that id.
pub proof fn lemma_node_replace_found(n: NodeView, id: u32, with: NodeView)
    requires
        node_find(n, id) is Some,
        with.id == id,
    ensures
        node_find(node_replace(n, id, with), id) == Some(with),
    decreases n,
{
    if n.id != id {
        lemma_forest_replace_found(n.children, id, with);
    }
}

/// What takes the place of the node found under `id` in a forest is found
/// under `id`, if it carries that id.
pub proof fn lemma_forest_replace_found(s: Seq<NodeView>, id: u32, with: NodeView)
    requires
        forest_find(s, id) is Some,
        with.id == id,
    ensures
        forest_find(forest_replace(s, id, with), id) == Some(with),
    decreases s,
{
    let front = s.drop_last();
    if forest_find(front, id) is Some {
        lemma_forest_replace_found(front, id, with);
        assert(forest_replace(front, id, with).push(s.last()).drop_last() =~= forest_replace(
            front,
            id,
            with,
        ));
    } else {
        lemma_node_replace_found(s.last(), id, with);
        assert(front.push(node_replace(s.last(), id, with)).drop_last() =~= front);
    }
}

/// Exchanging a node for one with the same id and the same children leaves
/// the ids of the forest as they are.
pub proof fn lemma_replace_same_ids(s: Seq<NodeView>, id: u32, with: NodeView)
    requires
        forest_find(s, id) is Some,
        with.id == forest_find(s, id)->0.id,
        with.children == forest_find(s, id)->0.children,
    ensures
        forest_ids(forest_replace(s, id, with)) == forest_ids(s),
{
    let around = lemma_forest_replace_ids(s, id, with);
}

/// The ids of a tree of the forest are ids of the forest.
pub proof fn lemma_tree_ids_within(s: Seq<NodeView>, j: int, x: u32)
    requires
        0 <= j < s.len(),
        node_ids(s[j]).contains(x),
    ensures
        forest_ids(s).contains(x),
{
    lemma_forest_ids_at(s, j);
    lemma_contains_concat(forest_ids(s.take(j)) + node_ids(s[j]), forest_ids(s.skip(j + 1)), x);
    lemma_contains_concat(forest_ids(s.take(j)), node_ids(s[j]), x);
}

/// The ids of everything below a found node are ids of the tree.
pub proof fn lemma_node_found_within(n: NodeView, d: u32, x: u32)
    requires
        node_find(n, d) is Some,
        node_ids(node_find(n, d)->0).contains(x),
    ensures
        node_ids(n).contains(x),
    decreases n,
{
    if n.id != d {
        lemma_forest_found_within(n.children, d, x);
        lemma_contains_concat(seq![n.id], forest_ids(n.children), x);
    }
}

/// The ids of everything below a found node are ids of the forest.
pub proof fn lemma_forest_found_within(s: Seq<NodeView>, d: u32, x: u32)
    requires
        forest_find(s, d) is Some,
        node_ids(forest_find(s, d)->0).contains(x),
    ensures
        forest_ids(s).contains(x),
    decreases s,
{
    lemma_contains_concat(forest_ids(s.drop_last()), node_ids(s.last()), x);
    if forest_find(s.drop_last(), d) is Some {
        lemma_forest_found_within(s.drop_last(), d, x);
    } else {
        lemma_node_found_within(s.last(), d, x);
    }
}

/// In a forest that holds no id twice, no tree holds an id twice, nor do
/// the children of its root, and two trees share no id.
pub proof fn lemma_trees_distinct(s: Seq<NodeView>, j: int)
    requires
        forest_ids(s).no_duplicates(),
        0 <= j < s.len(),
    ensures
        node_ids(s[j]).no_duplicates(),
        forest_ids(s[j].children).no_duplicates(),
        forall|i: int, x: u32|
            0 <= i < s.len() && i != j && node_ids(s[j]).contains(x) ==> !(#[trigger] node_ids(
                s[i],
            ).contains(x)),
{
    let before = forest_ids(s.take(j));
    let after = forest_ids(s.skip(j + 1));
    lemma_forest_ids_at(s, j);
    lemma_distinct_without_middle(before, node_ids(s[j]), after);
    let empty = Seq::<u32>::empty();
    assert(seq![s[j].id] + forest_ids(s[j].children) + empty =~= node_ids(s[j]));
    lemma_distinct_without_middle(seq![s[j].id], forest_ids(s[j].children), empty);
    assert forall|i: int, x: u32|
        0 <= i < s.len() && i != j && node_ids(s[j]).contains(x) implies !(#[trigger] node_ids(
            s[i],
        ).contains(x)) by {
        if node_ids(s[i]).contains(x) {
            lemma_contains_concat(before, after, x);
            if i < j {
                assert(s.take(j)[i] == s[i]);
                lemma_tree_ids_within(s.take(j), i, x);
            } else {
                assert(s.skip(j + 1)[i - j - 1] == s[i]);
                lemma_tree_ids_within(s.skip(j + 1), i - j - 1, x);
            }
        }
    }
}

/// In a forest that holds no id twice, what is found in a tree is what is
/// found in the forest.
pub proof fn lemma_find_in_tree(s: Seq<NodeView>, j: int, d: u32)
    requires
        forest_ids(s).no_duplicates(),
        0 <= j < s.len(),
        node_find(s[j], d) is Some,
    ensures
        forest_find(s, d) == node_find(s[j], d),
{
    lemma_trees_distinct(s, j);
    lemma_node_find_ids(s[j], d);
    lemma_find_some(s.take(j), d);
    if forest_find(s.take(j), d) is Some {
        let i = choose|i: int|
            0 <= i < s.take(j).len() && node_find(#[trigger] s.take(j)[i], d) is Some;
        assert(s.take(j)[i] == s[i]);
        lemma_node_find_ids(s[i], d);
    }
    lemma_find_step(s, j, d);
    lemma_find_prefix(s, j + 1, d);
}

/// A node without what a deletion of `id` takes from below it.
pub open spec fn pruned(n: NodeView, id: u32) -> NodeView {
    NodeView { children: forest_delete(n.children, id), ..n }
}

/// A node that holds `id` nowhere below it loses nothing.
pub proof fn lemma_pruned_absent(n: NodeView, id: u32)
    requires
        forest_find(n.children, id) is None,
    ensures
        pruned(n, id) == n,
{
    crate::tree::lemma_delete_absent(n.children, id);
}

/// What is found in a tree that does not hold `id` holds `id` nowhere
/// below it.
pub proof fn lemma_found_apart(n: NodeView, d: u32, id: u32)
    requires
        node_find(n, d) is Some,
        !node_ids(n).contains(id),
    ensures
        forest_find(node_find(n, d)->0.children, id) is None,
{
    let found = node_find(n, d)->0;
    lemma_forest_find_ids(found.children, id);
    if forest_ids(found.children).contains(id) {
        lemma_contains_concat(seq![found.id], forest_ids(found.children), id);
        lemma_node_found_within(n, d, id);
    }
}

/// A deletion leaves every surviving node as it was, but for what it takes
/// from below the node: in a forest that holds no id twice, what a lookup
/// finds after the deletion of `id` is what it found before, with the same
/// label, shape, colour and rotation, and with the deletion made among its
/// children.
pub proof fn lemma_delete_keeps_survivors(s: Seq<NodeView>, id: u32, d: u32)
    requires
        forest_ids(s).no_duplicates(),
        forest_find(forest_delete(s, id), d) is Some,
    ensures
        forest_find(s, d) is Some,
        forest_find(forest_delete(s, id), d) == Some(pruned(forest_find(s, d)->0, id)),
    decreases s,
{
    let after = forest_delete(s, id);
    lemma_root_index_is(s, id);
    lemma_below_index_is(s, id);
    lemma_delete_keeps_distinct(s, id);
    lemma_find_some(after, d);
    let r = root_index(s, id) as int;
    let b = below_index(s, id) as int;
    let w = choose|i: int| 0 <= i < after.len() && node_find(#[trigger] after[i], d) is Some;
    lemma_find_in_tree(after, w, d);
    if r < s.len() {
        let j = if w < r {
            w
        } else {
            w + 1
        };
        assert(after[w] == s[j]);
        lemma_find_in_tree(s, j, d);
        lemma_trees_distinct(s, r);
        assert(node_ids(s[r])[0] == id);
        assert(node_ids(s[r]).contains(id));
        lemma_found_apart(s[j], d, id);
        lemma_pruned_absent(node_find(s[j], d)->0, id);
    } else if b < s.len() {
        if w == b {
            if d == s[b].id {
                lemma_find_in_tree(s, b, d);
            } else {
                lemma_trees_distinct(s, b);
                lemma_delete_keeps_survivors(s[b].children, id, d);
                lemma_find_in_tree(s, b, d);
            }
        } else {
            assert(after[w] == s[w]);
            lemma_find_in_tree(s, w, d);
            lemma_trees_distinct(s, b);
            lemma_forest_find_ids(s[b].children, id);
            lemma_contains_concat(seq![s[b].id], forest_ids(s[b].children), id);
            lemma_found_apart(s[w], d, id);
            lemma_pruned_absent(node_find(s[w], d)->0, id);
        }
    } else {
        assert(after[w] == s[w]);
        lemma_find_in_tree(s, w, d);
        lemma_find_some(s, id);
        lemma_forest_find_ids(s, id);
        if node_ids(s[w]).contains(id) {
            lemma_tree_ids_within(s, w, id);
        }
        lemma_found_apart(s[w], d, id);
        lemma_pruned_absent(node_find(s[w], d)->0, id);
    }
}

} // verus!
