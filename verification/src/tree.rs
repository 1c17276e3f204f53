//! Lookup and structural edits of the scene tree.

use crate::model::{
    NodeView, SceneObject, forest_find, forest_replace, forest_view, lemma_children_view, node_find,
    node_replace, node_view, with_child,
};
use vstd::prelude::*;

verus! {

/// The first object of the forest, in pre-order, that carries `id`.
pub fn find_object_by_id(objects: &Vec<SceneObject>, id: u32) -> (found: Option<&SceneObject>)
    ensures
        match found {
            Some(o) => forest_find(forest_view(objects@), id) == Some(node_view(*o)),
            None => forest_find(forest_view(objects@), id) is None,
        },
    decreases objects,
{
    let ghost views = forest_view(objects@);
    let mut i: usize = 0;
    while i < objects.len()
        invariant
            i <= objects.len(),
            views == forest_view(objects@),
            forest_find(views.take(i as int), id) is None,
        decreases objects.len() - i,
    {
        proof {
            lemma_children_view(objects@[i as int]);
            lemma_find_step(views, i as int, id);
        }
        if objects[i].id == id {
            proof {
                lemma_find_prefix(views, (i + 1) as int, id);
            }
            return Some(&objects[i]);
        }
        let below = find_object_by_id(&objects[i].children, id);
        if below.is_some() {
            proof {
                lemma_find_prefix(views, (i + 1) as int, id);
            }
            return below;
        }
        i += 1;
    }
    assert(views.take(i as int) =~= views);
    None
}

/// Whether `path` leads to the first node, in pre-order, that carries `id`:
/// index by index from the forest down through the children, past no tree
/// that holds `id`, to a node that carries it.
pub open spec fn leads_to(s: Seq<NodeView>, path: Seq<usize>, id: u32) -> bool
    decreases path.len(),
{
    &&& path.len() > 0
    &&& path[0] < s.len()
    &&& forest_find(s.take(path[0] as int), id) is None
    &&& if path.len() == 1 {
        s[path[0] as int].id == id
    } else {
        s[path[0] as int].id != id && leads_to(s[path[0] as int].children, path.skip(1), id)
    }
}

/// Where a path leads to, a lookup leads to as well.
pub proof fn lemma_leads_to_found(s: Seq<NodeView>, path: Seq<usize>, id: u32)
    requires
        leads_to(s, path, id),
    ensures
        forest_find(s, id) == node_find(s[path[0] as int], id),
        forest_find(s, id) is Some,
    decreases path.len(),
{
    let i = path[0] as int;
    if path.len() > 1 {
        lemma_leads_to_found(s[i].children, path.skip(1), id);
    }
    lemma_find_step(s, i, id);
    lemma_find_prefix(s, i + 1, id);
}

/// Searches the forest for the first object, in pre-order, that carries
/// `id`, and appends to `path` the indices that lead to it.
fn find_path(objects: &Vec<SceneObject>, id: u32, path: &mut Vec<usize>) -> (found: bool)
    ensures
        found == forest_find(forest_view(objects@), id) is Some,
        !found ==> final(path)@ == old(path)@,
        found ==> final(path)@.len() > old(path)@.len() && final(path)@.take(
            old(path)@.len() as int,
        ) == old(path)@ && leads_to(
            forest_view(objects@),
            final(path)@.skip(old(path)@.len() as int),
            id,
        ),
    decreases objects,
{
    let ghost views = forest_view(objects@);
    let ghost before = path@;
    let mut i: usize = 0;
    while i < objects.len()
        invariant
            i <= objects.len(),
            views == forest_view(objects@),
            path@ == before,
            before == old(path)@,
            forest_find(views.take(i as int), id) is None,
        decreases objects.len() - i,
    {
        proof {
            lemma_children_view(objects@[i as int]);
            lemma_find_step(views, i as int, id);
        }
        path.push(i);
        let ghost pushed = path@;
        assert(pushed == before.push(i));
        if objects[i].id == id {
            proof {
                lemma_find_prefix(views, (i + 1) as int, id);
                assert(path@.take(before.len() as int) =~= before);
                assert(path@.skip(before.len() as int) =~= seq![i]);
            }
            return true;
        }
        if find_path(&objects[i].children, id, path) {
            proof {
                lemma_find_prefix(views, (i + 1) as int, id);
                let whole = path@.skip(before.len() as int);
                assert(path@.take(pushed.len() as int) == pushed);
                assert forall|k: int| 0 <= k < pushed.len() implies path@[k] == pushed[k] by {
                    assert(path@.take(pushed.len() as int)[k] == path@[k]);
                }
                assert(path@.take(before.len() as int) =~= before);
                assert(pushed[before.len() as int] == i);
                assert(path@[before.len() as int] == pushed[before.len() as int]);
                assert(whole[0] == path@[before.len() as int]);
                assert(whole.skip(1) =~= path@.skip(pushed.len() as int));
            }
            return true;
        }
        path.pop();
        proof {
            assert(path@ =~= before);
        }
        i += 1;
    }
    proof {
        assert(views.take(i as int) =~= views);
    }
    false
}

/// The object to which `path` leads from its index `from` on.
fn follow_path<'a>(
    objects: &'a mut Vec<SceneObject>,
    path: &Vec<usize>,
    from: usize,
    Ghost(id): Ghost<u32>,
) -> (found: &'a mut SceneObject)
    requires
        from < path.len(),
        leads_to(forest_view(old(objects)@), path@.skip(from as int), id),
    ensures
        forest_find(forest_view(old(objects)@), id) == Some(node_view(*found)),
        forest_view(final(objects)@) == forest_replace(
            forest_view(old(objects)@),
            id,
            node_view(*final(found)),
        ),
    decreases path.len() - from,
{
    let ghost views = forest_view(objects@);
    let ghost before = objects@;
    let ghost rest = path@.skip(from as int);
    let i = path[from];
    proof {
        assert(rest[0] == i);
        assert(rest.skip(1) =~= path@.skip(from + 1));
        lemma_leads_to_found(views, rest, id);
        lemma_children_view(before[i as int]);
        assert forall|with: NodeView|
            #[trigger] forest_replace(views, id, with) == views.update(
                i as int,
                node_replace(views[i as int], id, with),
            ) by {
            lemma_replace_at(views, i as int, id, with);
        }
        assert forall|o: SceneObject| #![trigger node_view(o)]
            forest_view(before.update(i as int, o)) == views.update(i as int, node_view(o)) by {
            lemma_view_update(before, i as int, o);
        }
        assert forall|c: Vec<SceneObject>| #![trigger forest_view(c@)]
            forest_view(before.update(i as int, SceneObject { children: c, ..before[i as int] }))
                == views.update(
                i as int,
                NodeView { children: forest_view(c@), ..views[i as int] },
            ) by {
            let o = SceneObject { children: c, ..before[i as int] };
            lemma_view_update(before, i as int, o);
            lemma_children_view(o);
            assert(node_view(o) =~= NodeView { children: forest_view(c@), ..views[i as int] });
        }
    }
    if from + 1 == path.len() {
        &mut objects[i]
    } else {
        follow_path(&mut objects[i].children, path, from + 1, Ghost(id))
    }
}

/// The first object of the forest, in pre-order, that carries `id`, to be
/// read and changed in place. Whatever the caller leaves in it takes the
/// object's place in the forest.
pub fn find_object_by_id_mut(objects: &mut Vec<SceneObject>, id: u32) -> (found: Option<
    &mut SceneObject,
>)
    ensures
        match found {
            Some(o) => {
                &&& forest_find(forest_view(old(objects)@), id) == Some(node_view(*o))
                &&& forest_view(final(objects)@) == forest_replace(
                    forest_view(old(objects)@),
                    id,
                    node_view(*final(o)),
                )
            },
            None => {
                &&& forest_find(forest_view(old(objects)@), id) is None
                &&& *final(objects) == *old(objects)
            },
        },
{
    let mut path: Vec<usize> = Vec::new();
    if find_path(objects, id, &mut path) {
        proof {
            assert(path@.skip(0) =~= path@);
        }
        Some(follow_path(objects, &path, 0, Ghost(id)))
    } else {
        None
    }
}

/// Replacing inside the tree at `i`, where no earlier tree holds `id`,
/// changes that tree alone.
pub proof fn lemma_replace_at(s: Seq<NodeView>, i: int, id: u32, with: NodeView)
    requires
        0 <= i < s.len(),
        forest_find(s.take(i), id) is None,
        node_find(s[i], id) is Some,
    ensures
        forest_replace(s, id, with) == s.update(i, node_replace(s[i], id, with)),
    decreases s.len(),
{
    if i == s.len() - 1 {
        assert(s.drop_last() =~= s.take(i));
        assert(forest_replace(s, id, with) =~= s.update(i, node_replace(s[i], id, with)));
    } else {
        let front = s.drop_last();
        assert(front.take(i) =~= s.take(i));
        lemma_find_step(front, i, id);
        lemma_find_prefix(front, i + 1, id);
        lemma_replace_at(front, i, id, with);
        assert(forest_replace(s, id, with) =~= s.update(i, node_replace(s[i], id, with)));
    }
}

/// The view of a forest with one object exchanged.
pub proof fn lemma_view_update(s: Seq<SceneObject>, i: int, o: SceneObject)
    requires
        0 <= i < s.len(),
    ensures
        forest_view(s.update(i, o)) == forest_view(s).update(i, node_view(o)),
{
    assert(forest_view(s.update(i, o)) =~= forest_view(s).update(i, node_view(o)));
}

/// Index of the first tree of the forest whose root carries `id`; the
/// forest's length where no root does.
pub open spec fn root_index(s: Seq<NodeView>, id: u32) -> nat
    decreases s.len(),
{
    if s.len() == 0 {
        0
    } else if s[0].id == id {
        0
    } else {
        1 + root_index(s.skip(1), id)
    }
}

/// Index of the first tree of the forest that holds `id` below its root; the
/// forest's length where none does.
pub open spec fn below_index(s: Seq<NodeView>, id: u32) -> nat
    decreases s.len(),
{
    if s.len() == 0 {
        0
    } else if forest_find(s[0].children, id) is Some {
        0
    } else {
        1 + below_index(s.skip(1), id)
    }
}

/// The forest without one subtree: that of the first root that carries `id`
/// or, where no root does, what the same rule takes from the children of the
/// first tree that holds `id` further down. The forest itself where `id`
/// does not occur.
pub open spec fn forest_delete(s: Seq<NodeView>, id: u32) -> Seq<NodeView>
    decreases s,
{
    let r = root_index(s, id);
    let b = below_index(s, id);
    if r < s.len() {
        s.remove(r as int)
    } else if b < s.len() {
        s.update(
            b as int,
            NodeView { children: forest_delete(s[b as int].children, id), ..s[b as int] },
        )
    } else {
        s
    }
}

/// The forest with `child` appended to the children of the first node, in
/// pre-order, that carries `parent_id`; the forest itself where none does.
pub open spec fn forest_add_child(s: Seq<NodeView>, parent_id: u32, child: NodeView) -> Seq<
    NodeView,
> {
    match forest_find(s, parent_id) {
        Some(p) => forest_replace(s, parent_id, with_child(p, child)),
        None => s,
    }
}

/// `root_index` is the one index before which no root carries `id` and at
/// which, if it lies inside the forest, the root does.
pub proof fn lemma_root_index(s: Seq<NodeView>, id: u32, i: int)
    requires
        0 <= i <= s.len(),
        forall|j: int| 0 <= j < i ==> (#[trigger] s[j]).id != id,
        i < s.len() ==> s[i].id == id,
    ensures
        root_index(s, id) == i,
    decreases i,
{
    if i > 0 {
        let rest = s.skip(1);
        assert forall|j: int| 0 <= j < i - 1 implies (#[trigger] rest[j]).id != id by {
            assert(rest[j] == s[j + 1]);
        }
        lemma_root_index(rest, id, i - 1);
    }
}

/// `below_index` is the one index before which no tree holds `id` below its
/// root and at which, if it lies inside the forest, the tree does.
pub proof fn lemma_below_index(s: Seq<NodeView>, id: u32, i: int)
    requires
        0 <= i <= s.len(),
        forall|j: int| 0 <= j < i ==> forest_find((#[trigger] s[j]).children, id) is None,
        i < s.len() ==> forest_find(s[i].children, id) is Some,
    ensures
        below_index(s, id) == i,
    decreases i,
{
    if i > 0 {
        let rest = s.skip(1);
        assert forall|j: int| 0 <= j < i - 1 implies forest_find(
            (#[trigger] rest[j]).children,
            id,
        ) is None by {
            assert(rest[j] == s[j + 1]);
        }
        lemma_below_index(rest, id, i - 1);
    }
}

/// A forest holds `id` exactly if one of its trees does.
pub proof fn lemma_find_some(s: Seq<NodeView>, id: u32)
    ensures
        forest_find(s, id) is Some <==> exists|i: int|
            0 <= i < s.len() && node_find(#[trigger] s[i], id) is Some,
    decreases s.len(),
{
    if s.len() > 0 {
        let front = s.drop_last();
        lemma_find_some(front, id);
        if forest_find(front, id) is Some {
            let i = choose|i: int|
                0 <= i < front.len() && node_find(#[trigger] front[i], id) is Some;
            assert(s[i] == front[i]);
        } else if node_find(s.last(), id) is Some {
            assert(node_find(s[s.len() - 1], id) is Some);
        } else {
            assert forall|i: int| 0 <= i < s.len() implies node_find(
                #[trigger] s[i],
                id,
            ) is None by {
                if i < front.len() {
                    assert(s[i] == front[i]);
                }
            }
        }
    }
}

/// Deleting an id that does not occur leaves the forest as it is.
pub proof fn lemma_delete_absent(s: Seq<NodeView>, id: u32)
    requires
        forest_find(s, id) is None,
    ensures
        forest_delete(s, id) == s,
{
    lemma_find_some(s, id);
    assert forall|j: int| 0 <= j < s.len() implies (#[trigger] s[j]).id != id by {
        assert(node_find(s[j], id) is None);
    }
    assert forall|j: int| 0 <= j < s.len() implies forest_find(
        (#[trigger] s[j]).children,
        id,
    ) is None by {
        assert(node_find(s[j], id) is None);
    }
    lemma_root_index(s, id, s.len() as int);
    lemma_below_index(s, id, s.len() as int);
}

/// Removes one subtree from the forest: that of the first root that carries
/// `id_to_delete` or, where no root does, what the same search finds in the
/// children of each tree in turn. Says whether anything was removed.
pub fn find_and_delete_node(objects: &mut Vec<SceneObject>, id_to_delete: u32) -> (deleted: bool)
    ensures
        deleted == forest_find(forest_view(old(objects)@), id_to_delete) is Some,
        forest_view(final(objects)@) == forest_delete(forest_view(old(objects)@), id_to_delete),
    decreases old(objects)@,
{
    let ghost views = forest_view(objects@);
    let mut i: usize = 0;
    while i < objects.len()
        invariant
            i <= objects.len(),
            objects@ == old(objects)@,
            views == forest_view(objects@),
            forall|j: int| 0 <= j < i ==> (#[trigger] views[j]).id != id_to_delete,
        decreases objects.len() - i,
    {
        if objects[i].id == id_to_delete {
            objects.remove(i);
            proof {
                lemma_root_index(views, id_to_delete, i as int);
                lemma_find_some(views, id_to_delete);
                assert(node_find(views[i as int], id_to_delete) is Some);
                assert(forest_view(objects@) =~= views.remove(i as int));
            }
            return true;
        }
        i += 1;
    }
    proof {
        lemma_root_index(views, id_to_delete, views.len() as int);
    }
    let mut i: usize = 0;
    while i < objects.len()
        invariant
            i <= objects.len(),
            objects.len() == old(objects).len(),
            forall|j: int| i <= j < objects.len() ==> objects@[j] == old(objects)@[j],
            views == forest_view(objects@),
            views == forest_view(old(objects)@),
            root_index(views, id_to_delete) == views.len(),
            forall|j: int|
                0 <= j < i ==> forest_find((#[trigger] views[j]).children, id_to_delete) is None,
        decreases objects.len() - i,
    {
        proof {
            lemma_children_view(objects@[i as int]);
        }
        let deleted = find_and_delete_node(&mut objects[i].children, id_to_delete);
        proof {
            lemma_children_view(objects@[i as int]);
        }
        if deleted {
            proof {
                lemma_below_index(views, id_to_delete, i as int);
                lemma_find_some(views, id_to_delete);
                assert(node_find(views[i as int], id_to_delete) is Some);
                assert(forest_view(objects@) =~= views.update(
                    i as int,
                    NodeView {
                        children: forest_delete(views[i as int].children, id_to_delete),
                        ..views[i as int]
                    },
                ));
            }
            return true;
        }
        proof {
            lemma_delete_absent(views[i as int].children, id_to_delete);
            assert(node_view(objects@[i as int]) =~= views[i as int]);
            assert(forest_view(objects@) =~= views);
        }
        i += 1;
    }
    proof {
        lemma_below_index(views, id_to_delete, views.len() as int);
        lemma_find_some(views, id_to_delete);
    }
    false
}

/// Appends `child` to the children of the first object, in pre-order, that
/// carries `parent_id`, and says whether there was one. Without such an
/// object the forest stays as it is and `child` is dropped.
pub fn add_child(objects: &mut Vec<SceneObject>, parent_id: u32, child: SceneObject) -> (added:
    bool)
    ensures
        added == forest_find(forest_view(old(objects)@), parent_id) is Some,
        forest_view(final(objects)@) == forest_add_child(
            forest_view(old(objects)@),
            parent_id,
            node_view(child),
        ),
{
    match find_object_by_id_mut(objects, parent_id) {
        Some(parent) => {
            parent.push_child(child);
            true
        },
        None => false,
    }
}

/// Searching one tree more: what the shorter prefix holds is found first.
pub proof fn lemma_find_step(s: Seq<NodeView>, i: int, id: u32)
    requires
        0 <= i < s.len(),
    ensures
        forest_find(s.take(i + 1), id) == match forest_find(s.take(i), id) {
            Some(n) => Some(n),
            None => node_find(s[i], id),
        },
{
    assert(s.take(i + 1).drop_last() =~= s.take(i));
    assert(s.take(i + 1).last() == s[i]);
}

/// What is found in a prefix of a forest is found in the forest.
pub proof fn lemma_find_prefix(s: Seq<NodeView>, k: int, id: u32)
    requires
        0 <= k <= s.len(),
        forest_find(s.take(k), id) is Some,
    ensures
        forest_find(s, id) == forest_find(s.take(k), id),
    decreases s.len(),
{
    if k < s.len() {
        assert(s.drop_last().take(k) =~= s.take(k));
        lemma_find_prefix(s.drop_last(), k, id);
    } else {
        assert(s.take(k) =~= s);
    }
}

} // verus!
