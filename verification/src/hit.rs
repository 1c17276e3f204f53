//! Hit-testing: which node, if any, lies under a point of the world.

use crate::ids::lemma_ids_step;
use crate::layout::layout_map;
use crate::layout_exact::apart;
use crate::layout_laws::{lemma_layout_apart, lemma_layout_complete};
use crate::model::{
    NodeView, SceneObject, Vec2, forest_ids, forest_view, lemma_children_view, node_ids, node_view,
};
use std::collections::HashMap;
use vstd::prelude::*;

verus! {

/// Edge of the square around a drawn shape.
pub const SHAPE_SIZE: i64 = 40000;

/// Half the edge of a drawn shape: a point closer than this to a node's
/// position hits the node.
pub const HIT_RADIUS: i64 = 20000;

/// Whether the distance between `a` and `b` is less than `HIT_RADIUS`.
pub open spec fn within_reach(a: Vec2, b: Vec2) -> bool {
    (a.x - b.x) * (a.x - b.x) + (a.y - b.y) * (a.y - b.y) < HIT_RADIUS * HIT_RADIUS
}

/// Whether `id` has a position in `m` that `p` is within reach of.
pub open spec fn hits(id: u32, p: Vec2, m: Map<u32, Vec2>) -> bool {
    m.contains_key(id) && within_reach(p, m[id])
}

/// The first id of the sequence that `p` hits.
pub open spec fn first_hit(ids: Seq<u32>, p: Vec2, m: Map<u32, Vec2>) -> Option<u32>
    decreases ids.len(),
{
    if ids.len() == 0 {
        None
    } else if hits(ids[0], p, m) {
        Some(ids[0])
    } else {
        first_hit(ids.skip(1), p, m)
    }
}

/// The first hit of two sequences in a row is that of the first or, where
/// it has none, that of the second.
pub proof fn lemma_first_hit_concat(a: Seq<u32>, b: Seq<u32>, p: Vec2, m: Map<u32, Vec2>)
    ensures
        first_hit(a + b, p, m) == match first_hit(a, p, m) {
            Some(id) => Some(id),
            None => first_hit(b, p, m),
        },
    decreases a.len(),
{
    if a.len() == 0 {
        assert(a + b =~= b);
    } else {
        assert((a + b).skip(1) =~= a.skip(1) + b);
        lemma_first_hit_concat(a.skip(1), b, p, m);
    }
}

/// Whether `a` lies within reach of `b`.
pub fn is_within_reach(a: Vec2, b: Vec2) -> (near: bool)
    ensures
        near == within_reach(a, b),
{
    let dx: i128 = a.x as i128 - b.x as i128;
    let dy: i128 = a.y as i128 - b.y as i128;
    let r: i128 = HIT_RADIUS as i128;
    if dx >= r || dx <= -r {
        assert(dx * dx >= r * r && dy * dy >= 0) by (nonlinear_arith)
            requires
                dx >= r || dx <= -r,
                r >= 0,
        ;
        false
    } else if dy >= r || dy <= -r {
        assert(dy * dy >= r * r && dx * dx >= 0) by (nonlinear_arith)
            requires
                dy >= r || dy <= -r,
                r >= 0,
        ;
        false
    } else {
        assert(0 <= dx * dx <= r * r && 0 <= dy * dy <= r * r) by (nonlinear_arith)
            requires
                -r < dx < r,
                -r < dy < r,
        ;
        dx * dx + dy * dy < r * r
    }
}

/// The first node of the tree, in pre-order, whose position in `positions`
/// `world_pos` is within reach of. Where shapes overlap, the node met first
/// wins, not the nearest.
pub fn find_clicked_object(
    obj: &SceneObject,
    world_pos: Vec2,
    positions: &HashMap<u32, Vec2>,
) -> (clicked: Option<u32>)
    ensures
        clicked == first_hit(node_ids(node_view(*obj)), world_pos, positions@),
    decreases obj,
{
    let ghost kids = forest_view(obj.children@);
    proof {
        lemma_children_view(*obj);
        lemma_first_hit_concat(seq![obj.id], forest_ids(kids), world_pos, positions@);
        assert(seq![obj.id].skip(1) =~= Seq::<u32>::empty());
    }
    if let Some(obj_pos) = positions.get(&obj.id) {
        if is_within_reach(world_pos, *obj_pos) {
            return Some(obj.id);
        }
    }
    let mut i: usize = 0;
    while i < obj.children.len()
        invariant
            i <= obj.children.len(),
            kids == forest_view(obj.children@),
            first_hit(node_ids(node_view(*obj)), world_pos, positions@) == first_hit(
                forest_ids(kids),
                world_pos,
                positions@,
            ),
            first_hit(forest_ids(kids.take(i as int)), world_pos, positions@) is None,
        decreases obj.children.len() - i,
    {
        proof {
            lemma_ids_step(kids, i as int);
            lemma_first_hit_concat(
                forest_ids(kids.take(i as int)),
                node_ids(kids[i as int]),
                world_pos,
                positions@,
            );
        }
        let below = find_clicked_object(&obj.children[i], world_pos, positions);
        if below.is_some() {
            proof {
                lemma_first_hit_prefix(kids, (i + 1) as int, world_pos, positions@);
            }
            return below;
        }
        i += 1;
    }
    proof {
        assert(kids.take(i as int) =~= kids);
    }
    None
}

/// The first node of the forest, in pre-order, whose position in
/// `positions` `world_pos` is within reach of.
pub fn find_clicked(
    objects: &Vec<SceneObject>,
    world_pos: Vec2,
    positions: &HashMap<u32, Vec2>,
) -> (clicked: Option<u32>)
    ensures
        clicked == first_hit(forest_ids(forest_view(objects@)), world_pos, positions@),
{
    let ghost roots = forest_view(objects@);
    let mut i: usize = 0;
    while i < objects.len()
        invariant
            i <= objects.len(),
            roots == forest_view(objects@),
            first_hit(forest_ids(roots.take(i as int)), world_pos, positions@) is None,
        decreases objects.len() - i,
    {
        proof {
            lemma_ids_step(roots, i as int);
            lemma_first_hit_concat(
                forest_ids(roots.take(i as int)),
                node_ids(roots[i as int]),
                world_pos,
                positions@,
            );
        }
        let hit = find_clicked_object(&objects[i], world_pos, positions);
        if hit.is_some() {
            proof {
                lemma_first_hit_prefix(roots, (i + 1) as int, world_pos, positions@);
            }
            return hit;
        }
        i += 1;
    }
    proof {
        assert(roots.take(i as int) =~= roots);
    }
    None
}

/// A hit among the first `k` trees of a forest is the forest's first hit.
pub proof fn lemma_first_hit_prefix(s: Seq<NodeView>, k: int, p: Vec2, m: Map<u32, Vec2>)
    requires
        0 <= k <= s.len(),
        first_hit(forest_ids(s.take(k)), p, m) is Some,
    ensures
        first_hit(forest_ids(s), p, m) == first_hit(forest_ids(s.take(k)), p, m),
    decreases s.len(),
{
    if k < s.len() {
        let front = s.drop_last();
        assert(front.take(k) =~= s.take(k));
        lemma_first_hit_prefix(front, k, p, m);
        lemma_first_hit_concat(forest_ids(front), node_ids(s.last()), p, m);
    } else {
        assert(s.take(k) =~= s);
    }
}

/// The first hit is hit, and is one of the ids.
pub proof fn lemma_first_hit_known(ids: Seq<u32>, p: Vec2, m: Map<u32, Vec2>)
    ensures
        first_hit(ids, p, m) is Some ==> hits(first_hit(ids, p, m)->0, p, m) && ids.contains(
            first_hit(ids, p, m)->0,
        ),
    decreases ids.len(),
{
    if ids.len() > 0 {
        if hits(ids[0], p, m) {
            assert(ids[0] == first_hit(ids, p, m)->0);
        } else {
            lemma_first_hit_known(ids.skip(1), p, m);
            if first_hit(ids, p, m) is Some {
                let id = first_hit(ids, p, m)->0;
                let j = choose|j: int| 0 <= j < ids.skip(1).len() && ids.skip(1)[j] == id;
                assert(ids[j + 1] == id);
            }
        }
    }
}

/// Positions a full column or a full row apart are out of each other's
/// reach.
pub proof fn lemma_apart_out_of_reach(a: Vec2, b: Vec2)
    requires
        apart(a, b),
    ensures
        !within_reach(a, b),
{
    let dx = a.x - b.x;
    let dy = a.y - b.y;
    assert(dx * dx + dy * dy >= HIT_RADIUS * HIT_RADIUS) by (nonlinear_arith)
        requires
            dx >= 250000 || dx <= -250000 || dy >= 120000 || dy <= -120000,
            HIT_RADIUS == 20000,
    ;
}

/// The first hit is the id at `k` where that one is hit and none before it.
pub proof fn lemma_first_hit_at(ids: Seq<u32>, k: int, p: Vec2, m: Map<u32, Vec2>)
    requires
        0 <= k < ids.len(),
        forall|j: int| 0 <= j < k ==> !hits(#[trigger] ids[j], p, m),
        hits(ids[k], p, m),
    ensures
        first_hit(ids, p, m) == Some(ids[k]),
    decreases k,
{
    if k > 0 {
        let rest = ids.skip(1);
        assert(!hits(ids[0], p, m));
        assert forall|j: int| 0 <= j < k - 1 implies !hits(#[trigger] rest[j], p, m) by {
            assert(rest[j] == ids[j + 1]);
        }
        assert(rest[k - 1] == ids[k]);
        lemma_first_hit_at(rest, k - 1, p, m);
    }
}

/// A point exactly at a node's own position hits that node: where no id
/// occurs twice in the forest, looking up the laid-out position of any node
/// returns that node's id.
pub proof fn lemma_hit_own_position(s: Seq<NodeView>, k: int)
    requires
        forest_ids(s).no_duplicates(),
        0 <= k < forest_ids(s).len(),
    ensures
        layout_map(s).contains_key(forest_ids(s)[k]),
        first_hit(forest_ids(s), layout_map(s)[forest_ids(s)[k]], layout_map(s)) == Some(
            forest_ids(s)[k],
        ),
{
    let ids = forest_ids(s);
    let m = layout_map(s);
    let p = m[ids[k]];
    lemma_layout_complete(s);
    assert forall|j: int| 0 <= j < ids.len() implies m.contains_key(#[trigger] ids[j]) by {
        assert(ids.to_set().contains(ids[j]));
    }
    assert forall|j: int| 0 <= j < k implies !hits(#[trigger] ids[j], p, m) by {
        lemma_layout_apart(s, k, j);
        lemma_apart_out_of_reach(p, m[ids[j]]);
    }
    assert(within_reach(p, p)) by {
        assert((p.x - p.x) * (p.x - p.x) + (p.y - p.y) * (p.y - p.y) == 0) by (nonlinear_arith);
    }
    lemma_first_hit_at(ids, k, p, m);
}

} // verus!
