//! The queue of structural edits: requests raised while the tree is being
//! walked wait in the state and are applied in one go, first in, first out.

use crate::ids::{
    lemma_add_child_keeps_distinct, lemma_add_child_keeps_ids, lemma_delete_cascades,
    lemma_delete_keeps_distinct, lemma_forest_find_ids, lemma_forest_replace_found,
};
use crate::model::{
    NodeView, Rgba, SceneObject, Shape, forest_find, forest_ids, new_node, opaque, with_child,
};
use crate::state::{EditorRequest, State, StateView};
use crate::tree::{
    add_child, find_and_delete_node, find_object_by_id, forest_add_child, forest_delete,
};
use vstd::prelude::*;

verus! {

/// The view of the child that an `AddChild` request makes.
pub open spec fn fresh_node(id: u32) -> NodeView {
    new_node(id, "New Node"@, Shape::Square, opaque(255, 255, 255))
}

/// `active` unless it points at `node_id`.
pub open spec fn released(active: Option<u32>, node_id: u32) -> Option<u32> {
    if active == Some(node_id) {
        None
    } else {
        active
    }
}

/// `active` unless it points at `node_id` or at a node that `forest` does
/// not hold.
pub open spec fn released_from(active: Option<u32>, node_id: u32, forest: Seq<NodeView>) -> Option<
    u32,
> {
    if active is Some && forest_find(forest, active->0) is None {
        None
    } else {
        released(active, node_id)
    }
}

/// The state after one request has been applied. `AddChild` takes the next
/// id, whether or not the parent exists, and appends a `fresh_node` to the
/// parent's children. `DeleteNode` removes the node's subtree and closes the
/// settings panel and the label editing that point at the node or, with the
/// subtree gone, at no node of the forest.
pub open spec fn apply_request(s: StateView, r: EditorRequest) -> StateView {
    match r {
        EditorRequest::AddChild { parent_id } => {
            let id = (s.next_id + 1) as u32;
            StateView {
                next_id: id,
                scene_objects: forest_add_child(s.scene_objects, parent_id, fresh_node(id)),
                ..s
            }
        },
        EditorRequest::DeleteNode { node_id } => {
            let forest = forest_delete(s.scene_objects, node_id);
            StateView {
                scene_objects: forest,
                active_settings_id: released_from(s.active_settings_id, node_id, forest),
                active_textbox_id: released_from(s.active_textbox_id, node_id, forest),
                ..s
            }
        },
    }
}

/// The state after the requests have been applied from first to last.
pub open spec fn apply_requests(s: StateView, rs: Seq<EditorRequest>) -> StateView
    decreases rs.len(),
{
    if rs.len() == 0 {
        s
    } else {
        apply_request(apply_requests(s, rs.drop_last()), rs.last())
    }
}

/// The state after its queue has been drained: every queued request
/// applied, in the order of the queue, and the queue empty.
pub open spec fn drained(s: StateView) -> StateView {
    StateView { requests: Seq::empty(), ..apply_requests(s, s.requests) }
}

/// Number of `AddChild` requests among `rs`.
pub open spec fn add_count(rs: Seq<EditorRequest>) -> nat
    decreases rs.len(),
{
    if rs.len() == 0 {
        0
    } else {
        add_count(rs.drop_last()) + if rs.last() is AddChild {
            1nat
        } else {
            0nat
        }
    }
}

/// Applying requests takes one id for each `AddChild` among them.
pub proof fn lemma_apply_requests_ids(s: StateView, rs: Seq<EditorRequest>)
    requires
        s.next_id + add_count(rs) <= u32::MAX,
    ensures
        apply_requests(s, rs).next_id == s.next_id + add_count(rs),
        apply_requests(s, rs).requests == s.requests,
        apply_requests(s, rs).camera == s.camera,
        apply_requests(s, rs).time_since_last_update == s.time_since_last_update,
    decreases rs.len(),
{
    if rs.len() > 0 {
        lemma_apply_requests_ids(s, rs.drop_last());
    }
}

/// One more request: the prefix's count and state go one step on.
pub proof fn lemma_requests_step(s: StateView, rs: Seq<EditorRequest>, k: int)
    requires
        0 <= k < rs.len(),
    ensures
        add_count(rs.take(k + 1)) == add_count(rs.take(k)) + if rs[k] is AddChild {
            1nat
        } else {
            0nat
        },
        apply_requests(s, rs.take(k + 1)) == apply_request(apply_requests(s, rs.take(k)), rs[k]),
        add_count(rs.take(k + 1)) <= add_count(rs),
    decreases rs.len() - k,
{
    assert(rs.take(k + 1).drop_last() =~= rs.take(k));
    assert(rs.take(k + 1).last() == rs[k]);
    if k + 1 < rs.len() {
        lemma_requests_step(s, rs, k + 1);
    } else {
        assert(rs.take(k + 1) =~= rs);
    }
}

/// One request leaves valid ids valid: no id twice, and none later than
/// the last one handed out. The child that `AddChild` makes carries an id
/// that no node carried before.
pub proof fn lemma_apply_request_valid(s: StateView, r: EditorRequest)
    requires
        s.ids_valid(),
        r is AddChild ==> s.next_id < u32::MAX,
    ensures
        apply_request(s, r).ids_valid(),
        r is AddChild ==> !forest_ids(s.scene_objects).contains(apply_request(s, r).next_id),
{
    let ids = forest_ids(s.scene_objects);
    let after = forest_ids(apply_request(s, r).scene_objects);
    match r {
        EditorRequest::AddChild { parent_id } => {
            let id = (s.next_id + 1) as u32;
            if ids.contains(id) {
                let k = choose|k: int| 0 <= k < ids.len() && ids[k] == id;
                assert(ids[k] <= s.next_id);
            }
            lemma_add_child_keeps_distinct(s.scene_objects, parent_id, fresh_node(id));
            assert(after == forest_ids(
                forest_add_child(s.scene_objects, parent_id, fresh_node(id)),
            ));
            assert forall|k: int| 0 <= k < after.len() implies #[trigger] after[k] <= id by {
                assert(after.contains(after[k]));
                if after[k] != id {
                    assert(ids.contains(after[k]));
                    let j = choose|j: int| 0 <= j < ids.len() && ids[j] == after[k];
                    assert(ids[j] <= s.next_id);
                }
            }
        },
        EditorRequest::DeleteNode { node_id } => {
            lemma_delete_keeps_distinct(s.scene_objects, node_id);
            assert(after == forest_ids(forest_delete(s.scene_objects, node_id)));
            assert forall|k: int| 0 <= k < after.len() implies #[trigger] after[k]
                <= s.next_id by {
                assert(after.contains(after[k]));
                assert(ids.contains(after[k]));
                let j = choose|j: int| 0 <= j < ids.len() && ids[j] == after[k];
                assert(ids[j] <= s.next_id);
            }
        },
    }
}

/// One request leaves no link dangling: an open node and a node being
/// edited that the forest held before are held after, or are released.
pub proof fn lemma_apply_request_links(s: StateView, r: EditorRequest)
    requires
        s.links_valid(),
    ensures
        apply_request(s, r).links_valid(),
{
    match r {
        EditorRequest::AddChild { parent_id } => {
            let id = (s.next_id + 1) as u32;
            if s.active_settings_id is Some {
                lemma_add_child_keeps_ids(
                    s.scene_objects,
                    parent_id,
                    fresh_node(id),
                    s.active_settings_id->0,
                );
            }
            if s.active_textbox_id is Some {
                lemma_add_child_keeps_ids(
                    s.scene_objects,
                    parent_id,
                    fresh_node(id),
                    s.active_textbox_id->0,
                );
            }
        },
        EditorRequest::DeleteNode { node_id } => {},
    }
}

/// Requests leave no link dangling.
pub proof fn lemma_apply_requests_links(s: StateView, rs: Seq<EditorRequest>)
    requires
        s.links_valid(),
    ensures
        apply_requests(s, rs).links_valid(),
    decreases rs.len(),
{
    if rs.len() > 0 {
        lemma_apply_requests_links(s, rs.drop_last());
        lemma_apply_request_links(apply_requests(s, rs.drop_last()), rs.last());
    }
}

/// Requests leave valid ids valid.
pub proof fn lemma_apply_requests_valid(s: StateView, rs: Seq<EditorRequest>)
    requires
        s.ids_valid(),
        s.next_id + add_count(rs) <= u32::MAX,
    ensures
        apply_requests(s, rs).ids_valid(),
    decreases rs.len(),
{
    if rs.len() > 0 {
        lemma_apply_requests_valid(s, rs.drop_last());
        lemma_apply_requests_ids(s, rs.drop_last());
        lemma_apply_request_valid(apply_requests(s, rs.drop_last()), rs.last());
    }
}

/// Draining the queue leaves a well-formed state well-formed.
pub proof fn lemma_drained_wf(s: StateView)
    requires
        s.wf(),
        s.next_id + add_count(s.requests) <= u32::MAX,
    ensures
        drained(s).wf(),
{
    lemma_apply_requests_valid(s, s.requests);
    lemma_apply_requests_links(s, s.requests);
    lemma_apply_requests_ids(s, s.requests);
}

/// An id that has been handed out and is gone stays gone: no request
/// brings it back.
pub proof fn lemma_gone_stays_gone(s: StateView, r: EditorRequest, a: u32)
    requires
        s.ids_valid(),
        r is AddChild ==> s.next_id < u32::MAX,
        a <= s.next_id,
        forest_find(s.scene_objects, a) is None,
    ensures
        forest_find(apply_request(s, r).scene_objects, a) is None,
{
    lemma_forest_find_ids(s.scene_objects, a);
    lemma_forest_find_ids(apply_request(s, r).scene_objects, a);
    match r {
        EditorRequest::AddChild { parent_id } => {
            let id = (s.next_id + 1) as u32;
            let ids = forest_ids(s.scene_objects);
            if ids.contains(id) {
                let k = choose|k: int| 0 <= k < ids.len() && ids[k] == id;
                assert(ids[k] <= s.next_id);
            }
            lemma_add_child_keeps_distinct(s.scene_objects, parent_id, fresh_node(id));
        },
        EditorRequest::DeleteNode { node_id } => {
            lemma_delete_keeps_distinct(s.scene_objects, node_id);
        },
    }
}

/// A request leaves the panel and the editing of a node that survives it
/// as they are.
pub proof fn lemma_request_keeps_links(s: StateView, r: EditorRequest, a: u32)
    requires
        s.ids_valid(),
        forest_find(apply_request(s, r).scene_objects, a) is Some,
    ensures
        s.active_settings_id == Some(a) ==> apply_request(s, r).active_settings_id == Some(a),
        s.active_textbox_id == Some(a) ==> apply_request(s, r).active_textbox_id == Some(a),
{
    match r {
        EditorRequest::AddChild { parent_id } => {},
        EditorRequest::DeleteNode { node_id } => {
            if node_id == a {
                if forest_find(s.scene_objects, a) is Some {
                    lemma_delete_cascades(s.scene_objects, a);
                } else {
                    crate::tree::lemma_delete_absent(s.scene_objects, a);
                }
            }
        },
    }
}

/// Requests leave the panel and the editing of a node that survives them
/// as they are: a link is released only when its node goes.
pub proof fn lemma_requests_keep_links(s: StateView, rs: Seq<EditorRequest>, a: u32)
    requires
        s.ids_valid(),
        s.next_id + add_count(rs) <= u32::MAX,
        forest_find(s.scene_objects, a) is Some,
        forest_find(apply_requests(s, rs).scene_objects, a) is Some,
    ensures
        s.active_settings_id == Some(a) ==> apply_requests(s, rs).active_settings_id == Some(a),
        s.active_textbox_id == Some(a) ==> apply_requests(s, rs).active_textbox_id == Some(a),
    decreases rs.len(),
{
    if rs.len() > 0 {
        let front = rs.drop_last();
        let before = apply_requests(s, front);
        lemma_apply_requests_valid(s, front);
        lemma_apply_requests_ids(s, front);
        lemma_forest_find_ids(s.scene_objects, a);
        let k = choose|k: int|
            0 <= k < forest_ids(s.scene_objects).len() && forest_ids(s.scene_objects)[k] == a;
        assert(forest_ids(s.scene_objects)[k] <= s.next_id);
        if forest_find(before.scene_objects, a) is None {
            lemma_gone_stays_gone(before, rs.last(), a);
        }
        lemma_requests_keep_links(s, front, a);
        lemma_request_keeps_links(before, rs.last(), a);
    }
}

/// Draining a queue of one request applies that request.
pub proof fn lemma_drain_single(s: StateView, r: EditorRequest)
    requires
        s.requests == seq![r],
    ensures
        drained(s) == (StateView { requests: Seq::empty(), ..apply_request(s, r) }),
{
    assert(s.requests.drop_last() =~= Seq::<EditorRequest>::empty());
    assert(s.requests.last() == r);
    assert(apply_requests(s, s.requests.drop_last()) == s);
    assert(apply_requests(s, s.requests) == apply_request(s, r));
}

/// An `AddChild` for a node of the forest gives that node one more child,
/// behind the others, under an id that no node carried before.
pub proof fn lemma_add_child_request(s: StateView, parent_id: u32)
    requires
        s.ids_valid(),
        s.next_id < u32::MAX,
        forest_find(s.scene_objects, parent_id) is Some,
    ensures
        ({
            let parent = forest_find(s.scene_objects, parent_id)->0;
            let after = apply_request(s, EditorRequest::AddChild { parent_id });
            &&& after.next_id == s.next_id + 1
            &&& !forest_ids(s.scene_objects).contains(after.next_id)
            &&& forest_find(after.scene_objects, parent_id) == Some(
                with_child(parent, fresh_node(after.next_id)),
            )
            &&& after.ids_valid()
        }),
{
    let parent = forest_find(s.scene_objects, parent_id)->0;
    let id = (s.next_id + 1) as u32;
    lemma_apply_request_valid(s, EditorRequest::AddChild { parent_id });
    lemma_forest_find_ids(s.scene_objects, parent_id);
    lemma_forest_replace_found(s.scene_objects, parent_id, with_child(parent, fresh_node(id)));
}

/// A `DeleteNode` for the node being edited ends the editing, and closes
/// the node's panel; where the ids are valid, the node is gone.
pub proof fn lemma_delete_request_abandons(s: StateView, node_id: u32)
    requires
        s.active_textbox_id == Some(node_id),
    ensures
        ({
            let after = apply_request(s, EditorRequest::DeleteNode { node_id });
            &&& after.active_textbox_id is None
            &&& s.active_settings_id == Some(node_id) ==> after.active_settings_id is None
            &&& s.ids_valid() ==> forest_find(after.scene_objects, node_id) is None
        }),
{
    if forest_find(s.scene_objects, node_id) is Some {
        if s.ids_valid() {
            lemma_delete_cascades(s.scene_objects, node_id);
        }
    } else {
        crate::tree::lemma_delete_absent(s.scene_objects, node_id);
    }
}

/// The state with one more request at the end of its queue.
pub open spec fn enqueued(s: StateView, r: EditorRequest) -> StateView {
    StateView { requests: s.requests.push(r), ..s }
}

/// The state after each of the requests, from first to last, has been
/// queued and the queue drained at once.
pub open spec fn one_by_one(s: StateView, rs: Seq<EditorRequest>) -> StateView
    decreases rs.len(),
{
    if rs.len() == 0 {
        s
    } else {
        drained(enqueued(one_by_one(s, rs.drop_last()), rs.last()))
    }
}

/// What requests do to a state does not depend on what is queued in it.
pub proof fn lemma_apply_ignores_queue(s: StateView, queue: Seq<EditorRequest>, rs: Seq<
    EditorRequest,
>)
    ensures
        apply_requests(StateView { requests: queue, ..s }, rs) == (StateView {
            requests: queue,
            ..apply_requests(s, rs)
        }),
    decreases rs.len(),
{
    if rs.len() > 0 {
        lemma_apply_ignores_queue(s, queue, rs.drop_last());
    }
    assert(apply_requests(StateView { requests: queue, ..s }, rs) =~= (StateView {
        requests: queue,
        ..apply_requests(s, rs)
    }));
}

/// What requests do to a state does not depend on the time gathered in it.
pub proof fn lemma_apply_ignores_time(s: StateView, t: i64, rs: Seq<EditorRequest>)
    ensures
        apply_requests(StateView { time_since_last_update: t, ..s }, rs) == (StateView {
            time_since_last_update: t,
            ..apply_requests(s, rs)
        }),
    decreases rs.len(),
{
    if rs.len() > 0 {
        lemma_apply_ignores_time(s, t, rs.drop_last());
    }
    assert(apply_requests(StateView { time_since_last_update: t, ..s }, rs) =~= (StateView {
        time_since_last_update: t,
        ..apply_requests(s, rs)
    }));
}

/// Deferral changes when requests take effect, not what they do: queueing
/// requests and draining the queue once gives the state that queueing and
/// draining them one by one gives.
pub proof fn lemma_queue_atomic(s: StateView, rs: Seq<EditorRequest>)
    requires
        s.requests.len() == 0,
    ensures
        drained(StateView { requests: rs, ..s }) == one_by_one(s, rs),
    decreases rs.len(),
{
    lemma_apply_ignores_queue(s, rs, rs);
    if rs.len() == 0 {
        assert(drained(StateView { requests: rs, ..s }) =~= s);
    } else {
        let front = rs.drop_last();
        let last = rs.last();
        lemma_queue_atomic(s, front);
        lemma_apply_ignores_queue(s, front, front);
        let before = one_by_one(s, front);
        let queued = enqueued(before, last);
        assert(queued.requests =~= seq![last]);
        assert(queued.requests.drop_last() =~= Seq::<EditorRequest>::empty());
        lemma_apply_ignores_queue(apply_requests(s, front), seq![last], seq![last]);
        assert(queued.requests.last() == last);
        assert(apply_requests(queued, queued.requests.drop_last()) == queued);
        assert(apply_requests(queued, queued.requests) == apply_request(queued, last));
        assert(drained(queued) =~= drained(StateView { requests: rs, ..s }));
    }
}

/// Whether the id counter can serve every queued `AddChild`: whether the
/// queue can be drained.
pub fn ids_suffice(state: &State) -> (ok: bool)
    ensures
        ok == (state.next_id + add_count(state.requests@) <= u32::MAX),
{
    let mut adds: u64 = 0;
    let mut i: usize = 0;
    while i < state.requests.len()
        invariant
            i <= state.requests.len(),
            adds == add_count(state.requests@.take(i as int)),
            adds <= i,
        decreases state.requests.len() - i,
    {
        proof {
            lemma_requests_step(state@, state.requests@, i as int);
        }
        match state.requests[i] {
            EditorRequest::AddChild { .. } => {
                adds += 1;
            },
            EditorRequest::DeleteNode { .. } => {},
        }
        i += 1;
    }
    proof {
        assert(state.requests@.take(i as int) =~= state.requests@);
    }
    adds <= (u32::MAX - state.next_id) as u64
}

/// Drains the queue: applies every queued request to the forest, in the
/// order in which they were queued, and leaves the queue empty. A request
/// that names a node that is no longer there leaves the forest as it is;
/// `AddChild` takes its id all the same.
pub fn process_editor_requests(state: &mut State)
    requires
        old(state).next_id + add_count(old(state).requests@) <= u32::MAX,
    ensures
        final(state)@ == drained(old(state)@),
        old(state)@.wf() ==> final(state)@.wf(),
{
    proof {
        if old(state)@.wf() {
            lemma_drained_wf(old(state)@);
        }
    }
    let mut requests: Vec<EditorRequest> = Vec::new();
    std::mem::swap(&mut requests, &mut state.requests);
    let ghost start = old(state)@;
    let mut i: usize = 0;
    while i < requests.len()
        invariant
            i <= requests.len(),
            requests@ == start.requests,
            start.next_id + add_count(requests@) <= u32::MAX,
            state.requests@ == Seq::<EditorRequest>::empty(),
            state@ == (StateView {
                requests: Seq::empty(),
                ..apply_requests(start, requests@.take(i as int))
            }),
        decreases requests.len() - i,
    {
        proof {
            lemma_requests_step(start, requests@, i as int);
            lemma_apply_requests_ids(start, requests@.take(i as int));
        }
        match requests[i] {
            EditorRequest::AddChild { parent_id } => {
                let new_id = state.new_id();
                let new_node = SceneObject::new(
                    new_id,
                    "New Node",
                    Shape::Square,
                    Rgba::opaque(255, 255, 255),
                );
                add_child(&mut state.scene_objects, parent_id, new_node);
            },
            EditorRequest::DeleteNode { node_id } => {
                find_and_delete_node(&mut state.scene_objects, node_id);
                if let Some(active) = state.active_settings_id {
                    if active == node_id || find_object_by_id(
                        &state.scene_objects,
                        active,
                    ).is_none() {
                        state.active_settings_id = None;
                    }
                }
                if let Some(active) = state.active_textbox_id {
                    if active == node_id || find_object_by_id(
                        &state.scene_objects,
                        active,
                    ).is_none() {
                        state.active_textbox_id = None;
                    }
                }
            },
        }
        i += 1;
    }
    proof {
        assert(requests@.take(i as int) =~= requests@);
    }
}

} // verus!
