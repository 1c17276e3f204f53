//! One frame of the editor: what the pointer and the keys do to the camera
//! and to the selection, what a time step does to the scene, and what the
//! settings panel does to the open node.

use crate::camera::{Camera2D, camera_after, centred_on, screen_to_world, to_world};
use crate::fixed::{div_fixed, mul_fixed, saturate, saturating, scaled_product};
use crate::hit::{find_clicked, first_hit, lemma_first_hit_known};
use crate::ids::{lemma_forest_find_ids, lemma_replace_same_ids};
use crate::layout::{layout, layout_map};
use crate::model::{
    NodeView, SceneObject, Vec2, forest_find, forest_ids, forest_replace, forest_view,
    lemma_children_view, node_find, node_ids, node_view, with_child,
};
use crate::panel::{
    PANEL_EDGE, PanelEvents, draw_settings_panel, panel_focus, panel_node, panel_open,
    panel_requests,
};
use crate::requests::{
    add_count, drained, fresh_node, lemma_add_child_request, lemma_apply_ignores_time,
    lemma_delete_request_abandons, lemma_drain_single, process_editor_requests,
};
use crate::state::{EditorRequest, State, StateView};
use crate::tree::find_object_by_id_mut;
use vstd::prelude::*;

verus! {

/// What the input layer reported for one frame.
#[derive(Debug, Clone, Copy, PartialEq, Eq, Structural)]
pub struct FrameInput {
    /// Movement of the scroll wheel; only its direction counts.
    pub wheel_move: i64,
    /// The key that zooms in is held.
    pub zoom_in: bool,
    /// The key that zooms out is held.
    pub zoom_out: bool,
    /// Milliseconds since the last frame.
    pub frame_time: i64,
    /// The pointer button that pans is held.
    pub pan: bool,
    /// Movement of the pointer since the last frame.
    pub mouse_delta: Vec2,
    /// The pointer button that selects was pressed.
    pub select_pressed: bool,
    pub mouse_position: Vec2,
    /// Width of the screen in pixels.
    pub screen_width: i32,
}

/// Whether a press of the pointer belongs to the open settings panel
/// rather than to the scene.
pub open spec fn press_on_panel(active_settings_id: Option<u32>, input: FrameInput) -> bool {
    active_settings_id is Some && input.mouse_position.x < PANEL_EDGE
}

/// The camera after the frame's zoom and pan.
pub open spec fn camera_after_input(camera: Camera2D, input: FrameInput) -> Camera2D {
    camera_after(
        camera,
        input.wheel_move,
        input.zoom_in,
        input.zoom_out,
        input.frame_time,
        input.pan,
        input.mouse_delta,
    )
}

/// The node under the pointer, as the camera shows the scene after the
/// frame's zoom and pan.
pub open spec fn node_under_pointer(s: StateView, input: FrameInput) -> Option<u32> {
    first_hit(
        forest_ids(s.scene_objects),
        to_world(input.mouse_position, camera_after_input(s.camera, input)),
        layout_map(s.scene_objects),
    )
}

/// Whether the frame's input reaches the scene with a press that may select
/// a node.
pub open spec fn selects(s: StateView, input: FrameInput) -> bool {
    &&& s.active_textbox_id is None
    &&& input.select_pressed
    &&& !press_on_panel(s.active_settings_id, input)
}

/// The state after a frame's input. While a label is being edited, nothing
/// changes. Else the camera zooms and pans, and a press on a node opens
/// that node's settings and moves the camera's target so that the node is
/// shown at three quarters of the screen's width.
pub open spec fn after_input(s: StateView, input: FrameInput) -> StateView {
    if s.active_textbox_id is Some {
        s
    } else {
        let camera = camera_after_input(s.camera, input);
        let hit = node_under_pointer(s, input);
        if selects(s, input) && hit is Some {
            StateView {
                active_settings_id: hit,
                camera: Camera2D {
                    target: centred_on(
                        camera,
                        layout_map(s.scene_objects)[hit->0],
                        input.screen_width,
                    ),
                    ..camera
                },
                ..s
            }
        } else {
            StateView { camera, ..s }
        }
    }
}

/// Handles a frame's input for the camera and the selection.
pub fn process_events_and_input(state: &mut State, input: &FrameInput)
    ensures
        final(state)@ == after_input(old(state)@, *input),
        final(state).scene_objects == old(state).scene_objects,
        old(state).active_textbox_id is None ==> final(state).camera.zoom_valid(),
        old(state).camera.zoom_valid() ==> final(state).camera.zoom_valid(),
        old(state)@.wf() ==> final(state)@.wf(),
{
    if state.active_textbox_id.is_some() {
        return ;
    }
    state.camera.adjust_zoom(input.wheel_move, input.zoom_in, input.zoom_out, input.frame_time);
    if input.pan {
        state.camera.pan(input.mouse_delta);
    }
    if input.select_pressed {
        let mouse_pos = input.mouse_position;
        if state.active_settings_id.is_some() && mouse_pos.x < PANEL_EDGE {
            return ;
        }
        let world_mouse_pos = screen_to_world(mouse_pos, &state.camera);
        let layout_positions = layout(&state.scene_objects);
        let clicked_id = find_clicked(&state.scene_objects, world_mouse_pos, &layout_positions);
        if let Some(id) = clicked_id {
            state.active_settings_id = Some(id);
            proof {
                lemma_first_hit_known(
                    forest_ids(forest_view(state.scene_objects@)),
                    world_mouse_pos,
                    layout_positions@,
                );
                lemma_forest_find_ids(forest_view(state.scene_objects@), id);
            }
            if let Some(obj_pos) = layout_positions.get(&id) {
                let screen_width = input.screen_width as i64 * 1000;
                let viewport_center_x = (screen_width / 2 + screen_width) / 2;
                let offset_x = div_fixed(
                    viewport_center_x as i128 - state.camera.offset.x as i128,
                    state.camera.zoom,
                );
                state.camera.target = Vec2 {
                    x: saturating(obj_pos.x as i128 - offset_x),
                    y: obj_pos.y,
                };
            }
        }
    }
}

/// A tree after `dt` milliseconds: every node turned on by its speed.
pub open spec fn turned(n: NodeView, dt: i64) -> NodeView
    decreases n,
{
    NodeView {
        current_rotation: saturate(
            n.current_rotation + scaled_product(n.rotation_speed as int, dt as int),
        ),
        children: Seq::new(
            n.children.len(),
            |i: int|
                if 0 <= i < n.children.len() {
                    turned(n.children[i], dt)
                } else {
                    arbitrary()
                },
        ),
        ..n
    }
}

/// A forest after `dt` milliseconds.
pub open spec fn forest_turned(s: Seq<NodeView>, dt: i64) -> Seq<NodeView> {
    Seq::new(s.len(), |i: int| turned(s[i], dt))
}

/// The children of a turned tree are the tree's children, turned.
pub proof fn lemma_turned_children(n: NodeView, dt: i64)
    ensures
        turned(n, dt).children == forest_turned(n.children, dt),
{
    assert(turned(n, dt).children =~= forest_turned(n.children, dt));
}

/// Turning keeps the ids of a tree.
pub proof fn lemma_turned_ids(n: NodeView, dt: i64)
    ensures
        node_ids(turned(n, dt)) == node_ids(n),
    decreases n,
{
    lemma_turned_children(n, dt);
    lemma_forest_turned_ids(n.children, dt);
}

/// Turning keeps the ids of a forest.
pub proof fn lemma_forest_turned_ids(s: Seq<NodeView>, dt: i64)
    ensures
        forest_ids(forest_turned(s, dt)) == forest_ids(s),
    decreases s,
{
    if s.len() > 0 {
        assert(forest_turned(s, dt).drop_last() =~= forest_turned(s.drop_last(), dt));
        lemma_forest_turned_ids(s.drop_last(), dt);
        lemma_turned_ids(s.last(), dt);
    }
}

/// Turns every object of the forest on by `dt` milliseconds.
pub fn update_objects(objects: &mut Vec<SceneObject>, dt: i64)
    ensures
        forest_view(final(objects)@) == forest_turned(forest_view(old(objects)@), dt),
    decreases old(objects)@,
{
    let ghost views = forest_view(objects@);
    let mut i: usize = 0;
    while i < objects.len()
        invariant
            i <= objects.len(),
            objects.len() == old(objects).len(),
            views == forest_view(old(objects)@),
            forall|j: int| i <= j < objects.len() ==> objects@[j] == old(objects)@[j],
            forall|j: int| 0 <= j < i ==> node_view(#[trigger] objects@[j]) == turned(views[j], dt),
        decreases objects.len() - i,
    {
        update_object_recursively(&mut objects[i], dt);
        i += 1;
    }
    proof {
        assert(forest_view(objects@) =~= forest_turned(views, dt));
    }
}

/// Turns `obj` and every object below it on by `dt` milliseconds of its
/// own speed.
pub fn update_object_recursively(obj: &mut SceneObject, dt: i64)
    ensures
        node_view(*final(obj)) == turned(node_view(*old(obj)), dt),
    decreases *old(obj),
{
    proof {
        lemma_children_view(*obj);
        lemma_turned_children(node_view(*obj), dt);
    }
    let step = mul_fixed(obj.rotation_speed as i128, dt);
    obj.current_rotation = saturating(obj.current_rotation as i128 + step);
    update_objects(&mut obj.children, dt);
    proof {
        lemma_children_view(*obj);
        assert(node_view(*obj) =~= turned(node_view(*old(obj)), dt));
    }
}

/// The forest after `dt` milliseconds: every node turned on, unless a label
/// is being edited; then the scene rests.
pub open spec fn moved(s: StateView, dt: i64) -> Seq<NodeView> {
    if s.active_textbox_id is Some {
        s.scene_objects
    } else {
        forest_turned(s.scene_objects, dt)
    }
}

/// The state after a time step of `dt` milliseconds: the nodes turn on,
/// unless a label is being edited, and the queue of requests is drained, in
/// every step. A queued deletion of the node being edited so ends the
/// editing.
pub open spec fn stepped(s: StateView, dt: i64) -> StateView {
    drained(StateView { scene_objects: moved(s, dt), ..s })
}

/// Updates the scene by a time step of `dt` milliseconds.
pub fn step(state: &mut State, dt: i64)
    requires
        old(state).next_id + add_count(old(state).requests@) <= u32::MAX,
    ensures
        final(state)@ == stepped(old(state)@, dt),
        old(state)@.wf() ==> final(state)@.wf(),
{
    proof {
        let s = old(state)@;
        lemma_forest_turned_ids(s.scene_objects, dt);
        if s.active_settings_id is Some {
            lemma_forest_find_ids(s.scene_objects, s.active_settings_id->0);
            lemma_forest_find_ids(forest_turned(s.scene_objects, dt), s.active_settings_id->0);
        }
    }
    if state.active_textbox_id.is_none() {
        update_objects(&mut state.scene_objects, dt);
    }
    process_editor_requests(state);
}

/// What a lookup finds in a turned tree is what it found before, turned.
pub proof fn lemma_node_turned_find(n: NodeView, dt: i64, id: u32)
    ensures
        node_find(turned(n, dt), id) == match node_find(n, id) {
            Some(found) => Some(turned(found, dt)),
            None => None,
        },
    decreases n,
{
    lemma_turned_children(n, dt);
    lemma_forest_turned_find(n.children, dt, id);
}

/// What a lookup finds in a turned forest is what it found before, turned.
pub proof fn lemma_forest_turned_find(s: Seq<NodeView>, dt: i64, id: u32)
    ensures
        forest_find(forest_turned(s, dt), id) == match forest_find(s, id) {
            Some(found) => Some(turned(found, dt)),
            None => None,
        },
    decreases s,
{
    if s.len() > 0 {
        assert(forest_turned(s, dt).drop_last() =~= forest_turned(s.drop_last(), dt));
        lemma_forest_turned_find(s.drop_last(), dt, id);
        lemma_node_turned_find(s.last(), dt, id);
    }
}

/// A step with one `AddChild` in the queue, for a node of the forest: the
/// queue is empty after it, and the node has one more child, behind the
/// others, under an id that no node carried before. The node itself is as
/// the step left it: turned on, or at rest while a label is being edited.
pub proof fn lemma_step_adds_child(s: StateView, dt: i64, parent_id: u32)
    requires
        s.ids_valid(),
        s.next_id < u32::MAX,
        s.requests == seq![EditorRequest::AddChild { parent_id }],
        forest_find(s.scene_objects, parent_id) is Some,
    ensures
        ({
            let before = forest_find(s.scene_objects, parent_id)->0;
            let after = stepped(s, dt);
            let parent = forest_find(after.scene_objects, parent_id);
            &&& after.requests.len() == 0
            &&& after.next_id == s.next_id + 1
            &&& !forest_ids(s.scene_objects).contains(after.next_id)
            &&& parent == Some(
                with_child(
                    if s.active_textbox_id is Some {
                        before
                    } else {
                        turned(before, dt)
                    },
                    fresh_node(after.next_id),
                ),
            )
            &&& parent->0.children.len() == before.children.len() + 1
            &&& parent->0.children.last() == fresh_node(after.next_id)
            &&& after.ids_valid()
        }),
{
    let start = StateView { scene_objects: moved(s, dt), ..s };
    lemma_forest_turned_ids(s.scene_objects, dt);
    lemma_forest_turned_find(s.scene_objects, dt, parent_id);
    lemma_drain_single(start, EditorRequest::AddChild { parent_id });
    lemma_add_child_request(start, parent_id);
}

/// A step with the deletion of the node being edited in the queue abandons
/// the editing: the queue is empty after it, no node is being edited, and
/// where the ids are valid the node is gone.
pub proof fn lemma_step_abandons(s: StateView, dt: i64, node_id: u32)
    requires
        s.active_textbox_id == Some(node_id),
        s.requests == seq![EditorRequest::DeleteNode { node_id }],
    ensures
        stepped(s, dt).requests.len() == 0,
        stepped(s, dt).active_textbox_id is None,
        s.ids_valid() ==> forest_find(stepped(s, dt).scene_objects, node_id) is None,
{
    let start = StateView { scene_objects: moved(s, dt), ..s };
    lemma_drain_single(start, EditorRequest::DeleteNode { node_id });
    lemma_delete_request_abandons(start, node_id);
}

/// Length of the fixed time step in milliseconds: a second by
/// `FRAMES_PER_SECOND`, rounded down.
pub const TIMESTEP: i64 = 16;

/// Number of time steps that are due once `t` milliseconds have gathered:
/// one for every full step that leaves some time over.
pub open spec fn steps_due(t: int) -> nat {
    if t > TIMESTEP {
        ((t - 1) / (TIMESTEP as int)) as nat
    } else {
        0
    }
}

/// The state after `n` time steps.
pub open spec fn after_steps(s: StateView, n: nat) -> StateView
    decreases n,
{
    if n == 0 {
        s
    } else {
        stepped(after_steps(s, (n - 1) as nat), TIMESTEP)
    }
}

/// The state after a frame of `frame_time` milliseconds: the time is added
/// to what had gathered, the steps that are due are made, and the time that
/// they took is taken off again.
pub open spec fn after_frame_time(s: StateView, frame_time: i64) -> StateView {
    let gathered = saturate(s.time_since_last_update + frame_time);
    let due = steps_due(gathered as int);
    StateView {
        time_since_last_update: (gathered - TIMESTEP * due) as i64,
        ..after_steps(s, due)
    }
}

/// What a time step does to a state does not depend on the time gathered
/// in it.
pub proof fn lemma_stepped_ignores_time(s: StateView, t: i64, dt: i64)
    ensures
        stepped(StateView { time_since_last_update: t, ..s }, dt) == (StateView {
            time_since_last_update: t,
            ..stepped(s, dt)
        }),
{
    let turned = StateView { scene_objects: moved(s, dt), ..s };
    lemma_apply_ignores_time(turned, t, turned.requests);
    assert(stepped(StateView { time_since_last_update: t, ..s }, dt) =~= (StateView {
        time_since_last_update: t,
        ..stepped(s, dt)
    }));
}

/// Gathers the frame's time and makes the fixed time steps that are due:
/// one `step` of `TIMESTEP` for as long as more than a step's time is left.
pub fn run_fixed_steps(state: &mut State, frame_time: i64)
    requires
        old(state).next_id + add_count(old(state).requests@) <= u32::MAX,
    ensures
        final(state)@ == after_frame_time(old(state)@, frame_time),
        old(state)@.wf() ==> final(state)@.wf(),
{
    let ghost start = state@;
    state.time_since_last_update = saturating(
        state.time_since_last_update as i128 + frame_time as i128,
    );
    let ghost gathered = state.time_since_last_update;
    let ghost done: nat = 0;
    proof {
        assert(state@ =~= (StateView {
            time_since_last_update: gathered,
            ..after_steps(start, 0)
        }));
    }
    while state.time_since_last_update > TIMESTEP
        invariant
            state.time_since_last_update == gathered - TIMESTEP * done,
            done == 0 || state.time_since_last_update >= 1,
            state@ == (StateView {
                time_since_last_update: state.time_since_last_update,
                ..after_steps(start, done)
            }),
            state.next_id + add_count(state.requests@) <= u32::MAX,
            start.wf() ==> state@.wf(),
        decreases state.time_since_last_update,
    {
        state.time_since_last_update -= TIMESTEP;
        proof {
            lemma_stepped_ignores_time(
                after_steps(start, done),
                state.time_since_last_update,
                TIMESTEP,
            );
            assert(state@ =~= (StateView {
                time_since_last_update: state.time_since_last_update,
                ..after_steps(start, done)
            }));
        }
        step(state, TIMESTEP);
        proof {
            done = done + 1;
            assert(add_count(Seq::<EditorRequest>::empty()) == 0);
        }
    }
}

/// The state after one frame of the settings panel. Without an open node,
/// or with one that is no longer in the forest, nothing changes. Else the
/// panel's widgets act on the open node, on the queue and on the focus.
pub open spec fn after_panel(s: StateView, e: PanelEvents) -> StateView {
    match s.active_settings_id {
        Some(id) => match forest_find(s.scene_objects, id) {
            Some(n) => StateView {
                active_settings_id: panel_open(s.active_settings_id, e),
                requests: panel_requests(s.requests, id, e),
                active_textbox_id: panel_focus(s.active_textbox_id, id, e),
                scene_objects: forest_replace(
                    s.scene_objects,
                    id,
                    panel_node(n, s.active_textbox_id == Some(id), e),
                ),
                ..s
            },
            None => s,
        },
        None => s,
    }
}

/// Applies a frame of the settings panel of the open node, as `events`
/// report it. Drawing itself is the caller's: `layout` says where the nodes
/// stand, `panel_layout` where the widgets do.
pub fn draw(state: &mut State, events: &PanelEvents)
    ensures
        final(state)@ == after_panel(old(state)@, *events),
        old(state)@.wf() ==> final(state)@.wf(),
{
    proof {
        let s = old(state)@;
        if s.active_settings_id is Some && forest_find(
            s.scene_objects,
            s.active_settings_id->0,
        ) is Some {
            let id = s.active_settings_id->0;
            let n = forest_find(s.scene_objects, id)->0;
            let after = panel_node(n, s.active_textbox_id == Some(id), *events);
            lemma_replace_same_ids(s.scene_objects, id, after);
            lemma_forest_find_ids(s.scene_objects, id);
            lemma_forest_find_ids(forest_replace(s.scene_objects, id, after), id);
            if s.active_textbox_id is Some {
                let editing = s.active_textbox_id->0;
                lemma_forest_find_ids(s.scene_objects, editing);
                lemma_forest_find_ids(forest_replace(s.scene_objects, id, after), editing);
            }
        }
    }
    if let Some(id) = state.active_settings_id {
        if let Some(obj) = find_object_by_id_mut(&mut state.scene_objects, id) {
            proof {
                lemma_forest_find_ids(forest_view(old(state).scene_objects@), id);
            }
            draw_settings_panel(
                &mut state.active_settings_id,
                &mut state.requests,
                &mut state.active_textbox_id,
                obj,
                events,
            );
        }
    }
}

} // verus!
