//! The editor's state: the forest, the camera, the counter that hands out
//! ids, the queue of structural edits, and which node is open and which is
//! being typed into.

use crate::camera::Camera2D;
use crate::ids::lemma_ids_step;
use crate::model::{
    NodeView, Rgba, SceneObject, Shape, Vec2, forest_find, forest_ids, forest_view, new_node,
    node_ids, node_view, opaque,
};
use vstd::prelude::*;

verus! {

/// Updates per second of the fixed time step.
pub const FRAMES_PER_SECOND: u32 = 60;

/// A request to change the structure of the scene tree. It is queued when
/// raised and applied when the frame's walk over the tree is done.
#[derive(Debug, Clone, Copy, PartialEq, Eq, Structural)]
pub enum EditorRequest {
    AddChild { parent_id: u32 },
    DeleteNode { node_id: u32 },
}

/// The state of the editor.
pub struct State {
    /// Milliseconds that the fixed time step has not consumed yet.
    pub time_since_last_update: i64,
    pub scene_objects: Vec<SceneObject>,
    pub camera: Camera2D,
    /// The last id handed out; zero before the first.
    pub next_id: u32,
    /// The node whose settings panel is open.
    pub active_settings_id: Option<u32>,
    pub requests: Vec<EditorRequest>,
    /// The node whose label is being typed into.
    pub active_textbox_id: Option<u32>,
}

/// What a `State` is, as a mathematical value.
#[verifier::ext_equal]
pub struct StateView {
    pub time_since_last_update: i64,
    pub scene_objects: Seq<NodeView>,
    pub camera: Camera2D,
    pub next_id: u32,
    pub active_settings_id: Option<u32>,
    pub requests: Seq<EditorRequest>,
    pub active_textbox_id: Option<u32>,
}

impl View for State {
    type V = StateView;

    open spec fn view(&self) -> StateView {
        StateView {
            time_since_last_update: self.time_since_last_update,
            scene_objects: forest_view(self.scene_objects@),
            camera: self.camera,
            next_id: self.next_id,
            active_settings_id: self.active_settings_id,
            requests: self.requests@,
            active_textbox_id: self.active_textbox_id,
        }
    }
}

impl StateView {
    /// No id occurs twice in the forest, and none is later than the last
    /// one handed out: a new id is new.
    pub open spec fn ids_valid(self) -> bool {
        &&& forest_ids(self.scene_objects).no_duplicates()
        &&& forall|k: int|
            0 <= k < forest_ids(self.scene_objects).len() ==> #[trigger] forest_ids(
                self.scene_objects,
            )[k] <= self.next_id
    }

    /// Whether the label of the node `id` is being edited.
    pub open spec fn editing(self, id: u32) -> bool {
        self.active_textbox_id == Some(id)
    }

    /// Neither the open node nor the node being edited is a node that the
    /// forest does not hold.
    pub open spec fn links_valid(self) -> bool {
        &&& self.active_settings_id is Some ==> forest_find(
            self.scene_objects,
            self.active_settings_id->0,
        ) is Some
        &&& self.active_textbox_id is Some ==> forest_find(
            self.scene_objects,
            self.active_textbox_id->0,
        ) is Some
    }

    /// The state is well-formed: its ids are valid, the open node and the
    /// node being edited exist, and the zoom factor lies within its bounds.
    pub open spec fn wf(self) -> bool {
        self.ids_valid() && self.links_valid() && self.camera.zoom_valid()
    }
}

/// At most one node is being edited: the focus is one optional id, and in
/// a state with valid ids an id belongs to one node of the forest at most.
pub proof fn lemma_focus_exclusive(s: StateView, j: int, k: int)
    requires
        s.ids_valid(),
        0 <= j < forest_ids(s.scene_objects).len(),
        0 <= k < forest_ids(s.scene_objects).len(),
        s.editing(forest_ids(s.scene_objects)[j]),
        s.editing(forest_ids(s.scene_objects)[k]),
    ensures
        j == k,
{
}

/// The forest that a new editor shows.
pub open spec fn demo_forest() -> Seq<NodeView> {
    seq![
        NodeView {
            children: seq![
                NodeView {
                    children: seq![
                        new_node(4, "Mesh"@, Shape::Square, opaque(253, 249, 0)),
                        new_node(5, "Texture"@, Shape::Triangle, opaque(255, 161, 0)),
                    ],
                    ..new_node(2, "Data"@, Shape::Circle, opaque(0, 121, 241))
                },
                NodeView {
                    children: seq![new_node(6, "Shader"@, Shape::Circle, opaque(200, 122, 255))],
                    ..new_node(3, "Render"@, Shape::Triangle, opaque(0, 228, 48))
                },
            ],
            ..new_node(1, "Root"@, Shape::Square, opaque(230, 41, 55))
        },
    ]
}

/// The state of a new editor.
pub open spec fn initial_state() -> StateView {
    StateView {
        time_since_last_update: 0,
        scene_objects: demo_forest(),
        camera: Camera2D {
            target: Vec2 { x: 400000, y: 450000 },
            offset: Vec2 { x: 640000, y: 360000 },
            rotation: 0,
            zoom: 1000,
        },
        next_id: 6,
        active_settings_id: None,
        requests: Seq::empty(),
        active_textbox_id: None,
    }
}

/// The ids of the demo forest, in pre-order.
pub proof fn lemma_demo_ids()
    ensures
        forest_ids(demo_forest()) == seq![1u32, 2, 4, 5, 3, 6],
{
    let root = demo_forest()[0];
    let data = root.children[0];
    let render = root.children[1];
    lemma_ids_of_two(data.children);
    assert(node_ids(data) =~= seq![2u32, 4, 5]);
    lemma_ids_of_one(render.children);
    assert(node_ids(render) =~= seq![3u32, 6]);
    lemma_ids_of_two(root.children);
    assert(node_ids(root) =~= seq![1u32, 2, 4, 5, 3, 6]);
    lemma_ids_of_one(demo_forest());
    assert(forest_ids(demo_forest()) =~= seq![1u32, 2, 4, 5, 3, 6]);
}

/// The ids of a forest of one tree.
proof fn lemma_ids_of_one(s: Seq<NodeView>)
    requires
        s.len() == 1,
    ensures
        forest_ids(s) == node_ids(s[0]),
{
    lemma_ids_step(s, 0);
    assert(s.take(1) =~= s);
    assert(forest_ids(s.take(0)) =~= Seq::<u32>::empty());
    assert(forest_ids(s) =~= node_ids(s[0]));
}

/// The ids of a forest of two trees.
proof fn lemma_ids_of_two(s: Seq<NodeView>)
    requires
        s.len() == 2,
    ensures
        forest_ids(s) == node_ids(s[0]) + node_ids(s[1]),
{
    lemma_ids_step(s, 0);
    lemma_ids_step(s, 1);
    assert(s.take(2) =~= s);
    assert(forest_ids(s.take(0)) =~= Seq::<u32>::empty());
    assert(forest_ids(s) =~= node_ids(s[0]) + node_ids(s[1]));
}

impl State {
    /// A new editor: the demo forest of six nodes, the camera at rest over
    /// it, nothing open, nothing queued.
    pub fn new() -> (state: State)
        ensures
            state@ == initial_state(),
            state@.wf(),
    {
        let mut state = State {
            time_since_last_update: 0,
            scene_objects: Vec::new(),
            camera: Camera2D {
                target: Vec2 { x: 400000, y: 450000 },
                offset: Vec2 { x: 640000, y: 360000 },
                rotation: 0,
                zoom: 1000,
            },
            next_id: 0,
            active_settings_id: None,
            requests: Vec::new(),
            active_textbox_id: None,
        };
        let mut root = SceneObject::new(
            state.new_id(),
            "Root",
            Shape::Square,
            Rgba::opaque(230, 41, 55),
        );
        let mut child1 = SceneObject::new(
            state.new_id(),
            "Data",
            Shape::Circle,
            Rgba::opaque(0, 121, 241),
        );
        let mut child2 = SceneObject::new(
            state.new_id(),
            "Render",
            Shape::Triangle,
            Rgba::opaque(0, 228, 48),
        );
        let grandchild1a = SceneObject::new(
            state.new_id(),
            "Mesh",
            Shape::Square,
            Rgba::opaque(253, 249, 0),
        );
        let grandchild1b = SceneObject::new(
            state.new_id(),
            "Texture",
            Shape::Triangle,
            Rgba::opaque(255, 161, 0),
        );
        let grandchild2a = SceneObject::new(
            state.new_id(),
            "Shader",
            Shape::Circle,
            Rgba::opaque(200, 122, 255),
        );

        child1.push_child(grandchild1a);
        child1.push_child(grandchild1b);
        child2.push_child(grandchild2a);
        proof {
            let demo_root = demo_forest()[0];
            assert(node_view(child1).children =~= demo_root.children[0].children);
            assert(node_view(child2).children =~= demo_root.children[1].children);
            assert(node_view(child1) == demo_root.children[0]);
            assert(node_view(child2) == demo_root.children[1]);
        }
        root.push_child(child1);
        root.push_child(child2);
        proof {
            assert(node_view(root).children =~= demo_forest()[0].children);
            assert(node_view(root) == demo_forest()[0]);
        }
        state.scene_objects.push(root);
        proof {
            assert(state@.scene_objects =~= demo_forest());
            lemma_demo_ids();
        }
        state
    }

    /// Hands out the next id: one more than the last.
    pub fn new_id(&mut self) -> (id: u32)
        requires
            old(self).next_id < u32::MAX,
        ensures
            id == old(self).next_id + 1,
            final(self)@ == (StateView { next_id: id, ..old(self)@ }),
            final(self).scene_objects == old(self).scene_objects,
            final(self).requests == old(self).requests,
    {
        self.next_id += 1;
        self.next_id
    }
}

} // verus!
