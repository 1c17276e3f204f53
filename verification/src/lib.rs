//! The engine of an interactive node-tree editor: the tree of scene objects,
//! its left-to-right layout, the camera, hit-testing, the queue of structural
//! edits and the focus rules of label editing.
//!
//! Every length, angle and factor is a fixed-point number with three decimal
//! places, held in an `i64`: `1000` stands for one world unit, one pixel, one
//! degree, or a zoom factor of one. Times are in milliseconds.

pub mod camera;
pub mod fixed;
pub mod frame;
pub mod hit;
pub mod ids;
pub mod layout;
pub mod layout_exact;
pub mod layout_laws;
pub mod model;
pub mod panel;
pub mod requests;
pub mod state;
pub mod tree;
pub mod window;

pub use camera::{Camera2D, screen_to_world, world_to_screen};
pub use frame::{FrameInput, draw, process_events_and_input, run_fixed_steps, step};
pub use hit::{find_clicked, find_clicked_object};
pub use layout::{layout, layout_recursive};
pub use model::{Rgba, SceneObject, Shape, Vec2};
pub use panel::{
    PanelEvents, PanelLayout, Rectangle, draw_settings_panel, gui_text_box_safe, panel_layout,
};
pub use requests::{ids_suffice, process_editor_requests};
pub use state::{EditorRequest, FRAMES_PER_SECOND, State};
pub use tree::{add_child, find_and_delete_node, find_object_by_id, find_object_by_id_mut};
pub use window::center_window;
