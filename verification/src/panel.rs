//! The settings panel of the open node: where its widgets stand, and what
//! their reports do to the node, to the queue of requests and to the focus
//! of label editing.
//!
//! Label editing has two states. Idle: no node is being typed into.
//! Editing: one node is, and it alone receives characters and backspaces. A
//! press inside the label field starts editing; Enter, or a press outside
//! the field, commits the typed text as the new label; the deletion of the
//! node, when the queue is drained, abandons it, and the typed text is lost
//! with the node.

use crate::model::{NodeView, Rgba, SceneObject, Shape, Vec2};
use crate::state::EditorRequest;
use vstd::prelude::*;

verus! {

/// A rectangle with its upper left corner, in thousandths of a pixel.
#[derive(Debug, Clone, Copy, PartialEq, Eq, Structural)]
pub struct Rectangle {
    pub x: i64,
    pub y: i64,
    pub width: i64,
    pub height: i64,
}

impl Rectangle {
    /// Whether the point lies in the rectangle: its left and upper edges
    /// belong to it, its right and lower edges do not.
    pub open spec fn contains(self, point: Vec2) -> bool {
        &&& point.x >= self.x
        &&& point.x < self.x + self.width
        &&& point.y >= self.y
        &&& point.y < self.y + self.height
    }
}

/// Whether `point` lies in `rec`.
pub fn check_collision_point_rec(point: Vec2, rec: Rectangle) -> (inside: bool)
    ensures
        inside == rec.contains(point),
{
    point.x >= rec.x && (point.x as i128) < rec.x as i128 + rec.width as i128 && point.y >= rec.y
        && (point.y as i128) < rec.y as i128 + rec.height as i128
}

/// Where the widgets of the settings panel stand on the screen.
#[derive(Debug, Clone, Copy, PartialEq, Eq, Structural)]
pub struct PanelLayout {
    pub window: Rectangle,
    pub name_label: Rectangle,
    pub text_box: Rectangle,
    pub shape_label: Rectangle,
    pub shape_toggle: Rectangle,
    pub speed_label: Rectangle,
    pub speed_slider: Rectangle,
    pub color_label: Rectangle,
    pub color_picker: Rectangle,
    pub add_button: Rectangle,
    pub delete_button: Rectangle,
}

/// Distance of the panel from the screen's edges.
pub const PANEL_PADDING: i64 = 20000;

/// Width of the panel.
pub const PANEL_WIDTH: i64 = 400000;

/// The right edge of the panel: a press left of it, while the panel is
/// open, belongs to the panel and selects no node.
pub const PANEL_EDGE: i64 = 420000;

/// Slowest and fastest rotation that the slider offers, in thousandths of
/// a degree per second.
pub const MIN_ROTATION_SPEED: i64 = -180000;

pub const MAX_ROTATION_SPEED: i64 = 180000;

/// The field in which the label is typed.
pub open spec fn text_box_bounds() -> Rectangle {
    Rectangle { x: 30000, y: 85000, width: 380000, height: 30000 }
}

/// The field in which the label is typed.
pub fn text_box() -> (field: Rectangle)
    ensures
        field == text_box_bounds(),
{
    Rectangle { x: 30000, y: 85000, width: 380000, height: 30000 }
}

/// The panel's widgets on a screen of `screen_height` pixels: a window
/// along the left edge over the screen's height less the padding, and in it,
/// from the top, the label field, the shape toggle, the speed slider, the
/// colour picker and the two buttons.
pub open spec fn panel_rects(screen_height: i32) -> PanelLayout {
    PanelLayout {
        window: Rectangle {
            x: 20000,
            y: 20000,
            width: 400000,
            height: (screen_height * 1000 - 40000) as i64,
        },
        name_label: Rectangle { x: 30000, y: 60000, width: 100000, height: 20000 },
        text_box: text_box_bounds(),
        shape_label: Rectangle { x: 30000, y: 125000, width: 100000, height: 20000 },
        shape_toggle: Rectangle { x: 30000, y: 150000, width: 70000, height: 25000 },
        speed_label: Rectangle { x: 30000, y: 185000, width: 100000, height: 20000 },
        speed_slider: Rectangle { x: 30000, y: 210000, width: 380000, height: 20000 },
        color_label: Rectangle { x: 30000, y: 240000, width: 100000, height: 20000 },
        color_picker: Rectangle { x: 30000, y: 265000, width: 380000, height: 150000 },
        add_button: Rectangle { x: 30000, y: 425000, width: 150000, height: 30000 },
        delete_button: Rectangle { x: 260000, y: 425000, width: 150000, height: 30000 },
    }
}

/// Lays out the settings panel for a screen of `screen_height` pixels.
pub fn panel_layout(screen_height: i32) -> (layout: PanelLayout)
    ensures
        layout == panel_rects(screen_height),
{
    let window = Rectangle {
        x: PANEL_PADDING,
        y: PANEL_PADDING,
        width: PANEL_WIDTH,
        height: screen_height as i64 * 1000 - PANEL_PADDING * 2,
    };
    let base_x = window.x + 10000;
    let mut current_y = window.y + 40000;
    let name_label = Rectangle { x: base_x, y: current_y, width: 100000, height: 20000 };
    current_y += 25000;
    let text_box = Rectangle {
        x: base_x,
        y: current_y,
        width: window.width - 20000,
        height: 30000,
    };
    current_y += 40000;
    let shape_label = Rectangle { x: base_x, y: current_y, width: 100000, height: 20000 };
    current_y += 25000;
    let shape_toggle = Rectangle { x: base_x, y: current_y, width: 70000, height: 25000 };
    current_y += 35000;
    let speed_label = Rectangle { x: base_x, y: current_y, width: 100000, height: 20000 };
    current_y += 25000;
    let speed_slider = Rectangle {
        x: base_x,
        y: current_y,
        width: window.width - 20000,
        height: 20000,
    };
    current_y += 30000;
    let color_label = Rectangle { x: base_x, y: current_y, width: 100000, height: 20000 };
    current_y += 25000;
    let color_picker = Rectangle {
        x: base_x,
        y: current_y,
        width: window.width - 20000,
        height: 150000,
    };
    current_y += 160000;
    let add_button = Rectangle { x: base_x, y: current_y, width: 150000, height: 30000 };
    let delete_button = Rectangle {
        x: window.x + window.width - 160000,
        y: current_y,
        width: 150000,
        height: 30000,
    };
    PanelLayout {
        window,
        name_label,
        text_box,
        shape_label,
        shape_toggle,
        speed_label,
        speed_slider,
        color_label,
        color_picker,
        add_button,
        delete_button,
    }
}

/// What the input layer and the panel's widgets reported in one frame.
#[derive(Debug)]
pub struct PanelEvents {
    /// The window's close box was activated.
    pub close_requested: bool,
    /// The characters typed, in order.
    pub typed: Vec<char>,
    /// Backspace was pressed, or is held and repeats.
    pub backspace: bool,
    /// Enter was pressed.
    pub enter: bool,
    pub mouse_position: Vec2,
    /// The select button of the pointer was pressed.
    pub mouse_pressed: bool,
    /// The index that the shape toggle shows: 0 for a square, 1 for a
    /// circle, any other for a triangle.
    pub shape_index: i32,
    /// The value that the speed slider shows.
    pub rotation_speed: i64,
    /// The colour that the picker shows.
    pub color: Rgba,
    /// The button "Add Child" was activated.
    pub add_child: bool,
    /// The button "Delete Node" was activated.
    pub delete_node: bool,
}

/// The index under which the shape toggle shows a shape.
pub open spec fn index_of_shape(shape: Shape) -> i32 {
    match shape {
        Shape::Square => 0,
        Shape::Circle => 1,
        Shape::Triangle => 2,
    }
}

/// The shape that the toggle shows under an index.
pub open spec fn shape_of_index(index: i32) -> Shape {
    if index == 0 {
        Shape::Square
    } else if index == 1 {
        Shape::Circle
    } else {
        Shape::Triangle
    }
}

/// The index under which the shape toggle shows `shape`.
pub fn shape_index(shape: Shape) -> (index: i32)
    ensures
        index == index_of_shape(shape),
        shape_of_index(index) == shape,
{
    match shape {
        Shape::Square => 0,
        Shape::Circle => 1,
        Shape::Triangle => 2,
    }
}

/// The shape that the toggle shows under `index`.
pub fn shape_from_index(index: i32) -> (shape: Shape)
    ensures
        shape == shape_of_index(index),
{
    match index {
        0 => Shape::Square,
        1 => Shape::Circle,
        _ => Shape::Triangle,
    }
}

/// `String::push` of std appends the character to the end of the string.
pub assume_specification[ String::push ](s: &mut String, ch: char)
    ensures
        final(s)@ == old(s)@.push(ch),
;

/// `String::pop` of std removes the last character and returns it; of an
/// empty string it returns `None` and leaves it empty.
pub assume_specification[ String::pop ](s: &mut String) -> (last: Option<char>)
    ensures
        old(s)@.len() == 0 ==> last is None && final(s)@ == old(s)@,
        old(s)@.len() > 0 ==> last == Some(old(s)@.last()) && final(s)@ == old(s)@.drop_last(),
;

/// The edit buffer after one frame of typing: untouched unless its node is
/// being edited; else the typed characters appended and then, on backspace,
/// the last character removed.
pub open spec fn edited(buffer: Seq<char>, focused: bool, typed: Seq<char>, backspace: bool) -> Seq<
    char,
> {
    if !focused {
        buffer
    } else if backspace && (buffer + typed).len() > 0 {
        (buffer + typed).drop_last()
    } else {
        buffer + typed
    }
}

/// Feeds one frame of keyboard input to the edit buffer `text` if its node
/// is being edited, and says whether Enter asks for a commit.
pub fn gui_text_box_safe(
    text: &mut String,
    focused: bool,
    typed: &Vec<char>,
    backspace: bool,
    enter: bool,
) -> (commit: bool)
    ensures
        final(text)@ == edited(old(text)@, focused, typed@, backspace),
        commit == (focused && enter),
{
    let mut result = false;
    if focused {
        let mut i: usize = 0;
        while i < typed.len()
            invariant
                i <= typed.len(),
                text@ == old(text)@ + typed@.take(i as int),
            decreases typed.len() - i,
        {
            text.push(typed[i]);
            proof {
                assert(typed@.take(i + 1) =~= typed@.take(i as int).push(typed@[i as int]));
                assert(text@ =~= old(text)@ + typed@.take(i + 1));
            }
            i += 1;
        }
        proof {
            assert(typed@.take(i as int) =~= typed@);
        }
        if backspace {
            text.pop();
        }
        if enter {
            result = true;
        }
    } else {
        proof {
            assert(text@ =~= old(text)@);
        }
    }
    result
}

/// Whether this frame commits the typed text: the node is being edited, and
/// Enter was pressed or the pointer was pressed outside the label field.
pub open spec fn commits(focused: bool, e: PanelEvents) -> bool {
    focused && (e.enter || (e.mouse_pressed && !text_box_bounds().contains(e.mouse_position)))
}

/// `speed` held within what the slider offers.
pub open spec fn clamped_speed(speed: i64) -> i64 {
    if speed < MIN_ROTATION_SPEED {
        MIN_ROTATION_SPEED
    } else if speed > MAX_ROTATION_SPEED {
        MAX_ROTATION_SPEED
    } else {
        speed
    }
}

/// The open node after one frame of its panel: the buffer edited, the label
/// replaced by the buffer on a commit, and shape, speed and colour as the
/// widgets show them. Its id, its rotation and its children stay.
pub open spec fn panel_node(n: NodeView, focused: bool, e: PanelEvents) -> NodeView {
    let buffer = edited(n.text_buffer, focused, e.typed@, e.backspace);
    NodeView {
        text: if commits(focused, e) {
            buffer
        } else {
            n.text
        },
        text_buffer: buffer,
        shape: shape_of_index(e.shape_index),
        rotation_speed: clamped_speed(e.rotation_speed),
        color: e.color,
        ..n
    }
}

/// Only a commit changes the label. On a commit the label becomes what the
/// buffer holds. Without one, whatever is typed and whichever button is
/// activated, the label stays as it was, and so does the focus unless the
/// pointer is pressed.
pub proof fn lemma_commit_or_keep(n: NodeView, active_textbox_id: Option<u32>, e: PanelEvents)
    ensures
        ({
            let focused = active_textbox_id == Some(n.id);
            let after = panel_node(n, focused, e);
            &&& commits(focused, e) ==> after.text == after.text_buffer && after.text == edited(
                n.text_buffer,
                focused,
                e.typed@,
                e.backspace,
            ) && panel_focus(active_textbox_id, n.id, e) is None
            &&& !commits(focused, e) ==> after.text == n.text
            &&& !e.enter && !e.mouse_pressed ==> after.text == n.text && panel_focus(
                active_textbox_id,
                n.id,
                e,
            ) == active_textbox_id
        }),
{
}

/// The node being edited after one frame of the panel of node `id`: nobody
/// after a commit; `id` after a press inside the label field; else as
/// before. The panel's buttons do not touch it: a node whose deletion is
/// asked for is being edited until the queue is drained.
pub open spec fn panel_focus(active_textbox_id: Option<u32>, id: u32, e: PanelEvents) -> Option<
    u32,
> {
    let focused = active_textbox_id == Some(id);
    if commits(focused, e) {
        None
    } else if e.mouse_pressed && text_box_bounds().contains(e.mouse_position) {
        Some(id)
    } else {
        active_textbox_id
    }
}

/// The open node after one frame of the panel of node `id`: nobody once the
/// window is closed or the node's deletion is asked for.
pub open spec fn panel_open(active_settings_id: Option<u32>, e: PanelEvents) -> Option<u32> {
    if e.close_requested || e.delete_node {
        None
    } else {
        active_settings_id
    }
}

/// The queue after one frame of the panel of node `id`: a request for each
/// button that was activated, "Add Child" before "Delete Node".
pub open spec fn panel_requests(requests: Seq<EditorRequest>, id: u32, e: PanelEvents) -> Seq<
    EditorRequest,
> {
    let added = if e.add_child {
        requests.push(EditorRequest::AddChild { parent_id: id })
    } else {
        requests
    };
    if e.delete_node {
        added.push(EditorRequest::DeleteNode { node_id: id })
    } else {
        added
    }
}

/// Applies one frame of the settings panel of `obj`: what was typed, the
/// pointer's press, and what the widgets show. Structural edits are not made
/// here: they are queued in `requests`.
pub fn draw_settings_panel(
    active_settings_id: &mut Option<u32>,
    requests: &mut Vec<EditorRequest>,
    active_textbox_id: &mut Option<u32>,
    obj: &mut SceneObject,
    events: &PanelEvents,
)
    ensures
        *final(active_settings_id) == panel_open(*old(active_settings_id), *events),
        final(requests)@ == panel_requests(old(requests)@, old(obj).id, *events),
        *final(active_textbox_id) == panel_focus(*old(active_textbox_id), old(obj).id, *events),
        final(obj)@ == panel_node(old(obj)@, *old(active_textbox_id) == Some(old(obj).id), *events),
        final(obj).children == old(obj).children,
{
    if events.close_requested {
        *active_settings_id = None;
    }
    let focused = match *active_textbox_id {
        Some(id) => id == obj.id,
        None => false,
    };
    let inside = check_collision_point_rec(events.mouse_position, text_box());
    if gui_text_box_safe(
        &mut obj.text_buffer,
        focused,
        &events.typed,
        events.backspace,
        events.enter,
    ) {
        obj.text = obj.text_buffer.clone();
        *active_textbox_id = None;
    } else if inside && events.mouse_pressed {
        *active_textbox_id = Some(obj.id);
    } else if focused && events.mouse_pressed {
        obj.text = obj.text_buffer.clone();
        *active_textbox_id = None;
    }
    obj.shape = shape_from_index(events.shape_index);
    obj.rotation_speed = if events.rotation_speed < MIN_ROTATION_SPEED {
        MIN_ROTATION_SPEED
    } else if events.rotation_speed > MAX_ROTATION_SPEED {
        MAX_ROTATION_SPEED
    } else {
        events.rotation_speed
    };
    obj.color = events.color;
    if events.add_child {
        requests.push(EditorRequest::AddChild { parent_id: obj.id });
    }
    if events.delete_node {
        requests.push(EditorRequest::DeleteNode { node_id: obj.id });
        *active_settings_id = None;
    }
    proof {
        assert(obj@ =~= panel_node(
            old(obj)@,
            *old(active_textbox_id) == Some(old(obj).id),
            *events,
        ));
    }
}

} // verus!
