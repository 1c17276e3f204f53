use scene_editor::{
    EditorRequest, PanelEvents, Rectangle, Rgba, SceneObject, Shape, Vec2, draw_settings_panel,
    gui_text_box_safe, panel_layout,
};
use scene_editor::panel::{check_collision_point_rec, shape_from_index, shape_index};

fn quiet(obj: &SceneObject) -> PanelEvents {
    PanelEvents {
        close_requested: false,
        typed: Vec::new(),
        backspace: false,
        enter: false,
        mouse_position: Vec2 { x: 900000, y: 500000 },
        mouse_pressed: false,
        shape_index: shape_index(obj.shape),
        rotation_speed: obj.rotation_speed,
        color: obj.color,
        add_child: false,
        delete_node: false,
    }
}

fn node() -> SceneObject {
    SceneObject::new(7, "Data", Shape::Circle, Rgba::opaque(0, 121, 241))
}

fn rect(x: i64, y: i64, width: i64, height: i64) -> Rectangle {
    Rectangle { x, y, width, height }
}

fn chars(text: &str) -> Vec<char> {
    text.chars().collect()
}

const IN_FIELD: Vec2 = Vec2 { x: 200000, y: 100000 };

#[test]
fn typing_reaches_the_buffer_of_the_node_being_edited() {
    let mut buffer = String::from("Da");
    assert!(!gui_text_box_safe(&mut buffer, true, &chars("ta"), false, false));
    assert_eq!(buffer, "Data");
}

#[test]
fn typing_does_not_reach_a_node_that_is_not_being_edited() {
    let mut buffer = String::from("Data");
    assert!(!gui_text_box_safe(&mut buffer, false, &chars("xyz"), true, true));
    assert_eq!(buffer, "Data");
}

#[test]
fn backspace_removes_the_last_character() {
    let mut buffer = String::from("Data");
    assert!(!gui_text_box_safe(&mut buffer, true, &Vec::new(), true, false));
    assert_eq!(buffer, "Dat");
    assert!(!gui_text_box_safe(&mut buffer, true, &chars("um"), true, false));
    assert_eq!(buffer, "Datu");
}

#[test]
fn backspace_on_an_empty_buffer_does_nothing() {
    let mut buffer = String::new();
    assert!(!gui_text_box_safe(&mut buffer, true, &Vec::new(), true, false));
    assert_eq!(buffer, "");
    assert!(!gui_text_box_safe(&mut buffer, true, &chars("é"), true, false));
    assert_eq!(buffer, "");
}

#[test]
fn enter_asks_for_a_commit_while_editing() {
    let mut buffer = String::from("Data");
    assert!(gui_text_box_safe(&mut buffer, true, &chars("!"), false, true));
    assert_eq!(buffer, "Data!");
}

#[test]
fn typing_hello_and_committing_sets_the_label() {
    let mut obj = node();
    let mut open = Some(7);
    let mut requests: Vec<EditorRequest> = Vec::new();
    let mut focus = None;

    let mut press = quiet(&obj);
    press.mouse_position = IN_FIELD;
    press.mouse_pressed = true;
    draw_settings_panel(&mut open, &mut requests, &mut focus, &mut obj, &press);
    assert_eq!(focus, Some(7));

    for _ in 0..4 {
        let mut erase = quiet(&obj);
        erase.backspace = true;
        draw_settings_panel(&mut open, &mut requests, &mut focus, &mut obj, &erase);
    }
    assert_eq!(obj.text_buffer, "");
    assert_eq!(obj.text, "Data");

    let mut typing = quiet(&obj);
    typing.typed = chars("Hello");
    draw_settings_panel(&mut open, &mut requests, &mut focus, &mut obj, &typing);
    assert_eq!(obj.text_buffer, "Hello");
    assert_eq!(obj.text, "Data");
    assert_eq!(focus, Some(7));

    let mut commit = quiet(&obj);
    commit.enter = true;
    draw_settings_panel(&mut open, &mut requests, &mut focus, &mut obj, &commit);
    assert_eq!(obj.text, "Hello");
    assert_eq!(obj.text_buffer, "Hello");
    assert_eq!(focus, None);
    assert_eq!(open, Some(7));
    assert!(requests.is_empty());
}

#[test]
fn a_press_outside_the_field_commits() {
    let mut obj = node();
    let mut open = Some(7);
    let mut requests: Vec<EditorRequest> = Vec::new();
    let mut focus = Some(7);
    let mut events = quiet(&obj);
    events.typed = chars("base");
    events.mouse_pressed = true;
    draw_settings_panel(&mut open, &mut requests, &mut focus, &mut obj, &events);
    assert_eq!(obj.text, "Database");
    assert_eq!(focus, None);
}

#[test]
fn a_press_inside_the_field_keeps_the_editing() {
    let mut obj = node();
    let mut open = Some(7);
    let mut requests: Vec<EditorRequest> = Vec::new();
    let mut focus = Some(7);
    let mut events = quiet(&obj);
    events.typed = chars("x");
    events.mouse_pressed = true;
    events.mouse_position = IN_FIELD;
    draw_settings_panel(&mut open, &mut requests, &mut focus, &mut obj, &events);
    assert_eq!(obj.text, "Data");
    assert_eq!(obj.text_buffer, "Datax");
    assert_eq!(focus, Some(7));
}

#[test]
fn a_press_inside_the_field_takes_the_editing_from_another_node() {
    let mut obj = node();
    let mut open = Some(7);
    let mut requests: Vec<EditorRequest> = Vec::new();
    let mut focus = Some(3);
    let mut events = quiet(&obj);
    events.typed = chars("x");
    events.mouse_pressed = true;
    events.mouse_position = IN_FIELD;
    draw_settings_panel(&mut open, &mut requests, &mut focus, &mut obj, &events);
    assert_eq!(focus, Some(7));
    assert_eq!(obj.text_buffer, "Data");
}

#[test]
fn without_editing_enter_and_presses_elsewhere_do_nothing() {
    let mut obj = node();
    obj.text_buffer = String::from("Draft");
    let mut open = Some(7);
    let mut requests: Vec<EditorRequest> = Vec::new();
    let mut focus = None;
    let mut events = quiet(&obj);
    events.enter = true;
    events.mouse_pressed = true;
    events.typed = chars("zzz");
    draw_settings_panel(&mut open, &mut requests, &mut focus, &mut obj, &events);
    assert_eq!(obj.text, "Data");
    assert_eq!(obj.text_buffer, "Draft");
    assert_eq!(focus, None);

    let mut other = Some(3);
    draw_settings_panel(&mut open, &mut requests, &mut other, &mut obj, &events);
    assert_eq!(obj.text, "Data");
    assert_eq!(other, Some(3));
}

#[test]
fn the_widgets_set_shape_speed_and_colour() {
    let mut obj = node();
    let mut open = Some(7);
    let mut requests: Vec<EditorRequest> = Vec::new();
    let mut focus = None;
    let mut events = quiet(&obj);
    events.shape_index = 2;
    events.rotation_speed = -45500;
    events.color = Rgba { r: 1, g: 2, b: 3, a: 4 };
    draw_settings_panel(&mut open, &mut requests, &mut focus, &mut obj, &events);
    assert_eq!(obj.shape, Shape::Triangle);
    assert_eq!(obj.rotation_speed, -45500);
    assert_eq!(obj.color, Rgba { r: 1, g: 2, b: 3, a: 4 });
    assert_eq!(obj.id, 7);
    assert_eq!(obj.current_rotation, 0);
    assert_eq!(open, Some(7));
    assert!(requests.is_empty());
}

#[test]
fn the_speed_stays_within_what_the_slider_offers() {
    let mut obj = node();
    let mut open = Some(7);
    let mut requests: Vec<EditorRequest> = Vec::new();
    let mut focus = None;
    let mut events = quiet(&obj);
    events.rotation_speed = 180001;
    draw_settings_panel(&mut open, &mut requests, &mut focus, &mut obj, &events);
    assert_eq!(obj.rotation_speed, 180000);
    events.rotation_speed = i64::MIN;
    draw_settings_panel(&mut open, &mut requests, &mut focus, &mut obj, &events);
    assert_eq!(obj.rotation_speed, -180000);
    events.rotation_speed = 180000;
    draw_settings_panel(&mut open, &mut requests, &mut focus, &mut obj, &events);
    assert_eq!(obj.rotation_speed, 180000);
}

#[test]
fn the_buttons_queue_their_requests() {
    let mut obj = node();
    let mut open = Some(7);
    let mut requests = vec![EditorRequest::DeleteNode { node_id: 1 }];
    let mut focus = None;
    let mut events = quiet(&obj);
    events.add_child = true;
    draw_settings_panel(&mut open, &mut requests, &mut focus, &mut obj, &events);
    assert_eq!(
        requests,
        vec![EditorRequest::DeleteNode { node_id: 1 }, EditorRequest::AddChild { parent_id: 7 }]
    );
    assert_eq!(open, Some(7));
    assert!(obj.children.is_empty());

    events.delete_node = true;
    draw_settings_panel(&mut open, &mut requests, &mut focus, &mut obj, &events);
    assert_eq!(
        requests,
        vec![
            EditorRequest::DeleteNode { node_id: 1 },
            EditorRequest::AddChild { parent_id: 7 },
            EditorRequest::AddChild { parent_id: 7 },
            EditorRequest::DeleteNode { node_id: 7 },
        ]
    );
    assert_eq!(open, None);
}

#[test]
fn asking_for_the_deletion_leaves_the_editing_to_the_queue() {
    let mut obj = node();
    let mut open = Some(7);
    let mut requests: Vec<EditorRequest> = Vec::new();
    let mut focus = Some(7);
    let mut events = quiet(&obj);
    events.typed = chars("Hello");
    events.delete_node = true;
    draw_settings_panel(&mut open, &mut requests, &mut focus, &mut obj, &events);
    assert_eq!(obj.text, "Data");
    assert_eq!(obj.text_buffer, "DataHello");
    assert_eq!(focus, Some(7));
    assert_eq!(open, None);
    assert_eq!(requests, vec![EditorRequest::DeleteNode { node_id: 7 }]);
}

#[test]
fn without_enter_and_without_a_press_label_and_focus_stay() {
    let mut obj = node();
    let mut open = Some(7);
    let mut requests: Vec<EditorRequest> = Vec::new();
    let mut focus = Some(7);
    let mut events = quiet(&obj);
    events.typed = chars("xy");
    events.backspace = true;
    events.add_child = true;
    events.delete_node = true;
    events.close_requested = true;
    events.mouse_position = IN_FIELD;
    draw_settings_panel(&mut open, &mut requests, &mut focus, &mut obj, &events);
    assert_eq!(obj.text, "Data");
    assert_eq!(obj.text_buffer, "Datax");
    assert_eq!(focus, Some(7));

    let mut idle = None;
    draw_settings_panel(&mut open, &mut requests, &mut idle, &mut obj, &events);
    assert_eq!(obj.text, "Data");
    assert_eq!(obj.text_buffer, "Datax");
    assert_eq!(idle, None);
}

#[test]
fn a_press_inside_the_field_starts_the_editing_whatever_the_buttons_say() {
    let mut obj = node();
    let mut open = Some(7);
    let mut requests: Vec<EditorRequest> = Vec::new();
    let mut focus = None;
    let mut events = quiet(&obj);
    events.mouse_pressed = true;
    events.mouse_position = IN_FIELD;
    events.delete_node = true;
    draw_settings_panel(&mut open, &mut requests, &mut focus, &mut obj, &events);
    assert_eq!(focus, Some(7));
    assert_eq!(open, None);
}

#[test]
fn a_commit_comes_before_the_deletion() {
    let mut obj = node();
    let mut open = Some(7);
    let mut requests: Vec<EditorRequest> = Vec::new();
    let mut focus = Some(7);
    let mut events = quiet(&obj);
    events.typed = chars("Hello");
    events.enter = true;
    events.delete_node = true;
    draw_settings_panel(&mut open, &mut requests, &mut focus, &mut obj, &events);
    assert_eq!(obj.text, "DataHello");
    assert_eq!(obj.text_buffer, "DataHello");
    assert_eq!(focus, None);
    assert_eq!(open, None);
}

#[test]
fn asking_for_the_deletion_leaves_the_editing_of_another_node() {
    let mut obj = node();
    let mut open = Some(7);
    let mut requests: Vec<EditorRequest> = Vec::new();
    let mut focus = Some(3);
    let mut events = quiet(&obj);
    events.delete_node = true;
    draw_settings_panel(&mut open, &mut requests, &mut focus, &mut obj, &events);
    assert_eq!(focus, Some(3));
    assert_eq!(open, None);
}

#[test]
fn the_close_box_closes_the_panel() {
    let mut obj = node();
    let mut open = Some(7);
    let mut requests: Vec<EditorRequest> = Vec::new();
    let mut focus = Some(7);
    let mut events = quiet(&obj);
    events.close_requested = true;
    draw_settings_panel(&mut open, &mut requests, &mut focus, &mut obj, &events);
    assert_eq!(open, None);
    assert_eq!(focus, Some(7));
    assert!(requests.is_empty());
}

#[test]
fn the_panel_on_a_screen_of_720_pixels() {
    let layout = panel_layout(720);
    assert_eq!(layout.window, rect(20000, 20000, 400000, 680000));
    assert_eq!(layout.name_label, rect(30000, 60000, 100000, 20000));
    assert_eq!(layout.text_box, rect(30000, 85000, 380000, 30000));
    assert_eq!(layout.shape_label, rect(30000, 125000, 100000, 20000));
    assert_eq!(layout.shape_toggle, rect(30000, 150000, 70000, 25000));
    assert_eq!(layout.speed_label, rect(30000, 185000, 100000, 20000));
    assert_eq!(layout.speed_slider, rect(30000, 210000, 380000, 20000));
    assert_eq!(layout.color_label, rect(30000, 240000, 100000, 20000));
    assert_eq!(layout.color_picker, rect(30000, 265000, 380000, 150000));
    assert_eq!(layout.add_button, rect(30000, 425000, 150000, 30000));
    assert_eq!(layout.delete_button, rect(260000, 425000, 150000, 30000));
}

#[test]
fn the_panel_window_follows_the_screen_height() {
    assert_eq!(panel_layout(1080).window.height, 1040000);
    assert_eq!(panel_layout(0).window.height, -40000);
    assert_eq!(panel_layout(i32::MAX).window.height, 2147483607000);
    assert_eq!(panel_layout(1080).text_box, panel_layout(720).text_box);
}

#[test]
fn a_rectangle_holds_its_left_and_upper_edges_only() {
    let field = Rectangle { x: 30000, y: 85000, width: 380000, height: 30000 };
    assert!(check_collision_point_rec(Vec2 { x: 30000, y: 85000 }, field));
    assert!(check_collision_point_rec(Vec2 { x: 409999, y: 114999 }, field));
    assert!(!check_collision_point_rec(Vec2 { x: 410000, y: 100000 }, field));
    assert!(!check_collision_point_rec(Vec2 { x: 100000, y: 115000 }, field));
    assert!(!check_collision_point_rec(Vec2 { x: 29999, y: 100000 }, field));
    assert!(!check_collision_point_rec(Vec2 { x: 100000, y: 84999 }, field));
}

#[test]
fn a_rectangle_at_the_bounds_does_not_overflow() {
    let far = Rectangle { x: i64::MAX, y: i64::MAX, width: i64::MAX, height: i64::MAX };
    assert!(check_collision_point_rec(Vec2 { x: i64::MAX, y: i64::MAX }, far));
    let hollow = Rectangle { x: 0, y: 0, width: -5, height: 10 };
    assert!(!check_collision_point_rec(Vec2 { x: 0, y: 0 }, hollow));
}

#[test]
fn the_toggle_shows_a_shape_under_its_index() {
    assert_eq!(shape_index(Shape::Square), 0);
    assert_eq!(shape_index(Shape::Circle), 1);
    assert_eq!(shape_index(Shape::Triangle), 2);
    assert_eq!(shape_from_index(0), Shape::Square);
    assert_eq!(shape_from_index(1), Shape::Circle);
    assert_eq!(shape_from_index(2), Shape::Triangle);
    assert_eq!(shape_from_index(3), Shape::Triangle);
    assert_eq!(shape_from_index(-1), Shape::Triangle);
}
