use scene_editor::{
    EditorRequest, Rgba, SceneObject, Shape, State, find_object_by_id, process_editor_requests,
    step,
};

fn seed() -> State {
    let mut state = State::new();
    state.scene_objects.clear();
    let mut root = SceneObject::new(1, "Root", Shape::Square, Rgba::opaque(230, 41, 55));
    let mut child1 = SceneObject::new(2, "Child1", Shape::Circle, Rgba::opaque(0, 121, 241));
    child1.push_child(SceneObject::new(3, "Grandchild", Shape::Square, Rgba::opaque(253, 249, 0)));
    root.push_child(child1);
    root.push_child(SceneObject::new(4, "Child2", Shape::Triangle, Rgba::opaque(0, 228, 48)));
    state.scene_objects.push(root);
    state.next_id = 4;
    state
}

fn outline_into(objects: &Vec<SceneObject>, depth: usize, out: &mut Vec<(usize, u32, String)>) {
    for obj in objects {
        out.push((depth, obj.id, obj.text.clone()));
        outline_into(&obj.children, depth + 1, out);
    }
}

fn outline(state: &State) -> Vec<(usize, u32, String)> {
    let mut out = Vec::new();
    outline_into(&state.scene_objects, 0, &mut out);
    out
}

fn ids(state: &State) -> Vec<u32> {
    outline(state).iter().map(|entry| entry.1).collect()
}

#[test]
fn add_child_request_gives_the_parent_a_new_child_with_a_fresh_id() {
    let mut state = seed();
    let before = ids(&state);
    state.requests.push(EditorRequest::AddChild { parent_id: 2 });
    step(&mut state, 16);
    let child1 = find_object_by_id(&state.scene_objects, 2).unwrap();
    assert_eq!(child1.children.len(), 2);
    assert_eq!(child1.children[0].id, 3);
    let added = &child1.children[1];
    assert!(!before.contains(&added.id));
    assert_eq!(added.id, 5);
    assert_eq!(added.text, "New Node");
    assert_eq!(added.text_buffer, "New Node");
    assert_eq!(added.shape, Shape::Square);
    assert_eq!(added.color, Rgba { r: 255, g: 255, b: 255, a: 255 });
    assert_eq!(added.rotation_speed, 20000);
    assert!(added.children.is_empty());
    assert_eq!(state.next_id, 5);
    assert!(state.requests.is_empty());
}

#[test]
fn delete_request_closes_the_panel_of_the_deleted_node() {
    let mut state = seed();
    state.active_settings_id = Some(2);
    state.requests.push(EditorRequest::DeleteNode { node_id: 2 });
    process_editor_requests(&mut state);
    assert_eq!(state.active_settings_id, None);
    assert!(find_object_by_id(&state.scene_objects, 2).is_none());
    assert!(find_object_by_id(&state.scene_objects, 3).is_none());
    assert_eq!(ids(&state), vec![1, 4]);
    assert!(state.requests.is_empty());
}

#[test]
fn delete_request_ends_the_editing_of_the_deleted_node() {
    let mut state = seed();
    state.active_settings_id = Some(4);
    state.active_textbox_id = Some(4);
    state.requests.push(EditorRequest::DeleteNode { node_id: 4 });
    process_editor_requests(&mut state);
    assert_eq!(state.active_settings_id, None);
    assert_eq!(state.active_textbox_id, None);
    assert_eq!(ids(&state), vec![1, 2, 3]);
}

#[test]
fn delete_request_leaves_the_panel_of_another_node_open() {
    let mut state = seed();
    state.active_settings_id = Some(4);
    state.active_textbox_id = Some(1);
    state.requests.push(EditorRequest::DeleteNode { node_id: 2 });
    process_editor_requests(&mut state);
    assert_eq!(state.active_settings_id, Some(4));
    assert_eq!(state.active_textbox_id, Some(1));
}

#[test]
fn requests_are_applied_first_in_first_out() {
    let mut state = seed();
    state.requests.push(EditorRequest::AddChild { parent_id: 4 });
    state.requests.push(EditorRequest::DeleteNode { node_id: 5 });
    process_editor_requests(&mut state);
    assert_eq!(ids(&state), vec![1, 2, 3, 4]);
    assert_eq!(state.next_id, 5);

    let mut other = seed();
    other.requests.push(EditorRequest::DeleteNode { node_id: 5 });
    other.requests.push(EditorRequest::AddChild { parent_id: 4 });
    process_editor_requests(&mut other);
    assert_eq!(ids(&other), vec![1, 2, 3, 4, 5]);
}

#[test]
fn draining_once_equals_draining_after_every_request() {
    let requests = vec![
        EditorRequest::AddChild { parent_id: 2 },
        EditorRequest::AddChild { parent_id: 5 },
        EditorRequest::DeleteNode { node_id: 3 },
        EditorRequest::AddChild { parent_id: 3 },
        EditorRequest::AddChild { parent_id: 1 },
        EditorRequest::DeleteNode { node_id: 4 },
        EditorRequest::DeleteNode { node_id: 4 },
    ];
    let mut batch = seed();
    batch.active_settings_id = Some(4);
    for request in &requests {
        batch.requests.push(*request);
    }
    process_editor_requests(&mut batch);

    let mut single = seed();
    single.active_settings_id = Some(4);
    for request in &requests {
        single.requests.push(*request);
        process_editor_requests(&mut single);
    }
    assert_eq!(outline(&batch), outline(&single));
    assert_eq!(batch.next_id, single.next_id);
    assert_eq!(batch.active_settings_id, single.active_settings_id);
    assert_eq!(
        outline(&batch),
        vec![
            (0, 1, String::from("Root")),
            (1, 2, String::from("Child1")),
            (2, 5, String::from("New Node")),
            (3, 6, String::from("New Node")),
            (1, 8, String::from("New Node")),
        ]
    );
    assert_eq!(batch.next_id, 8);
    assert_eq!(batch.active_settings_id, None);
}

#[test]
fn a_request_for_a_node_that_is_gone_is_dropped() {
    let mut state = seed();
    state.requests.push(EditorRequest::DeleteNode { node_id: 2 });
    state.requests.push(EditorRequest::DeleteNode { node_id: 3 });
    state.requests.push(EditorRequest::AddChild { parent_id: 3 });
    state.requests.push(EditorRequest::DeleteNode { node_id: 2 });
    process_editor_requests(&mut state);
    assert_eq!(ids(&state), vec![1, 4]);
}

#[test]
fn add_child_without_the_parent_still_takes_an_id() {
    let mut state = seed();
    state.requests.push(EditorRequest::AddChild { parent_id: 99 });
    state.requests.push(EditorRequest::AddChild { parent_id: 1 });
    process_editor_requests(&mut state);
    assert_eq!(ids(&state), vec![1, 2, 3, 4, 6]);
    assert_eq!(state.next_id, 6);
}

#[test]
fn draining_an_empty_queue_changes_nothing() {
    let mut state = seed();
    state.active_settings_id = Some(3);
    process_editor_requests(&mut state);
    assert_eq!(ids(&state), vec![1, 2, 3, 4]);
    assert_eq!(state.next_id, 4);
    assert_eq!(state.active_settings_id, Some(3));
}

#[test]
fn deleting_a_node_cascades_to_all_its_descendants() {
    let mut state = State::new();
    state.requests.push(EditorRequest::DeleteNode { node_id: 1 });
    process_editor_requests(&mut state);
    for id in 1..=6u32 {
        assert!(find_object_by_id(&state.scene_objects, id).is_none());
    }
    assert!(state.scene_objects.is_empty());
}

#[test]
fn deleting_a_node_mid_edit_loses_what_was_typed() {
    let mut state = seed();
    state.active_settings_id = Some(4);
    state.active_textbox_id = Some(4);
    {
        let node = scene_editor::find_object_by_id_mut(&mut state.scene_objects, 4).unwrap();
        let typed: Vec<char> = "Hello".chars().collect();
        let commit =
            scene_editor::gui_text_box_safe(&mut node.text_buffer, true, &typed, false, false);
        assert!(!commit);
        assert_eq!(node.text_buffer, "Child2Hello");
        assert_eq!(node.text, "Child2");
    }
    state.requests.push(EditorRequest::DeleteNode { node_id: 4 });
    process_editor_requests(&mut state);
    assert_eq!(state.active_textbox_id, None);
    assert!(find_object_by_id(&state.scene_objects, 4).is_none());
    assert_eq!(
        outline(&state),
        vec![
            (0, 1, String::from("Root")),
            (1, 2, String::from("Child1")),
            (2, 3, String::from("Grandchild")),
        ]
    );
}

#[test]
fn delete_request_closes_the_panel_of_a_descendant() {
    let mut state = seed();
    state.active_settings_id = Some(3);
    state.active_textbox_id = Some(3);
    state.requests.push(EditorRequest::DeleteNode { node_id: 2 });
    process_editor_requests(&mut state);
    assert_eq!(state.active_settings_id, None);
    assert_eq!(state.active_textbox_id, None);
    assert_eq!(ids(&state), vec![1, 4]);
}

#[test]
fn delete_request_releases_what_points_at_no_node() {
    let mut state = seed();
    state.active_settings_id = Some(77);
    state.active_textbox_id = Some(4);
    state.requests.push(EditorRequest::DeleteNode { node_id: 99 });
    process_editor_requests(&mut state);
    assert_eq!(state.active_settings_id, None);
    assert_eq!(state.active_textbox_id, Some(4));
    assert_eq!(ids(&state), vec![1, 2, 3, 4]);
}

#[test]
fn add_child_request_releases_nothing() {
    let mut state = seed();
    state.active_settings_id = Some(77);
    state.active_textbox_id = Some(3);
    state.requests.push(EditorRequest::AddChild { parent_id: 3 });
    process_editor_requests(&mut state);
    assert_eq!(state.active_settings_id, Some(77));
    assert_eq!(state.active_textbox_id, Some(3));
}

#[test]
fn ids_suffice_until_the_counter_is_spent() {
    let mut state = seed();
    assert!(scene_editor::ids_suffice(&state));
    state.next_id = u32::MAX - 1;
    state.requests.push(EditorRequest::DeleteNode { node_id: 1 });
    state.requests.push(EditorRequest::AddChild { parent_id: 1 });
    assert!(scene_editor::ids_suffice(&state));
    state.requests.push(EditorRequest::AddChild { parent_id: 1 });
    assert!(!scene_editor::ids_suffice(&state));
    state.next_id = u32::MAX;
    state.requests.clear();
    assert!(scene_editor::ids_suffice(&state));
}
