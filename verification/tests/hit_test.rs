use scene_editor::{
    Rgba, SceneObject, Shape, State, Vec2, find_clicked, find_clicked_object, layout,
};
use scene_editor::hit::is_within_reach;
use std::collections::HashMap;

fn node(id: u32) -> SceneObject {
    SceneObject::new(id, "n", Shape::Square, Rgba::opaque(0, 0, 0))
}

fn point(x: i64, y: i64) -> Vec2 {
    Vec2 { x, y }
}

#[test]
fn a_point_at_a_nodes_own_position_hits_that_node() {
    let state = State::new();
    let positions = layout(&state.scene_objects);
    for id in 1..=6u32 {
        assert_eq!(find_clicked(&state.scene_objects, positions[&id], &positions), Some(id));
    }
}

#[test]
fn the_reach_ends_at_half_a_shape() {
    let state = State::new();
    let positions = layout(&state.scene_objects);
    let mesh = positions[&4];
    assert_eq!(
        find_clicked(&state.scene_objects, point(mesh.x + 19999, mesh.y), &positions),
        Some(4)
    );
    assert_eq!(find_clicked(&state.scene_objects, point(mesh.x + 20000, mesh.y), &positions), None);
    assert_eq!(
        find_clicked(&state.scene_objects, point(mesh.x, mesh.y - 19999), &positions),
        Some(4)
    );
    assert_eq!(find_clicked(&state.scene_objects, point(mesh.x, mesh.y - 20000), &positions), None);
}

#[test]
fn the_reach_is_a_circle() {
    assert!(is_within_reach(point(12000, 15999), point(0, 0)));
    assert!(!is_within_reach(point(12000, 16000), point(0, 0)));
    assert!(is_within_reach(point(-14142, 14142), point(0, 0)));
    assert!(!is_within_reach(point(-14143, 14143), point(0, 0)));
}

#[test]
fn far_points_are_out_of_reach_without_overflow() {
    assert!(!is_within_reach(point(i64::MAX, i64::MAX), point(i64::MIN, i64::MIN)));
    assert!(!is_within_reach(point(i64::MIN, 0), point(i64::MAX, 0)));
    assert!(is_within_reach(point(i64::MAX, i64::MIN), point(i64::MAX, i64::MIN)));
}

#[test]
fn a_point_between_the_nodes_hits_nothing() {
    let state = State::new();
    let positions = layout(&state.scene_objects);
    assert_eq!(find_clicked(&state.scene_objects, point(0, 0), &positions), None);
    assert_eq!(find_clicked(&state.scene_objects, point(325000, 190000), &positions), None);
}

#[test]
fn where_shapes_overlap_the_first_in_preorder_wins() {
    let mut root = node(1);
    root.children.push(node(2));
    let forest = vec![root, node(3)];
    let mut positions: HashMap<u32, Vec2> = HashMap::new();
    positions.insert(1, point(100000, 0));
    positions.insert(2, point(5000, 0));
    positions.insert(3, point(0, 0));
    assert_eq!(find_clicked(&forest, point(0, 0), &positions), Some(2));
    assert_eq!(find_clicked(&forest, point(-14000, 0), &positions), Some(2));
    assert_eq!(find_clicked(&forest, point(-16000, 0), &positions), Some(3));
}

#[test]
fn a_parent_is_tried_before_its_children() {
    let mut root = node(1);
    root.children.push(node(2));
    let mut positions: HashMap<u32, Vec2> = HashMap::new();
    positions.insert(1, point(0, 0));
    positions.insert(2, point(0, 0));
    assert_eq!(find_clicked_object(&root, point(1000, 1000), &positions), Some(1));
}

#[test]
fn a_node_without_a_position_is_passed_over() {
    let mut root = node(1);
    root.children.push(node(2));
    let mut positions: HashMap<u32, Vec2> = HashMap::new();
    positions.insert(2, point(0, 0));
    assert_eq!(find_clicked_object(&root, point(0, 0), &positions), Some(2));
    let empty: HashMap<u32, Vec2> = HashMap::new();
    assert_eq!(find_clicked_object(&root, point(0, 0), &empty), None);
}

#[test]
fn find_clicked_object_stays_within_its_tree() {
    let state = State::new();
    let positions = layout(&state.scene_objects);
    let data = &state.scene_objects[0].children[0];
    assert_eq!(find_clicked_object(data, positions[&5], &positions), Some(5));
    assert_eq!(find_clicked_object(data, positions[&6], &positions), None);
    assert_eq!(find_clicked_object(data, positions[&1], &positions), None);
}

#[test]
fn nothing_is_hit_in_an_empty_forest() {
    let forest: Vec<SceneObject> = Vec::new();
    let positions: HashMap<u32, Vec2> = HashMap::new();
    assert_eq!(find_clicked(&forest, point(0, 0), &positions), None);
}

fn grown() -> State {
    let mut state = State::new();
    for parent_id in [1u32, 4, 4, 6, 8, 8, 8, 2, 11, 3, 13, 1, 9] {
        state.requests.push(scene_editor::EditorRequest::AddChild { parent_id });
    }
    scene_editor::process_editor_requests(&mut state);
    state
}

fn all_ids(objects: &Vec<SceneObject>, out: &mut Vec<u32>) {
    for obj in objects {
        out.push(obj.id);
        all_ids(&obj.children, out);
    }
}

#[test]
fn every_node_of_a_grown_tree_is_hit_at_its_own_position() {
    let state = grown();
    let positions = layout(&state.scene_objects);
    let mut ids = Vec::new();
    all_ids(&state.scene_objects, &mut ids);
    assert_eq!(ids.len(), 19);
    assert_eq!(positions.len(), 19);
    for id in &ids {
        assert_eq!(find_clicked(&state.scene_objects, positions[id], &positions), Some(*id));
    }
}

#[test]
fn the_nodes_of_a_grown_tree_stand_a_row_or_a_column_apart() {
    let state = grown();
    let positions = layout(&state.scene_objects);
    let mut ids = Vec::new();
    all_ids(&state.scene_objects, &mut ids);
    for a in &ids {
        for b in &ids {
            if a != b {
                let dx = (positions[a].x - positions[b].x).abs();
                let dy = (positions[a].y - positions[b].y).abs();
                assert!(dx >= 250000 || dy >= 120000);
            }
        }
    }
}
