use scene_editor::{
    Rgba, SceneObject, Shape, State, Vec2, layout, layout_recursive,
};
use std::collections::HashMap;

fn leaf(id: u32) -> SceneObject {
    SceneObject::new(id, "n", Shape::Square, Rgba::opaque(0, 0, 0))
}

fn at(x: i64, y: i64) -> Vec2 {
    Vec2 { x, y }
}

#[test]
fn layout_of_the_demo_tree() {
    let state = State::new();
    let positions = layout(&state.scene_objects);
    assert_eq!(positions.len(), 6);
    assert_eq!(positions[&1], at(200000, 220000));
    assert_eq!(positions[&2], at(450000, 160000));
    assert_eq!(positions[&4], at(700000, 100000));
    assert_eq!(positions[&5], at(700000, 220000));
    assert_eq!(positions[&3], at(450000, 340000));
    assert_eq!(positions[&6], at(700000, 340000));
}

#[test]
fn layout_twice_gives_the_same_positions() {
    let state = State::new();
    let first = layout(&state.scene_objects);
    let second = layout(&state.scene_objects);
    assert_eq!(first, second);
}

#[test]
fn layout_does_not_depend_on_labels_or_colours() {
    let mut state = State::new();
    let before = layout(&state.scene_objects);
    state.scene_objects[0].text = String::from("Other");
    state.scene_objects[0].children[0].color = Rgba::opaque(9, 9, 9);
    state.scene_objects[0].children[1].shape = Shape::Square;
    state.scene_objects[0].children[1].current_rotation = 123456;
    assert_eq!(layout(&state.scene_objects), before);
}

#[test]
fn layout_holds_one_position_for_every_node() {
    let state = State::new();
    let positions = layout(&state.scene_objects);
    let mut keys: Vec<u32> = positions.keys().copied().collect();
    keys.sort();
    assert_eq!(keys, vec![1, 2, 3, 4, 5, 6]);
}

#[test]
fn layout_of_no_roots_is_empty() {
    let forest: Vec<SceneObject> = Vec::new();
    assert!(layout(&forest).is_empty());
}

#[test]
fn layout_of_a_single_leaf_is_the_origin() {
    let forest = vec![leaf(1)];
    let positions = layout(&forest);
    assert_eq!(positions.len(), 1);
    assert_eq!(positions[&1], at(200000, 100000));
}

#[test]
fn layout_stacks_the_roots() {
    let mut second = leaf(2);
    second.children.push(leaf(3));
    second.children.push(leaf(4));
    let forest = vec![leaf(1), second, leaf(5)];
    let positions = layout(&forest);
    assert_eq!(positions[&1], at(200000, 100000));
    assert_eq!(positions[&2], at(200000, 280000));
    assert_eq!(positions[&3], at(450000, 220000));
    assert_eq!(positions[&4], at(450000, 340000));
    assert_eq!(positions[&5], at(200000, 460000));
}

#[test]
fn layout_of_a_chain_keeps_one_row() {
    let mut a = leaf(1);
    let mut b = leaf(2);
    b.children.push(leaf(3));
    a.children.push(b);
    let positions = layout(&vec![a]);
    assert_eq!(positions[&1], at(200000, 100000));
    assert_eq!(positions[&2], at(450000, 100000));
    assert_eq!(positions[&3], at(700000, 100000));
}

#[test]
fn layout_keeps_the_parent_where_an_id_occurs_twice() {
    let mut parent = leaf(1);
    parent.children.push(leaf(1));
    let positions = layout(&vec![parent]);
    assert_eq!(positions.len(), 1);
    assert_eq!(positions[&1], at(200000, 100000));
}

#[test]
fn layout_recursive_returns_the_height_and_moves_the_cursor() {
    let state = State::new();
    let mut positions: HashMap<u32, Vec2> = HashMap::new();
    let mut cursor: i64 = 1000000;
    let height = layout_recursive(&state.scene_objects[0], 0, 1000000, &mut cursor, &mut positions);
    assert_eq!(height, 360000);
    assert_eq!(cursor, 1360000);
    assert_eq!(positions[&1], at(0, 1120000));
    assert_eq!(positions[&6], at(500000, 1240000));
}

#[test]
fn layout_recursive_puts_a_leaf_at_the_cursor() {
    let mut positions: HashMap<u32, Vec2> = HashMap::new();
    positions.insert(8, at(1, 1));
    let mut cursor: i64 = 5000;
    let height = layout_recursive(&leaf(7), -3000, 0, &mut cursor, &mut positions);
    assert_eq!(height, 120000);
    assert_eq!(cursor, 120000);
    assert_eq!(positions[&7], at(-3000, 5000));
    assert_eq!(positions[&8], at(1, 1));
    assert_eq!(positions.len(), 2);
}

#[test]
fn layout_holds_columns_and_rows_at_the_bounds() {
    let mut parent = leaf(1);
    parent.children.push(leaf(2));
    parent.children.push(leaf(3));
    let mut positions: HashMap<u32, Vec2> = HashMap::new();
    let mut cursor: i64 = 0;
    let height = layout_recursive(
        &parent,
        i64::MAX - 1000,
        i64::MAX - 100000,
        &mut cursor,
        &mut positions,
    );
    assert_eq!(height, 240000);
    assert_eq!(cursor, i64::MAX);
    assert_eq!(positions[&2], at(i64::MAX, i64::MAX - 100000));
    assert_eq!(positions[&3], at(i64::MAX, i64::MAX));
    assert_eq!(positions[&1], at(i64::MAX - 1000, i64::MAX - 60000));
}

#[test]
fn layout_from_the_lowest_row() {
    let mut parent = leaf(1);
    parent.children.push(leaf(2));
    let mut positions: HashMap<u32, Vec2> = HashMap::new();
    let mut cursor: i64 = 7;
    let height = layout_recursive(&parent, i64::MIN, i64::MIN, &mut cursor, &mut positions);
    assert_eq!(height, 120000);
    assert_eq!(cursor, i64::MIN + 120000);
    assert_eq!(positions[&2], at(i64::MIN + 250000, i64::MIN));
    assert_eq!(positions[&1], at(i64::MIN, i64::MIN));
}

#[test]
fn trees_of_the_same_shape_are_laid_out_alike() {
    let mut first = leaf(1);
    first.children.push(leaf(2));
    first.children.push(leaf(3));
    let mut second = SceneObject::new(1, "other", Shape::Circle, Rgba::opaque(9, 8, 7));
    second.children.push(SceneObject::new(2, "x", Shape::Triangle, Rgba::opaque(1, 1, 1)));
    second.children.push(SceneObject::new(3, "y", Shape::Square, Rgba::opaque(2, 2, 2)));
    second.rotation_speed = -5;
    second.current_rotation = 77;

    let mut into_first: HashMap<u32, Vec2> = HashMap::new();
    into_first.insert(9, at(4, 4));
    let mut into_second = into_first.clone();
    let mut cursor_first: i64 = 11;
    let mut cursor_second: i64 = 11;
    let height_first = layout_recursive(&first, 500, -700, &mut cursor_first, &mut into_first);
    let height_second = layout_recursive(&second, 500, -700, &mut cursor_second, &mut into_second);
    assert_eq!(height_first, height_second);
    assert_eq!(cursor_first, cursor_second);
    assert_eq!(into_first, into_second);
    assert_eq!(into_first.len(), 4);
    assert_eq!(into_first[&9], at(4, 4));
    assert_eq!(into_first[&1], at(500, 59300));
}
