use scene_editor::{Camera2D, State, Vec2, screen_to_world, world_to_screen};
use scene_editor::fixed::{add_fixed, div_fixed, mul_fixed, saturating};

fn point(x: i64, y: i64) -> Vec2 {
    Vec2 { x, y }
}

fn camera(zoom: i64) -> Camera2D {
    Camera2D { target: point(400000, 450000), offset: point(640000, 360000), rotation: 0, zoom }
}

#[test]
fn the_offset_shows_the_target() {
    let c = camera(1000);
    assert_eq!(screen_to_world(point(640000, 360000), &c), point(400000, 450000));
    assert_eq!(world_to_screen(point(400000, 450000), &c), point(640000, 360000));
}

#[test]
fn screen_to_world_divides_by_the_zoom() {
    assert_eq!(screen_to_world(point(740000, 260000), &camera(2000)), point(450000, 400000));
    assert_eq!(screen_to_world(point(740000, 260000), &camera(500)), point(600000, 250000));
    assert_eq!(screen_to_world(point(740000, 260000), &camera(100)), point(1400000, -550000));
}

#[test]
fn world_to_screen_multiplies_by_the_zoom() {
    assert_eq!(world_to_screen(point(450000, 400000), &camera(2000)), point(740000, 260000));
    assert_eq!(world_to_screen(point(600000, 250000), &camera(500)), point(740000, 260000));
    assert_eq!(world_to_screen(point(401000, 449000), &camera(125)), point(640125, 359875));
}

#[test]
fn both_ways_round_towards_zero() {
    assert_eq!(screen_to_world(point(640001, 359999), &camera(2000)), point(400000, 450000));
    assert_eq!(screen_to_world(point(640003, 359997), &camera(2000)), point(400001, 449999));
    assert_eq!(world_to_screen(point(400007, 449993), &camera(125)), point(640000, 360000));
    assert_eq!(world_to_screen(point(400009, 449991), &camera(125)), point(640001, 359999));
}

#[test]
fn world_and_screen_agree_at_a_zoom_of_one() {
    let c = camera(1000);
    let p = point(-123456, 654321);
    assert_eq!(screen_to_world(world_to_screen(p, &c), &c), p);
    assert_eq!(world_to_screen(screen_to_world(p, &c), &c), p);
}

#[test]
fn positions_are_held_at_the_bounds() {
    let c = Camera2D {
        target: point(i64::MAX, i64::MIN),
        offset: point(i64::MIN, i64::MAX),
        rotation: 0,
        zoom: 100,
    };
    assert_eq!(screen_to_world(point(i64::MAX, i64::MIN), &c), point(i64::MAX, i64::MIN));
    let d = Camera2D {
        target: point(i64::MIN, i64::MAX),
        offset: point(0, 0),
        rotation: 0,
        zoom: i64::MAX,
    };
    assert_eq!(world_to_screen(point(i64::MAX, i64::MIN), &d), point(i64::MAX, i64::MIN));
}

#[test]
fn the_wheel_changes_the_zoom_by_an_eighth() {
    let mut c = camera(1000);
    c.adjust_zoom(1000, false, false, 16);
    assert_eq!(c.zoom, 1125);
    c.adjust_zoom(-1000, false, false, 16);
    c.adjust_zoom(-1, false, false, 16);
    assert_eq!(c.zoom, 875);
    c.adjust_zoom(0, false, false, 16);
    assert_eq!(c.zoom, 875);
}

#[test]
fn only_the_direction_of_the_wheel_counts() {
    let mut c = camera(1000);
    c.adjust_zoom(i64::MAX, false, false, 0);
    assert_eq!(c.zoom, 1125);
    c.adjust_zoom(i64::MIN, false, false, 0);
    assert_eq!(c.zoom, 1000);
}

#[test]
fn the_keys_change_the_zoom_by_the_frame_time() {
    let mut c = camera(1000);
    c.adjust_zoom(0, true, false, 16);
    assert_eq!(c.zoom, 1016);
    c.adjust_zoom(0, false, true, 40);
    assert_eq!(c.zoom, 976);
    c.adjust_zoom(0, true, true, 500);
    assert_eq!(c.zoom, 976);
    c.adjust_zoom(1, true, false, 10);
    assert_eq!(c.zoom, 1111);
}

#[test]
fn the_zoom_never_leaves_its_bounds() {
    let mut c = camera(1000);
    for _ in 0..100 {
        c.adjust_zoom(1, true, false, 1000);
        assert!(c.zoom >= 100 && c.zoom <= 2000);
    }
    assert_eq!(c.zoom, 2000);
    for _ in 0..100 {
        c.adjust_zoom(-1, false, true, 1000);
        assert!(c.zoom >= 100 && c.zoom <= 2000);
    }
    assert_eq!(c.zoom, 100);
    c.adjust_zoom(-1, false, true, i64::MAX);
    assert_eq!(c.zoom, 100);
    c.adjust_zoom(1, true, false, i64::MAX);
    assert_eq!(c.zoom, 2000);
    c.adjust_zoom(0, false, true, i64::MIN);
    assert_eq!(c.zoom, 2000);
}

#[test]
fn a_zoom_out_of_bounds_is_brought_back() {
    let mut c = camera(0);
    c.adjust_zoom(0, false, false, 0);
    assert_eq!(c.zoom, 100);
    let mut d = camera(50000);
    d.adjust_zoom(0, false, false, 0);
    assert_eq!(d.zoom, 2000);
}

#[test]
fn adjust_zoom_leaves_the_rest_of_the_camera() {
    let mut c = camera(1000);
    c.adjust_zoom(1, false, false, 0);
    assert_eq!(c.target, point(400000, 450000));
    assert_eq!(c.offset, point(640000, 360000));
    assert_eq!(c.rotation, 0);
}

#[test]
fn pan_moves_the_target_against_the_pointer() {
    let mut c = camera(1000);
    c.pan(point(10000, -20000));
    assert_eq!(c.target, point(390000, 470000));
    let mut d = camera(500);
    d.pan(point(10000, -20000));
    assert_eq!(d.target, point(380000, 490000));
    let mut e = camera(2000);
    e.pan(point(1000, 3));
    assert_eq!(e.target, point(399500, 449999));
    assert_eq!(e.zoom, 2000);
    assert_eq!(e.offset, point(640000, 360000));
}

#[test]
fn pan_holds_the_target_at_the_bounds() {
    let mut c = Camera2D {
        target: point(i64::MIN, i64::MAX),
        offset: point(0, 0),
        rotation: 0,
        zoom: 100,
    };
    c.pan(point(i64::MAX, i64::MIN));
    assert_eq!(c.target, point(i64::MIN, i64::MAX));
}

#[test]
fn the_new_camera_looks_at_the_scene() {
    let state = State::new();
    assert_eq!(screen_to_world(point(0, 0), &state.camera), point(-240000, 90000));
    assert_eq!(screen_to_world(point(1280000, 720000), &state.camera), point(1040000, 810000));
}

#[test]
fn fixed_point_products_and_ratios() {
    assert_eq!(mul_fixed(20000, 16), 320);
    assert_eq!(mul_fixed(-20000, 16), -320);
    assert_eq!(mul_fixed(1999, 500), 999);
    assert_eq!(mul_fixed(-1999, 500), -999);
    assert_eq!(div_fixed(1000, 2000), 500);
    assert_eq!(div_fixed(-1, 2000), 0);
    assert_eq!(div_fixed(-3, 2000), -1);
    assert_eq!(div_fixed(320000, 125), 2560000);
    assert_eq!(add_fixed(i64::MAX, 1), i64::MAX);
    assert_eq!(add_fixed(i64::MIN, -1), i64::MIN);
    assert_eq!(add_fixed(-7, 9), 2);
    assert_eq!(saturating(5), 5);
    assert_eq!(saturating(i64::MAX as i128 + 1), i64::MAX);
    assert_eq!(saturating(i64::MIN as i128 - 1), i64::MIN);
}
