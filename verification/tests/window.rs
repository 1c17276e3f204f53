use scene_editor::center_window;

#[test]
fn a_window_goes_to_the_middle_of_the_monitor() {
    assert_eq!(center_window(0, 0, 1920, 1080, 1280, 720), (320, 180));
    assert_eq!(center_window(1920, -200, 2560, 1440, 1280, 720), (2560, 160));
}

#[test]
fn a_window_larger_than_the_monitor_hangs_over_on_both_sides() {
    assert_eq!(center_window(0, 0, 1000, 600, 1280, 720), (-140, -60));
    assert_eq!(center_window(0, 0, 1000, 600, 1281, 721), (-140, -60));
    assert_eq!(center_window(0, 0, 1001, 601, 1000, 600), (0, 0));
}

#[test]
fn a_window_position_is_held_at_the_bounds() {
    assert_eq!(center_window(i32::MAX, i32::MIN, i32::MAX, 0, 0, i32::MAX), (i32::MAX, i32::MIN));
    assert_eq!(
        center_window(0, 0, i32::MAX, i32::MIN, i32::MIN, i32::MAX),
        (i32::MAX, -2147483647)
    );
    assert_eq!(center_window(1, -1, i32::MAX, i32::MIN, i32::MIN, i32::MAX), (i32::MAX, i32::MIN));
}
