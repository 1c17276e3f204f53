//! Where the editor's window goes on the monitor.

use crate::fixed::quotient;
use vstd::prelude::*;

verus! {

/// The value of `i32` nearest to `v`.
pub open spec fn saturate_pixels(v: int) -> i32 {
    if v < i32::MIN {
        i32::MIN
    } else if v > i32::MAX {
        i32::MAX
    } else {
        v as i32
    }
}

/// The coordinate at which a window of `length` pixels lies in the middle
/// of a monitor that starts at `monitor_start` and is `monitor_length`
/// pixels long.
pub open spec fn centered(monitor_start: i32, monitor_length: i32, length: i32) -> i32 {
    saturate_pixels(monitor_start + quotient(monitor_length - length, 2))
}

fn center_axis(monitor_start: i32, monitor_length: i32, length: i32) -> (start: i32)
    ensures
        start == centered(monitor_start, monitor_length, length),
{
    let at: i64 = monitor_start as i64 + (monitor_length as i64 - length as i64) / 2;
    if at < i32::MIN as i64 {
        i32::MIN
    } else if at > i32::MAX as i64 {
        i32::MAX
    } else {
        at as i32
    }
}

/// The position of the upper left corner of a window of `width` by `height`
/// pixels that lies in the middle of the monitor, given the monitor's own
/// position and size.
pub fn center_window(
    monitor_x: i32,
    monitor_y: i32,
    monitor_width: i32,
    monitor_height: i32,
    width: i32,
    height: i32,
) -> (position: (i32, i32))
    ensures
        position.0 == centered(monitor_x, monitor_width, width),
        position.1 == centered(monitor_y, monitor_height, height),
{
    (
        center_axis(monitor_x, monitor_width, width),
        center_axis(monitor_y, monitor_height, height),
    )
}

} // verus!
