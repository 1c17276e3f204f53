//! The 2D camera: the mapping between the world and the screen, zoom and pan.

use crate::fixed::{div_fixed, mul_fixed, saturate, saturating, scaled_product, scaled_ratio};
use crate::model::Vec2;
use vstd::prelude::*;

verus! {

/// Change of the zoom factor per notch of the scroll wheel.
pub const ZOOM_INCREMENT: i64 = 125;

/// Smallest zoom factor.
pub const MIN_ZOOM: i64 = 100;

/// Largest zoom factor.
pub const MAX_ZOOM: i64 = 2000;

/// A camera onto the world.
#[derive(Debug, Clone, Copy, PartialEq, Eq, Structural)]
pub struct Camera2D {
    /// The point of the world that is shown at `offset`.
    pub target: Vec2,
    /// Where on the screen `target` is shown; as a rule the middle of the
    /// viewport.
    pub offset: Vec2,
    /// Thousandths of a degree.
    pub rotation: i64,
    /// The zoom factor in thousandths; `MIN_ZOOM` to `MAX_ZOOM` after every
    /// adjustment.
    pub zoom: i64,
}

/// `(p - offset) / zoom + target` along one axis.
pub open spec fn axis_to_world(p: i64, offset: i64, zoom: i64, target: i64) -> i64 {
    saturate(scaled_ratio(p - offset, zoom as int) + target)
}

/// `(p - target) * zoom + offset` along one axis.
pub open spec fn axis_to_screen(p: i64, target: i64, zoom: i64, offset: i64) -> i64 {
    saturate(scaled_product(p - target, zoom as int) + offset)
}

/// The point of the world that the camera shows at `p` on the screen.
pub open spec fn to_world(p: Vec2, camera: Camera2D) -> Vec2 {
    Vec2 {
        x: axis_to_world(p.x, camera.offset.x, camera.zoom, camera.target.x),
        y: axis_to_world(p.y, camera.offset.y, camera.zoom, camera.target.y),
    }
}

/// The point of the screen at which the camera shows `p` of the world.
pub open spec fn to_screen(p: Vec2, camera: Camera2D) -> Vec2 {
    Vec2 {
        x: axis_to_screen(p.x, camera.target.x, camera.zoom, camera.offset.x),
        y: axis_to_screen(p.y, camera.target.y, camera.zoom, camera.offset.y),
    }
}

/// `v` held within `MIN_ZOOM` and `MAX_ZOOM`.
pub open spec fn clamped_zoom(v: int) -> i64 {
    if v < MIN_ZOOM {
        MIN_ZOOM
    } else if v > MAX_ZOOM {
        MAX_ZOOM
    } else {
        v as i64
    }
}

/// The step that the scroll wheel asks for: one increment in the direction
/// of the movement, whatever its size.
pub open spec fn wheel_step(wheel_move: i64) -> int {
    if wheel_move > 0 {
        ZOOM_INCREMENT as int
    } else if wheel_move < 0 {
        -ZOOM_INCREMENT
    } else {
        0
    }
}

/// The step that the zoom keys ask for over `frame_time` milliseconds: one
/// whole factor per second for each key held, in its direction.
pub open spec fn key_step(zoom_in: bool, zoom_out: bool, frame_time: i64) -> int {
    (if zoom_in {
        frame_time as int
    } else {
        0
    }) - (if zoom_out {
        frame_time as int
    } else {
        0
    })
}

/// The zoom factor after the wheel and the keys have had their say.
pub open spec fn zoomed(
    zoom: i64,
    wheel_move: i64,
    zoom_in: bool,
    zoom_out: bool,
    frame_time: i64,
) -> i64 {
    clamped_zoom(zoom + wheel_step(wheel_move) + key_step(zoom_in, zoom_out, frame_time))
}

/// The target after the pointer has dragged the world by `delta` on the
/// screen: it moves against the pointer, by `delta / zoom`.
pub open spec fn panned(target: Vec2, delta: Vec2, zoom: i64) -> Vec2 {
    Vec2 {
        x: saturate(target.x - scaled_ratio(delta.x as int, zoom as int)),
        y: saturate(target.y - scaled_ratio(delta.y as int, zoom as int)),
    }
}

/// The camera after a frame's zoom and, with the pan button held, its pan
/// at the new zoom factor.
pub open spec fn camera_after(
    camera: Camera2D,
    wheel_move: i64,
    zoom_in: bool,
    zoom_out: bool,
    frame_time: i64,
    pan: bool,
    delta: Vec2,
) -> Camera2D {
    let zoom = zoomed(camera.zoom, wheel_move, zoom_in, zoom_out, frame_time);
    Camera2D {
        zoom,
        target: if pan {
            panned(camera.target, delta, zoom)
        } else {
            camera.target
        },
        ..camera
    }
}

/// The target that shows `pos` at three quarters of the screen's width, at
/// its own height: `pos` moved left by the distance in the world from the
/// camera's offset to that place.
pub open spec fn centred_on(camera: Camera2D, pos: Vec2, screen_width: i32) -> Vec2 {
    Vec2 {
        x: saturate(pos.x - scaled_ratio(750 * screen_width - camera.offset.x, camera.zoom as int)),
        y: pos.y,
    }
}

impl Camera2D {
    /// Whether the zoom factor lies within its bounds.
    pub open spec fn zoom_valid(self) -> bool {
        MIN_ZOOM <= self.zoom <= MAX_ZOOM
    }

    /// Changes the zoom factor by one increment in the direction of
    /// `wheel_move` and by `frame_time` for each zoom key held, and holds
    /// the result within `MIN_ZOOM` and `MAX_ZOOM`.
    pub fn adjust_zoom(&mut self, wheel_move: i64, zoom_in: bool, zoom_out: bool, frame_time: i64)
        ensures
            final(self).zoom == zoomed(old(self).zoom, wheel_move, zoom_in, zoom_out, frame_time),
            final(self).zoom_valid(),
            final(self).target == old(self).target,
            final(self).offset == old(self).offset,
            final(self).rotation == old(self).rotation,
    {
        let mut zoom: i128 = self.zoom as i128;
        if wheel_move > 0 {
            zoom = zoom + ZOOM_INCREMENT as i128;
        } else if wheel_move < 0 {
            zoom = zoom - ZOOM_INCREMENT as i128;
        }
        if zoom_in {
            zoom = zoom + frame_time as i128;
        }
        if zoom_out {
            zoom = zoom - frame_time as i128;
        }
        self.zoom = if zoom < MIN_ZOOM as i128 {
            MIN_ZOOM
        } else if zoom > MAX_ZOOM as i128 {
            MAX_ZOOM
        } else {
            zoom as i64
        };
    }

    /// Moves the target against a drag of `delta` on the screen.
    pub fn pan(&mut self, delta: Vec2)
        requires
            old(self).zoom > 0,
        ensures
            final(self).target == panned(old(self).target, delta, old(self).zoom),
            final(self).zoom == old(self).zoom,
            final(self).offset == old(self).offset,
            final(self).rotation == old(self).rotation,
    {
        let dx = div_fixed(delta.x as i128, self.zoom);
        let dy = div_fixed(delta.y as i128, self.zoom);
        self.target = Vec2 {
            x: saturating(self.target.x as i128 - dx),
            y: saturating(self.target.y as i128 - dy),
        };
    }
}

/// The point of the world under `screen_pos`: `(screen_pos - offset) / zoom +
/// target`.
pub fn screen_to_world(screen_pos: Vec2, camera: &Camera2D) -> (world_pos: Vec2)
    requires
        camera.zoom > 0,
    ensures
        world_pos == to_world(screen_pos, *camera),
{
    let x = div_fixed(screen_pos.x as i128 - camera.offset.x as i128, camera.zoom);
    let y = div_fixed(screen_pos.y as i128 - camera.offset.y as i128, camera.zoom);
    Vec2 {
        x: saturating(x + camera.target.x as i128),
        y: saturating(y + camera.target.y as i128),
    }
}

/// The point of the screen that shows `world_pos`: `(world_pos - target) *
/// zoom + offset`.
pub fn world_to_screen(world_pos: Vec2, camera: &Camera2D) -> (screen_pos: Vec2)
    ensures
        screen_pos == to_screen(world_pos, *camera),
{
    let x = mul_fixed(world_pos.x as i128 - camera.target.x as i128, camera.zoom);
    let y = mul_fixed(world_pos.y as i128 - camera.target.y as i128, camera.zoom);
    Vec2 {
        x: saturating(x + camera.offset.x as i128),
        y: saturating(y + camera.offset.y as i128),
    }
}

} // verus!
