use vstd::prelude::*;

verus! {

/// A viewport over the world; `(x, y)` is its top-left corner.
#[derive(Clone, Copy, Debug, PartialEq, Eq)]
pub struct Camera {
    pub x: i32,
    pub y: i32,
    pub viewport_width: i32,
    pub viewport_height: i32,
}

/// Half of a size, rounded toward zero.
pub open spec fn half(v: i32) -> int {
    if v >= 0 {
        v as int / 2
    } else {
        -((-(v as int)) / 2)
    }
}

impl Camera {
    /// A camera at the origin with the given viewport.
    pub fn new(viewport_width: i32, viewport_height: i32) -> (r: Camera)
        ensures
            r == (Camera { x: 0, y: 0, viewport_width, viewport_height }),
    {
        Camera { x: 0, y: 0, viewport_width, viewport_height }
    }

    /// Centres the viewport on the target.
    pub fn follow(&mut self, target_x: i32, target_y: i32)
        requires
            i32::MIN <= target_x - half(old(self).viewport_width) <= i32::MAX,
            i32::MIN <= target_y - half(old(self).viewport_height) <= i32::MAX,
        ensures
            *final(self) == (Camera {
                x: (target_x - half(old(self).viewport_width)) as i32,
                y: (target_y - half(old(self).viewport_height)) as i32,
                ..*old(self)
            }),
    {
        self.x = target_x - self.viewport_width / 2;
        self.y = target_y - self.viewport_height / 2;
    }
}

} // verus!
