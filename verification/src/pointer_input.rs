//! The pointer state machine: whether a stroke is being drawn, where the
//! pointer is, and where the last painted stroke ended.

use vstd::prelude::*;

use crate::stroke_painter::{clamped, Vector2};

verus! {

/// Pointer state of one surface. It is idle until the pointer goes down and
/// drawing until it goes up.
#[derive(Debug, Clone, Copy, PartialEq, Eq, Structural)]
pub struct PointerInput {
    /// A stroke is being drawn.
    pub drawing: bool,
    /// Where the pointer was last seen while drawing.
    pub position: Vector2,
    /// Where the last painted stroke ended; the next one starts here.
    pub last_position: Vector2,
    /// The far corner of the surface: positions are kept within it.
    pub limit: Vector2,
}

/// The event position `(x, y)` brought into the surface `0..=limit.x` by
/// `0..=limit.y`.
pub open spec fn clamped_position(x: i64, y: i64, limit: Vector2) -> Vector2 {
    Vector2 {
        x: clamped(x as int, 0, limit.x as int) as u32,
        y: clamped(y as int, 0, limit.y as int) as u32,
    }
}

/// `v` brought into `0..=limit`.
fn clamp_coordinate(v: i64, limit: u32) -> (c: u32)
    ensures
        c == clamped(v as int, 0, limit as int),
{
    if v < 0 {
        0
    } else if v > limit as i64 {
        limit
    } else {
        v as u32
    }
}

impl PointerInput {
    /// The state after the pointer went down at `(x, y)`: drawing, with the
    /// last position moved along, so that no stroke joins an earlier one.
    pub open spec fn after_down(self, x: i64, y: i64) -> PointerInput {
        PointerInput {
            drawing: true,
            position: clamped_position(x, y, self.limit),
            last_position: clamped_position(x, y, self.limit),
            limit: self.limit,
        }
    }

    /// The state after the pointer moved to `(x, y)`: the position follows
    /// while drawing; the last position waits for the next paint.
    pub open spec fn after_move(self, x: i64, y: i64) -> PointerInput {
        if self.drawing {
            PointerInput { position: clamped_position(x, y, self.limit), ..self }
        } else {
            self
        }
    }

    /// The state after the pointer went up: idle.
    pub open spec fn after_up(self) -> PointerInput {
        PointerInput { drawing: false, ..self }
    }

    /// The state after the pending stroke was painted: the next stroke
    /// starts where this one ended.
    pub open spec fn after_paint(self) -> PointerInput {
        PointerInput { last_position: self.position, ..self }
    }

    /// Both positions lie on the surface.
    pub open spec fn on_surface(self) -> bool {
        &&& self.position.x <= self.limit.x
        &&& self.position.y <= self.limit.y
        &&& self.last_position.x <= self.limit.x
        &&& self.last_position.y <= self.limit.y
    }

    /// An idle pointer at the origin of a surface with the given far corner.
    pub fn new(limit: Vector2) -> (pointer: PointerInput)
        ensures
            pointer == (PointerInput {
                drawing: false,
                position: Vector2 { x: 0, y: 0 },
                last_position: Vector2 { x: 0, y: 0 },
                limit,
            }),
            pointer.on_surface(),
    {
        let origin = Vector2 { x: 0, y: 0 };
        PointerInput { drawing: false, position: origin, last_position: origin, limit }
    }

    /// The pointer went down at `(x, y)`.
    pub fn down(&mut self, x: i64, y: i64)
        ensures
            *final(self) == old(self).after_down(x, y),
            final(self).on_surface(),
    {
        let at = Vector2 {
            x: clamp_coordinate(x, self.limit.x),
            y: clamp_coordinate(y, self.limit.y),
        };
        self.position = at;
        self.last_position = at;
        self.drawing = true;
    }

    /// The pointer moved to `(x, y)`.
    pub fn move_to(&mut self, x: i64, y: i64)
        ensures
            *final(self) == old(self).after_move(x, y),
            old(self).on_surface() ==> final(self).on_surface(),
    {
        if self.drawing {
            self.position = Vector2 {
                x: clamp_coordinate(x, self.limit.x),
                y: clamp_coordinate(y, self.limit.y),
            };
        }
    }

    /// The pointer went up.
    pub fn up(&mut self)
        ensures
            *final(self) == old(self).after_up(),
    {
        self.drawing = false;
    }

    /// The pending stroke, from the last position to the current one, was
    /// painted.
    pub fn painted(&mut self)
        ensures
            *final(self) == old(self).after_paint(),
    {
        self.last_position = self.position;
    }
}

} // verus!
