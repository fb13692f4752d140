use crate::client::Geometry;
use crate::layout::{clamp_coord, clamp_extent, shift, shifted, stretch, stretched};
use vstd::prelude::*;

verus! {

/// The pointer button that moves a window.
pub const MOVE_BUTTON: u32 = 1;

/// The pointer button that resizes a window.
pub const RESIZE_BUTTON: u32 = 3;

/// A pointer-driven move or resize in progress: which button is held, over
/// which window, where the pointer was when it went down, and the geometry
/// the window had then.
#[derive(Copy, Clone, Debug, PartialEq, Eq, Structural)]
pub struct DragState {
    pub button: u32,
    pub subwindow: u64,
    pub x_root: i32,
    pub y_root: i32,
    pub origin: Geometry,
}

impl DragState {
    /// The geometry that the dragged window takes when the pointer is at
    /// (`x_root`, `y_root`). The move button carries the origin along with
    /// the pointer, the resize button grows the size by the pointer's way;
    /// any other button changes neither. A dimension is never below 1.
    pub open spec fn dragged(self, x_root: i32, y_root: i32) -> Geometry {
        let dx = x_root - self.x_root;
        let dy = y_root - self.y_root;
        let moving = self.button == MOVE_BUTTON;
        let resizing = self.button == RESIZE_BUTTON;
        Geometry {
            x: clamp_coord(self.origin.x + (if moving { dx } else { 0 })),
            y: clamp_coord(self.origin.y + (if moving { dy } else { 0 })),
            width: clamp_extent(self.origin.width + (if resizing { dx } else { 0 })),
            height: clamp_extent(self.origin.height + (if resizing { dy } else { 0 })),
        }
    }

    /// A drag that begins with `button` going down over `subwindow`.
    pub fn new(button: u32, subwindow: u64, x_root: i32, y_root: i32, origin: Geometry) -> (drag:
        Self)
        ensures
            drag == (DragState { button, subwindow, x_root, y_root, origin }),
    {
        DragState { button, subwindow, x_root, y_root, origin }
    }

    /// Computes the geometry of the dragged window for a pointer position.
    pub fn target(&self, x_root: i32, y_root: i32) -> (g: Geometry)
        ensures
            g == self.dragged(x_root, y_root),
            g.width >= 1,
            g.height >= 1,
    {
        let moving = self.button == MOVE_BUTTON;
        let resizing = self.button == RESIZE_BUTTON;
        let from_x = if moving { self.x_root } else { x_root };
        let from_y = if moving { self.y_root } else { y_root };
        let grow_x = if resizing { self.x_root } else { x_root };
        let grow_y = if resizing { self.y_root } else { y_root };
        Geometry {
            x: shift(self.origin.x, from_x, x_root),
            y: shift(self.origin.y, from_y, y_root),
            width: stretch(self.origin.width, grow_x, x_root),
            height: stretch(self.origin.height, grow_y, y_root),
        }
    }
}

/// However far the pointer goes back, a dragged window keeps a width and a
/// height of at least 1.
pub proof fn lemma_drag_keeps_extent(drag: DragState, x_root: i32, y_root: i32)
    ensures
        drag.dragged(x_root, y_root).width >= 1,
        drag.dragged(x_root, y_root).height >= 1,
{
}

/// The move button carries the window along with the pointer and leaves a
/// size of at least 1 as it is; the resize button leaves the origin as it is.
pub proof fn lemma_drag_buttons(drag: DragState, x_root: i32, y_root: i32)
    ensures
        drag.button == MOVE_BUTTON ==> {
            &&& drag.dragged(x_root, y_root).x == shifted(drag.origin.x, drag.x_root, x_root)
            &&& drag.dragged(x_root, y_root).y == shifted(drag.origin.y, drag.y_root, y_root)
            &&& drag.origin.width >= 1 ==> drag.dragged(x_root, y_root).width == drag.origin.width
            &&& drag.origin.height >= 1 ==> drag.dragged(x_root, y_root).height
                == drag.origin.height
        },
        drag.button == RESIZE_BUTTON ==> {
            &&& drag.dragged(x_root, y_root).x == drag.origin.x
            &&& drag.dragged(x_root, y_root).y == drag.origin.y
            &&& drag.dragged(x_root, y_root).width == stretched(
                drag.origin.width,
                drag.x_root,
                x_root,
            )
            &&& drag.dragged(x_root, y_root).height == stretched(
                drag.origin.height,
                drag.y_root,
                y_root,
            )
        },
{
}

} // verus!
