//! What a frame brings to the judge: the clock, the screen, and the input.

use vstd::prelude::*;
use crate::units::Point;

verus! {

/// The state of a touch at a frame.
#[derive(Clone, Copy, Debug, PartialEq, Eq, Structural)]
pub enum TouchPhase {
    Started,
    Stationary,
    Moved,
    Ended,
    Cancelled,
}

/// A touch at a frame.
#[derive(Clone, Copy, Debug)]
pub struct Touch {
    pub id: u64,
    pub phase: TouchPhase,
    /// Where the touch is in the viewport, in position units.
    pub position: Point,
}

/// The name under which the mouse stands among the touches.
pub const MOUSE_TOUCH_ID: u64 = u64::MAX;

/// The touch that the left mouse button stands for: one that started if the
/// button went down in this frame, else one that moves while the button is
/// down, else one that ended if the button went up in this frame.
pub open spec fn mouse_touch_of(pressed: bool, down: bool, released: bool, position: Point) -> Option<
    Touch,
> {
    if pressed {
        Some(Touch { id: MOUSE_TOUCH_ID, phase: TouchPhase::Started, position })
    } else if down {
        Some(Touch { id: MOUSE_TOUCH_ID, phase: TouchPhase::Moved, position })
    } else if released {
        Some(Touch { id: MOUSE_TOUCH_ID, phase: TouchPhase::Ended, position })
    } else {
        None
    }
}

/// Makes a touch of the state of the left mouse button, if the button is or was
/// down in this frame.
pub fn mouse_touch(pressed: bool, down: bool, released: bool, position: Point) -> (touch: Option<
    Touch,
>)
    ensures
        touch == mouse_touch_of(pressed, down, released, position),
{
    if pressed {
        Some(Touch { id: MOUSE_TOUCH_ID, phase: TouchPhase::Started, position })
    } else if down {
        Some(Touch { id: MOUSE_TOUCH_ID, phase: TouchPhase::Moved, position })
    } else if released {
        Some(Touch { id: MOUSE_TOUCH_ID, phase: TouchPhase::Ended, position })
    } else {
        None
    }
}

/// What happened to a touch between two frames.
#[derive(Clone, Copy, Debug, PartialEq, Eq, Structural)]
pub enum Motion {
    Started,
    Moved,
    Ended,
    Cancelled,
}

/// One event of the input queue.
#[derive(Clone, Copy, Debug)]
pub enum InputEvent {
    /// A touch began, moved or ended at a place of the screen, in position units.
    Touch { id: u64, motion: Motion, position: Point },
    /// A key went down; `repeat` marks the repeats of a key that is held.
    KeyDown { repeat: bool },
    /// A key went up.
    KeyUp,
}

/// The clock and the screen at a frame.
#[derive(Clone, Copy, Debug)]
pub struct Frame {
    /// Playback time, in milliseconds.
    pub time: i32,
    /// Pixel density of the screen, in dots per inch.
    pub dpi: u32,
    /// Whether the chart plays itself.
    pub autoplay: bool,
    /// Width of a note, in position units.
    pub note_width: i32,
}

/// The input of a frame as the judge takes it: the touches, and the number of
/// keys that went down since the last frame.
pub struct Intake {
    pub touches: Vec<Touch>,
    pub keys_down: u32,
}

/// Where a touch stands along a line: row `line` and column `touch` of a table
/// that may lack either; a touch without an entry has no place on the line.
pub open spec fn place(local: Seq<Vec<Option<i32>>>, line: int, touch: int) -> Option<i32> {
    if 0 <= line < local.len() && 0 <= touch < local[line]@.len() {
        local[line]@[touch]
    } else {
        None
    }
}

/// Looks up where a touch stands along a line.
pub fn place_of(local: &Vec<Vec<Option<i32>>>, line: usize, touch: usize) -> (r: Option<i32>)
    ensures
        r == place(local@, line as int, touch as int),
{
    if line < local.len() {
        if touch < local[line].len() {
            return local[line][touch];
        }
    }
    None
}

} // verus!
