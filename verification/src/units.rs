//! Units of measure and the tuning constants of the engine.

use vstd::prelude::*;

verus! {

/// Fixed-point position units in one unit of the viewport.
pub const UNIT: i64 = 10_000;

/// Milliseconds in one second.
pub const MILLIS: i64 = 1_000;

/// Half-width of the window, in milliseconds, inside which a hit is perfect.
pub const LIMIT_PERFECT: i64 = 80;

/// Half-width of the window, in milliseconds, inside which a hit is good.
pub const LIMIT_GOOD: i64 = 180;

/// Half-width of the window, in milliseconds, outside which a note cannot be hit.
pub const LIMIT_BAD: i64 = 220;

/// Speed that a flick exceeds, in position units per second, on a screen of
/// [`FLICK_REFERENCE_DPI`] dots per inch.
pub const FLICK_SPEED_THRESHOLD: i64 = 18_000;

/// Speed, on the reference screen, under which a consumed flick is forgotten.
pub const FLICK_RELEASE_THRESHOLD: i64 = 12_000;

/// Pixel density for which the flick thresholds are stated.
pub const FLICK_REFERENCE_DPI: i64 = 275;

/// A position on the screen or on a line, in fixed-point units.
#[derive(Clone, Copy, Debug, PartialEq, Eq, Structural)]
pub struct Point {
    pub x: i32,
    pub y: i32,
}

/// A displacement per second, in fixed-point units.
#[derive(Clone, Copy, Debug, PartialEq, Eq, Structural)]
pub struct Vector {
    pub x: i64,
    pub y: i64,
}

impl Vector {
    /// The vector of no motion.
    pub open spec fn zero() -> Vector {
        Vector { x: 0, y: 0 }
    }

    /// Squared Euclidean length.
    pub open spec fn norm_squared(self) -> int {
        self.x * self.x + self.y * self.y
    }

    /// Inner product with another vector.
    pub open spec fn dot(self, other: Vector) -> int {
        self.x * other.x + self.y * other.y
    }
}

/// Magnitude of an integer.
pub open spec fn magnitude(a: int) -> int {
    if a >= 0 { a } else { -a }
}

/// Quotient rounded toward zero.
pub open spec fn quotient(a: int, b: int) -> int
    recommends
        b != 0,
{
    if (a >= 0) == (b > 0) {
        magnitude(a) / magnitude(b)
    } else {
        -(magnitude(a) / magnitude(b))
    }
}

/// Distance between two coordinates.
pub open spec fn distance(a: int, b: int) -> int {
    if a >= b { a - b } else { b - a }
}

/// Distance between two 32-bit coordinates.
pub fn span(a: i32, b: i32) -> (d: i64)
    ensures
        d == distance(a as int, b as int),
        0 <= d <= u32::MAX,
{
    let a: i64 = a as i64;
    let b: i64 = b as i64;
    if a >= b { a - b } else { b - a }
}

} // verus!
