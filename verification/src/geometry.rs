//! Points of the plane and the distance between them, in exact integer
//! arithmetic.

use vstd::prelude::*;

verus! {

/// A point of the plane, in whole world units.
#[derive(Clone, Copy, Debug, PartialEq, Eq, Structural)]
pub struct Position {
    pub x: i32,
    pub y: i32,
}

/// The square of the Euclidean distance between two points.
pub open spec fn squared_distance(a: Position, b: Position) -> int {
    (a.x - b.x) * (a.x - b.x) + (a.y - b.y) * (a.y - b.y)
}

/// Whether two points lie at most `reach` apart. Points exactly `reach` apart
/// count as within reach.
pub open spec fn within_reach(a: Position, b: Position, reach: int) -> bool {
    squared_distance(a, b) <= reach * reach
}

/// Computes the square of the distance between two points.
pub fn distance_squared(pos1: Position, pos2: Position) -> (d: u128)
    ensures
        d == squared_distance(pos1, pos2),
{
    let dx: i128 = pos1.x as i128 - pos2.x as i128;
    let dy: i128 = pos1.y as i128 - pos2.y as i128;
    assert(0 <= dx * dx <= 0x1_0000_0000_0000_0000) by (nonlinear_arith)
        requires
            -0x1_0000_0000 <= dx <= 0x1_0000_0000,
    ;
    assert(0 <= dy * dy <= 0x1_0000_0000_0000_0000) by (nonlinear_arith)
        requires
            -0x1_0000_0000 <= dy <= 0x1_0000_0000,
    ;
    (dx * dx + dy * dy) as u128
}

/// Tells whether two points lie at most `reach` apart.
pub fn touching(pos1: Position, pos2: Position, reach: u64) -> (hit: bool)
    ensures
        hit == within_reach(pos1, pos2, reach as int),
{
    let limit: u128 = reach as u128;
    assert(0 <= limit * limit <= 0xffff_ffff_ffff_ffff * 0xffff_ffff_ffff_ffff) by (nonlinear_arith)
        requires
            0 <= limit <= 0xffff_ffff_ffff_ffff,
    ;
    distance_squared(pos1, pos2) <= limit * limit
}

} // verus!
