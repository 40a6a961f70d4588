//! Distances used by combat targeting.

use vstd::prelude::*;
use crate::tile_state::TilePos;

verus! {

/// The absolute value of an integer.
pub open spec fn abs(n: int) -> int {
    if n < 0 {
        -n
    } else {
        n
    }
}

/// Taxicab distance between two positions.
pub open spec fn taxicab(a: TilePos, b: TilePos) -> int {
    abs(a.x - b.x) + abs(a.y - b.y)
}

/// Calculate Manhattan distance between two positions.
pub fn manhattan_distance(a: TilePos, b: TilePos) -> (r: i32)
    requires
        taxicab(a, b) <= i32::MAX,
    ensures
        r == taxicab(a, b),
{
    calculate_manhattan_distance(a, b)
}

/// Calculate Manhattan distance between positions.
fn calculate_manhattan_distance(a: TilePos, b: TilePos) -> (r: i32)
    requires
        taxicab(a, b) <= i32::MAX,
    ensures
        r == taxicab(a, b),
{
    let dx: i32 = if a.x >= b.x { a.x - b.x } else { b.x - a.x };
    let dy: i32 = if a.y >= b.y { a.y - b.y } else { b.y - a.y };
    dx + dy
}

} // verus!
