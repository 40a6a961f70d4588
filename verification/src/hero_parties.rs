//! Where the members of an authored hero party appear.

use vstd::prelude::*;
use crate::tile_state::TilePos;

verus! {

/// The offset of the `k`-th party member from the party's origin: the origin
/// itself, then its four side neighbours, then its four diagonal neighbours,
/// repeating every nine members.
pub open spec fn party_offset(k: int) -> (int, int) {
    let i = k % 9;
    if i == 0 {
        (0, 0)
    } else if i == 1 {
        (1, 0)
    } else if i == 2 {
        (-1, 0)
    } else if i == 3 {
        (0, 1)
    } else if i == 4 {
        (0, -1)
    } else if i == 5 {
        (1, 1)
    } else if i == 6 {
        (-1, 1)
    } else if i == 7 {
        (1, -1)
    } else {
        (-1, -1)
    }
}

/// The spawn position of the `index`-th member of a party spawned at
/// `origin`.
pub fn offset_position(origin: TilePos, index: usize) -> (r: TilePos)
    requires
        i32::MIN <= origin.x + party_offset(index as int).0 <= i32::MAX,
        i32::MIN <= origin.y + party_offset(index as int).1 <= i32::MAX,
    ensures
        r.x == origin.x + party_offset(index as int).0,
        r.y == origin.y + party_offset(index as int).1,
{
    let i = index % 9;
    let (dx, dy): (i32, i32) = if i == 0 {
        (0, 0)
    } else if i == 1 {
        (1, 0)
    } else if i == 2 {
        (-1, 0)
    } else if i == 3 {
        (0, 1)
    } else if i == 4 {
        (0, -1)
    } else if i == 5 {
        (1, 1)
    } else if i == 6 {
        (-1, 1)
    } else if i == 7 {
        (1, -1)
    } else {
        (-1, -1)
    };
    TilePos::new(origin.x + dx, origin.y + dy)
}

} // verus!
