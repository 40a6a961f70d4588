//! Tile data as authored in the content files.

use vstd::prelude::*;

verus! {

/// What digging a tile yields: a resource kind, the amount the tile holds,
/// and optionally what each dig is worth.
#[derive(Debug, Clone)]
pub struct ResourceData {
    pub resource_type: String,
    pub amount: i32,
    pub mine_value: Option<i32>,
}

} // verus!
