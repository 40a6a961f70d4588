//! The technology tree: what researching a technology unlocks.

use vstd::prelude::*;
use crate::text::str_equal;

verus! {

/// A technology as authored. Its research cost, a fractional number of
/// points, is not kept here.
#[derive(Debug, Clone)]
pub struct TechData {
    pub id: String,
    pub name: String,
    pub description: String,
    pub prerequisites: Vec<String>,
    pub unlocks: UnlockData,
    pub icon: String,
}

#[derive(Debug, Clone, Default)]
pub struct UnlockData {
    pub rooms: Vec<String>,
    pub spells: Vec<String>,
    pub creatures: Vec<String>,
    pub traps: Vec<String>,
}

/// Whether researching `tech` unlocks the room `room_id`.
pub open spec fn unlocks_room(tech: TechData, room_id: Seq<char>) -> bool {
    exists|i: int| 0 <= i < tech.unlocks.rooms@.len() && (#[trigger] tech.unlocks.rooms@[i])@ == room_id
}

/// Whether `rooms` names `room_id`.
fn names_room(rooms: &Vec<String>, room_id: &str) -> (r: bool)
    ensures
        r == exists|i: int| 0 <= i < rooms@.len() && (#[trigger] rooms@[i])@ == room_id@,
{
    let mut i: usize = 0;
    while i < rooms.len()
        invariant
            i <= rooms@.len(),
            forall|j: int| 0 <= j < i ==> (#[trigger] rooms@[j])@ != room_id@,
        decreases rooms@.len() - i,
    {
        if str_equal(rooms[i].as_str(), room_id) {
            return true;
        }
        i = i + 1;
    }
    false
}

/// The technology that unlocks `room_id`, if any: the first in
/// `technologies` whose `unlocks.rooms` names it.
pub fn tech_unlocking_room<'a>(room_id: &str, technologies: &'a Vec<TechData>) -> (r: Option<
    &'a TechData,
>)
    ensures
        match r {
            Some(t) => exists|k: int|
                0 <= k < technologies@.len() && technologies@[k] == *t && unlocks_room(*t, room_id@)
                    && forall|j: int| 0 <= j < k ==> !unlocks_room(#[trigger] technologies@[j], room_id@),
            None => forall|k: int|
                0 <= k < technologies@.len() ==> !unlocks_room(#[trigger] technologies@[k], room_id@),
        },
{
    let mut k: usize = 0;
    while k < technologies.len()
        invariant
            k <= technologies@.len(),
            forall|j: int| 0 <= j < k ==> !unlocks_room(#[trigger] technologies@[j], room_id@),
        decreases technologies@.len() - k,
    {
        let tech = &technologies[k];
        if names_room(&tech.unlocks.rooms, room_id) {
            return Some(tech);
        }
        k = k + 1;
    }
    None
}

} // verus!
