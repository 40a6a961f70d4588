//! Room shape checks on tile sets: contiguity, work-slot packing and room
//! detection by flood fill.

use vstd::prelude::*;
use vstd::hash_map::StringHashMap;
use crate::rooms::{data_id_of, room_data_id, BuildData, RequirementsData};
use crate::text::{digits, str_equal, unsigned_string};
use crate::tile_state::{
    adjacent, all_positions, closed_within, contiguous, inhabited, lemma_position_set_finite,
    cell_labelled, tile_at, Ownership, TilePos, TileSet, TileState,
};

verus! {

/// Why the dungeon as a whole will not accept another room of a type.
#[derive(Debug, Clone, PartialEq, Eq)]
pub enum PlacementRefusal {
    /// `requirements.global_rooms_required` names a room that has not been built.
    MissingPrerequisite(String),
    /// `requirements.max_instances` is already satisfied.
    AlreadyAtLimit(u32),
    /// `requirements.forbidden_if` names a room that has been built.
    ForbiddenBy(String),
}

/// The name a room id is shown by: its entry in `names`, or the id itself
/// where it has none.
pub open spec fn display_name(names: Map<Seq<char>, String>, id: Seq<char>) -> Seq<char> {
    if names.contains_key(id) {
        names[id]@
    } else {
        id
    }
}

/// The sentence that tells the player why a room was refused.
pub open spec fn refusal_message(refusal: PlacementRefusal, names: Map<Seq<char>, String>) -> Seq<
    char,
> {
    match refusal {
        PlacementRefusal::MissingPrerequisite(id) => "Requires a "@ + display_name(names, id@)
            + " first."@,
        PlacementRefusal::AlreadyAtLimit(max) => "Already have the maximum of "@ + digits(
            max as nat,
        ) + "."@,
        PlacementRefusal::ForbiddenBy(id) => "Cannot coexist with a "@ + display_name(names, id@)
            + "."@,
    }
}

impl PlacementRefusal {
    /// The refusal as a sentence for the player; `room_names` maps room ids
    /// to the names the player knows them by.
    pub fn message(&self, room_names: &StringHashMap<String>) -> (r: String)
        ensures
            r@ == refusal_message(*self, room_names@),
    {
        match self {
            PlacementRefusal::MissingPrerequisite(id) => {
                let mut s = String::from_str("Requires a ");
                match room_names.get(id.as_str()) {
                    Some(name) => s.append(name.as_str()),
                    None => s.append(id.as_str()),
                }
                s.append(" first.");
                s
            },
            PlacementRefusal::AlreadyAtLimit(max) => {
                let mut s = String::from_str("Already have the maximum of ");
                s.append(unsigned_string(*max as u64).as_str());
                s.append(".");
                s
            },
            PlacementRefusal::ForbiddenBy(id) => {
                let mut s = String::from_str("Cannot coexist with a ");
                match room_names.get(id.as_str()) {
                    Some(name) => s.append(name.as_str()),
                    None => s.append(id.as_str()),
                }
                s.append(".");
                s
            },
        }
    }
}

/// Whether the four neighbours of `p` can be computed without leaving the
/// 32-bit coordinate range.
pub open spec fn interior(p: TilePos) -> bool {
    i32::MIN < p.x < i32::MAX && i32::MIN < p.y < i32::MAX
}

/// Whether `p` lies in every subset of `all` that contains `start` and is
/// closed under neighbours in `all`: `p` is reachable from `start` within
/// `all`.
pub open spec fn forced(all: Set<TilePos>, start: TilePos, p: TilePos) -> bool {
    forall|a: Set<TilePos>|
        #![trigger closed_within(all, a)]
        closed_within(all, a) && a.contains(start) ==> a.contains(p)
}

/// A neighbour in `all` of a position reachable from `start` is reachable.
proof fn lemma_forced_step(all: Set<TilePos>, start: TilePos, p: TilePos, q: TilePos)
    requires
        forced(all, start, p),
        all.contains(q),
        adjacent(p, q),
    ensures
        forced(all, start, q),
{
    assert forall|a: Set<TilePos>| closed_within(all, a) && a.contains(start) implies a.contains(
        q,
    ) by {
        assert(a.contains(p));
    }
}

/// A set that is closed in `all`, contains `start`, and holds only positions
/// reachable from `start`, is one connected region.
pub proof fn lemma_reached_region_contiguous(all: Set<TilePos>, region: Set<TilePos>, start: TilePos)
    requires
        region.subset_of(all),
        closed_within(all, region),
        region.contains(start),
        forall|p: TilePos| region.contains(p) ==> #[trigger] forced(all, start, p),
    ensures
        contiguous(region),
{
    assert(inhabited(region));
    assert forall|part: Set<TilePos>|
        part.subset_of(region) && inhabited(part) && #[trigger] closed_within(
            region,
            part,
        ) implies part == region by {
        let rest = region.difference(part);
        assert(closed_within(all, part)) by {
            assert forall|p: TilePos, q: TilePos|
                part.contains(p) && all.contains(q) && adjacent(p, q) implies part.contains(q) by {
                assert(region.contains(p));
                assert(region.contains(q));
            }
        }
        assert(closed_within(all, rest)) by {
            assert forall|p: TilePos, q: TilePos|
                rest.contains(p) && all.contains(q) && adjacent(p, q) implies rest.contains(q) by {
                assert(region.contains(q));
                if part.contains(q) {
                    assert(adjacent(q, p));
                    assert(region.contains(p));
                    assert(part.contains(p));
                }
            }
        }
        if part.contains(start) {
            assert forall|p: TilePos| region.contains(p) implies part.contains(p) by {
                assert(forced(all, start, p));
            }
            assert(part =~= region);
        } else {
            assert(rest.contains(start));
            let w = choose|w: TilePos| part.contains(w);
            assert(forced(all, start, w));
            assert(rest.contains(w));
            assert(false);
        }
    }
}

/// The four neighbours of `pos`, in the order the searches visit them.
pub fn neighbours(pos: TilePos) -> (r: Vec<TilePos>)
    requires
        interior(pos),
    ensures
        r@ == seq![
            TilePos { x: (pos.x + 1) as i32, y: pos.y },
            TilePos { x: (pos.x - 1) as i32, y: pos.y },
            TilePos { x: pos.x, y: (pos.y + 1) as i32 },
            TilePos { x: pos.x, y: (pos.y - 1) as i32 },
        ],
        forall|q: TilePos| adjacent(pos, q) <==> r@.contains(q),
{
    let mut r: Vec<TilePos> = Vec::new();
    r.push(TilePos::new(pos.x + 1, pos.y));
    r.push(TilePos::new(pos.x - 1, pos.y));
    r.push(TilePos::new(pos.x, pos.y + 1));
    r.push(TilePos::new(pos.x, pos.y - 1));
    assert forall|q: TilePos| adjacent(pos, q) implies r@.contains(q) by {
        if q.x == pos.x + 1 {
            assert(r@[0] == q);
        } else if q.x == pos.x - 1 {
            assert(r@[1] == q);
        } else if q.y == pos.y + 1 {
            assert(r@[2] == q);
        } else {
            assert(r@[3] == q);
        }
    }
    r
}

/// The positions still waiting in a work queue.
pub open spec fn pending(queue: Seq<TilePos>, head: int) -> Seq<TilePos> {
    queue.subrange(head, queue.len() as int)
}

/// Check if a set of tiles forms one 4-way-connected region. An empty set is
/// not contiguous.
pub fn is_contiguous(tiles: &TileSet) -> (r: bool)
    requires
        forall|p: TilePos| tiles@.contains(p) ==> interior(p),
    ensures
        r == contiguous(tiles@),
{
    if tiles.is_empty() {
        assert(!inhabited(tiles@));
        return false;
    }
    let start = tiles.get(0);
    let ghost all = tiles@;
    let mut visited = TileSet::new();
    let mut queue: Vec<TilePos> = Vec::new();
    queue.push(start);
    let mut head: usize = 0;
    assert forall|a: Set<TilePos>| closed_within(all, a) && a.contains(start) implies a.contains(
        start,
    ) by {}
    assert(forced(all, start, start));
    while head < queue.len()
        invariant
            all == tiles@,
            all.contains(start),
            forall|p: TilePos| all.contains(p) ==> interior(p),
            1 <= queue@.len(),
            queue@[0] == start,
            head <= queue@.len(),
            head > 0 ==> visited@.contains(start),
            visited@.subset_of(all),
            forall|j: int| 0 <= j < queue@.len() ==> all.contains(#[trigger] queue@[j]),
            forall|j: int| 0 <= j < queue@.len() ==> forced(all, start, #[trigger] queue@[j]),
            forall|p: TilePos| #[trigger] visited@.contains(p) ==> forced(all, start, p),
            forall|p: TilePos, q: TilePos|
                #![trigger visited@.contains(p), all.contains(q)]
                visited@.contains(p) && all.contains(q) && adjacent(p, q) ==> visited@.contains(q)
                    || pending(queue@, head as int).contains(q),
        decreases all_positions().len() - visited@.len(), queue@.len() - head,
    {
        proof {
            lemma_position_set_finite(visited@);
        }
        let pos = queue[head];
        let ghost old_queue = queue@;
        let ghost old_visited = visited@;
        head = head + 1;
        if visited.contains(&pos) {
            assert forall|p: TilePos, q: TilePos|
                visited@.contains(p) && all.contains(q) && adjacent(p, q) implies visited@.contains(
                q,
            ) || pending(queue@, head as int).contains(q) by {
                if !visited@.contains(q) {
                    let k = choose|k: int|
                        0 <= k < pending(queue@, head - 1).len() && #[trigger] pending(queue@, head - 1)[k]
                            == q;
                    if k > 0 {
                        assert(pending(queue@, head as int)[k - 1] == q);
                    } else {
                        assert(q == pos);
                    }
                }
            }
            continue;
        }
        visited.insert(pos);
        proof {
            lemma_position_set_finite(visited@);
            lemma_position_set_finite(old_visited);
        }
        let ns = neighbours(pos);
        let mut k: usize = 0;
        while k < 4
            invariant
                all == tiles@,
                ns@.len() == 4,
                forall|q: TilePos| adjacent(pos, q) <==> ns@.contains(q),
                forall|i: int| 0 <= i < 4 ==> adjacent(pos, #[trigger] ns@[i]),
                k <= 4,
                visited@ == old_visited.insert(pos),
                visited@.subset_of(all),
                forced(all, start, pos),
                head <= old_queue.len(),
                queue@.len() >= old_queue.len(),
                queue@.subrange(0, old_queue.len() as int) == old_queue,
                forall|j: int| 0 <= j < queue@.len() ==> all.contains(#[trigger] queue@[j]),
                forall|j: int| 0 <= j < queue@.len() ==> forced(all, start, #[trigger] queue@[j]),
                forall|i: int|
                    0 <= i < k ==> !all.contains(#[trigger] ns@[i]) || visited@.contains(ns@[i])
                        || pending(queue@, head as int).contains(ns@[i]),
            decreases 4 - k,
        {
            let n = ns[k];
            if tiles.contains(&n) && !visited.contains(&n) {
                proof {
                    lemma_forced_step(all, start, pos, n);
                }
                let ghost before = queue@;
                queue.push(n);
                assert(pending(queue@, head as int)[pending(before, head as int).len() as int]
                    == n);
                assert forall|i: int|
                    0 <= i < k && pending(before, head as int).contains(
                        #[trigger] ns@[i],
                    ) implies pending(queue@, head as int).contains(ns@[i]) by {
                    let m = choose|m: int|
                        0 <= m < pending(before, head as int).len() && #[trigger] pending(before, head as int)[m]
                            == ns@[i];
                    assert(pending(queue@, head as int)[m] == ns@[i]);
                }
            }
            k = k + 1;
        }
        assert forall|p: TilePos, q: TilePos|
            visited@.contains(p) && all.contains(q) && adjacent(p, q) implies visited@.contains(q)
            || pending(queue@, head as int).contains(q) by {
            if p == pos {
                let i = choose|i: int| 0 <= i < 4 && #[trigger] ns@[i] == q;
            } else if !visited@.contains(q) {
                assert(old_visited.contains(p));
                let m = choose|m: int|
                    0 <= m < pending(old_queue, head - 1).len() && #[trigger] pending(old_queue, head - 1)[m]
                        == q;
                if m == 0 {
                    assert(q == pos);
                } else {
                    assert(queue@[head + m - 1] == old_queue[head + m - 1]);
                    assert(pending(queue@, head as int)[m - 1] == q);
                }
            }
        }
    }
    assert(closed_within(all, visited@)) by {
        assert forall|p: TilePos, q: TilePos|
            #![trigger visited@.contains(p), all.contains(q)]
            visited@.contains(p) && all.contains(q) && adjacent(p, q) implies visited@.contains(
            q,
        ) by {
            assert(pending(queue@, head as int).len() == 0);
        }
    }
    proof {
        lemma_position_set_finite(visited@);
        lemma_position_set_finite(all);
        if visited@ == all {
            lemma_reached_region_contiguous(all, visited@, start);
        } else {
            assert(inhabited(visited@));
            assert(closed_within(all, visited@));
            if visited@.len() == all.len() {
                vstd::set_lib::lemma_subset_equality(visited@, all);
            }
        }
    }
    visited.len() == tiles.len()
}

} // verus!

verus! {

/// Whether the grid cell at `p` is a player-owned tile of `room_type`.
pub open spec fn qualifies(grid: Seq<Vec<TileState>>, room_type: Seq<char>, p: TilePos) -> bool {
    tile_at(grid, p) matches Some(t) && t.ownership == Ownership::Player && t.tile_type@
        == room_type
}

/// Every cell that can belong to a room of `room_type`.
pub open spec fn room_cells(grid: Seq<Vec<TileState>>, room_type: Seq<char>) -> Set<TilePos> {
    Set::new(|p: TilePos| qualifies(grid, room_type, p))
}

/// Whether every row and the row count fit in a 32-bit coordinate.
pub open spec fn grid_in_range(grid: Seq<Vec<TileState>>) -> bool {
    &&& grid.len() <= i32::MAX
    &&& forall|y: int| 0 <= y < grid.len() ==> (#[trigger] grid[y])@.len() <= i32::MAX
}

/// The tile at `pos`, if the grid has one there.
pub fn get_tile(grid: &Vec<Vec<TileState>>, pos: TilePos) -> (r: Option<&TileState>)
    ensures
        match r {
            Some(t) => tile_at(grid@, pos) == Some(*t),
            None => tile_at(grid@, pos) is None,
        },
{
    if pos.x < 0 || pos.y < 0 {
        return None;
    }
    let y = pos.y as usize;
    if y >= grid.len() {
        return None;
    }
    let x = pos.x as usize;
    if x >= grid[y].len() {
        return None;
    }
    Some(&grid[y][x])
}

/// Flood fill from `start` over player-owned tiles of `target_type`, never
/// entering a position already in `visited`; everything filled is added to
/// `visited` too.
fn flood_fill(grid: &Vec<Vec<TileState>>, start: TilePos, target_type: &str, visited: &mut TileSet) -> (result: TileSet)
    requires
        grid_in_range(grid@),
        old(visited)@.subset_of(room_cells(grid@, target_type@)),
        closed_within(room_cells(grid@, target_type@), old(visited)@),
    ensures
        final(visited)@ == old(visited)@.union(result@),
        result@.subset_of(room_cells(grid@, target_type@)),
        result@.disjoint(old(visited)@),
        closed_within(room_cells(grid@, target_type@), result@),
        forall|p: TilePos|
            #[trigger] result@.contains(p) ==> forced(room_cells(grid@, target_type@), start, p),
        result@.contains(start) == (qualifies(grid@, target_type@, start) && !old(
            visited,
        )@.contains(start)),
        result@.contains(start) || result@ == Set::<TilePos>::empty(),
{
    let ghost cells = room_cells(grid@, target_type@);
    let ghost v0 = visited@;
    let mut result = TileSet::new();
    let mut queue: Vec<TilePos> = Vec::new();
    queue.push(start);
    let mut head: usize = 0;
    assert(forced(cells, start, start));
    while head < queue.len()
        invariant
            cells == room_cells(grid@, target_type@),
            grid_in_range(grid@),
            v0.subset_of(cells),
            closed_within(cells, v0),
            1 <= queue@.len(),
            queue@[0] == start,
            head <= queue@.len(),
            visited@ == v0.union(result@),
            result@.subset_of(cells),
            result@.disjoint(v0),
            head > 0 ==> (result@.contains(start) == (qualifies(grid@, target_type@, start)
                && !v0.contains(start))),
            head == 0 ==> result@ == Set::<TilePos>::empty(),
            result@.contains(start) || (result@ == Set::<TilePos>::empty() && queue@.len() == 1),
            forall|j: int|
                0 <= j < queue@.len() && cells.contains(#[trigger] queue@[j]) ==> forced(
                    cells,
                    start,
                    queue@[j],
                ),
            forall|p: TilePos| #[trigger] result@.contains(p) ==> forced(cells, start, p),
            forall|p: TilePos, q: TilePos|
                #![trigger result@.contains(p), cells.contains(q)]
                result@.contains(p) && cells.contains(q) && adjacent(p, q) ==> visited@.contains(q)
                    || pending(queue@, head as int).contains(q),
        decreases all_positions().len() - visited@.len(), queue@.len() - head,
    {
        proof {
            lemma_position_set_finite(visited@);
        }
        let pos = queue[head];
        let ghost old_queue = queue@;
        let ghost old_result = result@;
        let ghost old_visited = visited@;
        head = head + 1;
        let found = get_tile(grid, pos);
        let keep = if visited.contains(&pos) {
            false
        } else {
            match found {
                Some(tile) => tile.ownership == Ownership::Player && str_equal(
                    tile.tile_type.as_str(),
                    target_type,
                ),
                None => false,
            }
        };
        assert(keep == (qualifies(grid@, target_type@, pos) && !old_visited.contains(pos)));
        if !keep {
            assert forall|p: TilePos, q: TilePos|
                result@.contains(p) && cells.contains(q) && adjacent(p, q) implies visited@.contains(
                q,
            ) || pending(queue@, head as int).contains(q) by {
                if !visited@.contains(q) {
                    let k = choose|k: int|
                        0 <= k < pending(queue@, head - 1).len() && #[trigger] pending(
                            queue@,
                            head - 1,
                        )[k] == q;
                    if k > 0 {
                        assert(pending(queue@, head as int)[k - 1] == q);
                    } else {
                        assert(q == pos);
                        assert(cells.contains(pos));
                    }
                }
            }
            continue;
        }
        proof {
            assert(cells.contains(pos));
            if head > 1 {
                assert(result@.contains(start));
            } else {
                assert(pos == start);
            }
        }
        visited.insert(pos);
        result.insert(pos);
        proof {
            lemma_position_set_finite(visited@);
            lemma_position_set_finite(old_visited);
            assert(visited@ =~= v0.union(result@));
            assert(forced(cells, start, pos));
            assert(interior(pos));
        }
        let ns = neighbours(pos);
        let mut k: usize = 0;
        while k < 4
            invariant
                cells == room_cells(grid@, target_type@),
                ns@.len() == 4,
                forall|q: TilePos| adjacent(pos, q) <==> ns@.contains(q),
                forall|i: int| 0 <= i < 4 ==> adjacent(pos, #[trigger] ns@[i]),
                k <= 4,
                result@ == old_result.insert(pos),
                visited@ == v0.union(result@),
                forced(cells, start, pos),
                head <= old_queue.len(),
                queue@.len() >= old_queue.len(),
                1 <= old_queue.len(),
                queue@.subrange(0, old_queue.len() as int) == old_queue,
                queue@[0] == start,
                forall|j: int|
                    0 <= j < queue@.len() && cells.contains(#[trigger] queue@[j]) ==> forced(
                        cells,
                        start,
                        queue@[j],
                    ),
                forall|i: int|
                    0 <= i < k ==> visited@.contains(#[trigger] ns@[i]) || pending(
                        queue@,
                        head as int,
                    ).contains(ns@[i]),
            decreases 4 - k,
        {
            let n = ns[k];
            if !visited.contains(&n) {
                let ghost before = queue@;
                queue.push(n);
                proof {
                    if cells.contains(n) {
                        lemma_forced_step(cells, start, pos, n);
                    }
                }
                assert(pending(queue@, head as int)[pending(before, head as int).len() as int]
                    == n);
                assert forall|i: int|
                    0 <= i < k && pending(before, head as int).contains(
                        #[trigger] ns@[i],
                    ) implies pending(queue@, head as int).contains(ns@[i]) by {
                    let m = choose|m: int|
                        0 <= m < pending(before, head as int).len() && #[trigger] pending(
                            before,
                            head as int,
                        )[m] == ns@[i];
                    assert(pending(queue@, head as int)[m] == ns@[i]);
                }
            }
            k = k + 1;
        }
        assert forall|p: TilePos, q: TilePos|
            result@.contains(p) && cells.contains(q) && adjacent(p, q) implies visited@.contains(q)
            || pending(queue@, head as int).contains(q) by {
            if p == pos {
                let i = choose|i: int| 0 <= i < 4 && #[trigger] ns@[i] == q;
            } else if !visited@.contains(q) {
                assert(old_result.contains(p));
                let m = choose|m: int|
                    0 <= m < pending(old_queue, head - 1).len() && #[trigger] pending(
                        old_queue,
                        head - 1,
                    )[m] == q;
                if m == 0 {
                    assert(q == pos);
                } else {
                    assert(queue@[head + m - 1] == old_queue[head + m - 1]);
                    assert(pending(queue@, head as int)[m - 1] == q);
                }
            }
        }
    }
    assert(closed_within(cells, result@)) by {
        assert forall|p: TilePos, q: TilePos|
            #![trigger result@.contains(p), cells.contains(q)]
            result@.contains(p) && cells.contains(q) && adjacent(p, q) implies result@.contains(
            q,
        ) by {
            assert(pending(queue@, head as int).len() == 0);
            if v0.contains(q) {
                assert(adjacent(q, p));
                assert(v0.contains(p));
            }
        }
    }
    result
}

} // verus!

verus! {

/// Whether the cell at column `x`, row `y` comes before the scan position
/// `(sx, sy)` in row-major order.
pub open spec fn scanned_before(grid: Seq<Vec<TileState>>, p: TilePos, sx: int, sy: int) -> bool {
    ||| 0 <= p.y < sy && 0 <= p.x < grid[p.y as int]@.len()
    ||| p.y == sy && 0 <= p.x < sx
}

/// `seed` is the cell whose tile started `room`: a cell of the grid whose
/// tile's position lies in the room, with no labelled cell of the room
/// coming before it in row-major order.
pub open spec fn seed_of(grid: Seq<Vec<TileState>>, room: Set<TilePos>, seed: TilePos) -> bool {
    &&& 0 <= seed.y < grid.len()
    &&& 0 <= seed.x < grid[seed.y as int]@.len()
    &&& room.contains(grid[seed.y as int]@[seed.x as int].pos)
    &&& forall|p: TilePos|
        room.contains(p) && cell_labelled(grid, p) ==> !#[trigger] scanned_before(
            grid,
            p,
            seed.x as int,
            seed.y as int,
        )
}

/// The rooms come in the order the row-major scan found them: `seeds[k]`
/// is the seed cell of room `k`, and the seeds are in strictly increasing
/// row-major order.
pub open spec fn found_in_scan_order(
    grid: Seq<Vec<TileState>>,
    rooms: Seq<TileSet>,
    seeds: Seq<TilePos>,
) -> bool {
    &&& seeds.len() == rooms.len()
    &&& forall|k: int| #![trigger seeds[k]] 0 <= k < seeds.len() ==> seed_of(grid, rooms[k]@, seeds[k])
    &&& forall|k1: int, k2: int|
        0 <= k1 < k2 < seeds.len() ==> scanned_before(
            grid,
            #[trigger] seeds[k1],
            seeds[k2].x as int,
            (#[trigger] seeds[k2]).y as int,
        )
}

/// Detect all rooms of a specific type in the grid: the 4-way-connected
/// regions of player-owned tiles of that type, found by a row-major scan
/// that flood-fills from each tile not yet assigned to a room.
///
/// Every room returned is a non-empty, contiguous set of such tiles that no
/// other such tile touches from outside; the rooms are pairwise disjoint; and
/// every such tile stored at the cell its own `pos` names lies in a room.
/// The rooms come in row-major order of the cell each was found from, and
/// no labelled cell of a room comes before that cell (see
/// [`found_in_scan_order`]).
pub fn detect_rooms(grid: &Vec<Vec<TileState>>, room_type: &str) -> (rooms: Vec<TileSet>)
    requires
        grid_in_range(grid@),
    ensures
        forall|k: int|
            0 <= k < rooms@.len() ==> {
                &&& inhabited(#[trigger] rooms@[k]@)
                &&& rooms@[k]@.subset_of(room_cells(grid@, room_type@))
                &&& closed_within(room_cells(grid@, room_type@), rooms@[k]@)
                &&& contiguous(rooms@[k]@)
            },
        forall|k1: int, k2: int|
            0 <= k1 < rooms@.len() && 0 <= k2 < rooms@.len() && k1 != k2 ==> (
            #[trigger] rooms@[k1]@).disjoint(#[trigger] rooms@[k2]@),
        forall|p: TilePos|
            cell_labelled(grid@, p) && #[trigger] qualifies(grid@, room_type@, p) ==> exists|k: int|
                0 <= k < rooms@.len() && (#[trigger] rooms@[k]@).contains(p),
        exists|seeds: Seq<TilePos>| found_in_scan_order(grid@, rooms@, seeds),
{
    let ghost cells = room_cells(grid@, room_type@);
    let ghost mut seeds: Seq<TilePos> = Seq::empty();
    let mut visited = TileSet::new();
    let mut rooms: Vec<TileSet> = Vec::new();
    let mut y: usize = 0;
    while y < grid.len()
        invariant
            cells == room_cells(grid@, room_type@),
            grid_in_range(grid@),
            y <= grid@.len(),
            visited@.subset_of(cells),
            closed_within(cells, visited@),
            forall|k: int, p: TilePos|
                0 <= k < rooms@.len() && #[trigger] rooms@[k]@.contains(p) ==> visited@.contains(
                    p,
                ),
            forall|p: TilePos|
                #[trigger] visited@.contains(p) ==> exists|k: int|
                    0 <= k < rooms@.len() && (#[trigger] rooms@[k]@).contains(p),
            forall|k: int|
                0 <= k < rooms@.len() ==> {
                    &&& inhabited(#[trigger] rooms@[k]@)
                    &&& rooms@[k]@.subset_of(cells)
                    &&& closed_within(cells, rooms@[k]@)
                    &&& contiguous(rooms@[k]@)
                },
            forall|k1: int, k2: int|
                0 <= k1 < rooms@.len() && 0 <= k2 < rooms@.len() && k1 != k2 ==> (
                #[trigger] rooms@[k1]@).disjoint(#[trigger] rooms@[k2]@),
            forall|p: TilePos|
                scanned_before(grid@, p, 0, y as int) && cell_labelled(grid@, p) && #[trigger] qualifies(
                    grid@,
                    room_type@,
                    p,
                ) ==> visited@.contains(p),
            found_in_scan_order(grid@, rooms@, seeds),
            forall|k: int| 0 <= k < seeds.len() ==> scanned_before(grid@, #[trigger] seeds[k], 0, y as int),
        decreases grid@.len() - y,
    {
        let row = &grid[y];
        let mut x: usize = 0;
        while x < row.len()
            invariant
                cells == room_cells(grid@, room_type@),
                grid_in_range(grid@),
                y < grid@.len(),
                *row == grid@[y as int],
                x <= row@.len(),
                visited@.subset_of(cells),
                closed_within(cells, visited@),
                forall|k: int, p: TilePos|
                    0 <= k < rooms@.len() && #[trigger] rooms@[k]@.contains(p)
                        ==> visited@.contains(p),
                forall|p: TilePos|
                    #[trigger] visited@.contains(p) ==> exists|k: int|
                        0 <= k < rooms@.len() && (#[trigger] rooms@[k]@).contains(p),
                forall|k: int|
                    0 <= k < rooms@.len() ==> {
                        &&& inhabited(#[trigger] rooms@[k]@)
                        &&& rooms@[k]@.subset_of(cells)
                        &&& closed_within(cells, rooms@[k]@)
                        &&& contiguous(rooms@[k]@)
                    },
                forall|k1: int, k2: int|
                    0 <= k1 < rooms@.len() && 0 <= k2 < rooms@.len() && k1 != k2 ==> (
                    #[trigger] rooms@[k1]@).disjoint(#[trigger] rooms@[k2]@),
                forall|p: TilePos|
                    scanned_before(grid@, p, x as int, y as int) && cell_labelled(grid@, p)
                        && #[trigger] qualifies(grid@, room_type@, p) ==> visited@.contains(p),
                found_in_scan_order(grid@, rooms@, seeds),
                forall|k: int|
                    0 <= k < seeds.len() ==> scanned_before(grid@, #[trigger] seeds[k], x as int, y as int),
            decreases row@.len() - x,
        {
            let tile = &row[x];
            let ghost here = TilePos { x: x as i32, y: y as i32 };
            assert(tile_at(grid@, here) == Some(*tile));
            if visited.contains(&tile.pos) {
                x = x + 1;
                continue;
            }
            if str_equal(tile.tile_type.as_str(), room_type) && tile.ownership == Ownership::Player {
                let ghost before_rooms = rooms@;
                let ghost before_visited = visited@;
                let room = flood_fill(grid, tile.pos, room_type, &mut visited);
                if !room.is_empty() {
                    proof {
                        assert(room@.contains(tile.pos));
                        lemma_reached_region_contiguous(cells, room@, tile.pos);
                    }
                    rooms.push(room);
                    proof {
                        let n = before_rooms.len() as int;
                        let before_seeds = seeds;
                        seeds = seeds.push(here);
                        assert forall|q: TilePos|
                            room@.contains(q) && cell_labelled(grid@, q) implies !#[trigger] scanned_before(
                            grid@,
                            q,
                            here.x as int,
                            here.y as int,
                        ) by {
                            if scanned_before(grid@, q, here.x as int, here.y as int) {
                                assert(cells.contains(q));
                                assert(qualifies(grid@, room_type@, q));
                                assert(before_visited.contains(q));
                            }
                        }
                        assert(seed_of(grid@, rooms@[n]@, here));
                        assert forall|k: int| #![trigger seeds[k]]
                            0 <= k < seeds.len() implies seed_of(grid@, rooms@[k]@, seeds[k]) by {
                            if k < n {
                                assert(rooms@[k] == before_rooms[k]);
                                assert(seeds[k] == before_seeds[k]);
                            }
                        }
                        assert forall|k1: int, k2: int|
                            0 <= k1 < k2 < seeds.len() implies scanned_before(
                            grid@,
                            #[trigger] seeds[k1],
                            seeds[k2].x as int,
                            (#[trigger] seeds[k2]).y as int,
                        ) by {
                            assert(seeds[k1] == before_seeds[k1]);
                            if k2 < n {
                                assert(seeds[k2] == before_seeds[k2]);
                            }
                        }
                        assert(rooms@[n]@ == room@);
                        assert forall|k: int|
                            0 <= k < rooms@.len() implies #[trigger] inhabited(rooms@[k]@)
                            && rooms@[k]@.subset_of(cells) && closed_within(cells, rooms@[k]@)
                            && contiguous(rooms@[k]@) by {
                            if k < n {
                                assert(rooms@[k] == before_rooms[k]);
                            }
                        }
                        assert forall|k1: int, k2: int|
                            0 <= k1 < rooms@.len() && 0 <= k2 < rooms@.len() && k1
                                != k2 implies (#[trigger] rooms@[k1]@).disjoint(
                            #[trigger] rooms@[k2]@,
                        ) by {
                            if k1 < n && k2 < n {
                                assert(rooms@[k1] == before_rooms[k1]);
                                assert(rooms@[k2] == before_rooms[k2]);
                            } else if k1 == n {
                                assert(rooms@[k2] == before_rooms[k2]);
                                assert forall|p: TilePos|
                                    rooms@[k2]@.contains(p) implies !rooms@[k1]@.contains(p) by {
                                    assert(before_visited.contains(p));
                                }
                            } else {
                                assert(rooms@[k1] == before_rooms[k1]);
                                assert forall|p: TilePos|
                                    rooms@[k1]@.contains(p) implies !rooms@[k2]@.contains(p) by {
                                    assert(before_visited.contains(p));
                                }
                            }
                        }
                        assert forall|k: int, p: TilePos|
                            0 <= k < rooms@.len() && #[trigger] rooms@[k]@.contains(
                                p,
                            ) implies visited@.contains(p) by {
                            if k < n {
                                assert(rooms@[k] == before_rooms[k]);
                            }
                        }
                        assert forall|p: TilePos| #[trigger]
                            visited@.contains(p) implies exists|k: int|
                            0 <= k < rooms@.len() && (#[trigger] rooms@[k]@).contains(p) by {
                            if before_visited.contains(p) {
                                let k = choose|k: int|
                                    0 <= k < before_rooms.len() && (
                                    #[trigger] before_rooms[k]@).contains(p);
                                assert(rooms@[k] == before_rooms[k]);
                            } else {
                                assert(rooms@[n]@.contains(p));
                            }
                        }
                    }
                } else {
                    assert(visited@ =~= before_visited);
                }
                proof {
                    assert(closed_within(cells, visited@)) by {
                        assert forall|p: TilePos, q: TilePos|
                            #![trigger visited@.contains(p), cells.contains(q)]
                            visited@.contains(p) && cells.contains(q) && adjacent(
                                p,
                                q,
                            ) implies visited@.contains(q) by {
                            if !before_visited.contains(p) {
                                assert(room@.contains(p));
                            }
                        }
                    }
                }
            }
            x = x + 1;
        }
        assert forall|p: TilePos|
            scanned_before(grid@, p, 0, y + 1) && cell_labelled(grid@, p) && #[trigger] qualifies(
                grid@,
                room_type@,
                p,
            ) implies visited@.contains(p) by {
            assert(scanned_before(grid@, p, row@.len() as int, y as int));
        }
        assert forall|k: int| 0 <= k < seeds.len() implies scanned_before(
            grid@,
            #[trigger] seeds[k],
            0,
            y + 1,
        ) by {
            assert(seed_of(grid@, rooms@[k]@, seeds[k]));
        }
        y = y + 1;
    }
    assert forall|p: TilePos|
        cell_labelled(grid@, p) && #[trigger] qualifies(grid@, room_type@, p) implies exists|k: int|
        0 <= k < rooms@.len() && (#[trigger] rooms@[k]@).contains(p) by {
        assert(scanned_before(grid@, p, 0, y as int));
        assert(visited@.contains(p));
    }
    assert(found_in_scan_order(grid@, rooms@, seeds));
    rooms
}

} // verus!

verus! {

/// Row-major order on positions: by row, then by column.
pub open spec fn row_major_le(a: TilePos, b: TilePos) -> bool {
    a.y < b.y || (a.y == b.y && a.x <= b.x)
}

/// Whether `s` is in row-major order.
pub open spec fn sorted_row_major(s: Seq<TilePos>) -> bool {
    forall|i: int, j: int| 0 <= i < j < s.len() ==> row_major_le(#[trigger] s[i], #[trigger] s[j])
}

/// The positions of `tiles`, each once, in row-major order.
pub open spec fn row_major_order(tiles: Set<TilePos>) -> Seq<TilePos> {
    choose|q: Seq<TilePos>| q.to_set() == tiles && q.no_duplicates() && sorted_row_major(q)
}

/// `slice::sort_by_key` with the key `(y, x)`: the same positions, in
/// row-major order.
#[verifier::external_body]
fn sort_row_major(v: &mut Vec<TilePos>)
    ensures
        final(v)@.to_multiset() == old(v)@.to_multiset(),
        sorted_row_major(final(v)@),
{
    v.sort_by_key(|a| (a.y, a.x));
}

/// Two row-major sequences of distinct positions with the same positions
/// are the same sequence.
proof fn lemma_row_major_unique(q1: Seq<TilePos>, q2: Seq<TilePos>)
    requires
        q1.no_duplicates(),
        q2.no_duplicates(),
        sorted_row_major(q1),
        sorted_row_major(q2),
        q1.to_set() == q2.to_set(),
    ensures
        q1 == q2,
    decreases q1.len(),
{
    if q1.len() == 0 {
        if q2.len() > 0 {
            assert(q2.to_set().contains(q2[0]));
        }
        assert(q1 =~= q2);
    } else {
        assert(q1.to_set().contains(q1[0]));
        assert(q2.len() > 0);
        let m1 = q1.last();
        let m2 = q2.last();
        assert(q1.to_set().contains(m1));
        assert(q2.to_set().contains(m2));
        let j2 = choose|j: int| 0 <= j < q2.len() && q2[j] == m1;
        let j1 = choose|j: int| 0 <= j < q1.len() && q1[j] == m2;
        if j2 < q2.len() - 1 {
            assert(row_major_le(q2[j2], q2[q2.len() - 1]));
        }
        if j1 < q1.len() - 1 {
            assert(row_major_le(q1[j1], q1[q1.len() - 1]));
        }
        assert(m1 == m2);
        let r1 = q1.drop_last();
        let r2 = q2.drop_last();
        assert(r1.to_set() =~= r2.to_set()) by {
            assert forall|p: TilePos| r1.to_set().contains(p) implies r2.to_set().contains(p) by {
                let k = choose|k: int| 0 <= k < r1.len() && r1[k] == p;
                assert(q1[k] == p);
                assert(q1.to_set().contains(p));
                let k2 = choose|k2: int| 0 <= k2 < q2.len() && q2[k2] == p;
                assert(k2 != q2.len() - 1);
                assert(r2[k2] == p);
            }
            assert forall|p: TilePos| r2.to_set().contains(p) implies r1.to_set().contains(p) by {
                let k = choose|k: int| 0 <= k < r2.len() && r2[k] == p;
                assert(q2[k] == p);
                assert(q2.to_set().contains(p));
                let k1 = choose|k1: int| 0 <= k1 < q1.len() && q1[k1] == p;
                assert(k1 != q1.len() - 1);
                assert(r1[k1] == p);
            }
        }
        assert(sorted_row_major(r1));
        assert(sorted_row_major(r2));
        lemma_row_major_unique(r1, r2);
        assert(q1 =~= r1.push(m1));
        assert(q2 =~= r2.push(m2));
    }
}

/// The cells of a `w` by `h` work station whose top-left cell is `origin`.
pub open spec fn slot_rect(origin: TilePos, w: int, h: int) -> Set<TilePos> {
    Set::new(
        |p: TilePos| origin.x <= p.x < origin.x + w && origin.y <= p.y < origin.y + h,
    )
}

/// `(n - 1) / 2` with Rust's rounding toward zero.
pub open spec fn half_span(n: int) -> int {
    if n >= 1 {
        (n - 1) / 2
    } else {
        -((1 - n) / 2)
    }
}

/// Where a work station with top-left cell `origin` is reported: its centre
/// cell, rounding toward the top-left for even sizes.
pub open spec fn slot_center(origin: TilePos, w: int, h: int) -> TilePos {
    TilePos { x: (origin.x + half_span(w)) as i32, y: (origin.y + half_span(h)) as i32 }
}

/// Greedy packing of `w` by `h` stations, trying each position of `order` in
/// turn as a top-left corner: the corners taken, and the cells they cover.
pub open spec fn pack_stations(order: Seq<TilePos>, tiles: Set<TilePos>, w: int, h: int) -> (
    Seq<TilePos>,
    Set<TilePos>,
)
    decreases order.len(),
{
    if order.len() == 0 {
        (Seq::empty(), Set::empty())
    } else {
        let (origins, occupied) = pack_stations(order.drop_last(), tiles, w, h);
        let s = order.last();
        if !occupied.contains(s) && slot_rect(s, w, h).subset_of(tiles) && slot_rect(
            s,
            w,
            h,
        ).disjoint(occupied) {
            (origins.push(s), occupied.union(slot_rect(s, w, h)))
        } else {
            (origins, occupied)
        }
    }
}

/// The work slots of a room: the centres of the stations packed greedily
/// in row-major order.
pub open spec fn work_slots(tiles: Set<TilePos>, w: int, h: int) -> Seq<TilePos> {
    pack_stations(row_major_order(tiles), tiles, w, h).0.map_values(
        |o: TilePos| slot_center(o, w, h),
    )
}

/// Whether the stations of a `w` by `h` work size can be measured and
/// centred on `p` without leaving the 32-bit coordinate range.
pub open spec fn station_in_range(p: TilePos, w: int, h: int) -> bool {
    &&& (w >= 1 ==> p.x + (w - 1) <= i32::MAX)
    &&& (h >= 1 ==> p.y + (h - 1) <= i32::MAX)
    &&& i32::MIN <= p.x + half_span(w) <= i32::MAX
    &&& i32::MIN <= p.y + half_span(h) <= i32::MAX
}

/// Whether the `width` by `height` station at `origin` lies within `tiles`
/// and clear of `occupied`.
fn station_fits(tiles: &TileSet, occupied: &TileSet, origin: TilePos, width: i32, height: i32) -> (r: bool)
    requires
        width >= 1 ==> origin.x + (width - 1) <= i32::MAX,
        height >= 1 ==> origin.y + (height - 1) <= i32::MAX,
    ensures
        r == (slot_rect(origin, width as int, height as int).subset_of(tiles@) && slot_rect(
            origin,
            width as int,
            height as int,
        ).disjoint(occupied@)),
{
    let ghost rect = slot_rect(origin, width as int, height as int);
    let mut dy: i32 = 0;
    while dy < height
        invariant
            0 <= dy,
            height >= 1 ==> dy <= height,
            height >= 1 ==> origin.y + (height - 1) <= i32::MAX,
            width >= 1 ==> origin.x + (width - 1) <= i32::MAX,
            rect == slot_rect(origin, width as int, height as int),
            forall|p: TilePos|
                rect.contains(p) && p.y < origin.y + dy ==> tiles@.contains(p) && !occupied@.contains(
                    p,
                ),
        decreases height - dy,
    {
        let mut dx: i32 = 0;
        while dx < width
            invariant
                0 <= dx,
                width >= 1 ==> dx <= width,
                0 <= dy < height,
                height >= 1 ==> origin.y + (height - 1) <= i32::MAX,
                width >= 1 ==> origin.x + (width - 1) <= i32::MAX,
                rect == slot_rect(origin, width as int, height as int),
                forall|p: TilePos|
                    rect.contains(p) && p.y < origin.y + dy ==> tiles@.contains(p)
                        && !occupied@.contains(p),
                forall|p: TilePos|
                    rect.contains(p) && p.y == origin.y + dy && p.x < origin.x + dx
                        ==> tiles@.contains(p) && !occupied@.contains(p),
            decreases width - dx,
        {
            let check = TilePos::new(origin.x + dx, origin.y + dy);
            if !tiles.contains(&check) || occupied.contains(&check) {
                assert(rect.contains(check));
                return false;
            }
            dx = dx + 1;
        }
        dy = dy + 1;
    }
    true
}

/// Mark every cell of the `width` by `height` station at `origin` occupied.
fn occupy_station(occupied: &mut TileSet, origin: TilePos, width: i32, height: i32)
    requires
        width >= 1 ==> origin.x + (width - 1) <= i32::MAX,
        height >= 1 ==> origin.y + (height - 1) <= i32::MAX,
    ensures
        final(occupied)@ == old(occupied)@.union(slot_rect(origin, width as int, height as int)),
{
    let ghost rect = slot_rect(origin, width as int, height as int);
    let mut dy: i32 = 0;
    while dy < height
        invariant
            0 <= dy,
            height >= 1 ==> dy <= height,
            height >= 1 ==> origin.y + (height - 1) <= i32::MAX,
            width >= 1 ==> origin.x + (width - 1) <= i32::MAX,
            rect == slot_rect(origin, width as int, height as int),
            occupied@ == old(occupied)@.union(rect.filter(|p: TilePos| p.y < origin.y + dy)),
        decreases height - dy,
    {
        let mut dx: i32 = 0;
        while dx < width
            invariant
                0 <= dx,
                width >= 1 ==> dx <= width,
                0 <= dy < height,
                height >= 1 ==> origin.y + (height - 1) <= i32::MAX,
                width >= 1 ==> origin.x + (width - 1) <= i32::MAX,
                rect == slot_rect(origin, width as int, height as int),
                occupied@ == old(occupied)@.union(
                    rect.filter(
                        |p: TilePos|
                            p.y < origin.y + dy || (p.y == origin.y + dy && p.x < origin.x + dx),
                    ),
                ),
            decreases width - dx,
        {
            let cell = TilePos::new(origin.x + dx, origin.y + dy);
            occupied.insert(cell);
            dx = dx + 1;
            assert(occupied@ =~= old(occupied)@.union(
                rect.filter(
                    |p: TilePos|
                        p.y < origin.y + dy || (p.y == origin.y + dy && p.x < origin.x + dx),
                ),
            ));
        }
        dy = dy + 1;
        assert(occupied@ =~= old(occupied)@.union(rect.filter(|p: TilePos| p.y < origin.y + dy)));
    }
    assert(occupied@ =~= old(occupied)@.union(rect));
}

/// With 1 by 1 stations over distinct positions of the room, every position
/// becomes a station.
proof fn lemma_unit_stations(order: Seq<TilePos>, tiles: Set<TilePos>)
    requires
        order.no_duplicates(),
        order.to_set().subset_of(tiles),
    ensures
        pack_stations(order, tiles, 1, 1) == (order, order.to_set()),
    decreases order.len(),
{
    if order.len() == 0 {
        assert(order.to_set() =~= Set::<TilePos>::empty());
    } else {
        let rest = order.drop_last();
        let s = order.last();
        assert(rest.to_set().subset_of(tiles)) by {
            assert forall|p: TilePos| rest.to_set().contains(p) implies tiles.contains(p) by {
                let k = choose|k: int| 0 <= k < rest.len() && rest[k] == p;
                assert(order[k] == p);
                assert(order.to_set().contains(p));
            }
        }
        lemma_unit_stations(rest, tiles);
        assert(slot_rect(s, 1, 1) =~= set![s]);
        assert(order.to_set().contains(s));
        assert(!rest.to_set().contains(s)) by {
            if rest.to_set().contains(s) {
                let k = choose|k: int| 0 <= k < rest.len() && rest[k] == s;
                assert(order[k] == order[order.len() - 1]);
            }
        }
        assert(order =~= rest.push(s));
        assert(order.to_set() =~= rest.to_set().union(set![s])) by {
            rest.lemma_push_to_set_commute(s);
        }
    }
}

/// `a` comes strictly before `b` in row-major order.
pub open spec fn row_major_lt(a: TilePos, b: TilePos) -> bool {
    a.y < b.y || (a.y == b.y && a.x < b.x)
}

/// The cells of the `w` by `h` station reported at `slot`: the rectangle
/// whose centre cell, rounding toward the top-left, is `slot`.
pub open spec fn station_of(slot: TilePos, w: int, h: int) -> Set<TilePos> {
    Set::new(
        |p: TilePos|
            slot.x - half_span(w) <= p.x < slot.x - half_span(w) + w && slot.y - half_span(h) <= p.y
                < slot.y - half_span(h) + h,
    )
}

/// The corners the packing takes come from `order`, in its order.
proof fn lemma_pack_subsequence(order: Seq<TilePos>, tiles: Set<TilePos>, w: int, h: int)
    requires
        order.no_duplicates(),
        sorted_row_major(order),
    ensures
        forall|i: int, j: int|
            0 <= i < j < pack_stations(order, tiles, w, h).0.len() ==> row_major_lt(
                #[trigger] pack_stations(order, tiles, w, h).0[i],
                #[trigger] pack_stations(order, tiles, w, h).0[j],
            ),
        forall|i: int|
            0 <= i < pack_stations(order, tiles, w, h).0.len() ==> order.contains(
                #[trigger] pack_stations(order, tiles, w, h).0[i],
            ),
    decreases order.len(),
{
    if order.len() > 0 {
        let init = order.drop_last();
        let s = order.last();
        assert(sorted_row_major(init)) by {
            assert forall|i: int, j: int| 0 <= i < j < init.len() implies row_major_le(
                #[trigger] init[i],
                #[trigger] init[j],
            ) by {
                assert(init[i] == order[i] && init[j] == order[j]);
            }
        }
        lemma_pack_subsequence(init, tiles, w, h);
        let prev = pack_stations(init, tiles, w, h).0;
        let cur = pack_stations(order, tiles, w, h).0;
        assert forall|i: int| 0 <= i < prev.len() implies row_major_lt(#[trigger] prev[i], s) by {
            let k = choose|k: int| 0 <= k < init.len() && init[k] == prev[i];
            assert(order[k] == prev[i]);
            assert(row_major_le(order[k], order[order.len() - 1]));
            assert(order[k] != order[order.len() - 1]);
        }
        assert forall|i: int| 0 <= i < cur.len() implies order.contains(#[trigger] cur[i]) by {
            if i < prev.len() {
                assert(cur[i] == prev[i]);
                let k = choose|k: int| 0 <= k < init.len() && init[k] == prev[i];
                assert(order[k] == prev[i]);
            } else {
                assert(order[order.len() - 1] == s);
            }
        }
        assert forall|i: int, j: int| 0 <= i < j < cur.len() implies row_major_lt(
            #[trigger] cur[i],
            #[trigger] cur[j],
        ) by {
            assert(cur[i] == prev[i]);
            if j < prev.len() {
                assert(cur[j] == prev[j]);
            }
        }
    }
}

/// Every covered cell lies in a taken station, and every corner tried whose
/// station would fit within `tiles` ends up overlapping a covered cell.
proof fn lemma_pack_maximal(order: Seq<TilePos>, tiles: Set<TilePos>, w: int, h: int)
    requires
        w >= 1,
        h >= 1,
    ensures
        forall|p: TilePos|
            #[trigger] pack_stations(order, tiles, w, h).1.contains(p) ==> exists|i: int|
                0 <= i < pack_stations(order, tiles, w, h).0.len() && slot_rect(
                    pack_stations(order, tiles, w, h).0[i],
                    w,
                    h,
                ).contains(p),
        forall|k: int|
            0 <= k < order.len() && slot_rect(#[trigger] order[k], w, h).subset_of(tiles)
                ==> !slot_rect(order[k], w, h).disjoint(pack_stations(order, tiles, w, h).1),
    decreases order.len(),
{
    if order.len() > 0 {
        let init = order.drop_last();
        let s = order.last();
        lemma_pack_maximal(init, tiles, w, h);
        let prev = pack_stations(init, tiles, w, h);
        let cur = pack_stations(order, tiles, w, h);
        assert(slot_rect(s, w, h).contains(s));
        assert forall|p: TilePos| #[trigger] cur.1.contains(p) implies exists|i: int|
            0 <= i < cur.0.len() && slot_rect(cur.0[i], w, h).contains(p) by {
            if prev.1.contains(p) {
                let i = choose|i: int| 0 <= i < prev.0.len() && slot_rect(prev.0[i], w, h).contains(p);
                assert(cur.0[i] == prev.0[i]);
            } else {
                assert(cur.0[cur.0.len() - 1] == s);
            }
        }
        assert forall|k: int|
            0 <= k < order.len() && slot_rect(#[trigger] order[k], w, h).subset_of(tiles)
                implies !slot_rect(order[k], w, h).disjoint(cur.1) by {
            if k < init.len() {
                assert(init[k] == order[k]);
                assert(prev.1.subset_of(cur.1));
                let q = choose|q: TilePos| slot_rect(order[k], w, h).contains(q) && prev.1.contains(q);
                assert(cur.1.contains(q));
            } else {
                assert(order[k] == s);
                if cur.1.contains(s) {
                    assert(slot_rect(s, w, h).contains(s));
                } else {
                    assert(!slot_rect(s, w, h).disjoint(prev.1));
                    let q = choose|q: TilePos| slot_rect(s, w, h).contains(q) && prev.1.contains(q);
                    assert(cur.1.contains(q));
                }
            }
        }
    }
}

/// Greedy packing over the positions of `tiles` in row-major order takes
/// its corners in strictly increasing row-major order, and leaves no room
/// for another station: every `w` by `h` rectangle within `tiles` overlaps a
/// station that was taken.
pub proof fn greedy_packing_is_ordered_and_maximal(
    order: Seq<TilePos>,
    tiles: Set<TilePos>,
    w: int,
    h: int,
)
    requires
        order.no_duplicates(),
        sorted_row_major(order),
        order.to_set() == tiles,
    ensures
        forall|i: int, j: int|
            0 <= i < j < pack_stations(order, tiles, w, h).0.len() ==> row_major_lt(
                #[trigger] pack_stations(order, tiles, w, h).0[i],
                #[trigger] pack_stations(order, tiles, w, h).0[j],
            ),
        w >= 1 && h >= 1 ==> forall|o: TilePos|
            #[trigger] slot_rect(o, w, h).subset_of(tiles) ==> exists|i: int|
                0 <= i < pack_stations(order, tiles, w, h).0.len() && !slot_rect(o, w, h).disjoint(
                    slot_rect(pack_stations(order, tiles, w, h).0[i], w, h),
                ),
{
    lemma_pack_subsequence(order, tiles, w, h);
    if w >= 1 && h >= 1 {
        lemma_pack_maximal(order, tiles, w, h);
        let pack = pack_stations(order, tiles, w, h);
        assert forall|o: TilePos| #[trigger] slot_rect(o, w, h).subset_of(tiles) implies exists|i: int|
            0 <= i < pack.0.len() && !slot_rect(o, w, h).disjoint(slot_rect(pack.0[i], w, h)) by {
            assert(slot_rect(o, w, h).contains(o));
            assert(order.to_set().contains(o));
            let k = choose|k: int| 0 <= k < order.len() && order[k] == o;
            let q = choose|q: TilePos| slot_rect(order[k], w, h).contains(q) && pack.1.contains(q);
            let i = choose|i: int| 0 <= i < pack.0.len() && slot_rect(pack.0[i], w, h).contains(q);
            assert(slot_rect(o, w, h).contains(q) && slot_rect(pack.0[i], w, h).contains(q));
        }
    }
}

/// The work slots of `tiles`, read back as stations: strictly increasing in
/// row-major order, each within `tiles`, pairwise disjoint, and (for sizes
/// of at least 1 by 1) leaving no room for another station.
proof fn lemma_work_slots_properties(tiles: Set<TilePos>, w: int, h: int)
    requires
        row_major_order(tiles).no_duplicates(),
        sorted_row_major(row_major_order(tiles)),
        row_major_order(tiles).to_set() == tiles,
        forall|p: TilePos| tiles.contains(p) ==> station_in_range(p, w, h),
    ensures
        forall|i: int, j: int|
            0 <= i < j < work_slots(tiles, w, h).len() ==> row_major_lt(
                #[trigger] work_slots(tiles, w, h)[i],
                #[trigger] work_slots(tiles, w, h)[j],
            ),
        forall|i: int|
            0 <= i < work_slots(tiles, w, h).len() ==> station_of(
                #[trigger] work_slots(tiles, w, h)[i],
                w,
                h,
            ).subset_of(tiles),
        forall|i: int, j: int|
            0 <= i < j < work_slots(tiles, w, h).len() ==> station_of(
                #[trigger] work_slots(tiles, w, h)[i],
                w,
                h,
            ).disjoint(station_of(#[trigger] work_slots(tiles, w, h)[j], w, h)),
        w >= 1 && h >= 1 ==> forall|o: TilePos|
            #[trigger] slot_rect(o, w, h).subset_of(tiles) ==> exists|i: int|
                0 <= i < work_slots(tiles, w, h).len() && !slot_rect(o, w, h).disjoint(
                    station_of(work_slots(tiles, w, h)[i], w, h),
                ),
{
    let order = row_major_order(tiles);
    let origins = pack_stations(order, tiles, w, h).0;
    let slots = work_slots(tiles, w, h);
    greedy_packing_is_ordered_and_maximal(order, tiles, w, h);
    work_stations_are_disjoint(order, tiles, w, h);
    lemma_pack_subsequence(order, tiles, w, h);
    assert forall|i: int| 0 <= i < origins.len() implies station_of(
        #[trigger] slots[i],
        w,
        h,
    ) == slot_rect(origins[i], w, h) && slots[i].x == origins[i].x + half_span(w) && slots[i].y
        == origins[i].y + half_span(h) by {
        assert(order.contains(origins[i]));
        assert(order.to_set().contains(origins[i]));
        assert(station_in_range(origins[i], w, h));
        assert(station_of(slots[i], w, h) =~= slot_rect(origins[i], w, h));
    }
    assert forall|i: int, j: int| 0 <= i < j < slots.len() implies row_major_lt(
        #[trigger] slots[i],
        #[trigger] slots[j],
    ) by {
        assert(station_of(slots[i], w, h) == slot_rect(origins[i], w, h));
        assert(station_of(slots[j], w, h) == slot_rect(origins[j], w, h));
        assert(row_major_lt(origins[i], origins[j]));
    }
    assert forall|i: int| 0 <= i < slots.len() implies station_of(#[trigger] slots[i], w, h).subset_of(
        tiles,
    ) by {
        assert(station_of(slots[i], w, h) == slot_rect(origins[i], w, h));
    }
    assert forall|i: int, j: int| 0 <= i < j < slots.len() implies station_of(
        #[trigger] slots[i],
        w,
        h,
    ).disjoint(station_of(#[trigger] slots[j], w, h)) by {
        assert(station_of(slots[i], w, h) == slot_rect(origins[i], w, h));
        assert(station_of(slots[j], w, h) == slot_rect(origins[j], w, h));
    }
    if w >= 1 && h >= 1 {
        assert forall|o: TilePos| #[trigger] slot_rect(o, w, h).subset_of(tiles) implies exists|i: int|
            0 <= i < slots.len() && !slot_rect(o, w, h).disjoint(station_of(slots[i], w, h)) by {
            let i = choose|i: int|
                0 <= i < origins.len() && !slot_rect(o, w, h).disjoint(slot_rect(origins[i], w, h));
            assert(station_of(slots[i], w, h) == slot_rect(origins[i], w, h));
        }
    }
}

/// Calculate valid work slots for a room based on work station size, using
/// a greedy packing that tries each tile in row-major order as the top-left
/// corner of a `work_size[0]` by `work_size[1]` station. A 1x1 station gives
/// every tile, in row-major order.
pub fn calculate_work_slots(tiles: &TileSet, work_size: [u32; 2]) -> (slots: Vec<TilePos>)
    requires
        work_size[0] as i32 != i32::MIN,
        work_size[1] as i32 != i32::MIN,
        forall|p: TilePos|
            tiles@.contains(p) ==> station_in_range(
                p,
                work_size[0] as i32 as int,
                work_size[1] as i32 as int,
            ),
    ensures
        slots@ == work_slots(tiles@, work_size[0] as i32 as int, work_size[1] as i32 as int),
        forall|i: int, j: int|
            0 <= i < j < slots@.len() ==> row_major_lt(#[trigger] slots@[i], #[trigger] slots@[j]),
        forall|i: int|
            0 <= i < slots@.len() ==> station_of(
                #[trigger] slots@[i],
                work_size[0] as i32 as int,
                work_size[1] as i32 as int,
            ).subset_of(tiles@),
        forall|i: int, j: int|
            0 <= i < j < slots@.len() ==> station_of(
                #[trigger] slots@[i],
                work_size[0] as i32 as int,
                work_size[1] as i32 as int,
            ).disjoint(
                station_of(
                    #[trigger] slots@[j],
                    work_size[0] as i32 as int,
                    work_size[1] as i32 as int,
                ),
            ),
        work_size[0] as i32 >= 1 && work_size[1] as i32 >= 1 ==> forall|o: TilePos|
            #[trigger] slot_rect(
                o,
                work_size[0] as i32 as int,
                work_size[1] as i32 as int,
            ).subset_of(tiles@) ==> exists|i: int|
                0 <= i < slots@.len() && !slot_rect(
                    o,
                    work_size[0] as i32 as int,
                    work_size[1] as i32 as int,
                ).disjoint(
                    station_of(slots@[i], work_size[0] as i32 as int, work_size[1] as i32 as int),
                ),
{
    let width: i32 = work_size[0] as i32;
    let height: i32 = work_size[1] as i32;
    let ghost w = width as int;
    let ghost h = height as int;
    let mut sorted = tiles.to_vec();
    let ghost unsorted = sorted@;
    sort_row_major(&mut sorted);
    proof {
        unsorted.lemma_multiset_has_no_duplicates();
        assert forall|x: TilePos| sorted@.to_multiset().contains(x) implies sorted@.to_multiset().count(x) == 1 by {
            assert(unsorted.to_multiset().contains(x));
        }
        sorted@.lemma_multiset_has_no_duplicates_conv();
        assert(sorted@.to_set() =~= tiles@) by {
            sorted@.to_multiset_ensures();
            unsorted.to_multiset_ensures();
            assert forall|p: TilePos| sorted@.to_set().contains(p) <==> unsorted.to_set().contains(p) by {
                assert(sorted@.to_set().contains(p) == sorted@.contains(p));
                assert(unsorted.to_set().contains(p) == unsorted.contains(p));
                assert(sorted@.contains(p) == (sorted@.to_multiset().count(p) > 0));
                assert(unsorted.contains(p) == (unsorted.to_multiset().count(p) > 0));
            }
        }
        lemma_row_major_unique(sorted@, row_major_order(tiles@));
        lemma_work_slots_properties(tiles@, w, h);
    }
    if width == 1 && height == 1 {
        proof {
            lemma_unit_stations(sorted@, tiles@);
            assert(sorted@.map_values(|o: TilePos| slot_center(o, 1, 1)) =~= sorted@);
        }
        return sorted;
    }
    let half_x: i32 = if width >= 1 {
        (width - 1) / 2
    } else {
        (0 - (1 - width as i64) / 2) as i32
    };
    let half_y: i32 = if height >= 1 {
        (height - 1) / 2
    } else {
        (0 - (1 - height as i64) / 2) as i32
    };
    assert(half_x == half_span(w) && half_y == half_span(h));
    let mut occupied = TileSet::new();
    let mut slots: Vec<TilePos> = Vec::new();
    let mut i: usize = 0;
    assert(sorted@.take(0) =~= Seq::<TilePos>::empty());
    assert(occupied@ =~= Set::<TilePos>::empty());
    while i < sorted.len()
        invariant
            sorted@ == row_major_order(tiles@),
            sorted@.to_set() == tiles@,
            i <= sorted@.len(),
            w == width as int,
            h == height as int,
            half_x == half_span(w),
            half_y == half_span(h),
            forall|p: TilePos| tiles@.contains(p) ==> station_in_range(p, w, h),
            occupied@ == pack_stations(sorted@.take(i as int), tiles@, w, h).1,
            slots@ == pack_stations(sorted@.take(i as int), tiles@, w, h).0.map_values(
                |o: TilePos| slot_center(o, w, h),
            ),
        decreases sorted@.len() - i,
    {
        let start = sorted[i];
        assert(sorted@.take(i + 1).drop_last() =~= sorted@.take(i as int));
        assert(sorted@.take(i + 1).last() == start);
        assert(tiles@.contains(start));
        if !occupied.contains(&start) && station_fits(tiles, &occupied, start, width, height) {
            occupy_station(&mut occupied, start, width, height);
            let ghost before = slots@;
            slots.push(TilePos::new(start.x + half_x, start.y + half_y));
            assert(slots@ =~= pack_stations(sorted@.take(i + 1), tiles@, w, h).0.map_values(
                |o: TilePos| slot_center(o, w, h),
            ));
        }
        i = i + 1;
    }
    assert(sorted@.take(sorted@.len() as int) =~= sorted@);
    slots
}

/// The stations chosen for a room's work slots lie inside the room and never
/// overlap: each covers only room tiles, and no cell is covered twice.
pub proof fn work_stations_are_disjoint(order: Seq<TilePos>, tiles: Set<TilePos>, w: int, h: int)
    ensures
        forall|i: int|
            0 <= i < pack_stations(order, tiles, w, h).0.len() ==> slot_rect(
                #[trigger] pack_stations(order, tiles, w, h).0[i],
                w,
                h,
            ).subset_of(tiles),
        forall|i: int, j: int|
            0 <= i < j < pack_stations(order, tiles, w, h).0.len() ==> slot_rect(
                #[trigger] pack_stations(order, tiles, w, h).0[i],
                w,
                h,
            ).disjoint(slot_rect(#[trigger] pack_stations(order, tiles, w, h).0[j], w, h)),
        forall|i: int|
            0 <= i < pack_stations(order, tiles, w, h).0.len() ==> slot_rect(
                #[trigger] pack_stations(order, tiles, w, h).0[i],
                w,
                h,
            ).subset_of(pack_stations(order, tiles, w, h).1),
    decreases order.len(),
{
    if order.len() > 0 {
        work_stations_are_disjoint(order.drop_last(), tiles, w, h);
        let prev = pack_stations(order.drop_last(), tiles, w, h);
        let cur = pack_stations(order, tiles, w, h);
        if cur.0.len() > prev.0.len() {
            assert forall|i: int, j: int|
                0 <= i < j < cur.0.len() implies slot_rect(#[trigger] cur.0[i], w, h).disjoint(
                slot_rect(#[trigger] cur.0[j], w, h),
            ) by {
                if j < prev.0.len() {
                    assert(cur.0[i] == prev.0[i]);
                    assert(cur.0[j] == prev.0[j]);
                } else {
                    assert(cur.0[i] == prev.0[i]);
                    assert(slot_rect(prev.0[i], w, h).subset_of(prev.1));
                }
            }
            assert forall|i: int| 0 <= i < cur.0.len() implies slot_rect(
                #[trigger] cur.0[i],
                w,
                h,
            ).subset_of(tiles) && slot_rect(cur.0[i], w, h).subset_of(cur.1) by {
                if i < prev.0.len() {
                    assert(cur.0[i] == prev.0[i]);
                }
            }
        }
    }
}

} // verus!

verus! {

/// A detected room instance in the game world. The fractional quality and
/// efficiency ratings the game attaches to a room are not kept here.
pub struct Room {
    pub id: usize,
    pub room_type: String,
    pub tiles: TileSet,
    pub active: bool,
    pub work_slots: Vec<TilePos>,
}

/// The sum of the columns of `s`.
pub open spec fn sum_x(s: Seq<TilePos>) -> int
    decreases s.len(),
{
    if s.len() == 0 {
        0
    } else {
        sum_x(s.drop_last()) + s.last().x
    }
}

/// The sum of the rows of `s`.
pub open spec fn sum_y(s: Seq<TilePos>) -> int
    decreases s.len(),
{
    if s.len() == 0 {
        0
    } else {
        sum_y(s.drop_last()) + s.last().y
    }
}

/// `a / b` with Rust's rounding toward zero, for positive `b`.
pub open spec fn div_toward_zero(a: int, b: int) -> int {
    if a >= 0 {
        a / b
    } else {
        -((-a) / b)
    }
}

/// The room's centre: the average of its tile positions, each coordinate
/// rounded toward zero, or the origin for a room with no tiles.
pub open spec fn room_center(tiles: Seq<TilePos>) -> TilePos {
    if tiles.len() == 0 {
        TilePos { x: 0, y: 0 }
    } else {
        TilePos {
            x: div_toward_zero(sum_x(tiles), tiles.len() as int) as i32,
            y: div_toward_zero(sum_y(tiles), tiles.len() as int) as i32,
        }
    }
}

/// The coordinate sums of a room's tiles fit in 32 bits.
pub open spec fn sums_in_range(tiles: Seq<TilePos>) -> bool {
    &&& i32::MIN <= sum_x(tiles) <= i32::MAX
    &&& i32::MIN <= sum_y(tiles) <= i32::MAX
    &&& tiles.len() <= i32::MAX
}

proof fn lemma_sum_bounds(s: Seq<TilePos>)
    ensures
        s.len() * (i32::MIN as int) <= sum_x(s) <= s.len() * (i32::MAX as int),
        s.len() * (i32::MIN as int) <= sum_y(s) <= s.len() * (i32::MAX as int),
    decreases s.len(),
{
    if s.len() > 0 {
        lemma_sum_bounds(s.drop_last());
    }
}

impl Room {
    /// Create a new room instance, not yet active.
    pub fn new(id: usize, room_type: String, tiles: TileSet, work_slots: Vec<TilePos>) -> (r: Self)
        ensures
            r.id == id,
            r.room_type == room_type,
            r.tiles == tiles,
            !r.active,
            r.work_slots == work_slots,
    {
        Room { id, room_type, tiles, active: false, work_slots }
    }

    /// Get the center position of the room (average of all tile positions).
    pub fn get_center(&self) -> (r: TilePos)
        requires
            sums_in_range(self.tiles.elements()),
        ensures
            r == room_center(self.tiles.elements()),
    {
        if self.tiles.is_empty() {
            return TilePos::new(0, 0);
        }
        let ts = self.tiles.to_vec();
        let ghost s = ts@;
        let mut sx: i64 = 0;
        let mut sy: i64 = 0;
        let mut i: usize = 0;
        assert(s.take(0) =~= Seq::<TilePos>::empty());
        while i < ts.len()
            invariant
                s == ts@,
                s == self.tiles.elements(),
                s.len() <= i32::MAX,
                i <= s.len(),
                sx == sum_x(s.take(i as int)),
                sy == sum_y(s.take(i as int)),
            decreases s.len() - i,
        {
            proof {
                lemma_sum_bounds(s.take(i as int));
                assert(s.take(i + 1).drop_last() =~= s.take(i as int));
            }
            sx = sx + ts[i].x as i64;
            sy = sy + ts[i].y as i64;
            i = i + 1;
        }
        assert(s.take(s.len() as int) =~= s);
        let count = ts.len() as i64;
        let cx = if sx >= 0 { sx / count } else { 0 - (0 - sx) / count };
        let cy = if sy >= 0 { sy / count } else { 0 - (0 - sy) / count };
        TilePos::new(cx as i32, cy as i32)
    }
}

/// The ids of the active rooms' data, as the placement rules see them.
pub open spec fn built_ids(rooms: Seq<Room>) -> Set<Seq<char>> {
    Set::new(
        |id: Seq<char>|
            exists|k: int|
                0 <= k < rooms.len() && rooms[k].active && data_id_of(rooms[k].room_type@) == id,
    )
}

/// How many active rooms are instances of the room data `id`.
pub open spec fn instances_of(rooms: Seq<Room>, id: Seq<char>) -> nat
    decreases rooms.len(),
{
    if rooms.len() == 0 {
        0
    } else {
        instances_of(rooms.drop_last(), id) + if rooms.last().active && data_id_of(
            rooms.last().room_type@,
        ) == id {
            1nat
        } else {
            0nat
        }
    }
}

/// The first entry of `ids` satisfying `pred`.
pub open spec fn first_id(ids: Seq<String>, pred: spec_fn(Seq<char>) -> bool) -> Option<int>
    decreases ids.len(),
{
    if ids.len() == 0 {
        None
    } else {
        match first_id(ids.drop_last(), pred) {
            Some(k) => Some(k),
            None => if pred(ids.last()@) {
                Some(ids.len() - 1)
            } else {
                None
            },
        }
    }
}

/// The prerequisite test: a room id not among `built`.
pub open spec fn missing_from(built: Set<Seq<char>>) -> spec_fn(Seq<char>) -> bool {
    |r: Seq<char>| !built.contains(r)
}

/// The exclusion test: a room id among `built`.
pub open spec fn present_in(built: Set<Seq<char>>) -> spec_fn(Seq<char>) -> bool {
    |r: Seq<char>| built.contains(r)
}

/// The verdict on building another room of data `id` with `requirements`
/// next to `rooms`: the first required room not built, else the first
/// forbidding room built, else the instance limit (0 meaning none) if it is
/// already reached, else permission.
pub open spec fn placement_verdict(
    id: Seq<char>,
    requirements: RequirementsData,
    rooms: Seq<Room>,
) -> Result<(), PlacementRefusal> {
    let built = built_ids(rooms);
    match first_id(requirements.global_rooms_required@, missing_from(built)) {
        Some(k) => Err(
            PlacementRefusal::MissingPrerequisite(requirements.global_rooms_required@[k]),
        ),
        None => match first_id(requirements.forbidden_if@, present_in(built)) {
            Some(k) => Err(PlacementRefusal::ForbiddenBy(requirements.forbidden_if@[k])),
            None => if requirements.max_instances > 0 && instances_of(rooms, id)
                >= requirements.max_instances {
                Err(PlacementRefusal::AlreadyAtLimit(requirements.max_instances))
            } else {
                Ok(())
            },
        },
    }
}

/// Whether the dungeon holds an active room whose data id is `id`.
fn is_built(rooms: &Vec<Room>, id: &str) -> (r: bool)
    ensures
        r == built_ids(rooms@).contains(id@),
{
    let mut k: usize = 0;
    while k < rooms.len()
        invariant
            k <= rooms@.len(),
            forall|j: int|
                0 <= j < k ==> !((#[trigger] rooms@[j]).active && data_id_of(rooms@[j].room_type@)
                    == id@),
        decreases rooms@.len() - k,
    {
        if rooms[k].active && str_equal(room_data_id(rooms[k].room_type.as_str()), id) {
            return true;
        }
        k = k + 1;
    }
    false
}

/// Whether the dungeon permits another room of data `room_id` at all, given
/// its `requirements` and the rooms already built (only active rooms count):
/// every room in `global_rooms_required` must be built, no room in
/// `forbidden_if` may be, and a non-zero `max_instances` caps how many active
/// instances of this room may already exist.
pub fn dungeon_permits_room(room_id: &str, requirements: &RequirementsData, rooms: &Vec<Room>) -> (r:
    Result<(), PlacementRefusal>)
    ensures
        match (r, placement_verdict(room_id@, *requirements, rooms@)) {
            (Ok(()), Ok(())) => true,
            (Err(PlacementRefusal::MissingPrerequisite(a)), Err(
                PlacementRefusal::MissingPrerequisite(b),
            )) => a@ == b@,
            (Err(PlacementRefusal::ForbiddenBy(a)), Err(PlacementRefusal::ForbiddenBy(b))) => a@
                == b@,
            (Err(PlacementRefusal::AlreadyAtLimit(a)), Err(PlacementRefusal::AlreadyAtLimit(b))) => a
                == b,
            _ => false,
        },
{
    let ghost built = built_ids(rooms@);
    let required = &requirements.global_rooms_required;
    let mut i: usize = 0;
    assert(required@.take(0) =~= Seq::<String>::empty());
    while i < required.len()
        invariant
            *required == requirements.global_rooms_required,
            built == built_ids(rooms@),
            i <= required@.len(),
            first_id(required@.take(i as int), missing_from(built)) is None,
        decreases required@.len() - i,
    {
        assert(required@.take(i + 1).drop_last() =~= required@.take(i as int));
        if !is_built(rooms, required[i].as_str()) {
            proof {
                lemma_first_id_prefix(required@, missing_from(built), i + 1);
            }
            return Err(PlacementRefusal::MissingPrerequisite(required[i].clone()));
        }
        i = i + 1;
    }
    assert(required@.take(required@.len() as int) =~= required@);
    let forbidden = &requirements.forbidden_if;
    let mut j: usize = 0;
    assert(forbidden@.take(0) =~= Seq::<String>::empty());
    while j < forbidden.len()
        invariant
            *forbidden == requirements.forbidden_if,
            built == built_ids(rooms@),
            j <= forbidden@.len(),
            first_id(forbidden@.take(j as int), present_in(built)) is None,
            first_id(requirements.global_rooms_required@, missing_from(built)) is None,
        decreases forbidden@.len() - j,
    {
        assert(forbidden@.take(j + 1).drop_last() =~= forbidden@.take(j as int));
        if is_built(rooms, forbidden[j].as_str()) {
            proof {
                lemma_first_id_prefix(forbidden@, present_in(built), j + 1);
            }
            return Err(PlacementRefusal::ForbiddenBy(forbidden[j].clone()));
        }
        j = j + 1;
    }
    assert(forbidden@.take(forbidden@.len() as int) =~= forbidden@);
    let max = requirements.max_instances;
    if max > 0 {
        let mut existing: u32 = 0;
        let mut k: usize = 0;
        assert(rooms@.take(0) =~= Seq::<Room>::empty());
        while k < rooms.len()
            invariant
                k <= rooms@.len(),
                existing == instances_of(rooms@.take(k as int), room_id@),
                existing <= k,
                max == requirements.max_instances,
                built == built_ids(rooms@),
                first_id(requirements.global_rooms_required@, missing_from(built)) is None,
                first_id(requirements.forbidden_if@, present_in(built)) is None,
                max > 0,
                existing < max,
            decreases rooms@.len() - k,
        {
            assert(rooms@.take(k + 1).drop_last() =~= rooms@.take(k as int));
            if rooms[k].active && str_equal(room_data_id(rooms[k].room_type.as_str()), room_id) {
                existing = existing + 1;
            }
            k = k + 1;
            if existing >= max {
                proof {
                    lemma_instances_prefix(rooms@, room_id@, k as int);
                }
                return Err(PlacementRefusal::AlreadyAtLimit(max));
            }
        }
        assert(rooms@.take(rooms@.len() as int) =~= rooms@);
    }
    Ok(())
}

/// An instance limit of 0 means unlimited: such a room is never refused for
/// being at its limit.
pub proof fn unlimited_rooms_never_reach_a_limit(
    id: Seq<char>,
    requirements: RequirementsData,
    rooms: Seq<Room>,
)
    requires
        requirements.max_instances == 0,
    ensures
        !(placement_verdict(id, requirements, rooms) matches Err(
            PlacementRefusal::AlreadyAtLimit(_),
        )),
{
}

/// Only active rooms count: adding an inactive room to the dungeon never
/// changes the verdict on building another.
pub proof fn inactive_rooms_do_not_count(
    id: Seq<char>,
    requirements: RequirementsData,
    rooms: Seq<Room>,
    idle: Room,
)
    requires
        !idle.active,
    ensures
        placement_verdict(id, requirements, rooms.push(idle)) == placement_verdict(
            id,
            requirements,
            rooms,
        ),
{
    let more = rooms.push(idle);
    assert(more.drop_last() =~= rooms);
    assert forall|r: Seq<char>| built_ids(more).contains(r) implies built_ids(rooms).contains(r) by {
        let k = choose|k: int|
            0 <= k < more.len() && more[k].active && data_id_of(more[k].room_type@) == r;
        assert(k < rooms.len());
        assert(rooms[k] == more[k]);
    }
    assert forall|r: Seq<char>| built_ids(rooms).contains(r) implies built_ids(more).contains(r) by {
        let k = choose|k: int|
            0 <= k < rooms.len() && rooms[k].active && data_id_of(rooms[k].room_type@) == r;
        assert(more[k] == rooms[k]);
    }
    assert(built_ids(more) =~= built_ids(rooms));
    assert(instances_of(more, id) == instances_of(rooms, id));
}

/// Whether one tile can carry a room built as `build`: claimed by the
/// player where the room requires it, not already in a room unless rooms may
/// overlap, of an allowed terrain where the room names any, walkable where
/// the room must be dug out, and of a type rooms can be built on at all.
/// `walkable` and `buildable` are what the tile-type table says of the
/// tile's type.
pub open spec fn tile_admits(build: BuildData, tile: TileState, walkable: bool, buildable: bool) -> bool {
    &&& !(build.requires_claimed && tile.ownership != Ownership::Player)
    &&& !(!build.can_overlap && tile.room_id is Some)
    &&& (build.allowed_terrain@.len() == 0 || exists|i: int|
        0 <= i < build.allowed_terrain@.len() && (#[trigger] build.allowed_terrain@[i])@
            == tile.tile_type@)
    &&& !(build.dig_required && !walkable)
    &&& buildable
}

/// A tile passes only when every rule passes: a room that requires a
/// claimed tile is refused any tile the player does not own (an enemy's as
/// much as an unclaimed one), a room that may not overlap is refused a tile
/// already in a room, a room with allowed terrain is refused other terrain,
/// a room that must be dug out is refused a tile that cannot be walked, and
/// no room goes on a type rooms cannot be built on. A tile that meets all of
/// them passes.
pub proof fn tile_rules_all_apply(build: BuildData, tile: TileState, walkable: bool, buildable: bool)
    ensures
        build.requires_claimed && tile.ownership != Ownership::Player ==> !tile_admits(
            build,
            tile,
            walkable,
            buildable,
        ),
        !build.can_overlap && tile.room_id is Some ==> !tile_admits(build, tile, walkable, buildable),
        build.allowed_terrain@.len() > 0 && (forall|i: int|
            0 <= i < build.allowed_terrain@.len() ==> (#[trigger] build.allowed_terrain@[i])@
                != tile.tile_type@) ==> !tile_admits(build, tile, walkable, buildable),
        build.dig_required && !walkable ==> !tile_admits(build, tile, walkable, buildable),
        !buildable ==> !tile_admits(build, tile, walkable, buildable),
        (tile.ownership == Ownership::Player && tile.room_id is None && build.allowed_terrain@.len()
            == 0 && walkable && buildable) ==> tile_admits(build, tile, walkable, buildable),
{
}

/// Whether `terrain` names `tile_type`.
fn names_terrain(terrain: &Vec<String>, tile_type: &str) -> (r: bool)
    ensures
        r == exists|i: int| 0 <= i < terrain@.len() && (#[trigger] terrain@[i])@ == tile_type@,
{
    let mut i: usize = 0;
    while i < terrain.len()
        invariant
            i <= terrain@.len(),
            forall|j: int| 0 <= j < i ==> (#[trigger] terrain@[j])@ != tile_type@,
        decreases terrain@.len() - i,
    {
        if str_equal(terrain[i].as_str(), tile_type) {
            return true;
        }
        i = i + 1;
    }
    false
}

/// Whether one tile can carry a room built as `build`, given whether the
/// tile's type is walkable and whether rooms can be built on it.
pub fn tile_permits_room(build: &BuildData, tile: &TileState, walkable: bool, buildable: bool) -> (r:
    bool)
    ensures
        r == tile_admits(*build, *tile, walkable, buildable),
        build.requires_claimed && tile.ownership != Ownership::Player ==> !r,
        !build.can_overlap && tile.room_id is Some ==> !r,
        build.dig_required && !walkable ==> !r,
        !buildable ==> !r,
{
    if build.requires_claimed && tile.ownership != Ownership::Player {
        return false;
    }
    if !build.can_overlap && tile.room_id.is_some() {
        return false;
    }
    if build.allowed_terrain.len() > 0 && !names_terrain(&build.allowed_terrain, tile.tile_type.as_str()) {
        return false;
    }
    if build.dig_required && !walkable {
        return false;
    }
    buildable
}

/// A match found in a prefix is the first match of the whole list.
proof fn lemma_first_id_prefix(ids: Seq<String>, pred: spec_fn(Seq<char>) -> bool, i: int)
    requires
        0 <= i <= ids.len(),
        first_id(ids.take(i), pred) is Some,
    ensures
        first_id(ids, pred) == first_id(ids.take(i), pred),
    decreases ids.len() - i,
{
    if i < ids.len() {
        assert(ids.take(i + 1).drop_last() =~= ids.take(i));
        lemma_first_id_prefix(ids, pred, i + 1);
    } else {
        assert(ids.take(i) =~= ids);
    }
}

/// Counting instances over a prefix never exceeds the count over the whole.
proof fn lemma_instances_prefix(rooms: Seq<Room>, id: Seq<char>, i: int)
    requires
        0 <= i <= rooms.len(),
    ensures
        instances_of(rooms.take(i), id) <= instances_of(rooms, id),
    decreases rooms.len() - i,
{
    if i < rooms.len() {
        assert(rooms.take(i + 1).drop_last() =~= rooms.take(i));
        lemma_instances_prefix(rooms, id, i + 1);
    } else {
        assert(rooms.take(i) =~= rooms);
    }
}

/// The verdict on a room's shape, given its size limits.
pub open spec fn shape_verdict(tiles: Set<TilePos>, build: BuildData) -> Result<(), Seq<char>> {
    if tiles.len() < build.min_tiles {
        Err(
            "Room too small: "@ + digits(tiles.len()) + " tiles (minimum: "@ + digits(
                build.min_tiles as nat,
            ) + ")"@,
        )
    } else if tiles.len() > build.max_tiles {
        Err(
            "Room too large: "@ + digits(tiles.len()) + " tiles (maximum: "@ + digits(
                build.max_tiles as nat,
            ) + ")"@,
        )
    } else if !contiguous(tiles) {
        Err("Room tiles must be contiguous"@)
    } else {
        Ok(())
    }
}

/// Validate that a set of tiles meets the size limits of a room type and
/// forms one contiguous region.
pub fn validate_room_shape(tiles: &TileSet, build: &BuildData) -> (r: Result<(), String>)
    requires
        tiles@.len() <= u32::MAX,
        build.min_tiles <= tiles@.len() <= build.max_tiles ==> forall|p: TilePos|
            tiles@.contains(p) ==> interior(p),
    ensures
        match (r, shape_verdict(tiles@, *build)) {
            (Ok(()), Ok(())) => true,
            (Err(a), Err(b)) => a@ == b,
            _ => false,
        },
{
    let size: u32 = tiles.len() as u32;
    if size < build.min_tiles {
        let mut s = String::from_str("Room too small: ");
        s.append(unsigned_string(size as u64).as_str());
        s.append(" tiles (minimum: ");
        s.append(unsigned_string(build.min_tiles as u64).as_str());
        s.append(")");
        return Err(s);
    }
    if size > build.max_tiles {
        let mut s = String::from_str("Room too large: ");
        s.append(unsigned_string(size as u64).as_str());
        s.append(" tiles (maximum: ");
        s.append(unsigned_string(build.max_tiles as u64).as_str());
        s.append(")");
        return Err(s);
    }
    if !is_contiguous(tiles) {
        return Err(String::from_str("Room tiles must be contiguous"));
    }
    Ok(())
}

} // verus!
