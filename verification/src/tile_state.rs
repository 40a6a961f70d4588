//! Grid positions, sets of positions, and the parts of a map tile that room
//! detection reads.

use vstd::prelude::*;

verus! {

/// A tile coordinate on the dungeon grid: column `x`, row `y`.
#[derive(Clone, Copy, Debug, PartialEq, Eq, Structural, Hash)]
pub struct TilePos {
    pub x: i32,
    pub y: i32,
}

impl TilePos {
    pub fn new(x: i32, y: i32) -> (r: Self)
        ensures
            r.x == x,
            r.y == y,
    {
        TilePos { x, y }
    }
}

/// Whether `a` and `b` are 4-way neighbours (share an edge).
pub open spec fn adjacent(a: TilePos, b: TilePos) -> bool {
    ||| a.x == b.x && (a.y - b.y == 1 || b.y - a.y == 1)
    ||| a.y == b.y && (a.x - b.x == 1 || b.x - a.x == 1)
}

/// Whether every position of `part` that has a neighbour in `all` has that
/// neighbour in `part` too: nothing of `all` touches `part` from outside.
pub open spec fn closed_within(all: Set<TilePos>, part: Set<TilePos>) -> bool {
    forall|p: TilePos, q: TilePos|
        #![trigger part.contains(p), all.contains(q)]
        part.contains(p) && all.contains(q) && adjacent(p, q) ==> part.contains(q)
}

/// Whether a set of positions is non-empty.
pub open spec fn inhabited(s: Set<TilePos>) -> bool {
    exists|p: TilePos| s.contains(p)
}

/// Whether `tiles` forms one 4-way-connected region: it is non-empty and
/// cannot be split into two non-empty parts with no edge between them.
pub open spec fn contiguous(tiles: Set<TilePos>) -> bool {
    &&& inhabited(tiles)
    &&& forall|part: Set<TilePos>|
        #![trigger closed_within(tiles, part)]
        part.subset_of(tiles) && inhabited(part) && closed_within(tiles, part) ==> part == tiles
}

/// Every position of the plane, which is finite since coordinates are
/// 32-bit.
pub open spec fn all_positions() -> Set<TilePos> {
    Set::full()
}

/// The positions whose column lies in `xs` and whose row lies in `ys`.
pub open spec fn product(xs: Set<i32>, ys: Set<i32>) -> Set<TilePos> {
    Set::new(|p: TilePos| xs.contains(p.x) && ys.contains(p.y))
}

proof fn lemma_product_finite(xs: Set<i32>, ys: Set<i32>)
    requires
        xs.finite(),
        ys.finite(),
    ensures
        product(xs, ys).finite(),
    decreases ys.len(),
{
    if ys.len() == 0 {
        assert(ys =~= Set::empty());
        assert(product(xs, ys) =~= Set::empty());
    } else {
        let y0 = ys.choose();
        let rest = ys.remove(y0);
        lemma_product_finite(xs, rest);
        let row = xs.map(|x: i32| TilePos { x, y: y0 });
        xs.lemma_map_finite(|x: i32| TilePos { x, y: y0 });
        assert forall|p: TilePos| #[trigger] product(xs, ys).contains(p) implies product(
            xs,
            rest,
        ).union(row).contains(p) by {
            if p.y == y0 {
                assert(row.contains(TilePos { x: p.x, y: y0 }));
                assert(p == TilePos { x: p.x, y: y0 });
            }
        }
        assert(product(xs, ys) =~= product(xs, rest).union(row));
    }
}

/// Every set of positions is finite and no larger than the whole plane.
pub proof fn lemma_position_set_finite(s: Set<TilePos>)
    ensures
        s.finite(),
        s.len() <= all_positions().len(),
        all_positions().finite(),
{
    <i32 as vstd::set_lib::FiniteFull>::full_properties();
    lemma_product_finite(Set::<i32>::full(), Set::<i32>::full());
    assert(all_positions() =~= product(Set::<i32>::full(), Set::<i32>::full()));
    vstd::set_lib::lemma_len_subset(s, all_positions());
}

/// A set of distinct tile positions, kept in insertion order.
pub struct TileSet {
    positions: Vec<TilePos>,
}

impl View for TileSet {
    type V = Set<TilePos>;

    closed spec fn view(&self) -> Set<TilePos> {
        self.positions@.to_set()
    }
}

impl TileSet {
    #[verifier::type_invariant]
    spec fn distinct(self) -> bool {
        self.positions@.no_duplicates()
    }

    /// The positions in the order they were inserted.
    pub closed spec fn elements(&self) -> Seq<TilePos> {
        self.positions@
    }

    pub fn new() -> (r: Self)
        ensures
            r@ == Set::<TilePos>::empty(),
            r.elements() == Seq::<TilePos>::empty(),
    {
        let r = TileSet { positions: Vec::new() };
        assert(r@ =~= Set::<TilePos>::empty());
        r
    }

    pub fn contains(&self, p: &TilePos) -> (r: bool)
        ensures
            r == self@.contains(*p),
    {
        let mut i: usize = 0;
        while i < self.positions.len()
            invariant
                i <= self.positions@.len(),
                forall|k: int| 0 <= k < i ==> self.positions@[k] != *p,
            decreases self.positions@.len() - i,
        {
            if self.positions[i] == *p {
                assert(self.positions@.contains(*p));
                return true;
            }
            i = i + 1;
        }
        false
    }

    /// Add `p`; returns whether it was not already present.
    pub fn insert(&mut self, p: TilePos) -> (fresh: bool)
        ensures
            final(self)@ == old(self)@.insert(p),
            fresh == !old(self)@.contains(p),
            final(self).elements() == (if fresh {
                old(self).elements().push(p)
            } else {
                old(self).elements()
            }),
    {
        proof {
            use_type_invariant(&*self);
        }
        if self.contains(&p) {
            assert(self@.insert(p) =~= self@);
            false
        } else {
            let mut grown: Vec<TilePos> = Vec::new();
            std::mem::swap(&mut grown, &mut self.positions);
            grown.push(p);
            self.positions = grown;
            proof {
                old(self).positions@.lemma_push_to_set_commute(p);
            }
            assert(self@ =~= old(self)@.insert(p));
            true
        }
    }

    pub fn len(&self) -> (r: usize)
        ensures
            r == self@.len(),
            r == self.elements().len(),
    {
        proof {
            use_type_invariant(self);
            self.positions@.unique_seq_to_set();
        }
        self.positions.len()
    }

    pub fn is_empty(&self) -> (r: bool)
        ensures
            r == (self@ == Set::<TilePos>::empty()),
            r == (self.elements().len() == 0),
    {
        proof {
            use_type_invariant(self);
            self.positions@.unique_seq_to_set();
            if self.positions@.len() > 0 {
                assert(self@.contains(self.positions@[0]));
            } else {
                assert(self@ =~= Set::<TilePos>::empty());
            }
        }
        self.positions.len() == 0
    }

    /// The `i`-th position in insertion order.
    pub fn get(&self, i: usize) -> (r: TilePos)
        requires
            i < self.elements().len(),
        ensures
            r == self.elements()[i as int],
            self@.contains(r),
    {
        self.positions[i]
    }

    /// The positions, in insertion order.
    pub fn to_vec(&self) -> (r: Vec<TilePos>)
        ensures
            r@ == self.elements(),
            r@.no_duplicates(),
            r@.to_set() == self@,
    {
        proof {
            use_type_invariant(self);
        }
        copy_positions(&self.positions)
    }
}

/// A fresh vector holding the same positions.
fn copy_positions(v: &Vec<TilePos>) -> (r: Vec<TilePos>)
    ensures
        r@ == v@,
{
    let mut out: Vec<TilePos> = Vec::new();
    let mut i: usize = 0;
    while i < v.len()
        invariant
            i <= v@.len(),
            out@ == v@.take(i as int),
        decreases v@.len() - i,
    {
        out.push(v[i]);
        i = i + 1;
        assert(out@ =~= v@.take(i as int));
    }
    assert(out@ =~= v@);
    out
}

/// Who holds a tile.
#[derive(Clone, Copy, Debug, PartialEq, Eq, Structural)]
pub enum Ownership {
    Player,
    Enemy,
    Unclaimed,
}

/// The parts of a map tile that room detection and placement read: where
/// it is, what is built on it, who owns it, and the room it belongs to.
pub struct TileState {
    pub pos: TilePos,
    pub tile_type: String,
    pub ownership: Ownership,
    pub room_id: Option<usize>,
}

/// The tile stored at row `pos.y`, column `pos.x`, if the grid has one there.
pub open spec fn tile_at(grid: Seq<Vec<TileState>>, pos: TilePos) -> Option<TileState> {
    if 0 <= pos.y < grid.len() && 0 <= pos.x < grid[pos.y as int]@.len() {
        Some(grid[pos.y as int]@[pos.x as int])
    } else {
        None
    }
}

/// Whether the grid has a tile at `pos` whose own `pos` field names that cell.
pub open spec fn cell_labelled(grid: Seq<Vec<TileState>>, pos: TilePos) -> bool {
    tile_at(grid, pos) matches Some(t) && t.pos == pos
}

} // verus!
