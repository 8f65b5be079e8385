//! Tile types and their adjacency requirements.

use vstd::prelude::*;

verus! {

/// A direction relative to a given cell.  `UP` increases y, `RIGHT`
/// increases x.
#[derive(Debug, Clone, Copy, PartialEq, Eq, Structural)]
pub enum RelativeDirection {
    UP,
    DOWN,
    LEFT,
    RIGHT,
}

/// The opposite of a direction: `UP` and `DOWN` exchange, `LEFT` and
/// `RIGHT` exchange.
pub open spec fn flip_spec(d: RelativeDirection) -> RelativeDirection {
    match d {
        RelativeDirection::UP => RelativeDirection::DOWN,
        RelativeDirection::DOWN => RelativeDirection::UP,
        RelativeDirection::LEFT => RelativeDirection::RIGHT,
        RelativeDirection::RIGHT => RelativeDirection::LEFT,
    }
}

impl RelativeDirection {
    /// Return the opposite direction.
    pub fn flip(&self) -> (r: RelativeDirection)
        ensures
            r == flip_spec(*self),
    {
        match self {
            RelativeDirection::UP => RelativeDirection::DOWN,
            RelativeDirection::DOWN => RelativeDirection::UP,
            RelativeDirection::LEFT => RelativeDirection::RIGHT,
            RelativeDirection::RIGHT => RelativeDirection::LEFT,
        }
    }
}

/// A single adjacency rule: the named tile, in the given direction relative
/// to the tile that carries the rule.
#[derive(Debug)]
pub struct Requirement {
    /// Where the rule looks, relative to the tile carrying it.
    pub dir: RelativeDirection,
    /// The name of the tile the rule speaks of.  The name is not checked
    /// against any catalog when the rule is written down: a name that is
    /// never registered simply makes the rule unsatisfiable.
    pub tile: String,
}

/// A named kind of tile, together with the rules that constrain what may
/// stand next to it: each `must` rule demands the named tile in its
/// direction, each `must_not` rule forbids it there.
#[derive(Debug)]
pub struct TileType {
    /// The unique name of this tile type.
    pub name: String,
    /// Rules that must hold of the tile's neighbors.
    pub must: Vec<Requirement>,
    /// Rules that must not be broken by the tile's neighbors.
    pub must_not: Vec<Requirement>,
}

impl TileType {
    /// Create a tile type with the given name and no rules.
    pub fn new(name: &str) -> (t: TileType)
        ensures
            t.name@ == name@,
            t.must@.len() == 0,
            t.must_not@.len() == 0,
    {
        TileType { name: name.to_owned(), must: Vec::new(), must_not: Vec::new() }
    }

    /// Append a rule demanding `tile` in direction `dir`.
    pub fn add_must(&mut self, dir: RelativeDirection, tile: &str)
        ensures
            final(self).name == old(self).name,
            final(self).must_not == old(self).must_not,
            final(self).must@.len() == old(self).must@.len() + 1,
            forall|i: int| 0 <= i < old(self).must@.len()
                ==> final(self).must@[i] == old(self).must@[i],
            final(self).must@.last().dir == dir,
            final(self).must@.last().tile@ == tile@,
    {
        self.must.push(Requirement { dir, tile: tile.to_owned() });
    }

    /// Append a rule forbidding `tile` in direction `dir`.
    pub fn add_must_not(&mut self, dir: RelativeDirection, tile: &str)
        ensures
            final(self).name == old(self).name,
            final(self).must == old(self).must,
            final(self).must_not@.len() == old(self).must_not@.len() + 1,
            forall|i: int| 0 <= i < old(self).must_not@.len()
                ==> final(self).must_not@[i] == old(self).must_not@[i],
            final(self).must_not@.last().dir == dir,
            final(self).must_not@.last().tile@ == tile@,
    {
        self.must_not.push(Requirement { dir, tile: tile.to_owned() });
    }

    /// Demand that this tile stand directly above `tile`: `tile` must be in
    /// direction `DOWN`.
    pub fn above(&mut self, tile: &str)
        ensures
            final(self).name == old(self).name,
            final(self).must_not == old(self).must_not,
            final(self).must@.len() == old(self).must@.len() + 1,
            forall|i: int| 0 <= i < old(self).must@.len()
                ==> final(self).must@[i] == old(self).must@[i],
            final(self).must@.last().dir == RelativeDirection::DOWN,
            final(self).must@.last().tile@ == tile@,
    {
        self.add_must(RelativeDirection::DOWN, tile);
    }

    /// Demand that this tile stand directly below `tile`: `tile` must be in
    /// direction `UP`.
    pub fn below(&mut self, tile: &str)
        ensures
            final(self).name == old(self).name,
            final(self).must_not == old(self).must_not,
            final(self).must@.len() == old(self).must@.len() + 1,
            forall|i: int| 0 <= i < old(self).must@.len()
                ==> final(self).must@[i] == old(self).must@[i],
            final(self).must@.last().dir == RelativeDirection::UP,
            final(self).must@.last().tile@ == tile@,
    {
        self.add_must(RelativeDirection::UP, tile);
    }

    /// Demand that this tile stand directly left of `tile`: `tile` must be
    /// in direction `RIGHT`.
    pub fn left(&mut self, tile: &str)
        ensures
            final(self).name == old(self).name,
            final(self).must_not == old(self).must_not,
            final(self).must@.len() == old(self).must@.len() + 1,
            forall|i: int| 0 <= i < old(self).must@.len()
                ==> final(self).must@[i] == old(self).must@[i],
            final(self).must@.last().dir == RelativeDirection::RIGHT,
            final(self).must@.last().tile@ == tile@,
    {
        self.add_must(RelativeDirection::RIGHT, tile);
    }

    /// Demand that this tile stand directly right of `tile`: `tile` must be
    /// in direction `LEFT`.
    pub fn right(&mut self, tile: &str)
        ensures
            final(self).name == old(self).name,
            final(self).must_not == old(self).must_not,
            final(self).must@.len() == old(self).must@.len() + 1,
            forall|i: int| 0 <= i < old(self).must@.len()
                ==> final(self).must@[i] == old(self).must@[i],
            final(self).must@.last().dir == RelativeDirection::LEFT,
            final(self).must@.last().tile@ == tile@,
    {
        self.add_must(RelativeDirection::LEFT, tile);
    }

    /// Forbid this tile from standing directly above `tile`.
    pub fn not_above(&mut self, tile: &str)
        ensures
            final(self).name == old(self).name,
            final(self).must == old(self).must,
            final(self).must_not@.len() == old(self).must_not@.len() + 1,
            forall|i: int| 0 <= i < old(self).must_not@.len()
                ==> final(self).must_not@[i] == old(self).must_not@[i],
            final(self).must_not@.last().dir == RelativeDirection::DOWN,
            final(self).must_not@.last().tile@ == tile@,
    {
        self.add_must_not(RelativeDirection::DOWN, tile);
    }

    /// Forbid this tile from standing directly below `tile`.
    pub fn not_below(&mut self, tile: &str)
        ensures
            final(self).name == old(self).name,
            final(self).must == old(self).must,
            final(self).must_not@.len() == old(self).must_not@.len() + 1,
            forall|i: int| 0 <= i < old(self).must_not@.len()
                ==> final(self).must_not@[i] == old(self).must_not@[i],
            final(self).must_not@.last().dir == RelativeDirection::UP,
            final(self).must_not@.last().tile@ == tile@,
    {
        self.add_must_not(RelativeDirection::UP, tile);
    }

    /// Forbid this tile from standing directly left of `tile`.
    pub fn not_left(&mut self, tile: &str)
        ensures
            final(self).name == old(self).name,
            final(self).must == old(self).must,
            final(self).must_not@.len() == old(self).must_not@.len() + 1,
            forall|i: int| 0 <= i < old(self).must_not@.len()
                ==> final(self).must_not@[i] == old(self).must_not@[i],
            final(self).must_not@.last().dir == RelativeDirection::RIGHT,
            final(self).must_not@.last().tile@ == tile@,
    {
        self.add_must_not(RelativeDirection::RIGHT, tile);
    }

    /// Forbid this tile from standing directly right of `tile`.
    pub fn not_right(&mut self, tile: &str)
        ensures
            final(self).name == old(self).name,
            final(self).must == old(self).must,
            final(self).must_not@.len() == old(self).must_not@.len() + 1,
            forall|i: int| 0 <= i < old(self).must_not@.len()
                ==> final(self).must_not@[i] == old(self).must_not@[i],
            final(self).must_not@.last().dir == RelativeDirection::LEFT,
            final(self).must_not@.last().tile@ == tile@,
    {
        self.add_must_not(RelativeDirection::LEFT, tile);
    }
}

} // verus!
