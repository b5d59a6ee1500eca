use vstd::prelude::*;

verus! {

/// The integer type of a cell value.
pub type TileType = i16;

/// One value for each of the four directions of a cell.
#[derive(Clone, Copy, Debug, PartialEq, Eq, Structural)]
pub struct Sides {
    pub n: TileType,
    pub e: TileType,
    pub s: TileType,
    pub w: TileType,
}

/// A grid cell: a plain value, or one value per direction.
#[derive(Clone, Copy, Debug, PartialEq, Eq, Structural)]
pub enum Tile {
    Int(TileType),
    Sides(Sides),
}

impl Tile {
    /// The cell read as a plain value: a directional cell gives its north value.
    pub open spec fn scalar(self) -> TileType {
        match self {
            Tile::Int(t) => t,
            Tile::Sides(sides) => sides.n,
        }
    }

    /// The cell read as a directional value: a plain cell gives its value in
    /// all four directions.
    pub open spec fn directional(self) -> Sides {
        match self {
            Tile::Int(t) => Sides { n: t, e: t, s: t, w: t },
            Tile::Sides(sides) => sides,
        }
    }

    pub fn is_int(&self) -> (r: bool)
        ensures
            r == (*self is Int),
    {
        match self {
            Tile::Int(_) => true,
            Tile::Sides(_) => false,
        }
    }

    pub fn is_sides(&self) -> (r: bool)
        ensures
            r == (*self is Sides),
    {
        match self {
            Tile::Int(_) => false,
            Tile::Sides(_) => true,
        }
    }

    pub fn force_int(&self) -> (r: TileType)
        ensures
            r == self.scalar(),
    {
        match self {
            Tile::Int(t) => *t,
            Tile::Sides(sides) => sides.n,
        }
    }

    pub fn force_sides(&self) -> (r: Sides)
        ensures
            r == self.directional(),
    {
        match self {
            Tile::Int(t) => Sides { n: *t, e: *t, s: *t, w: *t },
            Tile::Sides(sides) => *sides,
        }
    }
}

} // verus!
