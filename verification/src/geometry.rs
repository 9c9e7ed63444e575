//! Grid positions, orientations and ship classes.

use vstd::prelude::*;

verus! {

/// Side length of the square board; coordinates range over `[0, BOARD_SIZE)`.
pub const BOARD_SIZE: usize = 10;

/// Number of ship classes, and so the number of ships on a full board.
pub const NUM_SHIPS: usize = 5;

/// A grid coordinate. A position is on the board iff both coordinates are
/// below `BOARD_SIZE`; positions off the board are still well-formed values.
#[derive(Copy, Clone, Debug, PartialEq, Eq, Structural, Hash)]
pub struct Position {
    pub x: u32,
    pub y: u32,
}

/// Orientation of a ship on the board.
#[derive(Copy, Clone, Debug, PartialEq, Eq, Structural)]
pub enum Direction {
    Horizontal,
    Vertical,
}

/// The five ship classes, each with a fixed span (its number of cells).
#[derive(Copy, Clone, Debug, PartialEq, Eq, Structural, Hash)]
pub enum ShipClass {
    Carrier,
    Battleship,
    Cruiser,
    Submarine,
    Destroyer,
}

impl ShipClass {
    /// Number of cells this class of ship occupies.
    pub open spec fn spec_span(&self) -> u32 {
        match self {
            ShipClass::Carrier => 5,
            ShipClass::Battleship => 4,
            ShipClass::Cruiser => 3,
            ShipClass::Submarine => 3,
            ShipClass::Destroyer => 2,
        }
    }

    /// Bitmask with one low bit set per cell of the span; a ship whose
    /// `hit_mask` equals this mask has every cell hit.
    pub open spec fn spec_sunk_mask(&self) -> u8 {
        match self {
            ShipClass::Carrier => 0x1f,
            ShipClass::Battleship => 0x0f,
            ShipClass::Cruiser => 0x07,
            ShipClass::Submarine => 0x07,
            ShipClass::Destroyer => 0x03,
        }
    }

    #[verifier::when_used_as_spec(spec_span)]
    pub fn span(&self) -> (r: u32)
        ensures
            r == self.spec_span(),
    {
        match self {
            ShipClass::Carrier => 5,
            ShipClass::Battleship => 4,
            ShipClass::Cruiser => 3,
            ShipClass::Submarine => 3,
            ShipClass::Destroyer => 2,
        }
    }

    #[verifier::when_used_as_spec(spec_sunk_mask)]
    pub fn sunk_mask(&self) -> (r: u8)
        ensures
            r == self.spec_sunk_mask(),
    {
        proof {
            assert((1u8 << 5u32) == 32 && (1u8 << 4u32) == 16 && (1u8 << 3u32) == 8 && (1u8
                << 2u32) == 4) by (bit_vector);
        }
        (1u8 << self.span()) - 1
    }

    /// All five classes, in the fixed order used throughout the protocol.
    pub fn list() -> (r: Vec<ShipClass>)
        ensures
            r@ == class_order(),
    {
        let classes = vec![
            ShipClass::Carrier,
            ShipClass::Battleship,
            ShipClass::Cruiser,
            ShipClass::Submarine,
            ShipClass::Destroyer,
        ];
        proof {
            assert(classes@ =~= class_order());
        }
        classes
    }
}

/// Every class has a fixed span between 2 and 5, and its sunk mask is the
/// span's worth of low bits, all set.
pub proof fn lemma_span_sunk_mask(c: ShipClass)
    ensures
        2 <= c.spec_span() <= 5,
        c.spec_sunk_mask() == (1u8 << c.spec_span()) - 1,
{
    assert((1u8 << 5u32) == 32 && (1u8 << 4u32) == 16 && (1u8 << 3u32) == 8 && (1u8 << 2u32)
        == 4) by (bit_vector);
}

/// The canonical order of the five ship classes, largest first.
pub open spec fn class_order() -> Seq<ShipClass> {
    seq![
        ShipClass::Carrier,
        ShipClass::Battleship,
        ShipClass::Cruiser,
        ShipClass::Submarine,
        ShipClass::Destroyer,
    ]
}

impl Position {
    /// Whether this position lies on the board.
    pub open spec fn spec_in_bounds(&self) -> bool {
        self.x < BOARD_SIZE as u32 && self.y < BOARD_SIZE as u32
    }

    #[verifier::when_used_as_spec(spec_in_bounds)]
    pub fn in_bounds(&self) -> (r: bool)
        ensures
            r == self.spec_in_bounds(),
    {
        self.x < BOARD_SIZE as u32 && self.y < BOARD_SIZE as u32
    }

    /// The position `dist` cells away in direction `dir`.
    pub open spec fn spec_step(self, dir: Direction, dist: u32) -> Position {
        match dir {
            Direction::Horizontal => Position { x: (self.x + dist) as u32, y: self.y },
            Direction::Vertical => Position { x: self.x, y: (self.y + dist) as u32 },
        }
    }

    pub fn step(self, dir: Direction, dist: u32) -> (r: Position)
        requires
            dir == Direction::Horizontal ==> self.x + dist <= u32::MAX,
            dir == Direction::Vertical ==> self.y + dist <= u32::MAX,
        ensures
            r == self.spec_step(dir, dist),
    {
        match dir {
            Direction::Horizontal => Position { x: self.x + dist, y: self.y },
            Direction::Vertical => Position { x: self.x, y: self.y + dist },
        }
    }
}

impl From<(u32, u32)> for Position {
    fn from(value: (u32, u32)) -> (r: Position) {
        Position { x: value.0, y: value.1 }
    }
}

impl vstd::std_specs::convert::FromSpecImpl<(u32, u32)> for Position {
    open spec fn obeys_from_spec() -> bool {
        true
    }

    open spec fn from_spec(value: (u32, u32)) -> Position {
        Position { x: value.0, y: value.1 }
    }
}

impl Direction {
    /// The other orientation.
    pub open spec fn spec_flip(self) -> Direction {
        match self {
            Direction::Horizontal => Direction::Vertical,
            Direction::Vertical => Direction::Horizontal,
        }
    }

    #[verifier::when_used_as_spec(spec_flip)]
    pub fn flip(self) -> (r: Direction)
        ensures
            r == self.spec_flip(),
    {
        match self {
            Direction::Horizontal => Direction::Vertical,
            Direction::Vertical => Direction::Horizontal,
        }
    }
}

} // verus!
