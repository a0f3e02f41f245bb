//! Authoritative game state of a tile-based world: positions, the map and its item
//! stacks, creatures, and the rules that change them.
//!
//! One owner holds a [`game::Game`] and feeds it commands. Every change of state and every
//! message to a session is decided here; reading files, and moving bytes to
//! and from clients, is left to the program around the library.

use vstd::prelude::*;

pub mod combat;
pub mod game;
pub mod map;
pub mod outfit_catalog;
pub mod registry;
pub mod text;
pub mod wire;
pub mod xml;

verus! {

/// A position in the game world. `z` is the floor (7 = ground level).
#[derive(Debug, Clone, Copy, PartialEq, Eq, Hash, Structural)]
pub struct Position {
    pub x: u16,
    pub y: u16,
    pub z: u8,
}

impl Position {
    /// `(dx, dy)` away on the same floor, where both coordinates stay in range.
    pub open spec fn shifted(self, dx: int, dy: int) -> Option<Position> {
        if 0 <= self.x + dx <= u16::MAX && 0 <= self.y + dy <= u16::MAX {
            Some(Position { x: (self.x + dx) as u16, y: (self.y + dy) as u16, z: self.z })
        } else {
            None
        }
    }

    pub fn new(x: u16, y: u16, z: u8) -> (p: Self)
        ensures
            p == (Position { x, y, z }),
    {
        Position { x, y, z }
    }

    /// Translate by `(dx, dy)` on the same floor. Returns `None` if it would
    /// leave the `u16` coordinate range.
    pub fn offset(self, dx: i32, dy: i32) -> (r: Option<Position>)
        ensures
            r == self.shifted(dx as int, dy as int),
    {
        let x: i64 = self.x as i64 + dx as i64;
        let y: i64 = self.y as i64 + dy as i64;
        if 0 <= x && x <= 0xFFFF && 0 <= y && y <= 0xFFFF {
            Some(Position { x: x as u16, y: y as u16, z: self.z })
        } else {
            None
        }
    }

    /// Shift floor by `dz` (negative = up toward the surface). `None` if it
    /// leaves the `u8` floor range.
    pub fn offset_z(self, dz: i32) -> (r: Option<Position>)
        ensures
            r == (if 0 <= self.z + dz <= u8::MAX {
                Some(Position { x: self.x, y: self.y, z: (self.z + dz) as u8 })
            } else {
                None
            }),
    {
        let z: i64 = self.z as i64 + dz as i64;
        if 0 <= z && z <= 0xFF {
            Some(Position { x: self.x, y: self.y, z: z as u8 })
        } else {
            None
        }
    }
}

/// A facing or movement direction.
#[derive(Debug, Clone, Copy, PartialEq, Eq, Structural)]
pub enum Direction {
    North,
    East,
    South,
    West,
    NorthEast,
    SouthEast,
    SouthWest,
    NorthWest,
}

impl Direction {
    /// The protocol byte of a direction.
    pub open spec fn byte(self) -> u8 {
        match self {
            Direction::North => 0,
            Direction::East => 1,
            Direction::South => 2,
            Direction::West => 3,
            Direction::SouthWest => 4,
            Direction::SouthEast => 5,
            Direction::NorthWest => 6,
            Direction::NorthEast => 7,
        }
    }

    /// Columns a step in this direction goes east (negative: west).
    pub open spec fn dx(self) -> int {
        match self {
            Direction::East | Direction::NorthEast | Direction::SouthEast => 1,
            Direction::West | Direction::NorthWest | Direction::SouthWest => -1,
            Direction::North | Direction::South => 0,
        }
    }

    /// Rows a step in this direction goes south (negative: north).
    pub open spec fn dy(self) -> int {
        match self {
            Direction::South | Direction::SouthEast | Direction::SouthWest => 1,
            Direction::North | Direction::NorthEast | Direction::NorthWest => -1,
            Direction::East | Direction::West => 0,
        }
    }

    /// The protocol byte the client expects (N=0, E=1, S=2, W=3, SW=4, SE=5, NW=6, NE=7).
    pub fn to_byte(self) -> (b: u8)
        ensures
            b == self.byte(),
    {
        match self {
            Direction::North => 0,
            Direction::East => 1,
            Direction::South => 2,
            Direction::West => 3,
            Direction::SouthWest => 4,
            Direction::SouthEast => 5,
            Direction::NorthWest => 6,
            Direction::NorthEast => 7,
        }
    }

    /// `(dx, dy)` step on the tile grid for this direction.
    pub fn delta(self) -> (d: (i32, i32))
        ensures
            d.0 == self.dx(),
            d.1 == self.dy(),
    {
        match self {
            Direction::North => (0, -1),
            Direction::East => (1, 0),
            Direction::South => (0, 1),
            Direction::West => (-1, 0),
            Direction::NorthEast => (1, -1),
            Direction::SouthEast => (1, 1),
            Direction::SouthWest => (-1, 1),
            Direction::NorthWest => (-1, -1),
        }
    }
}

/// Different directions have different protocol bytes.
pub proof fn law_direction_bytes_distinct(a: Direction, b: Direction)
    requires
        a.byte() == b.byte(),
    ensures
        a == b,
{
}

/// A translation that stays in range is undone by the opposite translation.
pub proof fn law_shift_back(p: Position, dx: int, dy: int)
    requires
        p.shifted(dx, dy) is Some,
    ensures
        p.shifted(dx, dy)->0.shifted(-dx, -dy) == Some(p),
{
}

} // verus!
