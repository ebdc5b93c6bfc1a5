use vstd::prelude::*;

verus! {

/// The state id of air, the state a block becomes when it cannot stay.
pub const AIR_STATE_ID: u16 = 0;

/// A block position in the world.
#[derive(Debug, Clone, Copy, PartialEq, Eq, Structural)]
pub struct BlockPos {
    pub x: i32,
    pub y: i32,
    pub z: i32,
}

impl BlockPos {
    /// The position one block below.
    pub fn down(&self) -> (r: BlockPos)
        requires
            self.y > i32::MIN,
        ensures
            r.x == self.x && r.y == self.y - 1 && r.z == self.z,
    {
        BlockPos { x: self.x, y: self.y - 1, z: self.z }
    }
}

/// The side of a block a player clicked.
#[derive(Debug, Clone, Copy, PartialEq, Eq, Structural)]
pub enum BlockDirection {
    Down,
    Up,
    North,
    South,
    West,
    East,
}

/// Where a directional block faces.
#[derive(Debug, Clone, Copy, PartialEq, Eq, Structural)]
pub enum Facing {
    Down,
    Up,
    North,
    South,
    West,
    East,
}

impl BlockDirection {
    /// The facing that points the same way.
    pub open spec fn spec_to_facing(self) -> Facing {
        match self {
            BlockDirection::Down => Facing::Down,
            BlockDirection::Up => Facing::Up,
            BlockDirection::North => Facing::North,
            BlockDirection::South => Facing::South,
            BlockDirection::West => Facing::West,
            BlockDirection::East => Facing::East,
        }
    }

    /// The facing that points the same way.
    pub fn to_facing(&self) -> (r: Facing)
        ensures
            r == self.spec_to_facing(),
    {
        match self {
            BlockDirection::Down => Facing::Down,
            BlockDirection::Up => Facing::Up,
            BlockDirection::North => Facing::North,
            BlockDirection::South => Facing::South,
            BlockDirection::West => Facing::West,
            BlockDirection::East => Facing::East,
        }
    }
}

impl Facing {
    /// The facing that points the other way.
    pub open spec fn spec_opposite(self) -> Facing {
        match self {
            Facing::Down => Facing::Up,
            Facing::Up => Facing::Down,
            Facing::North => Facing::South,
            Facing::South => Facing::North,
            Facing::West => Facing::East,
            Facing::East => Facing::West,
        }
    }

    /// The facing that points the other way.
    pub fn opposite(&self) -> (r: Facing)
        ensures
            r == self.spec_opposite(),
    {
        match self {
            Facing::Down => Facing::Up,
            Facing::Up => Facing::Down,
            Facing::North => Facing::South,
            Facing::South => Facing::North,
            Facing::West => Facing::East,
            Facing::East => Facing::West,
        }
    }
}

/// Turning a facing around twice gives it back.
pub proof fn lemma_opposite_involutive(f: Facing)
    ensures
        f.spec_opposite().spec_opposite() == f,
{
}

} // verus!
