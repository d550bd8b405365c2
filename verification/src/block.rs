//! Block values stored in the grid, the coarser gameplay categories they
//! map to, and the overwrite policies that guard every area mutation.

use vstd::prelude::*;

verus! {

/// Coarse gameplay category of a block: what the player experiences.
#[derive(Clone, Copy, Debug, PartialEq, Eq, Structural)]
pub enum GameTile {
    Hookable,
    Freeze,
    Empty,
}

/// Concrete block value stored in a grid cell.
#[derive(Clone, Copy, Debug, PartialEq, Eq, Structural)]
pub enum BlockType {
    Empty,
    /// Empty block that must not be overwritten by later passes.
    EmptyReserved,
    Hookable,
    Freeze,
    Spawn,
    Start,
    Finish,
    Platform,
}

/// Which of the walker's two kernels an operation concerns.
#[derive(Clone, Copy, Debug, PartialEq, Eq, Structural)]
pub enum KernelType {
    Outer,
    Inner,
}

/// The external tile id a block exports to, fixed by the target game.
pub open spec fn spec_to_ingame_id(b: BlockType) -> u8 {
    match b {
        BlockType::Empty | BlockType::EmptyReserved => 0,
        BlockType::Hookable | BlockType::Platform => 1,
        BlockType::Freeze => 9,
        BlockType::Spawn => 192,
        BlockType::Start => 33,
        BlockType::Finish => 34,
    }
}

/// The gameplay category of a block; every block value maps to one.
pub open spec fn spec_to_game_tile(b: BlockType) -> GameTile {
    match b {
        BlockType::Platform | BlockType::Hookable => GameTile::Hookable,
        BlockType::Freeze => GameTile::Freeze,
        _ => GameTile::Empty,
    }
}

/// A block is solid when its gameplay category is Hookable.
pub open spec fn spec_is_solid(b: BlockType) -> bool {
    spec_to_game_tile(b) == GameTile::Hookable
}

/// A block is freeze when its gameplay category is Freeze.
pub open spec fn spec_is_freeze(b: BlockType) -> bool {
    b == BlockType::Freeze
}

impl BlockType {
    /// Maps a block to the numeric tile id used by the map export layer.
    pub fn to_ingame_id(&self) -> (id: u8)
        ensures
            id == spec_to_ingame_id(*self),
    {
        match self {
            BlockType::Empty | BlockType::EmptyReserved => 0,
            BlockType::Hookable | BlockType::Platform => 1,
            BlockType::Freeze => 9,
            BlockType::Spawn => 192,
            BlockType::Start => 33,
            BlockType::Finish => 34,
        }
    }

    /// Maps a block to its gameplay category.
    pub fn to_game_tile(&self) -> (tile: GameTile)
        ensures
            tile == spec_to_game_tile(*self),
    {
        match self {
            BlockType::Platform | BlockType::Hookable => GameTile::Hookable,
            BlockType::Freeze => GameTile::Freeze,
            _ => GameTile::Empty,
        }
    }

    pub fn is_solid(&self) -> (r: bool)
        ensures
            r == spec_is_solid(*self),
    {
        matches!(self, BlockType::Hookable | BlockType::Platform)
    }

    pub fn is_freeze(&self) -> (r: bool)
        ensures
            r == spec_is_freeze(*self),
    {
        matches!(self, BlockType::Freeze)
    }
}

/// Predicate form of [`BlockType::is_freeze`], convenient for scans.
pub fn is_freeze(block_type: &BlockType) -> (r: bool)
    ensures
        r == spec_is_freeze(*block_type),
{
    matches!(block_type, BlockType::Freeze)
}

/// Overwrite policy: decides, from the current block alone, whether an
/// area mutation may replace it. A closed rule set, one rule per variant.
#[derive(Clone, Copy, Debug, PartialEq, Eq, Structural)]
pub enum Overwrite {
    /// Replace everything.
    Force,
    /// Replace Hookable and Freeze.
    ReplaceSolidFreeze,
    /// Replace Hookable only.
    ReplaceSolidOnly,
    /// Replace Empty only.
    ReplaceEmptyOnly,
    /// Replace Freeze and Empty.
    ReplaceNonSolid,
    /// Replace Freeze, Empty and EmptyReserved.
    ReplaceNonSolidForce,
}

/// What each overwrite policy permits, as a predicate over the current block.
pub open spec fn spec_will_override(o: Overwrite, btype: BlockType) -> bool {
    match o {
        Overwrite::Force => true,
        Overwrite::ReplaceSolidFreeze => btype == BlockType::Hookable || btype == BlockType::Freeze,
        Overwrite::ReplaceSolidOnly => btype == BlockType::Hookable,
        Overwrite::ReplaceEmptyOnly => btype == BlockType::Empty,
        Overwrite::ReplaceNonSolid => btype == BlockType::Freeze || btype == BlockType::Empty,
        Overwrite::ReplaceNonSolidForce => btype == BlockType::Freeze || btype == BlockType::Empty
            || btype == BlockType::EmptyReserved,
    }
}

impl Overwrite {
    /// Whether this policy lets a write replace the given current block.
    pub fn will_override(&self, btype: &BlockType) -> (r: bool)
        ensures
            r == spec_will_override(*self, *btype),
    {
        match self {
            Overwrite::Force => true,
            Overwrite::ReplaceSolidFreeze => {
                matches!(btype, BlockType::Hookable | BlockType::Freeze)
            },
            Overwrite::ReplaceSolidOnly => matches!(btype, BlockType::Hookable),
            Overwrite::ReplaceEmptyOnly => matches!(btype, BlockType::Empty),
            Overwrite::ReplaceNonSolid => matches!(btype, BlockType::Freeze | BlockType::Empty),
            Overwrite::ReplaceNonSolidForce => matches!(
                btype,
                BlockType::Freeze | BlockType::Empty | BlockType::EmptyReserved
            ),
        }
    }
}

} // verus!
