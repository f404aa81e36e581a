//! The blocks the passes tell apart, with the properties of each that they read.
use vstd::prelude::*;
use crate::geometry::{BlockDirection, BlockFace};

verus! {

/// Shape of a plain rail: straight, ascending towards a direction, or a curve joining
/// two perpendicular directions.
#[derive(Clone, Copy, Debug, PartialEq, Eq, Structural)]
pub enum RailShape {
    NorthSouth,
    EastWest,
    AscendingEast,
    AscendingWest,
    AscendingNorth,
    AscendingSouth,
    SouthEast,
    SouthWest,
    NorthWest,
    NorthEast,
}

/// Shape of a powered, activator or detector rail: these never curve.
#[derive(Clone, Copy, Debug, PartialEq, Eq, Structural)]
pub enum StraightRailShape {
    NorthSouth,
    EastWest,
    AscendingEast,
    AscendingWest,
    AscendingNorth,
    AscendingSouth,
}

#[derive(Clone, Copy, Debug, PartialEq, Eq, Structural)]
pub struct Rail {
    pub shape: RailShape,
    pub waterlogged: bool,
}

#[derive(Clone, Copy, Debug, PartialEq, Eq, Structural)]
pub struct PoweredRail {
    pub shape: StraightRailShape,
    pub powered: bool,
    pub waterlogged: bool,
}

#[derive(Clone, Copy, Debug, PartialEq, Eq, Structural)]
pub struct ActivatorRail {
    pub shape: StraightRailShape,
    pub powered: bool,
    pub waterlogged: bool,
}

#[derive(Clone, Copy, Debug, PartialEq, Eq, Structural)]
pub struct DetectorRail {
    pub shape: StraightRailShape,
    pub powered: bool,
    pub waterlogged: bool,
}

/// How a redstone wire connects towards one side.
#[derive(Clone, Copy, Debug, PartialEq, Eq, Structural)]
pub enum RedstoneWireSide {
    Up,
    Side,
    Unconnected,
}

/// Redstone dust: its power and its connections towards the four sides, as they stand in
/// the world.
#[derive(Clone, Copy, Debug, PartialEq, Eq, Structural)]
pub struct RedstoneWire {
    pub north: RedstoneWireSide,
    pub south: RedstoneWireSide,
    pub east: RedstoneWireSide,
    pub west: RedstoneWireSide,
    pub power: u8,
}

#[derive(Clone, Copy, Debug, PartialEq, Eq, Structural)]
pub struct Repeater {
    pub delay: u8,
    pub facing: BlockDirection,
    pub locked: bool,
    pub powered: bool,
}

#[derive(Clone, Copy, Debug, PartialEq, Eq, Structural)]
pub enum ComparatorMode {
    Compare,
    Subtract,
}

#[derive(Clone, Copy, Debug, PartialEq, Eq, Structural)]
pub struct Comparator {
    pub facing: BlockDirection,
    pub mode: ComparatorMode,
    pub powered: bool,
}

/// Where a lever or a button is attached.
#[derive(Clone, Copy, Debug, PartialEq, Eq, Structural)]
pub enum LeverFace {
    Floor,
    Wall,
    Ceiling,
}

/// The sound of a note block, given by the block beneath it.
#[derive(Clone, Copy, Debug, PartialEq, Eq, Structural)]
pub enum Instrument {
    Harp,
    Basedrum,
    Snare,
    Hat,
    Bass,
    Flute,
    Bell,
    Guitar,
    Chime,
    Xylophone,
    IronXylophone,
    CowBell,
    Didgeridoo,
    Bit,
    Banjo,
    Pling,
}

/// A block of the world, as far as the passes tell blocks apart.
///
/// `Solid` stands for every full opaque block without redstone behavior (stone,
/// sandstone, concrete, ...), with the instrument a note block on top of it plays.
/// `Glass` stands for the transparent full blocks. `Container` stands for the blocks a
/// comparator reads an override from, with the strength it reads.
#[derive(Clone, Copy, Debug, PartialEq, Eq, Structural)]
pub enum Block {
    Air,
    Solid { instrument: Instrument },
    Glass,
    RedstoneWire(RedstoneWire),
    RedstoneTorch { lit: bool },
    RedstoneWallTorch { lit: bool, facing: BlockDirection },
    Repeater(Repeater),
    Comparator(Comparator),
    Lever { face: LeverFace, facing: BlockDirection, powered: bool },
    StoneButton { face: LeverFace, facing: BlockDirection, powered: bool },
    PressurePlate { powered: bool },
    RedstoneLamp { lit: bool },
    IronTrapdoor { powered: bool },
    RedstoneBlock,
    NoteBlock { note: u8, powered: bool },
    Observer { facing: BlockFace, powered: bool },
    Container { override_strength: u8 },
    Rail(Rail),
    PoweredRail(PoweredRail),
    ActivatorRail(ActivatorRail),
    DetectorRail(DetectorRail),
    Sign { rotation: u32 },
    WallSign { facing: BlockDirection },
}

impl Block {
    pub open spec fn spec_is_solid(self) -> bool {
        match self {
            Block::Solid { .. } | Block::RedstoneLamp { .. } | Block::NoteBlock { .. }
            | Block::Container { .. } => true,
            _ => false,
        }
    }

    /// A full opaque block that conducts redstone power.
    #[verifier::when_used_as_spec(spec_is_solid)]
    pub fn is_solid(self) -> (b: bool)
        ensures
            b == self.spec_is_solid(),
    {
        matches!(
            self,
            Block::Solid { .. } | Block::RedstoneLamp { .. } | Block::NoteBlock { .. }
                | Block::Container { .. }
        )
    }

    pub open spec fn spec_is_transparent(self) -> bool {
        self is Glass
    }

    /// A full block that redstone dust cannot climb over.
    #[verifier::when_used_as_spec(spec_is_transparent)]
    pub fn is_transparent(self) -> (b: bool)
        ensures
            b == self.spec_is_transparent(),
    {
        matches!(self, Block::Glass)
    }

    pub open spec fn spec_is_sign(self) -> bool {
        self is Sign
    }

    #[verifier::when_used_as_spec(spec_is_sign)]
    pub fn is_sign(self) -> (b: bool)
        ensures
            b == self.spec_is_sign(),
    {
        matches!(self, Block::Sign { .. })
    }

    pub open spec fn spec_is_wall_sign(self) -> bool {
        self is WallSign
    }

    #[verifier::when_used_as_spec(spec_is_wall_sign)]
    pub fn is_wall_sign(self) -> (b: bool)
        ensures
            b == self.spec_is_wall_sign(),
    {
        matches!(self, Block::WallSign { .. })
    }

    pub open spec fn spec_pressure_plate_powered(self) -> Option<bool> {
        match self {
            Block::PressurePlate { powered } => Some(powered),
            _ => None,
        }
    }

    /// Whether a pressure plate is pressed; `None` for every other block.
    #[verifier::when_used_as_spec(spec_pressure_plate_powered)]
    pub fn get_pressure_plate_powered(self) -> (p: Option<bool>)
        ensures
            p == self.spec_pressure_plate_powered(),
    {
        match self {
            Block::PressurePlate { powered } => Some(powered),
            _ => None,
        }
    }

    pub open spec fn spec_sign_rotation(self) -> Option<u32> {
        match self {
            Block::Sign { rotation } => Some(rotation),
            _ => None,
        }
    }

    /// The rotation of a standing sign.
    #[verifier::when_used_as_spec(spec_sign_rotation)]
    pub fn get_sign_rotation(self) -> (r: Option<u32>)
        ensures
            r == self.spec_sign_rotation(),
    {
        match self {
            Block::Sign { rotation } => Some(rotation),
            _ => None,
        }
    }

    pub open spec fn spec_wall_sign_facing(self) -> Option<BlockDirection> {
        match self {
            Block::WallSign { facing } => Some(facing),
            _ => None,
        }
    }

    /// The direction a wall sign faces.
    #[verifier::when_used_as_spec(spec_wall_sign_facing)]
    pub fn get_wall_sign_facing(self) -> (f: Option<BlockDirection>)
        ensures
            f == self.spec_wall_sign_facing(),
    {
        match self {
            Block::WallSign { facing } => Some(facing),
            _ => None,
        }
    }
}

pub open spec fn spec_is_diode(block: Block) -> bool {
    block is Repeater || block is Comparator
}

/// Repeaters and comparators.
#[verifier::when_used_as_spec(spec_is_diode)]
pub fn is_diode(block: Block) -> (b: bool)
    ensures
        b == spec_is_diode(block),
{
    matches!(block, Block::Repeater(_) | Block::Comparator(_))
}

pub open spec fn spec_has_override(block: Block) -> bool {
    block is Container
}

/// A comparator behind which this block stands reads the block's override strength
/// instead of redstone power.
#[verifier::when_used_as_spec(spec_has_override)]
pub fn has_override(block: Block) -> (b: bool)
    ensures
        b == spec_has_override(block),
{
    matches!(block, Block::Container { .. })
}

pub open spec fn spec_get_override(block: Block) -> u8 {
    match block {
        Block::Container { override_strength } => override_strength,
        _ => 0,
    }
}

/// The strength a comparator reads from a block with an override.
#[verifier::when_used_as_spec(spec_get_override)]
pub fn get_override(block: Block) -> (s: u8)
    ensures
        s == spec_get_override(block),
{
    match block {
        Block::Container { override_strength } => override_strength,
        _ => 0,
    }
}

pub open spec fn spec_is_dot(wire: RedstoneWire) -> bool {
    &&& wire.north is Unconnected
    &&& wire.south is Unconnected
    &&& wire.east is Unconnected
    &&& wire.west is Unconnected
}

/// A wire connected towards none of the four sides.
#[verifier::when_used_as_spec(spec_is_dot)]
pub fn is_dot(wire: RedstoneWire) -> (b: bool)
    ensures
        b == spec_is_dot(wire),
{
    matches!(wire.north, RedstoneWireSide::Unconnected) && matches!(
        wire.south,
        RedstoneWireSide::Unconnected
    ) && matches!(wire.east, RedstoneWireSide::Unconnected) && matches!(
        wire.west,
        RedstoneWireSide::Unconnected
    )
}

pub open spec fn spec_wire_side(wire: RedstoneWire, direction: BlockDirection) -> RedstoneWireSide {
    match direction {
        BlockDirection::North => wire.north,
        BlockDirection::South => wire.south,
        BlockDirection::East => wire.east,
        BlockDirection::West => wire.west,
    }
}

/// How the wire connects towards `direction`.
#[verifier::when_used_as_spec(spec_wire_side)]
pub fn wire_side(wire: RedstoneWire, direction: BlockDirection) -> (s: RedstoneWireSide)
    ensures
        s == spec_wire_side(wire, direction),
{
    match direction {
        BlockDirection::North => wire.north,
        BlockDirection::South => wire.south,
        BlockDirection::East => wire.east,
        BlockDirection::West => wire.west,
    }
}

} // verus!
