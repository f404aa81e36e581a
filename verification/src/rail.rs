//! Rails: the shape a rail takes from the rails around it, and the chains along which
//! powered and activator rails relay power.
use vstd::prelude::*;
use crate::blocks::{
    ActivatorRail, Block, DetectorRail, PoweredRail, Rail, RailShape, StraightRailShape,
};
use crate::geometry::{BlockDirection, BlockFace, BlockPos};
use crate::world::World;

verus! {

/// Which redstone-relay chain family a rail belongs to. Powered rails only relay power
/// through other powered rails, activator rails only through other activator rails.
#[derive(Clone, Copy, Debug, PartialEq, Eq, Structural)]
pub enum RailKind {
    Powered,
    Activator,
}

/// How the rail position connects towards one horizontal direction.
#[derive(Clone, Copy, Debug, PartialEq, Eq, Structural)]
pub enum Connection {
    /// No rail beside it, neither level nor one block higher.
    Disconnected,
    /// A rail beside it at the same height.
    Flat,
    /// The neighbor in this direction is one block higher: this rail should ascend toward it.
    Up,
}

pub open spec fn spec_is_rail(block: Block) -> bool {
    block is Rail || block is PoweredRail || block is ActivatorRail || block is DetectorRail
}

/// Any of the four kinds of rail.
#[verifier::when_used_as_spec(spec_is_rail)]
pub fn is_rail(block: Block) -> (b: bool)
    ensures
        b == spec_is_rail(block),
{
    matches!(
        block,
        Block::Rail(_) | Block::PoweredRail(_) | Block::ActivatorRail(_) | Block::DetectorRail(_)
    )
}

/// The connection of the position `pos` towards `direction`: a rail level with it, else
/// a rail one block higher, else none.
pub open spec fn spec_connection(world: &World, pos: BlockPos, direction: BlockDirection) -> Connection {
    let flat_pos = pos.spec_offset(direction.spec_block_face());
    if spec_is_rail(world.block_at(flat_pos)) {
        Connection::Flat
    } else if spec_is_rail(world.block_at(flat_pos.spec_offset(BlockFace::Top))) {
        Connection::Up
    } else {
        Connection::Disconnected
    }
}

fn connection(world: &World, pos: BlockPos, direction: BlockDirection) -> (c: Connection)
    requires
        world.wf(),
        pos.in_world(),
    ensures
        c == spec_connection(world, pos, direction),
{
    let flat_pos = pos.offset(direction.block_face());
    if is_rail(world.get_block(flat_pos)) {
        return Connection::Flat;
    }
    let up_pos = flat_pos.offset(BlockFace::Top);
    if is_rail(world.get_block(up_pos)) {
        return Connection::Up;
    }
    Connection::Disconnected
}

/// Whether a straight rail runs north-south (`true`) or east-west (`false`): along the
/// only axis with a connection, or, when both or neither have one, along the axis the
/// fallback direction points along.
pub open spec fn spec_axis_choice(
    north: Connection,
    south: Connection,
    east: Connection,
    west: Connection,
    fallback: BlockDirection,
) -> bool {
    let ns_connected = north != Connection::Disconnected || south != Connection::Disconnected;
    let ew_connected = east != Connection::Disconnected || west != Connection::Disconnected;
    if ns_connected && !ew_connected {
        true
    } else if !ns_connected && ew_connected {
        false
    } else {
        fallback is North || fallback is South
    }
}

fn axis_choice(
    north: Connection,
    south: Connection,
    east: Connection,
    west: Connection,
    fallback: BlockDirection,
) -> (b: bool)
    ensures
        b == spec_axis_choice(north, south, east, west, fallback),
{
    let ns_connected = north != Connection::Disconnected || south != Connection::Disconnected;
    let ew_connected = east != Connection::Disconnected || west != Connection::Disconnected;
    match (ns_connected, ew_connected) {
        (true, false) => true,
        (false, true) => false,
        // Ambiguous (both, or neither): a straight rail can't express both, so keep
        // whichever axis the fallback (player facing on placement, current shape's axis
        // on reshape) points along.
        _ => matches!(fallback, BlockDirection::North | BlockDirection::South),
    }
}

/// The straight shape for the given connections: along the chosen axis, ascending
/// towards the first end (north, or east) that has a rail one block higher, else towards
/// the second, else flat.
pub open spec fn straight_shape_from(
    north: Connection,
    south: Connection,
    east: Connection,
    west: Connection,
    fallback: BlockDirection,
) -> StraightRailShape {
    if spec_axis_choice(north, south, east, west, fallback) {
        if north is Up {
            StraightRailShape::AscendingNorth
        } else if south is Up {
            StraightRailShape::AscendingSouth
        } else {
            StraightRailShape::NorthSouth
        }
    } else {
        if east is Up {
            StraightRailShape::AscendingEast
        } else if west is Up {
            StraightRailShape::AscendingWest
        } else {
            StraightRailShape::EastWest
        }
    }
}

/// The shape a straight-only rail at `pos` takes in `world`.
pub open spec fn spec_straight_shape(world: &World, pos: BlockPos, fallback: BlockDirection) -> StraightRailShape {
    straight_shape_from(
        spec_connection(world, pos, BlockDirection::North),
        spec_connection(world, pos, BlockDirection::South),
        spec_connection(world, pos, BlockDirection::East),
        spec_connection(world, pos, BlockDirection::West),
        fallback,
    )
}

/// A plain rail curves exactly when no neighbor is higher, and exactly one of north and
/// south and exactly one of east and west hold a level rail. It then joins those two;
/// otherwise it takes the straight shape.
pub open spec fn rail_shape_from(
    north: Connection,
    south: Connection,
    east: Connection,
    west: Connection,
    fallback: BlockDirection,
) -> RailShape {
    let all_flat_or_none = !(north is Up) && !(south is Up) && !(east is Up) && !(west is Up);
    let one_ns = (north is Flat) != (south is Flat);
    let one_ew = (east is Flat) != (west is Flat);
    if all_flat_or_none && one_ns && one_ew {
        if north is Flat {
            if east is Flat {
                RailShape::NorthEast
            } else {
                RailShape::NorthWest
            }
        } else {
            if east is Flat {
                RailShape::SouthEast
            } else {
                RailShape::SouthWest
            }
        }
    } else {
        straight_as_rail_shape(straight_shape_from(north, south, east, west, fallback))
    }
}

/// The plain-rail shape with the same track as a straight shape.
pub open spec fn straight_as_rail_shape(shape: StraightRailShape) -> RailShape {
    match shape {
        StraightRailShape::NorthSouth => RailShape::NorthSouth,
        StraightRailShape::EastWest => RailShape::EastWest,
        StraightRailShape::AscendingEast => RailShape::AscendingEast,
        StraightRailShape::AscendingWest => RailShape::AscendingWest,
        StraightRailShape::AscendingNorth => RailShape::AscendingNorth,
        StraightRailShape::AscendingSouth => RailShape::AscendingSouth,
    }
}

/// The shape a plain rail at `pos` takes in `world`.
pub open spec fn spec_rail_shape(world: &World, pos: BlockPos, fallback: BlockDirection) -> RailShape {
    rail_shape_from(
        spec_connection(world, pos, BlockDirection::North),
        spec_connection(world, pos, BlockDirection::South),
        spec_connection(world, pos, BlockDirection::East),
        spec_connection(world, pos, BlockDirection::West),
        fallback,
    )
}

/// Shape for a straight-only rail (powered/activator/detector): flat or ascending, never
/// a curve.
fn straight_shape(world: &World, pos: BlockPos, fallback: BlockDirection) -> (s: StraightRailShape)
    requires
        world.wf(),
        pos.in_world(),
    ensures
        s == spec_straight_shape(world, pos, fallback),
{
    let north = connection(world, pos, BlockDirection::North);
    let south = connection(world, pos, BlockDirection::South);
    let east = connection(world, pos, BlockDirection::East);
    let west = connection(world, pos, BlockDirection::West);

    if axis_choice(north, south, east, west, fallback) {
        match (north, south) {
            (Connection::Up, _) => StraightRailShape::AscendingNorth,
            (_, Connection::Up) => StraightRailShape::AscendingSouth,
            _ => StraightRailShape::NorthSouth,
        }
    } else {
        match (east, west) {
            (Connection::Up, _) => StraightRailShape::AscendingEast,
            (_, Connection::Up) => StraightRailShape::AscendingWest,
            _ => StraightRailShape::EastWest,
        }
    }
}

/// Shape for a plain rail: flat, ascending, or a curve connecting two perpendicular
/// directions.
fn rail_shape(world: &World, pos: BlockPos, fallback: BlockDirection) -> (s: RailShape)
    requires
        world.wf(),
        pos.in_world(),
    ensures
        s == spec_rail_shape(world, pos, fallback),
{
    let north = connection(world, pos, BlockDirection::North);
    let south = connection(world, pos, BlockDirection::South);
    let east = connection(world, pos, BlockDirection::East);
    let west = connection(world, pos, BlockDirection::West);

    // A curve only forms when there's a flat connection on exactly one of north/south and
    // exactly one of east/west; curves can't ascend.
    let all_flat_or_none = north != Connection::Up && south != Connection::Up && east
        != Connection::Up && west != Connection::Up;
    let ns_count: u8 = (if north == Connection::Flat {
        1u8
    } else {
        0u8
    }) + (if south == Connection::Flat {
        1u8
    } else {
        0u8
    });
    let ew_count: u8 = (if east == Connection::Flat {
        1u8
    } else {
        0u8
    }) + (if west == Connection::Flat {
        1u8
    } else {
        0u8
    });

    if all_flat_or_none && ns_count == 1 && ew_count == 1 {
        return match (north == Connection::Flat, east == Connection::Flat) {
            (true, true) => RailShape::NorthEast,
            (true, false) => RailShape::NorthWest,
            (false, true) => RailShape::SouthEast,
            (false, false) => RailShape::SouthWest,
        };
    }

    if axis_choice(north, south, east, west, fallback) {
        match (north, south) {
            (Connection::Up, _) => RailShape::AscendingNorth,
            (_, Connection::Up) => RailShape::AscendingSouth,
            _ => RailShape::NorthSouth,
        }
    } else {
        match (east, west) {
            (Connection::Up, _) => RailShape::AscendingEast,
            (_, Connection::Up) => RailShape::AscendingWest,
            _ => RailShape::EastWest,
        }
    }
}

pub open spec fn spec_straight_shape_axis(shape: StraightRailShape) -> BlockDirection {
    match shape {
        StraightRailShape::NorthSouth | StraightRailShape::AscendingNorth
        | StraightRailShape::AscendingSouth => BlockDirection::North,
        _ => BlockDirection::East,
    }
}

/// North for the north-south shapes, east for the east-west ones.
fn straight_shape_axis(shape: StraightRailShape) -> (d: BlockDirection)
    ensures
        d == spec_straight_shape_axis(shape),
{
    match shape {
        StraightRailShape::NorthSouth | StraightRailShape::AscendingNorth
        | StraightRailShape::AscendingSouth => BlockDirection::North,
        StraightRailShape::EastWest | StraightRailShape::AscendingEast
        | StraightRailShape::AscendingWest => BlockDirection::East,
    }
}

pub open spec fn spec_rail_shape_axis(shape: RailShape) -> BlockDirection {
    match shape {
        RailShape::NorthSouth | RailShape::AscendingNorth | RailShape::AscendingSouth
        | RailShape::NorthEast | RailShape::NorthWest => BlockDirection::North,
        _ => BlockDirection::East,
    }
}

/// North for the north-south shapes and the curves reaching north, east otherwise.
fn rail_shape_axis(shape: RailShape) -> (d: BlockDirection)
    ensures
        d == spec_rail_shape_axis(shape),
{
    match shape {
        RailShape::NorthSouth | RailShape::AscendingNorth | RailShape::AscendingSouth
        | RailShape::NorthEast | RailShape::NorthWest => BlockDirection::North,
        RailShape::EastWest | RailShape::AscendingEast | RailShape::AscendingWest
        | RailShape::SouthEast | RailShape::SouthWest => BlockDirection::East,
    }
}

pub open spec fn spec_shape_ends(shape: StraightRailShape) -> (BlockDirection, BlockDirection) {
    match shape {
        StraightRailShape::NorthSouth | StraightRailShape::AscendingNorth
        | StraightRailShape::AscendingSouth => (BlockDirection::North, BlockDirection::South),
        _ => (BlockDirection::East, BlockDirection::West),
    }
}

/// The two directions a straight shape's track runs along.
#[verifier::when_used_as_spec(spec_shape_ends)]
pub fn shape_ends(shape: StraightRailShape) -> (ends: (BlockDirection, BlockDirection))
    ensures
        ends == spec_shape_ends(shape),
{
    match shape {
        StraightRailShape::NorthSouth | StraightRailShape::AscendingNorth
        | StraightRailShape::AscendingSouth => (BlockDirection::North, BlockDirection::South),
        StraightRailShape::EastWest | StraightRailShape::AscendingEast
        | StraightRailShape::AscendingWest => (BlockDirection::East, BlockDirection::West),
    }
}

/// The state a plain rail takes when placed at `pos` by a player facing `facing`.
pub fn rail_get_state_for_placement(world: &World, pos: BlockPos, facing: BlockDirection) -> (r: Rail)
    requires
        world.wf(),
        pos.in_world(),
    ensures
        r == (Rail { shape: spec_rail_shape(world, pos, facing), waterlogged: false }),
{
    Rail { shape: rail_shape(world, pos, facing), waterlogged: false }
}

/// The state of a plain rail after a neighbor changed: its shape is recomputed, keeping
/// its current axis where the neighbors leave the axis open.
pub fn rail_on_neighbor_changed(rail: Rail, world: &World, pos: BlockPos) -> (r: Rail)
    requires
        world.wf(),
        pos.in_world(),
    ensures
        r == (Rail {
            shape: spec_rail_shape(world, pos, spec_rail_shape_axis(rail.shape)),
            ..rail
        }),
{
    Rail { shape: rail_shape(world, pos, rail_shape_axis(rail.shape)), waterlogged: rail.waterlogged }
}

/// The state a powered rail takes when placed at `pos` by a player facing `facing`.
pub fn powered_rail_get_state_for_placement(
    world: &World,
    pos: BlockPos,
    facing: BlockDirection,
) -> (r: PoweredRail)
    requires
        world.wf(),
        pos.in_world(),
    ensures
        r == (PoweredRail {
            shape: spec_straight_shape(world, pos, facing),
            powered: false,
            waterlogged: false,
        }),
{
    PoweredRail { shape: straight_shape(world, pos, facing), powered: false, waterlogged: false }
}

/// The state of a powered rail after a neighbor changed.
pub fn powered_rail_on_neighbor_changed(rail: PoweredRail, world: &World, pos: BlockPos) -> (r:
    PoweredRail)
    requires
        world.wf(),
        pos.in_world(),
    ensures
        r == (PoweredRail {
            shape: spec_straight_shape(world, pos, spec_straight_shape_axis(rail.shape)),
            ..rail
        }),
{
    PoweredRail {
        shape: straight_shape(world, pos, straight_shape_axis(rail.shape)),
        powered: rail.powered,
        waterlogged: rail.waterlogged,
    }
}

/// The state an activator rail takes when placed at `pos` by a player facing `facing`.
pub fn activator_rail_get_state_for_placement(
    world: &World,
    pos: BlockPos,
    facing: BlockDirection,
) -> (r: ActivatorRail)
    requires
        world.wf(),
        pos.in_world(),
    ensures
        r == (ActivatorRail {
            shape: spec_straight_shape(world, pos, facing),
            powered: false,
            waterlogged: false,
        }),
{
    ActivatorRail { shape: straight_shape(world, pos, facing), powered: false, waterlogged: false }
}

/// The state of an activator rail after a neighbor changed.
pub fn activator_rail_on_neighbor_changed(rail: ActivatorRail, world: &World, pos: BlockPos) -> (r:
    ActivatorRail)
    requires
        world.wf(),
        pos.in_world(),
    ensures
        r == (ActivatorRail {
            shape: spec_straight_shape(world, pos, spec_straight_shape_axis(rail.shape)),
            ..rail
        }),
{
    ActivatorRail {
        shape: straight_shape(world, pos, straight_shape_axis(rail.shape)),
        powered: rail.powered,
        waterlogged: rail.waterlogged,
    }
}

/// The state a detector rail takes when placed at `pos` by a player facing `facing`.
pub fn detector_rail_get_state_for_placement(
    world: &World,
    pos: BlockPos,
    facing: BlockDirection,
) -> (r: DetectorRail)
    requires
        world.wf(),
        pos.in_world(),
    ensures
        r == (DetectorRail {
            shape: spec_straight_shape(world, pos, facing),
            powered: false,
            waterlogged: false,
        }),
{
    DetectorRail { shape: straight_shape(world, pos, facing), powered: false, waterlogged: false }
}

/// The state of a detector rail after a neighbor changed.
pub fn detector_rail_on_neighbor_changed(rail: DetectorRail, world: &World, pos: BlockPos) -> (r:
    DetectorRail)
    requires
        world.wf(),
        pos.in_world(),
    ensures
        r == (DetectorRail {
            shape: spec_straight_shape(world, pos, spec_straight_shape_axis(rail.shape)),
            ..rail
        }),
{
    DetectorRail {
        shape: straight_shape(world, pos, straight_shape_axis(rail.shape)),
        powered: rail.powered,
        waterlogged: rail.waterlogged,
    }
}

/// The shape of `block` if it is a rail of the chain family `kind`.
pub open spec fn chain_shape(block: Block, kind: RailKind) -> Option<StraightRailShape> {
    match (block, kind) {
        (Block::PoweredRail(rail), RailKind::Powered) => Some(rail.shape),
        (Block::ActivatorRail(rail), RailKind::Activator) => Some(rail.shape),
        _ => None,
    }
}

/// `block` is a rail of family `kind` whose track runs along `dir`.
pub open spec fn continues_chain(block: Block, kind: RailKind, dir: BlockDirection) -> bool {
    match chain_shape(block, kind) {
        Some(shape) => spec_shape_ends(shape).0 == dir || spec_shape_ends(shape).1 == dir,
        None => false,
    }
}

/// The next rail of the chain from `cursor` towards `dir`: the neighbor in that
/// direction, else the position one above it, else one below it, whichever first
/// continues the chain.
pub open spec fn next_in_chain(world: &World, cursor: BlockPos, dir: BlockDirection, kind: RailKind) -> Option<BlockPos> {
    let flat = cursor.spec_offset(dir.spec_block_face());
    let up = flat.spec_offset(BlockFace::Top);
    let down = flat.spec_offset(BlockFace::Bottom);
    if continues_chain(world.block_at(flat), kind, dir) {
        Some(flat)
    } else if continues_chain(world.block_at(up), kind, dir) {
        Some(up)
    } else if continues_chain(world.block_at(down), kind, dir) {
        Some(down)
    } else {
        None
    }
}

/// The rails reached from `pos` going towards `dir`, at most `max` of them, in order.
pub open spec fn spec_walk_chain(world: &World, pos: BlockPos, dir: BlockDirection, kind: RailKind, max: nat) -> Seq<BlockPos>
    decreases max,
{
    if max == 0 {
        Seq::empty()
    } else {
        match next_in_chain(world, pos, dir, kind) {
            Some(next) => seq![next] + spec_walk_chain(world, next, dir, kind, (max - 1) as nat),
            None => Seq::empty(),
        }
    }
}

fn next_chain_rail(world: &World, cursor: BlockPos, dir: BlockDirection, kind: RailKind) -> (next: Option<BlockPos>)
    requires
        world.wf(),
        cursor.in_world(),
    ensures
        next == next_in_chain(world, cursor, dir, kind),
        next matches Some(p) ==> p.in_world(),
{
    let flat = cursor.offset(dir.block_face());
    let candidates = [flat, flat.offset(BlockFace::Top), flat.offset(BlockFace::Bottom)];
    let mut k: usize = 0;
    while k < 3
        invariant
            world.wf(),
            k <= 3,
            candidates@ == seq![flat, flat.spec_offset(BlockFace::Top), flat.spec_offset(BlockFace::Bottom)],
            flat == cursor.spec_offset(dir.spec_block_face()),
            forall|j: int| 0 <= j < k ==> !continues_chain(world.block_at(#[trigger] candidates@[j]), kind, dir),
        decreases 3 - k,
    {
        let candidate = candidates[k];
        let shape = match (world.get_block(candidate), kind) {
            (Block::PoweredRail(rail), RailKind::Powered) => Some(rail.shape),
            (Block::ActivatorRail(rail), RailKind::Activator) => Some(rail.shape),
            _ => None,
        };
        if let Some(shape) = shape {
            let (a, b) = shape_ends(shape);
            if a == dir || b == dir {
                proof {
                    world.lemma_non_air_in_world(candidate);
                }
                assert(forall|j: int| 0 <= j < k ==> !continues_chain(world.block_at(#[trigger] candidates@[j]), kind, dir));
                return Some(candidate);
            }
        }
        k = k + 1;
    }
    None
}

/// Walks a chain of connected same-kind rails outward from `pos` in direction `dir`, up to
/// `max` blocks, returning each rail found in order (not including `pos` itself). Stops at
/// the first position that isn't a matching, axis-aligned rail (handles ascending slopes by
/// trying one block up/down when the flat neighbor doesn't connect).
pub fn walk_chain(world: &World, pos: BlockPos, dir: BlockDirection, kind: RailKind, max: u8) -> (visited: Vec<BlockPos>)
    requires
        world.wf(),
        pos.in_world(),
    ensures
        visited@ == spec_walk_chain(world, pos, dir, kind, max as nat),
{
    let mut cursor = pos;
    let mut visited: Vec<BlockPos> = Vec::new();
    let mut i: u8 = 0;
    while i < max
        invariant
            world.wf(),
            i <= max,
            cursor.in_world(),
            visited@ + spec_walk_chain(world, cursor, dir, kind, (max - i) as nat)
                == spec_walk_chain(world, pos, dir, kind, max as nat),
        decreases max - i,
    {
        match next_chain_rail(world, cursor, dir, kind) {
            None => {
                assert(spec_walk_chain(world, cursor, dir, kind, (max - i) as nat) =~= Seq::empty());
                assert(visited@ =~= visited@ + Seq::<BlockPos>::empty());
                return visited;
            },
            Some(next_pos) => {
                let ghost before = visited@;
                visited.push(next_pos);
                assert(visited@ + spec_walk_chain(world, next_pos, dir, kind, (max - i - 1) as nat)
                    =~= before + spec_walk_chain(world, cursor, dir, kind, (max - i) as nat));
                cursor = next_pos;
            },
        }
        i = i + 1;
    }
    assert(visited@ =~= visited@ + Seq::<BlockPos>::empty());
    visited
}

/// The positions, in order, whose lit state `is_powered` consults for a rail at `pos`
/// beyond `pos` itself: the chain towards the first end of `shape`, then towards the
/// second.
pub open spec fn chain_positions(world: &World, pos: BlockPos, shape: StraightRailShape, kind: RailKind) -> Seq<BlockPos> {
    spec_walk_chain(world, pos, spec_shape_ends(shape).0, kind, 8)
        + spec_walk_chain(world, pos, spec_shape_ends(shape).1, kind, 8)
}

/// Whether a powered/activator rail with the given `shape` at `pos` should be powered:
/// directly, by any adjacent redstone power source, or by being within 8 rails (in either
/// direction along its own track) of another rail of the same kind that is itself directly
/// powered. `lit` tells whether a position receives power directly. Takes `shape`
/// explicitly (rather than reading it from the world) so it can also be used to compute a
/// rail's correct initial state at placement time, before it exists in the world.
pub fn is_powered<F: Fn(BlockPos) -> bool>(
    world: &World,
    pos: BlockPos,
    shape: StraightRailShape,
    kind: RailKind,
    lit: &F,
) -> (powered: bool)
    requires
        world.wf(),
        pos.in_world(),
        forall|p: BlockPos| #[trigger] lit.requires((p,)),
    ensures
        powered ==> lit.ensures((pos,), true) || exists|i: int|
            0 <= i < chain_positions(world, pos, shape, kind).len() && lit.ensures(
                (#[trigger] chain_positions(world, pos, shape, kind)[i],),
                true,
            ),
        !powered ==> lit.ensures((pos,), false) && forall|i: int|
            0 <= i < chain_positions(world, pos, shape, kind).len() ==> lit.ensures(
                (#[trigger] chain_positions(world, pos, shape, kind)[i],),
                false,
            ),
{
    if lit(pos) {
        return true;
    }
    let (d1, d2) = shape_ends(shape);
    let ghost all = chain_positions(world, pos, shape, kind);
    let first = walk_chain(world, pos, d1, kind, 8);
    let second = walk_chain(world, pos, d2, kind, 8);
    assert(all =~= first@ + second@);
    let mut powered = false;
    let mut i: usize = 0;
    while i < first.len()
        invariant
            forall|p: BlockPos| #[trigger] lit.requires((p,)),
            lit.ensures((pos,), false),
            i <= first@.len(),
            all == first@ + second@,
            powered ==> exists|j: int| 0 <= j < i && lit.ensures((#[trigger] all[j],), true),
            !powered ==> forall|j: int| 0 <= j < i ==> lit.ensures((#[trigger] all[j],), false),
        decreases first@.len() - i,
    {
        let r = lit(first[i]);
        assert(all[i as int] == first@[i as int]);
        powered = powered || r;
        i = i + 1;
    }
    if !powered {
        let mut j: usize = 0;
        while j < second.len()
            invariant
                forall|p: BlockPos| #[trigger] lit.requires((p,)),
                lit.ensures((pos,), false),
                j <= second@.len(),
                all == first@ + second@,
                powered ==> exists|k: int| 0 <= k < first@.len() + j && lit.ensures((#[trigger] all[k],), true),
                !powered ==> forall|k: int| 0 <= k < first@.len() + j ==> lit.ensures((#[trigger] all[k],), false),
            decreases second@.len() - j,
        {
            let r = lit(second[j]);
            assert(all[first@.len() + j] == second@[j as int]);
            powered = powered || r;
            j = j + 1;
        }
    }
    powered
}

/// After a rail's powered state changes, every other rail within its chain may need to
/// re-evaluate too (their own `is_powered` result can depend on this rail). Returns, in
/// order, the rails whose update is due: the chain towards the first end of `shape`, then
/// towards the second.
pub fn update_chain(world: &World, pos: BlockPos, shape: StraightRailShape, kind: RailKind) -> (positions: Vec<BlockPos>)
    requires
        world.wf(),
        pos.in_world(),
    ensures
        positions@ == chain_positions(world, pos, shape, kind),
{
    let (d1, d2) = shape_ends(shape);
    let mut positions = walk_chain(world, pos, d1, kind, 8);
    let mut second = walk_chain(world, pos, d2, kind, 8);
    positions.append(&mut second);
    positions
}

/// The fallback direction only decides the axis when the neighbors leave it open: with
/// rails on one axis only, every facing gives the same shape.
pub proof fn lemma_shape_ignores_fallback_when_axis_decided(
    world: &World,
    pos: BlockPos,
    f1: BlockDirection,
    f2: BlockDirection,
)
    requires
        (spec_connection(world, pos, BlockDirection::North) != Connection::Disconnected
            || spec_connection(world, pos, BlockDirection::South) != Connection::Disconnected)
            != (spec_connection(world, pos, BlockDirection::East) != Connection::Disconnected
            || spec_connection(world, pos, BlockDirection::West) != Connection::Disconnected),
    ensures
        spec_straight_shape(world, pos, f1) == spec_straight_shape(world, pos, f2),
        spec_rail_shape(world, pos, f1) == spec_rail_shape(world, pos, f2),
{
}

/// Re-shaping a rail whose neighborhood did not change keeps its shape: the axis of the
/// shape a rail took is a fallback that leads to the same shape.
pub proof fn lemma_reshape_is_stable(world: &World, pos: BlockPos, facing: BlockDirection)
    ensures
        spec_straight_shape(world, pos, spec_straight_shape_axis(spec_straight_shape(world, pos, facing)))
            == spec_straight_shape(world, pos, facing),
        spec_rail_shape(world, pos, spec_rail_shape_axis(spec_rail_shape(world, pos, facing)))
            == spec_rail_shape(world, pos, facing),
{
}

/// A plain rail curves exactly when no neighbor is higher and exactly one of north/south
/// and one of east/west hold a level rail; a curve then joins the two level rails.
pub proof fn lemma_curve_exactly_when(world: &World, pos: BlockPos, facing: BlockDirection)
    ensures
        ({
            let n = spec_connection(world, pos, BlockDirection::North);
            let s = spec_connection(world, pos, BlockDirection::South);
            let e = spec_connection(world, pos, BlockDirection::East);
            let w = spec_connection(world, pos, BlockDirection::West);
            let shape = spec_rail_shape(world, pos, facing);
            let curve = shape is NorthEast || shape is NorthWest || shape is SouthEast
                || shape is SouthWest;
            &&& curve <==> (!(n is Up) && !(s is Up) && !(e is Up) && !(w is Up) && (n is Flat)
                != (s is Flat) && (e is Flat) != (w is Flat))
            &&& (shape is NorthEast ==> n is Flat && e is Flat)
            &&& (shape is NorthWest ==> n is Flat && w is Flat)
            &&& (shape is SouthEast ==> s is Flat && e is Flat)
            &&& (shape is SouthWest ==> s is Flat && w is Flat)
        }),
{
}

/// A rail ascends only towards a neighbor one block higher, and a straight-only rail
/// takes the track a plain rail would take wherever that one does not curve.
pub proof fn lemma_ascends_towards_higher_rail(world: &World, pos: BlockPos, facing: BlockDirection)
    ensures
        spec_straight_shape(world, pos, facing) is AscendingNorth ==> spec_connection(world, pos, BlockDirection::North) is Up,
        spec_straight_shape(world, pos, facing) is AscendingSouth ==> spec_connection(world, pos, BlockDirection::South) is Up,
        spec_straight_shape(world, pos, facing) is AscendingEast ==> spec_connection(world, pos, BlockDirection::East) is Up,
        spec_straight_shape(world, pos, facing) is AscendingWest ==> spec_connection(world, pos, BlockDirection::West) is Up,
        ({
            let shape = spec_rail_shape(world, pos, facing);
            !(shape is NorthEast || shape is NorthWest || shape is SouthEast || shape is SouthWest)
                ==> shape == straight_as_rail_shape(spec_straight_shape(world, pos, facing))
        }),
{
}

/// A rail ascends towards a neighbor one block higher on the axis it takes: along
/// north-south it ascends north when the north neighbor is higher, else south when the
/// south neighbor is higher, and lies flat only when neither is; likewise east-west. The
/// same holds for a plain rail wherever it does not curve.
pub proof fn lemma_ascends_when_higher(world: &World, pos: BlockPos, facing: BlockDirection)
    ensures
        ({
            let s = spec_straight_shape(world, pos, facing);
            let n = spec_connection(world, pos, BlockDirection::North);
            let so = spec_connection(world, pos, BlockDirection::South);
            let e = spec_connection(world, pos, BlockDirection::East);
            let w = spec_connection(world, pos, BlockDirection::West);
            &&& (s is NorthSouth || s is AscendingNorth || s is AscendingSouth) ==> {
                &&& (n is Up ==> s is AscendingNorth)
                &&& (!(n is Up) && so is Up ==> s is AscendingSouth)
                &&& (!(n is Up) && !(so is Up) ==> s is NorthSouth)
            }
            &&& (s is EastWest || s is AscendingEast || s is AscendingWest) ==> {
                &&& (e is Up ==> s is AscendingEast)
                &&& (!(e is Up) && w is Up ==> s is AscendingWest)
                &&& (!(e is Up) && !(w is Up) ==> s is EastWest)
            }
        }),
        ({
            let r = spec_rail_shape(world, pos, facing);
            let n = spec_connection(world, pos, BlockDirection::North);
            let so = spec_connection(world, pos, BlockDirection::South);
            let e = spec_connection(world, pos, BlockDirection::East);
            let w = spec_connection(world, pos, BlockDirection::West);
            &&& (r is NorthSouth || r is AscendingNorth || r is AscendingSouth) ==> {
                &&& (n is Up ==> r is AscendingNorth)
                &&& (!(n is Up) && so is Up ==> r is AscendingSouth)
            }
            &&& (r is EastWest || r is AscendingEast || r is AscendingWest) ==> {
                &&& (e is Up ==> r is AscendingEast)
                &&& (!(e is Up) && w is Up ==> r is AscendingWest)
            }
        }),
{
}

/// The next rail of a chain is a rail of the family whose track runs along the walk, one
/// step on (level, one block up or one block down), preferring the level one, then the
/// one above; there is none only when none of the three positions continues the chain.
pub proof fn lemma_next_in_chain_complete(world: &World, cursor: BlockPos, dir: BlockDirection, kind: RailKind)
    ensures
        next_in_chain(world, cursor, dir, kind) matches Some(q) ==> is_chain_step(cursor, q, dir)
            && continues_chain(world.block_at(q), kind, dir),
        next_in_chain(world, cursor, dir, kind) is None <==> forall|q: BlockPos|
            #[trigger] is_chain_step(cursor, q, dir) ==> !continues_chain(world.block_at(q), kind, dir),
        continues_chain(world.block_at(cursor.spec_offset(dir.spec_block_face())), kind, dir) ==> next_in_chain(world, cursor, dir, kind)
            == Some(cursor.spec_offset(dir.spec_block_face())),
        !continues_chain(world.block_at(cursor.spec_offset(dir.spec_block_face())), kind, dir) && continues_chain(
            world.block_at(cursor.spec_offset(dir.spec_block_face()).spec_offset(BlockFace::Top)),
            kind,
            dir,
        ) ==> next_in_chain(world, cursor, dir, kind) == Some(cursor.spec_offset(dir.spec_block_face()).spec_offset(BlockFace::Top)),
{
    let flat = cursor.spec_offset(dir.spec_block_face());
    let up = flat.spec_offset(BlockFace::Top);
    let down = flat.spec_offset(BlockFace::Bottom);
    assert(is_chain_step(cursor, flat, dir));
    assert(is_chain_step(cursor, up, dir));
    assert(is_chain_step(cursor, down, dir));
}

/// A chain walk stops short of `max` rails only where no position one step on (level,
/// one block up or one block down) continues the chain.
pub proof fn lemma_walk_chain_stops_only_at_end(world: &World, pos: BlockPos, dir: BlockDirection, kind: RailKind, max: nat)
    ensures
        spec_walk_chain(world, pos, dir, kind, max).len() == 0 && max > 0 ==> forall|q: BlockPos|
            #[trigger] is_chain_step(pos, q, dir) ==> !continues_chain(world.block_at(q), kind, dir),
        0 < spec_walk_chain(world, pos, dir, kind, max).len() < max ==> forall|q: BlockPos|
            #[trigger] is_chain_step(spec_walk_chain(world, pos, dir, kind, max).last(), q, dir)
                ==> !continues_chain(world.block_at(q), kind, dir),
    decreases max,
{
    lemma_next_in_chain_complete(world, pos, dir, kind);
    if max > 0 {
        match next_in_chain(world, pos, dir, kind) {
            Some(next) => {
                lemma_walk_chain_stops_only_at_end(world, next, dir, kind, (max - 1) as nat);
                let rest = spec_walk_chain(world, next, dir, kind, (max - 1) as nat);
                let w = spec_walk_chain(world, pos, dir, kind, max);
                assert(w == seq![next] + rest);
                if rest.len() > 0 {
                    assert(w.last() == rest.last());
                } else {
                    assert(w.last() == next);
                }
            },
            None => {},
        }
    }
}

/// The two ends of a straight shape point in opposite directions, and the first is the
/// axis the shape is kept on when reshaped.
pub proof fn lemma_shape_ends_opposite(shape: StraightRailShape)
    ensures
        spec_shape_ends(shape).1 == spec_shape_ends(shape).0.spec_opposite(),
        spec_straight_shape_axis(shape) == spec_shape_ends(shape).0,
        spec_rail_shape_axis(straight_as_rail_shape(shape)) == spec_straight_shape_axis(shape),
{
}

/// A chain walk visits at most `max` rails, each of them a rail of the walked family
/// whose track runs along the walking direction, each one step further in that direction
/// than the one before (at most one block higher or lower); and a longer walk only
/// extends a shorter one.
pub proof fn lemma_walk_chain_shape(world: &World, pos: BlockPos, dir: BlockDirection, kind: RailKind, max: nat)
    ensures
        spec_walk_chain(world, pos, dir, kind, max).len() <= max,
        forall|i: int| 0 <= i < spec_walk_chain(world, pos, dir, kind, max).len() ==>
            continues_chain(world.block_at(#[trigger] spec_walk_chain(world, pos, dir, kind, max)[i]), kind, dir),
        forall|i: int| 0 <= i < spec_walk_chain(world, pos, dir, kind, max).len() ==>
            is_chain_step(
                if i == 0 { pos } else { spec_walk_chain(world, pos, dir, kind, max)[i - 1] },
                #[trigger] spec_walk_chain(world, pos, dir, kind, max)[i],
                dir,
            ),
        spec_walk_chain(world, pos, dir, kind, max).is_prefix_of(spec_walk_chain(world, pos, dir, kind, max + 1)),
    decreases max,
{
    if max > 0 {
        match next_in_chain(world, pos, dir, kind) {
            Some(next) => {
                lemma_walk_chain_shape(world, next, dir, kind, (max - 1) as nat);
                let rest = spec_walk_chain(world, next, dir, kind, (max - 1) as nat);
                let all = spec_walk_chain(world, pos, dir, kind, max);
                assert(all == seq![next] + rest);
                assert forall|i: int| 0 <= i < all.len() implies continues_chain(world.block_at(#[trigger] all[i]), kind, dir) by {
                    if i > 0 {
                        assert(all[i] == rest[i - 1]);
                    }
                }
                assert forall|i: int| 0 <= i < all.len() implies is_chain_step(
                    if i == 0 { pos } else { all[i - 1] },
                    #[trigger] all[i],
                    dir,
                ) by {
                    if i > 1 {
                        assert(all[i] == rest[i - 1]);
                        assert(all[i - 1] == rest[i - 2]);
                    } else if i == 1 {
                        assert(all[1] == rest[0]);
                    }
                }
                assert(spec_walk_chain(world, pos, dir, kind, max + 1) == seq![next] + spec_walk_chain(world, next, dir, kind, max));
            },
            None => {},
        }
    } else {
        assert(spec_walk_chain(world, pos, dir, kind, 0) =~= Seq::empty());
    }
}

/// `to` is one step from `from` towards `dir`, level or one block up or down.
pub open spec fn is_chain_step(from: BlockPos, to: BlockPos, dir: BlockDirection) -> bool {
    let flat = from.spec_offset(dir.spec_block_face());
    to == flat || to == flat.spec_offset(BlockFace::Top) || to == flat.spec_offset(BlockFace::Bottom)
}

/// A rail consults the lit state of at most 8 rails in each direction of its track.
pub proof fn lemma_chain_reach_bounded(world: &World, pos: BlockPos, shape: StraightRailShape, kind: RailKind)
    ensures
        chain_positions(world, pos, shape, kind).len() <= 16,
{
    lemma_walk_chain_shape(world, pos, spec_shape_ends(shape).0, kind, 8);
    lemma_walk_chain_shape(world, pos, spec_shape_ends(shape).1, kind, 8);
}

} // verus!
