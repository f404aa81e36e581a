use redpiler::blocks::{ActivatorRail, Block, Instrument, PoweredRail, RailShape, StraightRailShape};
use redpiler::geometry::{BlockDirection, BlockPos};
use redpiler::rail::{self, RailKind};
use redpiler::world::World;

fn pos(x: i32, y: i32, z: i32) -> BlockPos {
    BlockPos::new(x, y, z)
}

fn sandstone() -> Block {
    Block::Solid { instrument: Instrument::Basedrum }
}

fn powered_rail(shape: StraightRailShape) -> Block {
    Block::PoweredRail(PoweredRail { shape, powered: false, waterlogged: false })
}

fn activator_rail(shape: StraightRailShape) -> Block {
    Block::ActivatorRail(ActivatorRail { shape, powered: false, waterlogged: false })
}

#[test]
fn rail_shape_straight_and_curve_placement() {
    let mut world = World::new();

    // A rail with neighbors only to the west and east should end up straight (east-west).
    world.set_block(pos(0, 0, 1), sandstone());
    world.set_block(pos(1, 0, 1), sandstone());
    world.set_block(pos(2, 0, 1), sandstone());
    let placed = rail::rail_get_state_for_placement(&world, pos(0, 1, 1), BlockDirection::East);
    world.set_block(pos(0, 1, 1), Block::Rail(placed));
    let placed = rail::rail_get_state_for_placement(&world, pos(2, 1, 1), BlockDirection::East);
    world.set_block(pos(2, 1, 1), Block::Rail(placed));
    let middle = rail::rail_get_state_for_placement(&world, pos(1, 1, 1), BlockDirection::North);
    assert_eq!(middle.shape, RailShape::EastWest);

    // A rail with neighbors to the west and south should curve to connect them.
    let mut world = World::new();
    world.set_block(pos(4, 0, 5), sandstone());
    world.set_block(pos(5, 0, 5), sandstone());
    world.set_block(pos(5, 0, 6), sandstone());
    let placed = rail::rail_get_state_for_placement(&world, pos(4, 1, 5), BlockDirection::East);
    world.set_block(pos(4, 1, 5), Block::Rail(placed));
    let placed = rail::rail_get_state_for_placement(&world, pos(5, 1, 6), BlockDirection::North);
    world.set_block(pos(5, 1, 6), Block::Rail(placed));
    let curve = rail::rail_get_state_for_placement(&world, pos(5, 1, 5), BlockDirection::North);
    assert_eq!(curve.shape, RailShape::SouthWest);
}

#[test]
fn rail_shape_ascending() {
    let mut world = World::new();
    // A solid block one higher to the west, with a rail on top of it, should make this rail
    // ascend to the west.
    world.set_block(pos(0, 0, 0), sandstone());
    world.set_block(pos(0, 1, 0), sandstone());
    world.set_block(pos(1, 0, 0), sandstone());
    let placed = rail::rail_get_state_for_placement(&world, pos(0, 2, 0), BlockDirection::West);
    world.set_block(pos(0, 2, 0), Block::Rail(placed));
    let ascending = rail::rail_get_state_for_placement(&world, pos(1, 1, 0), BlockDirection::West);
    assert_eq!(ascending.shape, RailShape::AscendingWest);
}

#[test]
fn lone_rail_follows_facing() {
    let world = World::new();
    let r = rail::rail_get_state_for_placement(&world, pos(0, 0, 0), BlockDirection::South);
    assert_eq!(r.shape, RailShape::NorthSouth);
    assert!(!r.waterlogged);
    let r = rail::rail_get_state_for_placement(&world, pos(0, 0, 0), BlockDirection::West);
    assert_eq!(r.shape, RailShape::EastWest);
    let p = rail::powered_rail_get_state_for_placement(&world, pos(0, 0, 0), BlockDirection::North);
    assert_eq!(p.shape, StraightRailShape::NorthSouth);
    assert!(!p.powered && !p.waterlogged);
}

#[test]
fn straight_rail_never_curves() {
    let mut world = World::new();
    world.set_block(pos(0, 0, -1), powered_rail(StraightRailShape::NorthSouth));
    world.set_block(pos(1, 0, 0), powered_rail(StraightRailShape::EastWest));
    // A plain rail curves between its north and east neighbors ...
    let plain = rail::rail_get_state_for_placement(&world, pos(0, 0, 0), BlockDirection::North);
    assert_eq!(plain.shape, RailShape::NorthEast);
    // ... a powered rail cannot, and takes the axis the facing points along.
    let straight = rail::powered_rail_get_state_for_placement(&world, pos(0, 0, 0), BlockDirection::East);
    assert_eq!(straight.shape, StraightRailShape::EastWest);
    let straight = rail::detector_rail_get_state_for_placement(&world, pos(0, 0, 0), BlockDirection::South);
    assert_eq!(straight.shape, StraightRailShape::NorthSouth);
}

#[test]
fn neighbor_change_keeps_state_and_axis() {
    let mut world = World::new();
    let lone = PoweredRail { shape: StraightRailShape::EastWest, powered: true, waterlogged: true };
    // Nothing around: the rail keeps its axis and its other state.
    let same = rail::powered_rail_on_neighbor_changed(lone, &world, pos(0, 0, 0));
    assert_eq!(same, lone);
    // A rail one block higher to the north makes it ascend north.
    world.set_block(pos(0, 1, -1), powered_rail(StraightRailShape::NorthSouth));
    let up = rail::powered_rail_on_neighbor_changed(lone, &world, pos(0, 0, 0));
    assert_eq!(up.shape, StraightRailShape::AscendingNorth);
    assert!(up.powered && up.waterlogged);
    let act = ActivatorRail { shape: StraightRailShape::EastWest, powered: false, waterlogged: false };
    let act = rail::activator_rail_on_neighbor_changed(act, &world, pos(0, 0, 0));
    assert_eq!(act.shape, StraightRailShape::AscendingNorth);
}

#[test]
fn shape_ends_point_apart() {
    assert_eq!(
        rail::shape_ends(StraightRailShape::AscendingSouth),
        (BlockDirection::North, BlockDirection::South)
    );
    assert_eq!(
        rail::shape_ends(StraightRailShape::EastWest),
        (BlockDirection::East, BlockDirection::West)
    );
}

#[test]
fn walk_chain_reaches_eight_and_stops() {
    let mut world = World::new();
    for x in 1..=10 {
        world.set_block(pos(x, 1, 0), powered_rail(StraightRailShape::EastWest));
    }
    let chain = rail::walk_chain(&world, pos(1, 1, 0), BlockDirection::East, RailKind::Powered, 8);
    let expected: Vec<BlockPos> = (2..=9).map(|x| pos(x, 1, 0)).collect();
    assert_eq!(chain, expected);
    let back = rail::walk_chain(&world, pos(1, 1, 0), BlockDirection::West, RailKind::Powered, 8);
    assert!(back.is_empty());
}

#[test]
fn walk_chain_keeps_to_its_family_and_climbs() {
    let mut world = World::new();
    world.set_block(pos(1, 0, 0), activator_rail(StraightRailShape::EastWest));
    world.set_block(pos(2, 0, 0), powered_rail(StraightRailShape::EastWest));
    world.set_block(pos(3, 0, 0), activator_rail(StraightRailShape::EastWest));
    let chain = rail::walk_chain(&world, pos(0, 0, 0), BlockDirection::East, RailKind::Activator, 8);
    assert_eq!(chain, vec![pos(1, 0, 0)]);

    let mut world = World::new();
    world.set_block(pos(0, 1, 1), powered_rail(StraightRailShape::AscendingSouth));
    world.set_block(pos(0, 2, 2), powered_rail(StraightRailShape::NorthSouth));
    world.set_block(pos(0, 2, 3), powered_rail(StraightRailShape::EastWest));
    let chain = rail::walk_chain(&world, pos(0, 1, 0), BlockDirection::South, RailKind::Powered, 8);
    assert_eq!(chain, vec![pos(0, 1, 1), pos(0, 2, 2)]);
}

#[test]
fn is_powered_through_chain() {
    let mut world = World::new();
    for x in 1..=10 {
        world.set_block(pos(x, 1, 0), powered_rail(StraightRailShape::EastWest));
    }
    let lit_at_one = |p: BlockPos| p == pos(1, 1, 0);
    assert!(rail::is_powered(&world, pos(1, 1, 0), StraightRailShape::EastWest, RailKind::Powered, &lit_at_one));
    assert!(rail::is_powered(&world, pos(9, 1, 0), StraightRailShape::EastWest, RailKind::Powered, &lit_at_one));
    assert!(!rail::is_powered(&world, pos(10, 1, 0), StraightRailShape::EastWest, RailKind::Powered, &lit_at_one));
    let nothing_lit = |_p: BlockPos| false;
    assert!(!rail::is_powered(&world, pos(5, 1, 0), StraightRailShape::EastWest, RailKind::Powered, &nothing_lit));
}

#[test]
fn update_chain_lists_both_directions() {
    let mut world = World::new();
    for x in 0..=4 {
        world.set_block(pos(x, 0, 0), activator_rail(StraightRailShape::EastWest));
    }
    let due = rail::update_chain(&world, pos(2, 0, 0), StraightRailShape::EastWest, RailKind::Activator);
    assert_eq!(due, vec![pos(3, 0, 0), pos(4, 0, 0), pos(1, 0, 0), pos(0, 0, 0)]);
}
