use redpiler::blocks::{Block, LeverFace, RedstoneWire, RedstoneWireSide};
use redpiler::geometry::{BlockDirection, BlockFace, BlockPos};
use redpiler::identify_nodes::find_wires_connected_to_custom_io;
use redpiler::input_search::{provides_strong_power, provides_weak_power, BlockLookupCache};
use redpiler::world::World;

fn pos(x: i32, y: i32, z: i32) -> BlockPos {
    BlockPos::new(x, y, z)
}

fn wire() -> Block {
    Block::RedstoneWire(RedstoneWire {
        north: RedstoneWireSide::Unconnected,
        south: RedstoneWireSide::Unconnected,
        east: RedstoneWireSide::Side,
        west: RedstoneWireSide::Side,
        power: 0,
    })
}

#[test]
fn observer_powers_only_through_its_back() {
    // Facing west, the observer watches the block west of it and outputs east: the block
    // east of it receives power on its west side.
    let o = Block::Observer { facing: BlockFace::West, powered: true };
    assert!(provides_weak_power(o, BlockFace::West));
    assert!(!provides_weak_power(o, BlockFace::East));
    assert!(provides_strong_power(o, BlockFace::West));
    assert!(!provides_strong_power(o, BlockFace::East));
    assert!(!provides_weak_power(o, BlockFace::Top));
}

#[test]
fn strong_power_is_power() {
    let blocks = [
        Block::Observer { facing: BlockFace::Top, powered: false },
        Block::RedstoneTorch { lit: true },
        Block::RedstoneWallTorch { lit: true, facing: BlockDirection::North },
        Block::Lever { face: LeverFace::Wall, facing: BlockDirection::East, powered: true },
        Block::StoneButton { face: LeverFace::Floor, facing: BlockDirection::East, powered: false },
        Block::PressurePlate { powered: false },
        Block::RedstoneBlock,
        Block::Glass,
    ];
    let faces = BlockFace::values();
    for b in blocks {
        for f in faces {
            if provides_strong_power(b, f) {
                assert!(provides_weak_power(b, f));
            }
        }
    }
    assert!(provides_weak_power(Block::RedstoneBlock, BlockFace::East));
    assert!(!provides_strong_power(Block::RedstoneBlock, BlockFace::East));
}

#[test]
fn cache_reads_like_the_world() {
    let mut world = World::new();
    world.set_block(pos(-1, -17, 3), Block::Glass);
    world.set_block(pos(15, -1, 3), Block::RedstoneBlock);
    world.set_block(pos(-17, 15, 19), wire());
    let mut cache = BlockLookupCache::new(&world);
    // Positions that share a cache slot, read in turn and again.
    let probes = [
        pos(-1, -17, 3),
        pos(15, -1, 3),
        pos(-17, 15, 19),
        pos(-1, -1, 3),
        pos(15, 15, 3),
        pos(-1, -17, 3),
        pos(-17, 15, 19),
    ];
    for p in probes {
        assert_eq!(cache.get_block(p), world.get_block(p));
    }
}

#[test]
fn custom_io_wires_union() {
    let mut world = World::new();
    for x in 0..3 {
        world.set_block(pos(x, 0, 0), wire());
    }
    for x in 5..7 {
        world.set_block(pos(x, 0, 0), wire());
    }
    let bounds = (pos(-8, -8, -8), pos(8, 8, 8));
    let a = vec![pos(0, 0, 0)];
    let b = vec![pos(6, 0, 0), pos(6, 0, 0)];
    let both = vec![pos(6, 0, 0), pos(0, 0, 0)];
    let ra = find_wires_connected_to_custom_io(&world, &a, bounds);
    let rb = find_wires_connected_to_custom_io(&world, &b, bounds);
    let rboth = find_wires_connected_to_custom_io(&world, &both, bounds);
    assert_eq!(ra.len(), 3);
    assert_eq!(rb.len(), 2);
    let union: std::collections::HashSet<(i32, i32, i32)> = ra.union(&rb).copied().collect();
    let joined: std::collections::HashSet<(i32, i32, i32)> = rboth.iter().copied().collect();
    assert_eq!(union, joined);
    assert!(!rboth.contains(&(3, 0, 0)));
}
