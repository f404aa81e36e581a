use redpiler::blocks::{Block, Instrument};
use redpiler::geometry::BlockPos;
use redpiler::world::{BlockEntity, World};

#[test]
fn empty_world_is_air() {
    let world = World::new();
    assert_eq!(world.get_block(BlockPos::new(0, 0, 0)), Block::Air);
    assert!(world.get_block_entity(BlockPos::new(5, 1, -3)).is_none());
    assert!(world.block_positions().is_empty());
}

#[test]
fn read_gives_back_last_write() {
    let mut world = World::new();
    let p = BlockPos::new(1, 2, 3);
    let q = BlockPos::new(1, 2, 4);
    world.set_block(p, Block::RedstoneLamp { lit: false });
    world.set_block(q, Block::Glass);
    world.set_block(p, Block::Solid { instrument: Instrument::Bass });
    assert_eq!(world.get_block(p), Block::Solid { instrument: Instrument::Bass });
    assert_eq!(world.get_block(q), Block::Glass);
    assert_eq!(world.get_block(BlockPos::new(2, 2, 3)), Block::Air);
    // Overwriting keeps the order of first placement.
    assert_eq!(world.block_positions(), vec![p, q]);
}

#[test]
fn block_entities_are_kept_apart_from_blocks() {
    let mut world = World::new();
    let p = BlockPos::new(0, 1, 0);
    world.set_block(p, Block::Sign { rotation: 8 });
    world.set_block_entity(p, BlockEntity::Comparator { output_strength: 3 });
    world.set_block_entity(p, BlockEntity::Sign { front_rows: vec!["a".to_string()] });
    assert_eq!(world.get_block(p), Block::Sign { rotation: 8 });
    match world.get_block_entity(p) {
        Some(BlockEntity::Sign { front_rows }) => assert_eq!(front_rows, &vec!["a".to_string()]),
        other => panic!("unexpected entity {:?}", other),
    }
    assert!(world.get_block_entity(BlockPos::new(0, 2, 0)).is_none());
}
