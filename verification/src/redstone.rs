//! What a component reads from the blocks around it when it is identified: the far
//! input of a comparator and the setting of a note block.
use vstd::prelude::*;
use crate::blocks::{get_override, has_override, Block, Instrument, spec_get_override, spec_has_override};
use crate::geometry::{BlockDirection, BlockFace, BlockPos};
use crate::world::World;

verus! {

/// The override strength a comparator at `pos` facing `facing` reads through a solid
/// block: when the block in front of it is solid and without an override, and the block
/// beyond that has one.
pub open spec fn spec_get_far_input(world: &World, pos: BlockPos, facing: BlockDirection) -> Option<u8> {
    let face = facing.spec_block_face();
    let input_pos = pos.spec_offset(face);
    let input_block = world.block_at(input_pos);
    if !input_block.spec_is_solid() || spec_has_override(input_block) {
        None
    } else {
        let far_block = world.block_at(input_pos.spec_offset(face));
        if spec_has_override(far_block) {
            Some(spec_get_override(far_block))
        } else {
            None
        }
    }
}

pub fn get_far_input(world: &World, pos: BlockPos, facing: BlockDirection) -> (r: Option<u8>)
    requires
        world.wf(),
        pos.in_world(),
    ensures
        r == spec_get_far_input(world, pos, facing),
{
    let face = facing.block_face();
    let input_pos = pos.offset(face);
    let input_block = world.get_block(input_pos);
    if !input_block.is_solid() || has_override(input_block) {
        return None;
    }
    let far_input_pos = input_pos.offset(face);
    let far_input_block = world.get_block(far_input_pos);
    if has_override(far_input_block) {
        Some(get_override(far_input_block))
    } else {
        None
    }
}

/// A note block sounds only with air above it.
pub open spec fn spec_is_noteblock_unblocked(world: &World, pos: BlockPos) -> bool {
    world.block_at(pos.spec_offset(BlockFace::Top)) is Air
}

pub fn is_noteblock_unblocked(world: &World, pos: BlockPos) -> (b: bool)
    requires
        world.wf(),
        pos.in_world(),
    ensures
        b == spec_is_noteblock_unblocked(world, pos),
{
    matches!(world.get_block(pos.offset(BlockFace::Top)), Block::Air)
}

/// The instrument of a note block, given by the block beneath it: the instrument of a
/// solid block, the hat for glass, the harp for anything else.
pub open spec fn spec_noteblock_instrument(world: &World, pos: BlockPos) -> Instrument {
    match world.block_at(pos.spec_offset(BlockFace::Bottom)) {
        Block::Solid { instrument } => instrument,
        Block::Glass => Instrument::Hat,
        _ => Instrument::Harp,
    }
}

pub fn get_noteblock_instrument(world: &World, pos: BlockPos) -> (i: Instrument)
    requires
        world.wf(),
        pos.in_world(),
    ensures
        i == spec_noteblock_instrument(world, pos),
{
    match world.get_block(pos.offset(BlockFace::Bottom)) {
        Block::Solid { instrument } => instrument,
        Block::Glass => Instrument::Hat,
        _ => Instrument::Harp,
    }
}

} // verus!
