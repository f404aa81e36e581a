//! A world of blocks and block entities. Every position that holds nothing is air.
use vstd::prelude::*;
use crate::blocks::Block;
use crate::geometry::BlockPos;

verus! {

/// Data attached to a block beyond its state.
#[derive(Debug)]
pub enum BlockEntity {
    /// The strength a comparator currently outputs.
    Comparator { output_strength: u8 },
    /// The text rows on the front of a sign.
    Sign { front_rows: Vec<String> },
}

/// A world: the placed blocks and block entities, each position at most once.
pub struct World {
    blocks: Vec<(BlockPos, Block)>,
    entities: Vec<(BlockPos, BlockEntity)>,
}

impl World {
    /// Each position occurs at most once, and every position lies in the world range.
    pub closed spec fn wf(&self) -> bool {
        &&& forall|i: int, j: int|
            0 <= i < j < self.blocks@.len() ==> (#[trigger] self.blocks@[i]).0 != (
            #[trigger] self.blocks@[j]).0
        &&& forall|i: int| 0 <= i < self.blocks@.len() ==> (#[trigger] self.blocks@[i]).0.in_world()
        &&& forall|i: int, j: int|
            0 <= i < j < self.entities@.len() ==> (#[trigger] self.entities@[i]).0 != (
            #[trigger] self.entities@[j]).0
    }

    /// The block at `pos`: what was placed there last, or air.
    pub closed spec fn block_at(&self, pos: BlockPos) -> Block {
        if exists|i: int| 0 <= i < self.blocks@.len() && (#[trigger] self.blocks@[i]).0 == pos {
            self.blocks@[choose|i: int|
                0 <= i < self.blocks@.len() && (#[trigger] self.blocks@[i]).0 == pos].1
        } else {
            Block::Air
        }
    }

    /// The block entity at `pos`, if any.
    pub closed spec fn entity_at(&self, pos: BlockPos) -> Option<BlockEntity> {
        if exists|i: int| 0 <= i < self.entities@.len() && (#[trigger] self.entities@[i]).0 == pos {
            Some(
                self.entities@[choose|i: int|
                    0 <= i < self.entities@.len() && (#[trigger] self.entities@[i]).0 == pos].1,
            )
        } else {
            None
        }
    }

    /// Only positions in the world range hold anything but air.
    pub proof fn lemma_non_air_in_world(&self, pos: BlockPos)
        requires
            self.wf(),
            !(self.block_at(pos) is Air),
        ensures
            pos.in_world(),
    {
        if exists|i: int| 0 <= i < self.blocks@.len() && (#[trigger] self.blocks@[i]).0 == pos {
            let i = choose|i: int| 0 <= i < self.blocks@.len() && (#[trigger] self.blocks@[i]).0 == pos;
            assert(self.blocks@[i].0.in_world());
        }
    }


    /// The positions where something was placed, in the order of first placement.
    pub closed spec fn positions(&self) -> Seq<BlockPos> {
        self.blocks@.map_values(|e: (BlockPos, Block)| e.0)
    }

    /// The placed positions are distinct and in the world range, and every other
    /// position holds air.
    pub proof fn lemma_positions(&self)
        requires
            self.wf(),
        ensures
            self.positions().no_duplicates(),
            forall|i: int| 0 <= i < self.positions().len() ==> (#[trigger] self.positions()[i]).in_world(),
            forall|p: BlockPos| !self.positions().contains(p) ==> #[trigger] self.block_at(p) == Block::Air,
    {
        assert forall|p: BlockPos| !self.positions().contains(p) implies #[trigger] self.block_at(p) == Block::Air by {
            if exists|i: int| 0 <= i < self.blocks@.len() && (#[trigger] self.blocks@[i]).0 == p {
                let i = choose|i: int| 0 <= i < self.blocks@.len() && (#[trigger] self.blocks@[i]).0 == p;
                assert(self.positions()[i] == p);
            }
        }
    }

    /// The positions where something was placed, in the order of first placement.
    pub fn block_positions(&self) -> (v: Vec<BlockPos>)
        requires
            self.wf(),
        ensures
            v@ == self.positions(),
    {
        let mut v: Vec<BlockPos> = Vec::new();
        let mut i: usize = 0;
        while i < self.blocks.len()
            invariant
                i <= self.blocks@.len(),
                v@ == self.blocks@.subrange(0, i as int).map_values(|e: (BlockPos, Block)| e.0),
            decreases self.blocks@.len() - i,
        {
            v.push(self.blocks[i].0);
            i = i + 1;
            assert(v@ =~= self.blocks@.subrange(0, i as int).map_values(|e: (BlockPos, Block)| e.0));
        }
        assert(self.blocks@.subrange(0, i as int) =~= self.blocks@);
        v
    }

    /// An empty world.
    pub fn new() -> (w: World)
        ensures
            w.wf(),
            forall|p: BlockPos| #[trigger] w.block_at(p) == Block::Air,
            forall|p: BlockPos| #[trigger] w.entity_at(p) == None::<BlockEntity>,
    {
        World { blocks: Vec::new(), entities: Vec::new() }
    }

    fn find_block(&self, pos: BlockPos) -> (r: Option<usize>)
        requires
            self.wf(),
        ensures
            match r {
                Some(i) => i < self.blocks@.len() && self.blocks@[i as int].0 == pos,
                None => forall|i: int| 0 <= i < self.blocks@.len() ==> (#[trigger] self.blocks@[i]).0 != pos,
            },
    {
        let mut i: usize = 0;
        while i < self.blocks.len()
            invariant
                i <= self.blocks@.len(),
                forall|j: int| 0 <= j < i ==> (#[trigger] self.blocks@[j]).0 != pos,
            decreases self.blocks@.len() - i,
        {
            if self.blocks[i].0 == pos {
                return Some(i);
            }
            i = i + 1;
        }
        None
    }

    fn find_entity(&self, pos: BlockPos) -> (r: Option<usize>)
        requires
            self.wf(),
        ensures
            match r {
                Some(i) => i < self.entities@.len() && self.entities@[i as int].0 == pos,
                None => forall|i: int| 0 <= i < self.entities@.len() ==> (#[trigger] self.entities@[i]).0 != pos,
            },
    {
        let mut i: usize = 0;
        while i < self.entities.len()
            invariant
                i <= self.entities@.len(),
                forall|j: int| 0 <= j < i ==> (#[trigger] self.entities@[j]).0 != pos,
            decreases self.entities@.len() - i,
        {
            if self.entities[i].0 == pos {
                return Some(i);
            }
            i = i + 1;
        }
        None
    }

    /// The block at `pos`.
    pub fn get_block(&self, pos: BlockPos) -> (b: Block)
        requires
            self.wf(),
        ensures
            b == self.block_at(pos),
    {
        match self.find_block(pos) {
            Some(i) => {
                assert(self.blocks@[i as int].0 == pos);
                self.blocks[i].1
            },
            None => Block::Air,
        }
    }

    /// The block entity at `pos`, if any.
    pub fn get_block_entity(&self, pos: BlockPos) -> (e: Option<&BlockEntity>)
        requires
            self.wf(),
        ensures
            match e {
                Some(e) => self.entity_at(pos) == Some(*e),
                None => self.entity_at(pos) is None,
            },
    {
        match self.find_entity(pos) {
            Some(i) => {
                assert(self.entities@[i as int].0 == pos);
                Some(&self.entities[i].1)
            },
            None => None,
        }
    }

    /// Places `block` at `pos`; no other position changes.
    pub fn set_block(&mut self, pos: BlockPos, block: Block)
        requires
            old(self).wf(),
            pos.in_world(),
        ensures
            final(self).wf(),
            final(self).block_at(pos) == block,
            forall|p: BlockPos| p != pos ==> #[trigger] final(self).block_at(p) == old(self).block_at(p),
            forall|p: BlockPos| #[trigger] final(self).entity_at(p) == old(self).entity_at(p),
    {
        let ghost old_self = *self;
        match self.find_block(pos) {
            Some(i) => {
                self.blocks.set(i, (pos, block));
                assert(self.blocks@[i as int].0 == pos);
                assert forall|p: BlockPos| p != pos implies #[trigger] self.block_at(p) == old_self.block_at(p) by {
                    if exists|k: int| 0 <= k < self.blocks@.len() && (#[trigger] self.blocks@[k]).0 == p {
                        let k = choose|k: int| 0 <= k < self.blocks@.len() && (#[trigger] self.blocks@[k]).0 == p;
                        assert(old_self.blocks@[k].0 == p);
                    }
                    if exists|k: int| 0 <= k < old_self.blocks@.len() && (#[trigger] old_self.blocks@[k]).0 == p {
                        let k = choose|k: int| 0 <= k < old_self.blocks@.len() && (#[trigger] old_self.blocks@[k]).0 == p;
                        assert(self.blocks@[k].0 == p);
                    }
                }
                assert(self.entities@ == old_self.entities@);
            },
            None => {
                self.blocks.push((pos, block));
                let n = self.blocks.len() - 1;
                assert(self.blocks@[n as int].0 == pos);
                assert forall|p: BlockPos| p != pos implies #[trigger] self.block_at(p) == old_self.block_at(p) by {
                    if exists|k: int| 0 <= k < self.blocks@.len() && (#[trigger] self.blocks@[k]).0 == p {
                        let k = choose|k: int| 0 <= k < self.blocks@.len() && (#[trigger] self.blocks@[k]).0 == p;
                        assert(old_self.blocks@[k].0 == p);
                    }
                    if exists|k: int| 0 <= k < old_self.blocks@.len() && (#[trigger] old_self.blocks@[k]).0 == p {
                        let k = choose|k: int| 0 <= k < old_self.blocks@.len() && (#[trigger] old_self.blocks@[k]).0 == p;
                        assert(self.blocks@[k].0 == p);
                    }
                }
                assert(self.entities@ == old_self.entities@);
            },
        }
    }

    /// Attaches `entity` to `pos`, replacing what was there; no other position changes.
    pub fn set_block_entity(&mut self, pos: BlockPos, entity: BlockEntity)
        requires
            old(self).wf(),
        ensures
            final(self).wf(),
            final(self).entity_at(pos) == Some(entity),
            forall|p: BlockPos| p != pos ==> #[trigger] final(self).entity_at(p) == old(self).entity_at(p),
            forall|p: BlockPos| #[trigger] final(self).block_at(p) == old(self).block_at(p),
    {
        let ghost old_self = *self;
        let idx = self.find_entity(pos);
        match idx {
            Some(i) => {
                self.entities.set(i, (pos, entity));
                assert(self.entities@[i as int].0 == pos);
            },
            None => {
                self.entities.push((pos, entity));
                assert(self.entities@[self.entities@.len() - 1].0 == pos);
            },
        }
        assert forall|p: BlockPos| p != pos implies #[trigger] self.entity_at(p) == old_self.entity_at(p) by {
            if exists|k: int| 0 <= k < self.entities@.len() && (#[trigger] self.entities@[k]).0 == p {
                let k = choose|k: int| 0 <= k < self.entities@.len() && (#[trigger] self.entities@[k]).0 == p;
                assert(old_self.entities@[k].0 == p);
            }
            if exists|k: int| 0 <= k < old_self.entities@.len() && (#[trigger] old_self.entities@[k]).0 == p {
                let k = choose|k: int| 0 <= k < old_self.entities@.len() && (#[trigger] old_self.entities@[k]).0 == p;
                assert(self.entities@[k].0 == p);
            }
        }
        assert(self.blocks@ == old_self.blocks@);
    }
}

} // verus!
