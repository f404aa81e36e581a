//! # [`InputSearch`]
//!
//! This pass populates the graph with edges.
//! This pass is *mandatory*. Without it, there would be no links between nodes.
use vstd::prelude::*;
use std::collections::VecDeque;
use crate::blocks::{
    has_override, is_diode, spec_has_override, spec_is_diode, spec_wire_side, wire_side, Block,
    LeverFace, RedstoneWire, RedstoneWireSide, StraightRailShape,
};
use crate::compile_graph::{CompileEdge, CompileGraph, CompileLink, CompileNode, CompilerOptions, LinkType, NodeIdx};
use crate::fx::{pos_map_contains_key, pos_map_get, pos_map_insert, pos_map_new, PosKey, PosMap};
use crate::geometry::{all_faces, lemma_all_faces_complete, lemma_direction_turns, lemma_face_opposite_involutive, BlockDirection, BlockFace, BlockPos, world_limit};
use crate::identify_nodes::{count_unvisited, lemma_count_insert};
use crate::rail::{shape_ends, walk_chain, RailKind, spec_shape_ends, spec_walk_chain};
use crate::world::World;

verus! {

/// The pass that adds the edges between the nodes.
pub struct InputSearch;

/// The position lies within `m` blocks of the world range along every axis.
pub open spec fn in_margin(p: BlockPos, m: int) -> bool {
    &&& -world_limit() - m <= p.x <= world_limit() + m
    &&& -world_limit() - m <= p.y <= world_limit() + m
    &&& -world_limit() - m <= p.z <= world_limit() + m
}

pub open spec fn spec_is_wire(block: Block) -> bool {
    block is RedstoneWire
}

#[verifier::when_used_as_spec(spec_is_wire)]
fn is_wire(block: Block) -> (b: bool)
    ensures
        b == spec_is_wire(block),
{
    matches!(block, Block::RedstoneWire(_))
}

/// Whether `block` powers, weakly or strongly, the block on its `side` side. Note that
/// `side` is the side of the block receiving power, not the side of the block providing
/// power. Wires never match here: custom IO wires only act as power sources once their
/// strength is set at runtime.
pub open spec fn spec_provides_weak_power(block: Block, side: BlockFace) -> bool {
    if block.spec_pressure_plate_powered() is Some {
        true
    } else {
        match block {
            Block::RedstoneTorch { .. } => side != BlockFace::Top,
            Block::RedstoneWallTorch { facing, .. } => facing.spec_block_face() != side,
            Block::RedstoneBlock => true,
            Block::Lever { .. } => true,
            Block::StoneButton { .. } => true,
            Block::Repeater(repeater) => repeater.facing.spec_block_face() == side,
            Block::Comparator(comparator) => comparator.facing.spec_block_face() == side,
            // An observer outputs from its back face, opposite the watched side it faces:
            // it powers the block behind it, which lies opposite `facing`.
            Block::Observer { facing, .. } => facing == side,
            _ => false,
        }
    }
}

/// Whether `block` powers, weakly or strongly, the block on its `side` side.
#[verifier::when_used_as_spec(spec_provides_weak_power)]
pub fn provides_weak_power(block: Block, side: BlockFace) -> (b: bool)
    ensures
        b == spec_provides_weak_power(block, side),
{
    if block.get_pressure_plate_powered().is_some() {
        return true;
    }
    match block {
        Block::RedstoneTorch { .. } => side != BlockFace::Top,
        Block::RedstoneWallTorch { facing, .. } => facing.block_face() != side,
        Block::RedstoneBlock => true,
        Block::Lever { .. } => true,
        Block::StoneButton { .. } => true,
        Block::Repeater(repeater) => repeater.facing.block_face() == side,
        Block::Comparator(comparator) => comparator.facing.block_face() == side,
        Block::Observer { facing, .. } => facing == side,
        _ => false,
    }
}

/// Whether a lever or button attached at `face` and turned `facing` powers the block on
/// its `side` side strongly: the block it is attached to.
pub open spec fn attached_to(face: LeverFace, facing: BlockDirection, side: BlockFace) -> bool {
    match side {
        BlockFace::Top => face == LeverFace::Floor,
        BlockFace::Bottom => face == LeverFace::Ceiling,
        _ => face == LeverFace::Wall && facing == side.spec_unwrap_direction(),
    }
}

/// Whether `block` strongly powers the block on its `side` side. Note that `side` is
/// the side of the block receiving power, not the side of the block providing power.
pub open spec fn spec_provides_strong_power(block: Block, side: BlockFace) -> bool {
    if block.spec_pressure_plate_powered() is Some && side == BlockFace::Top {
        true
    } else {
        match block {
            Block::RedstoneTorch { .. } => side == BlockFace::Bottom,
            Block::RedstoneWallTorch { .. } => side == BlockFace::Bottom,
            Block::Lever { face, facing, .. } => attached_to(face, facing, side),
            Block::StoneButton { face, facing, .. } => attached_to(face, facing, side),
            Block::Repeater(repeater) => repeater.facing.spec_block_face() == side,
            Block::Comparator(comparator) => comparator.facing.spec_block_face() == side,
            Block::Observer { facing, .. } => facing == side,
            _ => false,
        }
    }
}

/// Whether `block` strongly powers the block on its `side` side.
#[verifier::when_used_as_spec(spec_provides_strong_power)]
pub fn provides_strong_power(block: Block, side: BlockFace) -> (b: bool)
    ensures
        b == spec_provides_strong_power(block, side),
{
    if block.get_pressure_plate_powered().is_some() && side == BlockFace::Top {
        return true;
    }
    match block {
        Block::RedstoneTorch { .. } if side == BlockFace::Bottom => true,
        Block::RedstoneWallTorch { .. } if side == BlockFace::Bottom => true,
        Block::Lever { face, facing, .. } => match side {
            BlockFace::Top => face == LeverFace::Floor,
            BlockFace::Bottom => face == LeverFace::Ceiling,
            _ => face == LeverFace::Wall && facing == side.unwrap_direction(),
        },
        Block::StoneButton { face, facing, .. } => match side {
            BlockFace::Top => face == LeverFace::Floor,
            BlockFace::Bottom => face == LeverFace::Ceiling,
            _ => face == LeverFace::Wall && facing == side.unwrap_direction(),
        },
        Block::Repeater(repeater) => repeater.facing.block_face() == side,
        Block::Comparator(comparator) => comparator.facing.block_face() == side,
        Block::Observer { facing, .. } => facing == side,
        _ => false,
    }
}

/// A wall torch powers every neighbor except the block it hangs on: the block on the
/// side opposite its facing, which is the block the torch reads its own input from.
/// Seen from a neighbor that lies towards `f` from the torch (and so receives on its side
/// opposite `f`), the torch powers it exactly when `f` does not point at that wall.
pub proof fn lemma_wall_torch_spares_its_wall(lit: bool, facing: BlockDirection, pos: BlockPos)
    ensures
        forall|side: BlockFace|
            spec_provides_weak_power(Block::RedstoneWallTorch { lit, facing }, side) <==> side != facing.spec_block_face(),
        forall|f: BlockFace|
            #![trigger f.spec_opposite()]
            spec_provides_weak_power(Block::RedstoneWallTorch { lit, facing }, f.spec_opposite()) <==> f
                != facing.spec_opposite().spec_block_face(),
        pos.can_offset() && pos.spec_offset(facing.spec_opposite().spec_block_face()).can_offset() ==> pos.spec_offset(
            facing.spec_opposite().spec_block_face(),
        ).spec_offset(facing.spec_block_face()) == pos,
        !spec_provides_strong_power(Block::RedstoneWallTorch { lit, facing }, facing.spec_block_face()),
{
    assert forall|f: BlockFace|
        #![trigger f.spec_opposite()]
        spec_provides_weak_power(Block::RedstoneWallTorch { lit, facing }, f.spec_opposite()) <==> f
            != facing.spec_opposite().spec_block_face() by {
        lemma_face_opposite_involutive(f);
        lemma_direction_turns(facing);
    }
    lemma_direction_turns(facing);
}

/// Which neighbors each component powers. A neighbor lying towards `f` from the
/// component receives through its side `f.opposite()`:
/// - a standing torch powers every neighbor but the block it stands on, and strongly
///   only the block above it;
/// - a repeater or comparator facing `d` reads its input from the block towards `d`
///   and powers, strongly, only the block on the other side;
/// - an observer facing `f` watches the block towards `f` and powers, strongly, only
///   the block behind it;
/// - a lever, a button, a redstone block and a pressure plate power every neighbor;
///   a pressure plate strongly powers the block below it; wires power none.
pub proof fn lemma_power_directions(f: BlockFace, d: BlockDirection, block: Block)
    ensures
        spec_provides_weak_power(Block::RedstoneTorch { lit: true }, f.spec_opposite()) <==> f != BlockFace::Bottom,
        spec_provides_strong_power(Block::RedstoneTorch { lit: true }, f.spec_opposite()) <==> f == BlockFace::Top,
        block matches Block::Repeater(r) && r.facing == d ==> (spec_provides_weak_power(block, f.spec_opposite()) <==> f
            == d.spec_opposite().spec_block_face()) && (spec_provides_strong_power(block, f.spec_opposite()) <==> f
            == d.spec_opposite().spec_block_face()),
        block matches Block::Comparator(c) && c.facing == d ==> (spec_provides_weak_power(block, f.spec_opposite()) <==> f
            == d.spec_opposite().spec_block_face()) && (spec_provides_strong_power(block, f.spec_opposite()) <==> f
            == d.spec_opposite().spec_block_face()),
        block matches Block::Observer { facing, .. } ==> (spec_provides_weak_power(block, f.spec_opposite()) <==> f
            == facing.spec_opposite()) && (spec_provides_strong_power(block, f.spec_opposite()) <==> f == facing.spec_opposite()),
        block is Lever || block is StoneButton || block is RedstoneBlock || block is PressurePlate ==> spec_provides_weak_power(
            block,
            f,
        ),
        block is PressurePlate ==> (spec_provides_strong_power(block, f.spec_opposite()) <==> f == BlockFace::Bottom),
        block is RedstoneWire ==> !spec_provides_weak_power(block, f) && !spec_provides_strong_power(block, f),
{
    lemma_face_opposite_involutive(f);
    lemma_direction_turns(d);
    match block {
        Block::Observer { facing, .. } => {
            lemma_face_opposite_involutive(facing);
        },
        _ => {},
    }
}

/// Strong power is a kind of power: whatever powers a side strongly also powers it.
pub proof fn lemma_strong_power_is_power(block: Block, side: BlockFace)
    requires
        spec_provides_strong_power(block, side),
    ensures
        spec_provides_weak_power(block, side),
{
}

/// Every node the position map records exists.
pub open spec fn map_bounded(pos_map: Map<PosKey, NodeIdx>, node_count: nat) -> bool {
    forall|k: PosKey| #[trigger] pos_map.contains_key(k) ==> pos_map[k] < node_count
}

/// Querying blocks from the world may be expensive, so we save recently
/// queried blocks in a cache to reduce the number of times we query the world.
pub struct BlockLookupCache<'world> {
    world: &'world World,
    cache: Vec<Option<(Block, BlockPos)>>,
}

impl<'world> BlockLookupCache<'world> {
    /// The world the cache reads.
    pub closed spec fn world(&self) -> &'world World {
        self.world
    }

    /// Each cached block is the block of its position.
    pub closed spec fn wf(&self) -> bool {
        &&& self.world.wf()
        &&& self.cache@.len() == 4096
        &&& forall|i: int|
            0 <= i < 4096 ==> (#[trigger] self.cache@[i] matches Some((block, pos)) ==> block
                == self.world.block_at(pos))
    }

    pub fn new(world: &'world World) -> (c: Self)
        requires
            world.wf(),
        ensures
            c.wf(),
            c.world() == world,
    {
        let mut cache: Vec<Option<(Block, BlockPos)>> = Vec::new();
        let mut i: usize = 0;
        while i < 4096
            invariant
                i <= 4096,
                cache@.len() == i,
                forall|j: int| 0 <= j < i ==> (#[trigger] cache@[j]) is None,
            decreases 4096 - i,
        {
            cache.push(None);
            i = i + 1;
        }
        Self { world, cache }
    }

    /// The block at `pos`, from the cache where it holds that position.
    pub fn get_block(&mut self, pos: BlockPos) -> (b: Block)
        requires
            old(self).wf(),
        ensures
            final(self).wf(),
            final(self).world() == old(self).world(),
            b == old(self).world().block_at(pos),
    {
        let cache_x = (pos.x as u32 % 16) as usize;
        let cache_y = (pos.y as u32 % 16) as usize;
        let cache_z = (pos.z as u32 % 16) as usize;
        let idx = cache_x * 256 + cache_y * 16 + cache_z;
        match self.cache[idx] {
            Some((block, block_pos)) if block_pos == pos => {
                assert(self.cache@[idx as int] matches Some((b, p)) ==> b == self.world.block_at(p));
                block
            },
            _ => {
                let block = self.world.get_block(pos);
                self.cache.set(idx, Some((block, pos)));
                block
            },
        }
    }
}

/// An edge into `start` from `source`.
pub open spec fn edge_into(source: NodeIdx, start: NodeIdx, ty: LinkType, distance: u8) -> CompileEdge {
    CompileEdge { source, target: start, link: CompileLink { ty, ss: distance } }
}

/// The edge from the component behind `face` of `pos` that strongly powers the block at
/// `pos`, if there is one.
pub open spec fn strong_edge(
    world: &World,
    pos_map: Map<PosKey, NodeIdx>,
    pos: BlockPos,
    face: BlockFace,
    ty: LinkType,
    distance: u8,
    start: NodeIdx,
) -> Seq<CompileEdge> {
    let p = pos.spec_offset(face);
    if spec_provides_strong_power(world.block_at(p), face) {
        seq![edge_into(pos_map[p.spec_key()], start, ty, distance)]
    } else {
        Seq::empty()
    }
}

/// The edge from the component at `pos` that weakly powers its `side` side, unless that
/// component is `start` itself.
pub open spec fn weak_edge(
    pos_map: Map<PosKey, NodeIdx>,
    pos: BlockPos,
    ty: LinkType,
    distance: u8,
    start: NodeIdx,
) -> Seq<CompileEdge> {
    if pos_map.contains_key(pos.spec_key()) && pos_map[pos.spec_key()] != start {
        seq![edge_into(pos_map[pos.spec_key()], start, ty, distance)]
    } else {
        Seq::empty()
    }
}

/// The strong-power edges into a solid block at `pos` through its first `n` faces.
pub open spec fn strong_edges(
    world: &World,
    pos_map: Map<PosKey, NodeIdx>,
    pos: BlockPos,
    ty: LinkType,
    distance: u8,
    start: NodeIdx,
    n: nat,
) -> Seq<CompileEdge>
    decreases n,
{
    if n == 0 {
        Seq::empty()
    } else {
        strong_edges(world, pos_map, pos, ty, distance, start, (n - 1) as nat) + strong_edge(
            world,
            pos_map,
            pos,
            all_faces()[n - 1],
            ty,
            distance,
            start,
        )
    }
}

/// The edges a block reached while following a wire contributes: strong power into it
/// when it is solid, weak power out of it otherwise.
pub open spec fn flat_links(
    world: &World,
    pos_map: Map<PosKey, NodeIdx>,
    block: Block,
    side: BlockFace,
    pos: BlockPos,
    ty: LinkType,
    distance: u8,
    start: NodeIdx,
) -> Seq<CompileEdge> {
    if block.spec_is_solid() {
        strong_edges(world, pos_map, pos, ty, distance, start, 6)
    } else if spec_provides_weak_power(block, side) {
        weak_edge(pos_map, pos, ty, distance, start)
    } else {
        Seq::empty()
    }
}

/// An entry of a wire search: a wire position and its distance from the start.
pub type WireEntry = (BlockPos, u8);

pub open spec fn is_discovered(discovered: Seq<WireEntry>, p: BlockPos) -> bool {
    exists|i: int| 0 <= i < discovered.len() && (#[trigger] discovered[i]).0 == p
}

/// Appends `p` at distance `d` when it holds a wire not yet discovered.
pub open spec fn discover(world: &World, discovered: Seq<WireEntry>, p: BlockPos, d: u8) -> Seq<WireEntry> {
    if spec_is_wire(world.block_at(p)) && !is_discovered(discovered, p) {
        discovered.push((p, d))
    } else {
        discovered
    }
}

/// The wires a wire at `pos` with the block `up_block` above it reaches through `face`:
/// the neighbor, and for side faces also the wire one block up (when neither the block
/// above nor the neighbor stops dust from climbing) and one block down (when the
/// neighbor is not solid).
pub open spec fn discover_face(
    world: &World,
    discovered: Seq<WireEntry>,
    pos: BlockPos,
    d: u8,
    up_block: Block,
    face: BlockFace,
) -> Seq<WireEntry> {
    let neighbor_pos = pos.spec_offset(face);
    let neighbor = world.block_at(neighbor_pos);
    let next = (d + 1) as u8;
    let l1 = discover(world, discovered, neighbor_pos, next);
    if face.spec_is_horizontal() {
        let l2 = if !up_block.spec_is_solid() && !neighbor.spec_is_transparent() {
            discover(world, l1, neighbor_pos.spec_offset(BlockFace::Top), next)
        } else {
            l1
        };
        if !neighbor.spec_is_solid() {
            discover(world, l2, neighbor_pos.spec_offset(BlockFace::Bottom), next)
        } else {
            l2
        }
    } else {
        l1
    }
}

pub open spec fn discover_faces(
    world: &World,
    discovered: Seq<WireEntry>,
    pos: BlockPos,
    d: u8,
    n: nat,
) -> Seq<WireEntry>
    decreases n,
{
    if n == 0 {
        discovered
    } else {
        discover_face(
            world,
            discover_faces(world, discovered, pos, d, (n - 1) as nat),
            pos,
            d,
            world.block_at(pos.spec_offset(BlockFace::Top)),
            all_faces()[n - 1],
        )
    }
}

/// The discovered list after expanding entry `i`: wires at distance above 15 are not
/// followed further.
pub open spec fn search_step(world: &World, discovered: Seq<WireEntry>, i: int) -> Seq<WireEntry> {
    let (pos, d) = discovered[i];
    if d > 15 {
        discovered
    } else {
        discover_faces(world, discovered, pos, d, 6)
    }
}

/// The wire search from `root` at distance `d0` after `k` expansions: the discovered
/// list and the number of entries expanded.
pub open spec fn wire_search_state(world: &World, root: BlockPos, d0: u8, k: nat) -> (Seq<WireEntry>, nat)
    decreases k,
{
    if k == 0 {
        (seq![(root, d0)], 0)
    } else {
        let (l, i) = wire_search_state(world, root, d0, (k - 1) as nat);
        if i < l.len() {
            (search_step(world, l, i as int), i + 1)
        } else {
            (l, i)
        }
    }
}

pub open spec fn search_finished(world: &World, root: BlockPos, d0: u8, k: nat) -> bool {
    wire_search_state(world, root, d0, k).1 == wire_search_state(world, root, d0, k).0.len()
}

/// Every wire the search from `root` discovers, with its distance, in discovery order.
pub open spec fn wire_search_result(world: &World, root: BlockPos, d0: u8) -> Seq<WireEntry> {
    wire_search_state(world, root, d0, choose|k: nat| search_finished(world, root, d0, k)).0
}

/// How far a search's start distance lies below the strength at which wires stop.
pub open spec fn dist_room(d: u8) -> nat {
    if d <= 16 {
        (16 - d) as nat
    } else {
        0
    }
}

/// How far a position lies below the top of the world range.
pub open spec fn height_room(p: BlockPos) -> nat {
    if p.y <= world_limit() {
        (world_limit() - p.y) as nat
    } else {
        0
    }
}

/// A search from `root` at distance `d0`, expanding its entry `entry`, follows the wire
/// at `p` on top of it: every entry of such a search is the root itself or lies further
/// away, so the condition on distances always holds for them.
pub open spec fn nests(root: BlockPos, d0: u8, entry: WireEntry, p: BlockPos) -> bool {
    &&& entry.0.in_world()
    &&& p.in_world()
    &&& (entry.1 > d0 || (entry.1 == d0 && entry.0 == root))
}

/// The edges the expansion of one discovered wire contributes through its first `n`
/// faces: what powers each neighbor, and for a wire lying on top of it, what that wire's
/// own line carries.
pub open spec fn entry_edges(
    world: &World,
    pos_map: Map<PosKey, NodeIdx>,
    start: NodeIdx,
    ty: LinkType,
    root: BlockPos,
    d0: u8,
    entry: WireEntry,
    n: nat,
) -> Seq<CompileEdge>
    decreases dist_room(d0), height_room(root), 0nat, n,
{
    if n == 0 || entry.1 > 15 {
        Seq::empty()
    } else {
        let face = all_faces()[n - 1];
        let p = entry.0.spec_offset(face);
        entry_edges(world, pos_map, start, ty, root, d0, entry, (n - 1) as nat) + flat_links(
            world,
            pos_map,
            world.block_at(p),
            face,
            p,
            ty,
            entry.1,
            start,
        ) + if face == BlockFace::Top && spec_is_wire(world.block_at(p)) && nests(root, d0, entry, p) {
            search_edges(world, pos_map, start, p, ty, entry.1)
        } else {
            Seq::empty()
        }
    }
}

/// The edges the expansion of the entries of a search from `root` at `d0` contributes,
/// in order.
pub open spec fn entries_edges(
    world: &World,
    pos_map: Map<PosKey, NodeIdx>,
    start: NodeIdx,
    ty: LinkType,
    root: BlockPos,
    d0: u8,
    entries: Seq<WireEntry>,
) -> Seq<CompileEdge>
    decreases dist_room(d0), height_room(root), 1nat, entries.len(),
{
    if entries.len() == 0 {
        Seq::empty()
    } else {
        entries_edges(world, pos_map, start, ty, root, d0, entries.drop_last()) + entry_edges(
            world,
            pos_map,
            start,
            ty,
            root,
            d0,
            entries.last(),
            6,
        )
    }
}

/// The edges into `start` found by following the wire at `root` from distance `d0`.
pub open spec fn search_edges(
    world: &World,
    pos_map: Map<PosKey, NodeIdx>,
    start: NodeIdx,
    root: BlockPos,
    ty: LinkType,
    d0: u8,
) -> Seq<CompileEdge>
    decreases dist_room(d0), height_room(root), 2nat, 0nat,
{
    entries_edges(world, pos_map, start, ty, root, d0, wire_search_result(world, root, d0))
}

/// The edges into `start` that reach a wire at `p` through its `side` side: a wire
/// below a block is followed; a wire beside it is followed (when `follow_side`) if it
/// points towards the block.
pub open spec fn wire_links(
    world: &World,
    pos_map: Map<PosKey, NodeIdx>,
    p: BlockPos,
    side: BlockFace,
    wire: RedstoneWire,
    ty: LinkType,
    distance: u8,
    start: NodeIdx,
    follow_side: bool,
) -> Seq<CompileEdge> {
    match side {
        BlockFace::Top => search_edges(world, pos_map, start, p, ty, distance),
        BlockFace::Bottom => Seq::empty(),
        _ => if follow_side && spec_wire_side(wire, side.spec_unwrap_direction().spec_opposite())
            != RedstoneWireSide::Unconnected {
            search_edges(world, pos_map, start, p, ty, distance)
        } else {
            Seq::empty()
        },
    }
}

/// The edges into `start` through the first `n` faces of a solid block at `pos`: strong
/// power, and (when `search_wire`) the wires powering the block.
pub open spec fn solid_links(
    world: &World,
    pos_map: Map<PosKey, NodeIdx>,
    pos: BlockPos,
    ty: LinkType,
    distance: u8,
    start: NodeIdx,
    search_wire: bool,
    n: nat,
) -> Seq<CompileEdge>
    decreases n,
{
    if n == 0 {
        Seq::empty()
    } else {
        let face = all_faces()[n - 1];
        let p = pos.spec_offset(face);
        solid_links(world, pos_map, pos, ty, distance, start, search_wire, (n - 1) as nat)
            + strong_edge(world, pos_map, pos, face, ty, distance, start) + match world.block_at(p) {
            Block::RedstoneWire(wire) => if search_wire {
                wire_links(world, pos_map, p, face, wire, ty, distance, start, true)
            } else {
                Seq::empty()
            },
            _ => Seq::empty(),
        }
    }
}

/// The edges into `start` that power the block `block` at `pos` through its `side` side,
/// with the loss `distance`.
pub open spec fn redstone_links(
    world: &World,
    pos_map: Map<PosKey, NodeIdx>,
    block: Block,
    side: BlockFace,
    pos: BlockPos,
    ty: LinkType,
    distance: u8,
    start: NodeIdx,
    search_wire: bool,
) -> Seq<CompileEdge> {
    if block.spec_is_solid() {
        solid_links(world, pos_map, pos, ty, distance, start, search_wire, 6)
    } else if spec_provides_weak_power(block, side) {
        weak_edge(pos_map, pos, ty, distance, start)
    } else {
        match block {
            Block::RedstoneWire(wire) => wire_links(world, pos_map, pos, side, wire, ty, distance, start, search_wire),
            _ => Seq::empty(),
        }
    }
}

/// The components that strongly power a block at `pos` all have nodes: the search looks
/// their nodes up when it passes through a solid block there.
pub open spec fn strong_sources_mapped(world: &World, pos_map: Map<PosKey, NodeIdx>, pos: BlockPos) -> bool {
    forall|f: BlockFace|
        #[trigger] spec_provides_strong_power(world.block_at(pos.spec_offset(f)), f) ==> pos_map.contains_key(
            pos.spec_offset(f).spec_key(),
        )
}

/// Every node the expansion of `entry` through its first `n` faces looks up exists.
pub open spec fn entry_lookups_ok(
    world: &World,
    pos_map: Map<PosKey, NodeIdx>,
    root: BlockPos,
    d0: u8,
    entry: WireEntry,
    n: nat,
) -> bool
    decreases dist_room(d0), height_room(root), 0nat, n,
{
    if n == 0 || entry.1 > 15 {
        true
    } else {
        let face = all_faces()[n - 1];
        let p = entry.0.spec_offset(face);
        &&& entry_lookups_ok(world, pos_map, root, d0, entry, (n - 1) as nat)
        &&& (world.block_at(p).spec_is_solid() ==> strong_sources_mapped(world, pos_map, p))
        &&& (face == BlockFace::Top && spec_is_wire(world.block_at(p)) && nests(root, d0, entry, p)
            ==> search_lookups_ok(world, pos_map, p, entry.1))
    }
}

/// Every node the expansion of the entries looks up exists.
pub open spec fn entries_lookups_ok(
    world: &World,
    pos_map: Map<PosKey, NodeIdx>,
    root: BlockPos,
    d0: u8,
    entries: Seq<WireEntry>,
) -> bool
    decreases dist_room(d0), height_room(root), 1nat, entries.len(),
{
    if entries.len() == 0 {
        true
    } else {
        entries_lookups_ok(world, pos_map, root, d0, entries.drop_last()) && entry_lookups_ok(
            world,
            pos_map,
            root,
            d0,
            entries.last(),
            6,
        )
    }
}

/// Every node the wire search from `root` at `d0` looks up exists, at every stage of
/// the search.
pub open spec fn search_lookups_ok(world: &World, pos_map: Map<PosKey, NodeIdx>, root: BlockPos, d0: u8) -> bool
    decreases dist_room(d0), height_room(root), 2nat, 0nat,
{
    forall|k: nat| entries_lookups_ok(world, pos_map, root, d0, #[trigger] wire_search_state(world, root, d0, k).0)
}

/// Every node following the wire at `p`, reached through its `side` side, looks up
/// exists.
pub open spec fn wire_lookups_ok(
    world: &World,
    pos_map: Map<PosKey, NodeIdx>,
    p: BlockPos,
    side: BlockFace,
    wire: RedstoneWire,
    distance: u8,
    follow_side: bool,
) -> bool {
    match side {
        BlockFace::Top => search_lookups_ok(world, pos_map, p, distance),
        BlockFace::Bottom => true,
        _ => follow_side && spec_wire_side(wire, side.spec_unwrap_direction().spec_opposite())
            != RedstoneWireSide::Unconnected ==> search_lookups_ok(world, pos_map, p, distance),
    }
}

/// Every node the search for what powers a solid block at `pos` looks up exists.
pub open spec fn solid_lookups_ok(
    world: &World,
    pos_map: Map<PosKey, NodeIdx>,
    pos: BlockPos,
    distance: u8,
    search_wire: bool,
) -> bool {
    &&& strong_sources_mapped(world, pos_map, pos)
    &&& forall|f: BlockFace|
        search_wire && (#[trigger] world.block_at(pos.spec_offset(f))) is RedstoneWire ==> wire_lookups_ok(
            world,
            pos_map,
            pos.spec_offset(f),
            f,
            world.block_at(pos.spec_offset(f))->RedstoneWire_0,
            distance,
            true,
        )
}

/// Every node the search for what powers `block` at `pos` through its `side` side looks
/// up exists.
pub open spec fn links_lookups_ok(
    world: &World,
    pos_map: Map<PosKey, NodeIdx>,
    block: Block,
    side: BlockFace,
    pos: BlockPos,
    distance: u8,
    search_wire: bool,
) -> bool {
    if block.spec_is_solid() {
        solid_lookups_ok(world, pos_map, pos, distance, search_wire)
    } else if spec_provides_weak_power(block, side) {
        true
    } else {
        match block {
            Block::RedstoneWire(wire) => wire_lookups_ok(world, pos_map, pos, side, wire, distance, search_wire),
            _ => true,
        }
    }
}

/// Every node the search for what powers the neighbors of `pos` looks up exists.
pub open spec fn around_lookups_ok(world: &World, pos_map: Map<PosKey, NodeIdx>, pos: BlockPos) -> bool {
    forall|f: BlockFace|
        #[trigger] links_lookups_ok(world, pos_map, world.block_at(pos.spec_offset(f)), f, pos.spec_offset(f), 0, true)
}

/// Every node a diode at `pos` facing `facing` looks up for its input exists.
pub open spec fn diode_input_lookups_ok(world: &World, pos_map: Map<PosKey, NodeIdx>, pos: BlockPos, facing: BlockDirection) -> bool {
    let input_pos = pos.spec_offset(facing.spec_block_face());
    links_lookups_ok(world, pos_map, world.block_at(input_pos), facing.spec_block_face(), input_pos, 0, true)
}

/// A diode beside a repeater, pointing into it, has a node.
pub open spec fn repeater_side_lookups_ok(world: &World, pos_map: Map<PosKey, NodeIdx>, pos: BlockPos, side: BlockDirection) -> bool {
    let side_pos = pos.spec_offset(side.spec_block_face());
    let side_block = world.block_at(side_pos);
    spec_is_diode(side_block) && spec_provides_weak_power(side_block, side.spec_block_face()) ==> pos_map.contains_key(
        side_pos.spec_key(),
    )
}

/// Every node a comparator at `pos` looks up beside it, towards `side`, exists.
pub open spec fn comparator_side_lookups_ok(
    world: &World,
    pos_map: Map<PosKey, NodeIdx>,
    custom_io: Seq<BlockPos>,
    pos: BlockPos,
    side: BlockDirection,
) -> bool {
    let side_pos = pos.spec_offset(side.spec_block_face());
    let side_block = world.block_at(side_pos);
    let is_custom_io_wire = spec_is_wire(side_block) && custom_io.contains(side_pos);
    if (spec_is_diode(side_block) && spec_provides_weak_power(side_block, side.spec_block_face()))
        || side_block is RedstoneBlock || is_custom_io_wire {
        true
    } else if spec_is_wire(side_block) {
        search_lookups_ok(world, pos_map, side_pos, 0)
    } else {
        true
    }
}

/// Every node the search around each position of `ps` looks up exists.
pub open spec fn chain_lookups_ok(world: &World, pos_map: Map<PosKey, NodeIdx>, ps: Seq<BlockPos>) -> bool {
    forall|i: int| 0 <= i < ps.len() ==> around_lookups_ok(world, pos_map, #[trigger] ps[i])
}

proof fn lemma_solid_links_flat(
    world: &World,
    pos_map: Map<PosKey, NodeIdx>,
    pos: BlockPos,
    ty: LinkType,
    distance: u8,
    start: NodeIdx,
    n: nat,
)
    ensures
        solid_links(world, pos_map, pos, ty, distance, start, false, n) == strong_edges(world, pos_map, pos, ty, distance, start, n),
    decreases n,
{
    if n > 0 {
        lemma_solid_links_flat(world, pos_map, pos, ty, distance, start, (n - 1) as nat);
        let p = pos.spec_offset(all_faces()[n - 1]);
        assert(solid_links(world, pos_map, pos, ty, distance, start, false, n) =~= solid_links(world, pos_map, pos, ty, distance, start, false, (n - 1) as nat)
            + strong_edge(world, pos_map, pos, all_faces()[n - 1], ty, distance, start));
    }
}

/// Without wire following, the links of a block are the flat ones, and for a wire
/// above its neighbor (where `nest` holds) those of that wire's own line.
proof fn lemma_links_flat(
    world: &World,
    pos_map: Map<PosKey, NodeIdx>,
    block: Block,
    side: BlockFace,
    pos: BlockPos,
    ty: LinkType,
    distance: u8,
    start: NodeIdx,
    nest: bool,
)
    requires
        spec_is_wire(block) && side == BlockFace::Top ==> nest,
    ensures
        redstone_links(world, pos_map, block, side, pos, ty, distance, start, false) == flat_links(world, pos_map, block, side, pos, ty, distance, start)
            + if side == BlockFace::Top && spec_is_wire(block) && nest {
            search_edges(world, pos_map, start, pos, ty, distance)
        } else {
            Seq::empty()
        },
{
    lemma_solid_links_flat(world, pos_map, pos, ty, distance, start, 6);
    let flat = flat_links(world, pos_map, block, side, pos, ty, distance, start);
    if !block.spec_is_solid() && !spec_provides_weak_power(block, side) {
        match block {
            Block::RedstoneWire(wire) => {
                assert(flat =~= Seq::empty());
                if side == BlockFace::Top {
                    assert(flat + search_edges(world, pos_map, start, pos, ty, distance) =~= search_edges(world, pos_map, start, pos, ty, distance));
                } else {
                    assert(wire_links(world, pos_map, pos, side, wire, ty, distance, start, false) =~= Seq::empty());
                    assert(flat + Seq::<CompileEdge>::empty() =~= flat);
                }
            },
            _ => {
                assert(flat + Seq::<CompileEdge>::empty() =~= flat);
            },
        }
    } else {
        assert(flat + Seq::<CompileEdge>::empty() =~= flat);
    }
}

/// Expanding an entry looks up the strong sources of a solid neighbor, and the nodes of
/// the line of a wire lying on top of it.
proof fn lemma_entry_lookups_face(
    world: &World,
    pos_map: Map<PosKey, NodeIdx>,
    root: BlockPos,
    d0: u8,
    entry: WireEntry,
    n: nat,
    j: nat,
)
    requires
        entry_lookups_ok(world, pos_map, root, d0, entry, n),
        j < n,
        entry.1 <= 15,
    ensures
        world.block_at(entry.0.spec_offset(all_faces()[j as int])).spec_is_solid() ==> strong_sources_mapped(
            world,
            pos_map,
            entry.0.spec_offset(all_faces()[j as int]),
        ),
        all_faces()[j as int] == BlockFace::Top && spec_is_wire(world.block_at(entry.0.spec_offset(all_faces()[j as int])))
            && nests(root, d0, entry, entry.0.spec_offset(all_faces()[j as int])) ==> search_lookups_ok(
            world,
            pos_map,
            entry.0.spec_offset(all_faces()[j as int]),
            entry.1,
        ),
    decreases n,
{
    if j < n - 1 {
        lemma_entry_lookups_face(world, pos_map, root, d0, entry, (n - 1) as nat, j);
    }
}

/// Each entry of a list whose lookups are all defined has its lookups defined.
proof fn lemma_entries_lookups_at(
    world: &World,
    pos_map: Map<PosKey, NodeIdx>,
    root: BlockPos,
    d0: u8,
    entries: Seq<WireEntry>,
    i: int,
)
    requires
        entries_lookups_ok(world, pos_map, root, d0, entries),
        0 <= i < entries.len(),
    ensures
        entry_lookups_ok(world, pos_map, root, d0, entries[i], 6),
    decreases entries.len(),
{
    if i < entries.len() - 1 {
        lemma_entries_lookups_at(world, pos_map, root, d0, entries.drop_last(), i);
    }
}

/// Once the search has expanded every entry, further steps change nothing.
proof fn lemma_search_stays_finished(world: &World, root: BlockPos, d0: u8, k: nat, k2: nat)
    requires
        search_finished(world, root, d0, k),
        k <= k2,
    ensures
        wire_search_state(world, root, d0, k2) == wire_search_state(world, root, d0, k),
    decreases k2 - k,
{
    if k2 > k {
        lemma_search_stays_finished(world, root, d0, k, (k2 - 1) as nat);
    }
}

/// Every finished state of a search is the same: the search has one result.
proof fn lemma_search_result(world: &World, root: BlockPos, d0: u8, k: nat)
    requires
        search_finished(world, root, d0, k),
    ensures
        wire_search_result(world, root, d0) == wire_search_state(world, root, d0, k).0,
{
    let c = choose|c: nat| search_finished(world, root, d0, c);
    if c <= k {
        lemma_search_stays_finished(world, root, d0, c, k);
    } else {
        lemma_search_stays_finished(world, root, d0, k, c);
    }
}


/// The state of the search for what a custom IO wire powers: the queue of wires to
/// expand, the distance of every wire reached, and the edges added so far.
pub type OutputSearch = (Seq<BlockPos>, Map<PosKey, u8>, Seq<CompileEdge>);

/// An edge out of the wire node `wire_node`.
pub open spec fn edge_from(wire_node: NodeIdx, target: NodeIdx, ty: LinkType, ss: u8) -> CompileEdge {
    CompileEdge { source: wire_node, target, link: CompileLink { ty, ss } }
}

/// Reaching the position `q` at distance `d`: when it holds a wire with a node that was
/// not reached yet, an edge to it is added and it is queued.
pub open spec fn reach_wire(
    world: &World,
    pos_map: Map<PosKey, NodeIdx>,
    wire_node: NodeIdx,
    s: OutputSearch,
    q: BlockPos,
    d: u8,
) -> OutputSearch {
    if spec_is_wire(world.block_at(q)) && pos_map.contains_key(q.spec_key()) && !s.1.contains_key(q.spec_key()) {
        (s.0.push(q), s.1.insert(q.spec_key(), d), s.2.push(edge_from(wire_node, pos_map[q.spec_key()], LinkType::Default, d)))
    } else {
        s
    }
}

/// The edge to the component at `nb`, beside a wire through the wire's face `face`,
/// that the wire powers: lamps, trapdoors and note blocks, a torch on top, a repeater or
/// comparator whose back faces the wire, and the side of a comparator.
pub open spec fn component_edge(
    world: &World,
    pos_map: Map<PosKey, NodeIdx>,
    wire_node: NodeIdx,
    nb: BlockPos,
    face: BlockFace,
    d: u8,
) -> Seq<CompileEdge> {
    if pos_map.contains_key(nb.spec_key()) {
        let node = pos_map[nb.spec_key()];
        match world.block_at(nb) {
            Block::RedstoneLamp { .. } | Block::IronTrapdoor { .. } | Block::NoteBlock { .. } => seq![
                edge_from(wire_node, node, LinkType::Default, d),
            ],
            Block::RedstoneTorch { .. } => if face == BlockFace::Top {
                seq![edge_from(wire_node, node, LinkType::Default, d)]
            } else {
                Seq::empty()
            },
            Block::Repeater(repeater) => if repeater.facing.spec_opposite().spec_block_face() == face {
                seq![edge_from(wire_node, node, LinkType::Default, d)]
            } else {
                Seq::empty()
            },
            Block::Comparator(comparator) => if comparator.facing.spec_opposite().spec_block_face() == face {
                seq![edge_from(wire_node, node, LinkType::Default, d)]
            } else if face == comparator.facing.spec_rotate_ccw().spec_block_face() || face
                == comparator.facing.spec_rotate().spec_block_face() {
                seq![edge_from(wire_node, node, LinkType::Side, d)]
            } else {
                Seq::empty()
            },
            _ => Seq::empty(),
        }
    } else {
        Seq::empty()
    }
}

/// The edge to the component behind the face `block_side` of the solid block `nb` that
/// the powered block powers: a torch on top, a wall torch attached to that face, a lamp,
/// trapdoor or note block.
pub open spec fn solid_component_edge(
    world: &World,
    pos_map: Map<PosKey, NodeIdx>,
    wire_node: NodeIdx,
    nb: BlockPos,
    block_side: BlockFace,
    d: u8,
) -> Seq<CompileEdge> {
    let c = nb.spec_offset(block_side);
    if pos_map.contains_key(c.spec_key()) {
        let node = pos_map[c.spec_key()];
        match world.block_at(c) {
            Block::RedstoneTorch { .. } => if block_side == BlockFace::Top {
                seq![edge_from(wire_node, node, LinkType::Default, d)]
            } else {
                Seq::empty()
            },
            Block::RedstoneWallTorch { facing, .. } => if facing.spec_block_face() == block_side {
                seq![edge_from(wire_node, node, LinkType::Default, d)]
            } else {
                Seq::empty()
            },
            Block::RedstoneLamp { .. } | Block::IronTrapdoor { .. } | Block::NoteBlock { .. } => seq![
                edge_from(wire_node, node, LinkType::Default, d),
            ],
            _ => Seq::empty(),
        }
    } else {
        Seq::empty()
    }
}

pub open spec fn solid_component_edges(
    world: &World,
    pos_map: Map<PosKey, NodeIdx>,
    wire_node: NodeIdx,
    nb: BlockPos,
    d: u8,
    n: nat,
) -> Seq<CompileEdge>
    decreases n,
{
    if n == 0 {
        Seq::empty()
    } else {
        solid_component_edges(world, pos_map, wire_node, nb, d, (n - 1) as nat) + solid_component_edge(
            world,
            pos_map,
            wire_node,
            nb,
            all_faces()[n - 1],
            d,
        )
    }
}

pub open spec fn add_edges(s: OutputSearch, e: Seq<CompileEdge>) -> OutputSearch {
    (s.0, s.1, s.2 + e)
}

/// Expanding a wire at `pos`, at distance `d` and with `up_block` above it, through `face`.
pub open spec fn output_face(
    world: &World,
    pos_map: Map<PosKey, NodeIdx>,
    wire_node: NodeIdx,
    s: OutputSearch,
    pos: BlockPos,
    d: u8,
    up_block: Block,
    face: BlockFace,
) -> OutputSearch {
    let nb = pos.spec_offset(face);
    let nbb = world.block_at(nb);
    let next = (d + 1) as u8;
    let s1 = reach_wire(world, pos_map, wire_node, s, nb, next);
    let s2 = add_edges(s1, component_edge(world, pos_map, wire_node, nb, face, d));
    let s3 = if nbb.spec_is_solid() {
        add_edges(s2, solid_component_edges(world, pos_map, wire_node, nb, d, 6))
    } else {
        s2
    };
    if face.spec_is_horizontal() {
        let s4 = if !up_block.spec_is_solid() && !nbb.spec_is_transparent() {
            reach_wire(world, pos_map, wire_node, s3, nb.spec_offset(BlockFace::Top), next)
        } else {
            s3
        };
        if !nbb.spec_is_solid() {
            reach_wire(world, pos_map, wire_node, s4, nb.spec_offset(BlockFace::Bottom), next)
        } else {
            s4
        }
    } else {
        s3
    }
}

pub open spec fn output_faces(
    world: &World,
    pos_map: Map<PosKey, NodeIdx>,
    wire_node: NodeIdx,
    s: OutputSearch,
    pos: BlockPos,
    d: u8,
    n: nat,
) -> OutputSearch
    decreases n,
{
    if n == 0 {
        s
    } else {
        output_face(
            world,
            pos_map,
            wire_node,
            output_faces(world, pos_map, wire_node, s, pos, d, (n - 1) as nat),
            pos,
            d,
            world.block_at(pos.spec_offset(BlockFace::Top)),
            all_faces()[n - 1],
        )
    }
}

/// Expanding the wire at the front of the queue; wires at distance above 15 are not
/// followed further.
pub open spec fn output_step(world: &World, pos_map: Map<PosKey, NodeIdx>, wire_node: NodeIdx, s: OutputSearch) -> OutputSearch {
    let pos = s.0[0];
    let rest = (s.0.drop_first(), s.1, s.2);
    let d = s.1[pos.spec_key()];
    if d > 15 {
        rest
    } else {
        output_faces(world, pos_map, wire_node, rest, pos, d, 6)
    }
}

/// The search from the wire at `root` after `k` expansions.
pub open spec fn output_state(
    world: &World,
    pos_map: Map<PosKey, NodeIdx>,
    wire_node: NodeIdx,
    root: BlockPos,
    base: Seq<CompileEdge>,
    k: nat,
) -> OutputSearch
    decreases k,
{
    if k == 0 {
        (seq![root], Map::empty().insert(root.spec_key(), 0u8), base)
    } else {
        let s = output_state(world, pos_map, wire_node, root, base, (k - 1) as nat);
        if s.0.len() > 0 {
            output_step(world, pos_map, wire_node, s)
        } else {
            s
        }
    }
}

pub open spec fn output_finished(world: &World, pos_map: Map<PosKey, NodeIdx>, wire_node: NodeIdx, root: BlockPos, k: nat) -> bool {
    output_state(world, pos_map, wire_node, root, Seq::empty(), k).0.len() == 0
}

/// The edges out of the custom IO wire node `wire_node` at `root`: to every wire node
/// its line reaches, with the distance, and to every component those wires power.
pub open spec fn wire_output_edges(world: &World, pos_map: Map<PosKey, NodeIdx>, wire_node: NodeIdx, root: BlockPos) -> Seq<CompileEdge> {
    output_state(world, pos_map, wire_node, root, Seq::empty(), choose|k: nat| output_finished(world, pos_map, wire_node, root, k)).2
}

proof fn lemma_output_stays_finished(world: &World, pos_map: Map<PosKey, NodeIdx>, wire_node: NodeIdx, root: BlockPos, k: nat, k2: nat)
    requires
        output_finished(world, pos_map, wire_node, root, k),
        k <= k2,
    ensures
        output_state(world, pos_map, wire_node, root, Seq::empty(), k2) == output_state(world, pos_map, wire_node, root, Seq::empty(), k),
    decreases k2 - k,
{
    if k2 > k {
        lemma_output_stays_finished(world, pos_map, wire_node, root, k, (k2 - 1) as nat);
    }
}

proof fn lemma_output_result(world: &World, pos_map: Map<PosKey, NodeIdx>, wire_node: NodeIdx, root: BlockPos, k: nat)
    requires
        output_finished(world, pos_map, wire_node, root, k),
    ensures
        wire_output_edges(world, pos_map, wire_node, root) == output_state(world, pos_map, wire_node, root, Seq::empty(), k).2,
{
    let c = choose|c: nat| output_finished(world, pos_map, wire_node, root, c);
    if c <= k {
        lemma_output_stays_finished(world, pos_map, wire_node, root, c, k);
    } else {
        lemma_output_stays_finished(world, pos_map, wire_node, root, k, c);
    }
}


/// Edges already in the graph before the search are carried along unchanged.
pub open spec fn rebased(s: OutputSearch, base: Seq<CompileEdge>) -> OutputSearch {
    (s.0, s.1, base + s.2)
}

proof fn lemma_reach_rebased(world: &World, pos_map: Map<PosKey, NodeIdx>, wire_node: NodeIdx, s: OutputSearch, q: BlockPos, d: u8, base: Seq<CompileEdge>)
    ensures
        reach_wire(world, pos_map, wire_node, rebased(s, base), q, d) == rebased(reach_wire(world, pos_map, wire_node, s, q, d), base),
{
    assert((base + s.2).push(edge_from(wire_node, pos_map[q.spec_key()], LinkType::Default, d)) =~= base + s.2.push(edge_from(wire_node, pos_map[q.spec_key()], LinkType::Default, d)));
}

proof fn lemma_add_rebased(s: OutputSearch, e: Seq<CompileEdge>, base: Seq<CompileEdge>)
    ensures
        add_edges(rebased(s, base), e) == rebased(add_edges(s, e), base),
{
    assert((base + s.2) + e =~= base + (s.2 + e));
}

proof fn lemma_face_rebased(world: &World, pos_map: Map<PosKey, NodeIdx>, wire_node: NodeIdx, s: OutputSearch, pos: BlockPos, d: u8, up_block: Block, face: BlockFace, base: Seq<CompileEdge>)
    ensures
        output_face(world, pos_map, wire_node, rebased(s, base), pos, d, up_block, face) == rebased(output_face(world, pos_map, wire_node, s, pos, d, up_block, face), base),
{
    let nb = pos.spec_offset(face);
    let next = (d + 1) as u8;
    lemma_reach_rebased(world, pos_map, wire_node, s, nb, next, base);
    let s1 = reach_wire(world, pos_map, wire_node, s, nb, next);
    lemma_add_rebased(s1, component_edge(world, pos_map, wire_node, nb, face, d), base);
    let s2 = add_edges(s1, component_edge(world, pos_map, wire_node, nb, face, d));
    lemma_add_rebased(s2, solid_component_edges(world, pos_map, wire_node, nb, d, 6), base);
    let s3 = if world.block_at(nb).spec_is_solid() {
        add_edges(s2, solid_component_edges(world, pos_map, wire_node, nb, d, 6))
    } else {
        s2
    };
    lemma_reach_rebased(world, pos_map, wire_node, s3, nb.spec_offset(BlockFace::Top), next, base);
    let s4 = if !up_block.spec_is_solid() && !world.block_at(nb).spec_is_transparent() {
        reach_wire(world, pos_map, wire_node, s3, nb.spec_offset(BlockFace::Top), next)
    } else {
        s3
    };
    lemma_reach_rebased(world, pos_map, wire_node, s4, nb.spec_offset(BlockFace::Bottom), next, base);
}

proof fn lemma_faces_rebased(world: &World, pos_map: Map<PosKey, NodeIdx>, wire_node: NodeIdx, s: OutputSearch, pos: BlockPos, d: u8, n: nat, base: Seq<CompileEdge>)
    ensures
        output_faces(world, pos_map, wire_node, rebased(s, base), pos, d, n) == rebased(output_faces(world, pos_map, wire_node, s, pos, d, n), base),
    decreases n,
{
    if n > 0 {
        lemma_faces_rebased(world, pos_map, wire_node, s, pos, d, (n - 1) as nat, base);
        lemma_face_rebased(
            world,
            pos_map,
            wire_node,
            output_faces(world, pos_map, wire_node, s, pos, d, (n - 1) as nat),
            pos,
            d,
            world.block_at(pos.spec_offset(BlockFace::Top)),
            all_faces()[n - 1],
            base,
        );
    }
}

proof fn lemma_state_rebased(world: &World, pos_map: Map<PosKey, NodeIdx>, wire_node: NodeIdx, root: BlockPos, base: Seq<CompileEdge>, k: nat)
    ensures
        output_state(world, pos_map, wire_node, root, base, k) == rebased(output_state(world, pos_map, wire_node, root, Seq::empty(), k), base),
    decreases k,
{
    if k == 0 {
        assert(base + Seq::<CompileEdge>::empty() =~= base);
    } else {
        lemma_state_rebased(world, pos_map, wire_node, root, base, (k - 1) as nat);
        let s = output_state(world, pos_map, wire_node, root, Seq::empty(), (k - 1) as nat);
        if s.0.len() > 0 {
            let pos = s.0[0];
            let rest = (s.0.drop_first(), s.1, s.2);
            assert(rebased(rest, base) == (rebased(s, base).0.drop_first(), rebased(s, base).1, rebased(s, base).2));
            lemma_faces_rebased(world, pos_map, wire_node, rest, pos, s.1[pos.spec_key()], 6, base);
        }
    }
}

/// The queued positions have a recorded distance, and the queued and recorded positions
/// are the root or wires.
pub open spec fn output_queue_ok(world: &World, s: OutputSearch, root: BlockPos) -> bool {
    &&& forall|i: int| 0 <= i < s.0.len() ==> s.1.contains_key((#[trigger] s.0[i]).spec_key())
    &&& forall|i: int| 0 <= i < s.0.len() ==> s.0[i] == root || spec_is_wire(world.block_at(#[trigger] s.0[i]))
    &&& forall|p: BlockPos| #[trigger] s.1.contains_key(p.spec_key()) ==> p == root || spec_is_wire(world.block_at(p))
}


/// A reach keeps the queue in order and lowers the termination measure when it queues.
proof fn lemma_reach_progress(world: &World, pos_map: Map<PosKey, NodeIdx>, wire_node: NodeIdx, s: OutputSearch, q: BlockPos, d: u8, root: BlockPos)
    requires
        world.wf(),
        output_queue_ok(world, s, root),
    ensures
        output_queue_ok(world, reach_wire(world, pos_map, wire_node, s, q, d), root),
        2 * count_unvisited(world.positions(), reach_wire(world, pos_map, wire_node, s, q, d).1.dom())
            + reach_wire(world, pos_map, wire_node, s, q, d).0.len()
            <= 2 * count_unvisited(world.positions(), s.1.dom()) + s.0.len(),
{
    let r = reach_wire(world, pos_map, wire_node, s, q, d);
    if r != s {
        world.lemma_positions();
        lemma_count_insert(world.positions(), s.1.dom(), q);
        assert(r.1.dom() =~= s.1.dom().insert(q.spec_key()));
        assert forall|i: int| 0 <= i < r.0.len() implies r.1.contains_key((#[trigger] r.0[i]).spec_key()) && (r.0[i] == root || spec_is_wire(world.block_at(r.0[i]))) by {
            if i < s.0.len() {
                assert(r.0[i] == s.0[i]);
            }
        }
        assert forall|p: BlockPos| #[trigger] r.1.contains_key(p.spec_key()) implies p == root || spec_is_wire(world.block_at(p)) by {
            if p != q {
                assert(s.1.contains_key(p.spec_key()));
            }
        }
    }
}


/// The edges into `id` from whatever powers the neighbors of `pos` through its first `n`
/// faces.
pub open spec fn around_links(world: &World, pos_map: Map<PosKey, NodeIdx>, id: NodeIdx, pos: BlockPos, n: nat) -> Seq<CompileEdge>
    decreases n,
{
    if n == 0 {
        Seq::empty()
    } else {
        let face = all_faces()[n - 1];
        let p = pos.spec_offset(face);
        around_links(world, pos_map, id, pos, (n - 1) as nat) + redstone_links(
            world,
            pos_map,
            world.block_at(p),
            face,
            p,
            LinkType::Default,
            0,
            id,
            true,
        )
    }
}

/// The edges into the diode `id` at `pos` from what powers its input, in front of it.
pub open spec fn diode_input_links(world: &World, pos_map: Map<PosKey, NodeIdx>, id: NodeIdx, pos: BlockPos, facing: BlockDirection) -> Seq<CompileEdge> {
    let input_pos = pos.spec_offset(facing.spec_block_face());
    redstone_links(world, pos_map, world.block_at(input_pos), facing.spec_block_face(), input_pos, LinkType::Default, 0, id, true)
}

/// The side edge into the repeater `id` at `pos` from a diode beside it, towards `side`,
/// that points into it.
pub open spec fn repeater_side_links(world: &World, pos_map: Map<PosKey, NodeIdx>, id: NodeIdx, pos: BlockPos, side: BlockDirection) -> Seq<CompileEdge> {
    let side_pos = pos.spec_offset(side.spec_block_face());
    let side_block = world.block_at(side_pos);
    if spec_is_diode(side_block) && spec_provides_weak_power(side_block, side.spec_block_face()) {
        seq![edge_into(pos_map[side_pos.spec_key()], id, LinkType::Side, 0)]
    } else {
        Seq::empty()
    }
}

/// The side edges into the comparator `id` at `pos` from beside it, towards `side`: from
/// a diode pointing into it, a redstone block, or a custom IO wire; or else from what
/// powers a wire there.
pub open spec fn comparator_side_links(
    world: &World,
    pos_map: Map<PosKey, NodeIdx>,
    custom_io: Seq<BlockPos>,
    id: NodeIdx,
    pos: BlockPos,
    side: BlockDirection,
) -> Seq<CompileEdge> {
    let side_pos = pos.spec_offset(side.spec_block_face());
    let side_block = world.block_at(side_pos);
    let is_custom_io_wire = spec_is_wire(side_block) && custom_io.contains(side_pos);
    if (spec_is_diode(side_block) && spec_provides_weak_power(side_block, side.spec_block_face()))
        || side_block is RedstoneBlock || is_custom_io_wire {
        if pos_map.contains_key(side_pos.spec_key()) {
            seq![edge_into(pos_map[side_pos.spec_key()], id, LinkType::Side, 0)]
        } else {
            Seq::empty()
        }
    } else if spec_is_wire(side_block) {
        search_edges(world, pos_map, id, side_pos, LinkType::Side, 0)
    } else {
        Seq::empty()
    }
}

/// The edges into `id` from what powers the blocks around each position of `ps`.
pub open spec fn chain_around_links(world: &World, pos_map: Map<PosKey, NodeIdx>, id: NodeIdx, ps: Seq<BlockPos>) -> Seq<CompileEdge>
    decreases ps.len(),
{
    if ps.len() == 0 {
        Seq::empty()
    } else {
        chain_around_links(world, pos_map, id, ps.drop_last()) + around_links(world, pos_map, id, ps.last(), 6)
    }
}

/// The edges the search adds into the node `id` of the component `block` at `pos`;
/// `is_io` tells whether the node is an input or an output.
pub open spec fn node_links(
    world: &World,
    pos_map: Map<PosKey, NodeIdx>,
    custom_io: Seq<BlockPos>,
    id: NodeIdx,
    pos: BlockPos,
    block: Block,
    is_io: bool,
) -> Seq<CompileEdge> {
    match block {
        Block::RedstoneTorch { .. } => {
            let bottom_pos = pos.spec_offset(BlockFace::Bottom);
            redstone_links(world, pos_map, world.block_at(bottom_pos), BlockFace::Top, bottom_pos, LinkType::Default, 0, id, true)
        },
        Block::RedstoneWallTorch { facing, .. } => {
            let face = facing.spec_opposite().spec_block_face();
            let wall_pos = pos.spec_offset(face);
            redstone_links(world, pos_map, world.block_at(wall_pos), face, wall_pos, LinkType::Default, 0, id, true)
        },
        Block::Comparator(comparator) => {
            let facing = comparator.facing;
            let input_pos = pos.spec_offset(facing.spec_block_face());
            comparator_side_links(world, pos_map, custom_io, id, pos, facing.spec_rotate())
                + comparator_side_links(world, pos_map, custom_io, id, pos, facing.spec_rotate_ccw())
                + if spec_has_override(world.block_at(input_pos)) {
                seq![edge_into(pos_map[input_pos.spec_key()], id, LinkType::Default, 0)]
            } else {
                diode_input_links(world, pos_map, id, pos, facing)
            }
        },
        Block::Repeater(repeater) => {
            let facing = repeater.facing;
            diode_input_links(world, pos_map, id, pos, facing) + repeater_side_links(world, pos_map, id, pos, facing.spec_rotate())
                + repeater_side_links(world, pos_map, id, pos, facing.spec_rotate_ccw())
        },
        Block::RedstoneWire(_) => search_edges(world, pos_map, id, pos, LinkType::Default, 0) + if custom_io.contains(pos) || is_io {
            wire_output_edges(world, pos_map, id, pos)
        } else {
            Seq::empty()
        },
        Block::RedstoneLamp { .. } | Block::IronTrapdoor { .. } | Block::NoteBlock { .. } => around_links(world, pos_map, id, pos, 6),
        Block::Observer { facing, .. } => {
            let watched_pos = pos.spec_offset(facing);
            if pos_map.contains_key(watched_pos.spec_key()) {
                seq![edge_into(pos_map[watched_pos.spec_key()], id, LinkType::Default, 0)]
            } else {
                Seq::empty()
            }
        },
        Block::PoweredRail(rail) => around_links(world, pos_map, id, pos, 6) + chain_around_links(
            world,
            pos_map,
            id,
            crate::rail::chain_positions(world, pos, rail.shape, RailKind::Powered),
        ),
        Block::ActivatorRail(rail) => around_links(world, pos_map, id, pos, 6) + chain_around_links(
            world,
            pos_map,
            id,
            crate::rail::chain_positions(world, pos, rail.shape, RailKind::Activator),
        ),
        _ => Seq::empty(),
    }
}

/// The edges the search adds for the first `n` nodes, in order.
pub open spec fn all_links(
    world: &World,
    pos_map: Map<PosKey, NodeIdx>,
    custom_io: Seq<BlockPos>,
    nodes: Seq<CompileNode>,
    n: nat,
) -> Seq<CompileEdge>
    decreases n,
{
    if n == 0 {
        Seq::empty()
    } else {
        let i = (n - 1) as int;
        all_links(world, pos_map, custom_io, nodes, (n - 1) as nat) + match nodes[i].block {
            Some((pos, block)) => node_links(world, pos_map, custom_io, i as usize, pos, block, nodes[i].is_input || nodes[i].is_output),
            None => Seq::empty(),
        }
    }
}

/// Every node the search for the inputs of the component `block` at `pos` looks up
/// exists: what strongly powers a solid block it passes through, a diode beside a
/// repeater, an override block in front of a comparator.
pub open spec fn node_lookups_ok(
    world: &World,
    pos_map: Map<PosKey, NodeIdx>,
    custom_io: Seq<BlockPos>,
    pos: BlockPos,
    block: Block,
) -> bool {
    match block {
        Block::RedstoneTorch { .. } => {
            let bottom_pos = pos.spec_offset(BlockFace::Bottom);
            links_lookups_ok(world, pos_map, world.block_at(bottom_pos), BlockFace::Top, bottom_pos, 0, true)
        },
        Block::RedstoneWallTorch { facing, .. } => {
            let face = facing.spec_opposite().spec_block_face();
            let wall_pos = pos.spec_offset(face);
            links_lookups_ok(world, pos_map, world.block_at(wall_pos), face, wall_pos, 0, true)
        },
        Block::Comparator(comparator) => {
            let facing = comparator.facing;
            let input_pos = pos.spec_offset(facing.spec_block_face());
            &&& comparator_side_lookups_ok(world, pos_map, custom_io, pos, facing.spec_rotate())
            &&& comparator_side_lookups_ok(world, pos_map, custom_io, pos, facing.spec_rotate_ccw())
            &&& if spec_has_override(world.block_at(input_pos)) {
                pos_map.contains_key(input_pos.spec_key())
            } else {
                diode_input_lookups_ok(world, pos_map, pos, facing)
            }
        },
        Block::Repeater(repeater) => {
            let facing = repeater.facing;
            &&& diode_input_lookups_ok(world, pos_map, pos, facing)
            &&& repeater_side_lookups_ok(world, pos_map, pos, facing.spec_rotate())
            &&& repeater_side_lookups_ok(world, pos_map, pos, facing.spec_rotate_ccw())
        },
        Block::RedstoneWire(_) => search_lookups_ok(world, pos_map, pos, 0),
        Block::RedstoneLamp { .. } | Block::IronTrapdoor { .. } | Block::NoteBlock { .. } => around_lookups_ok(world, pos_map, pos),
        Block::PoweredRail(rail) => around_lookups_ok(world, pos_map, pos) && chain_lookups_ok(
            world,
            pos_map,
            crate::rail::chain_positions(world, pos, rail.shape, RailKind::Powered),
        ),
        Block::ActivatorRail(rail) => around_lookups_ok(world, pos_map, pos) && chain_lookups_ok(
            world,
            pos_map,
            crate::rail::chain_positions(world, pos, rail.shape, RailKind::Activator),
        ),
        _ => true,
    }
}

/// Every node the search for the inputs of the nodes looks up exists.
pub open spec fn all_lookups_ok(world: &World, pos_map: Map<PosKey, NodeIdx>, custom_io: Seq<BlockPos>, nodes: Seq<CompileNode>) -> bool {
    forall|i: int|
        0 <= i < nodes.len() ==> ((#[trigger] nodes[i]).block matches Some((p, b)) ==> node_lookups_ok(world, pos_map, custom_io, p, b))
}

/// Each node stands at a position within the world range.
pub open spec fn nodes_in_world(nodes: Seq<CompileNode>) -> bool {
    forall|i: int| 0 <= i < nodes.len() ==> ((#[trigger] nodes[i]).block matches Some((p, b)) ==> p.in_world())
}

/// Records the positions a node stands for, in order, as positions of node `id`.
pub open spec fn aliased_into(m: Map<PosKey, NodeIdx>, aliased: Seq<(BlockPos, Block)>, id: NodeIdx) -> Map<PosKey, NodeIdx>
    decreases aliased.len(),
{
    if aliased.len() == 0 {
        m
    } else {
        aliased_into(m, aliased.drop_last(), id).insert(aliased.last().0.spec_key(), id)
    }
}

/// The node of each position: the last node, in index order, that stands there.
pub open spec fn positions_map(nodes: Seq<CompileNode>) -> Map<PosKey, NodeIdx>
    decreases nodes.len(),
{
    if nodes.len() == 0 {
        Map::empty()
    } else {
        let m = positions_map(nodes.drop_last());
        let id = (nodes.len() - 1) as usize;
        let node = nodes.last();
        let m1 = match node.block {
            Some((p, _)) => m.insert(p.spec_key(), id),
            None => m,
        };
        aliased_into(m1, node.aliased_blocks@, id)
    }
}

proof fn lemma_aliased_into_bounded(m: Map<PosKey, NodeIdx>, aliased: Seq<(BlockPos, Block)>, id: NodeIdx, bound: nat)
    requires
        forall|k: PosKey| #[trigger] m.contains_key(k) ==> m[k] < bound,
        id < bound,
    ensures
        forall|k: PosKey| #[trigger] aliased_into(m, aliased, id).contains_key(k) ==> aliased_into(m, aliased, id)[k] < bound,
    decreases aliased.len(),
{
    if aliased.len() > 0 {
        lemma_aliased_into_bounded(m, aliased.drop_last(), id, bound);
        let prev = aliased_into(m, aliased.drop_last(), id);
        let next = prev.insert(aliased.last().0.spec_key(), id);
        assert(aliased_into(m, aliased, id) == next);
        assert forall|k: PosKey| #[trigger] next.contains_key(k) implies next[k] < bound by {
            if k != aliased.last().0.spec_key() {
                assert(prev.contains_key(k));
            }
        }
    }
}

/// The position map only names nodes of the graph.
proof fn lemma_positions_map_bounded(nodes: Seq<CompileNode>)
    requires
        nodes.len() <= usize::MAX,
    ensures
        forall|k: PosKey| #[trigger] positions_map(nodes).contains_key(k) ==> positions_map(nodes)[k] < nodes.len(),
    decreases nodes.len(),
{
    if nodes.len() > 0 {
        let init = nodes.drop_last();
        lemma_positions_map_bounded(init);
        let m = positions_map(init);
        let id = (nodes.len() - 1) as usize;
        let m1 = match nodes.last().block {
            Some((p, _)) => m.insert(p.spec_key(), id),
            None => m,
        };
        assert forall|k: PosKey| #[trigger] m1.contains_key(k) implies m1[k] < nodes.len() by {
            if m.contains_key(k) && m1[k] == m[k] {
            }
        }
        lemma_aliased_into_bounded(m1, nodes.last().aliased_blocks@, id, nodes.len());
    }
}


/// The search keeps its world, position map and custom IO list, fits the graph, and
/// leaves the nodes as they are.
pub open spec fn search_kept(
    new: &InputSearchState,
    old: &InputSearchState,
    new_graph: &CompileGraph,
    old_graph: &CompileGraph,
) -> bool {
    &&& new.wf(new_graph)
    &&& same_search(new, old)
    &&& new_graph.nodes() == old_graph.nodes()
}

fn contains_pos(positions: &[BlockPos], pos: BlockPos) -> (b: bool)
    ensures
        b == positions@.contains(pos),
{
    let mut i: usize = 0;
    while i < positions.len()
        invariant
            i <= positions@.len(),
            forall|j: int| 0 <= j < i ==> positions@[j] != pos,
        decreases positions@.len() - i,
    {
        if positions[i] == pos {
            assert(positions@[i as int] == pos);
            return true;
        }
        i = i + 1;
    }
    false
}

impl InputSearch {
    /// Adds the edges between the nodes of `graph`: into each component, one edge from
    /// every component that powers it, in node order. Every node the search looks up by
    /// position must exist: what strongly powers a solid block it passes through, a diode
    /// beside a repeater, an override block in front of a comparator.
    pub fn run_pass(&self, graph: &mut CompileGraph, options: &CompilerOptions, world: &World)
        requires
            old(graph).wf(),
            world.wf(),
            nodes_in_world(old(graph).nodes()),
            all_lookups_ok(world, positions_map(old(graph).nodes()), options.custom_io@, old(graph).nodes()),
        ensures
            final(graph).wf(),
            final(graph).nodes() == old(graph).nodes(),
            final(graph).edges() == old(graph).edges() + all_links(
                world,
                positions_map(old(graph).nodes()),
                options.custom_io@,
                old(graph).nodes(),
                old(graph).nodes().len(),
            ),
    {
        let node_count = graph.node_bound();
        proof {
            lemma_positions_map_bounded(graph.nodes());
        }
        let mut state = InputSearchState::new(world, graph, options.custom_io.as_slice());
        state.search(graph);
    }

    /// A short description of the pass.
    pub fn status_message(&self) -> (s: &'static str)
        ensures
            s@ == "Searching for links"@,
    {
        "Searching for links"
    }

    /// The name under which the pass is known.
    pub fn driver_key(&self) -> (s: &'static str)
        ensures
            s@ == "input-search"@,
    {
        "input-search"
    }
}


/// Every edge of `edges` goes into `start`, with the link type `ty`.
pub open spec fn all_into(edges: Seq<CompileEdge>, start: NodeIdx, ty: LinkType) -> bool {
    forall|i: int| 0 <= i < edges.len() ==> (#[trigger] edges[i]).target == start && edges[i].link.ty == ty
}

/// Every edge of `edges` leaves `source`.
pub open spec fn all_from(edges: Seq<CompileEdge>, source: NodeIdx) -> bool {
    forall|i: int| 0 <= i < edges.len() ==> (#[trigger] edges[i]).source == source
}

proof fn lemma_all_into_concat(a: Seq<CompileEdge>, b: Seq<CompileEdge>, start: NodeIdx, ty: LinkType)
    requires
        all_into(a, start, ty),
        all_into(b, start, ty),
    ensures
        all_into(a + b, start, ty),
{
    assert forall|i: int| 0 <= i < (a + b).len() implies (#[trigger] (a + b)[i]).target == start && (a + b)[i].link.ty == ty by {
        if i >= a.len() {
            assert((a + b)[i] == b[i - a.len()]);
        }
    }
}

proof fn lemma_all_from_concat(a: Seq<CompileEdge>, b: Seq<CompileEdge>, source: NodeIdx)
    requires
        all_from(a, source),
        all_from(b, source),
    ensures
        all_from(a + b, source),
{
    assert forall|i: int| 0 <= i < (a + b).len() implies (#[trigger] (a + b)[i]).source == source by {
        if i >= a.len() {
            assert((a + b)[i] == b[i - a.len()]);
        }
    }
}

proof fn lemma_strong_edges_into(world: &World, pos_map: Map<PosKey, NodeIdx>, pos: BlockPos, ty: LinkType, distance: u8, start: NodeIdx, n: nat)
    ensures
        all_into(strong_edges(world, pos_map, pos, ty, distance, start, n), start, ty),
    decreases n,
{
    if n > 0 {
        lemma_strong_edges_into(world, pos_map, pos, ty, distance, start, (n - 1) as nat);
        lemma_all_into_concat(
            strong_edges(world, pos_map, pos, ty, distance, start, (n - 1) as nat),
            strong_edge(world, pos_map, pos, all_faces()[n - 1], ty, distance, start),
            start,
            ty,
        );
    }
}

proof fn lemma_flat_links_into(world: &World, pos_map: Map<PosKey, NodeIdx>, block: Block, side: BlockFace, pos: BlockPos, ty: LinkType, distance: u8, start: NodeIdx)
    ensures
        all_into(flat_links(world, pos_map, block, side, pos, ty, distance, start), start, ty),
{
    lemma_strong_edges_into(world, pos_map, pos, ty, distance, start, 6);
}

proof fn lemma_entry_edges_into(world: &World, pos_map: Map<PosKey, NodeIdx>, start: NodeIdx, ty: LinkType, root: BlockPos, d0: u8, entry: WireEntry, n: nat)
    ensures
        all_into(entry_edges(world, pos_map, start, ty, root, d0, entry, n), start, ty),
    decreases dist_room(d0), height_room(root), 0nat, n,
{
    if n > 0 && entry.1 <= 15 {
        lemma_entry_edges_into(world, pos_map, start, ty, root, d0, entry, (n - 1) as nat);
        let face = all_faces()[n - 1];
        let p = entry.0.spec_offset(face);
        lemma_flat_links_into(world, pos_map, world.block_at(p), face, p, ty, entry.1, start);
        let head = entry_edges(world, pos_map, start, ty, root, d0, entry, (n - 1) as nat);
        let flat = flat_links(world, pos_map, world.block_at(p), face, p, ty, entry.1, start);
        lemma_all_into_concat(head, flat, start, ty);
        let nested = if face == BlockFace::Top && spec_is_wire(world.block_at(p)) && nests(root, d0, entry, p) {
            search_edges(world, pos_map, start, p, ty, entry.1)
        } else {
            Seq::empty()
        };
        if face == BlockFace::Top && spec_is_wire(world.block_at(p)) && nests(root, d0, entry, p) {
            lemma_search_edges_into(world, pos_map, start, p, ty, entry.1);
        }
        lemma_all_into_concat(head + flat, nested, start, ty);
    }
}

proof fn lemma_entries_edges_into(world: &World, pos_map: Map<PosKey, NodeIdx>, start: NodeIdx, ty: LinkType, root: BlockPos, d0: u8, entries: Seq<WireEntry>)
    ensures
        all_into(entries_edges(world, pos_map, start, ty, root, d0, entries), start, ty),
    decreases dist_room(d0), height_room(root), 1nat, entries.len(),
{
    if entries.len() > 0 {
        lemma_entries_edges_into(world, pos_map, start, ty, root, d0, entries.drop_last());
        lemma_entry_edges_into(world, pos_map, start, ty, root, d0, entries.last(), 6);
        lemma_all_into_concat(
            entries_edges(world, pos_map, start, ty, root, d0, entries.drop_last()),
            entry_edges(world, pos_map, start, ty, root, d0, entries.last(), 6),
            start,
            ty,
        );
    }
}

/// Following a wire only ever adds edges into the node that follows it, with the link
/// type it follows with.
pub proof fn lemma_search_edges_into(world: &World, pos_map: Map<PosKey, NodeIdx>, start: NodeIdx, root: BlockPos, ty: LinkType, d0: u8)
    ensures
        all_into(search_edges(world, pos_map, start, root, ty, d0), start, ty),
    decreases dist_room(d0), height_room(root), 2nat, 0nat,
{
    lemma_entries_edges_into(world, pos_map, start, ty, root, d0, wire_search_result(world, root, d0));
}

/// Every edge of `edges` carries a strength between `lo` and 15.
pub open spec fn strengths_within(edges: Seq<CompileEdge>, lo: u8) -> bool {
    forall|i: int| 0 <= i < edges.len() ==> lo <= (#[trigger] edges[i]).link.ss <= 15
}

proof fn lemma_strengths_concat(a: Seq<CompileEdge>, b: Seq<CompileEdge>, lo: u8)
    requires
        strengths_within(a, lo),
        strengths_within(b, lo),
    ensures
        strengths_within(a + b, lo),
{
    assert forall|i: int| 0 <= i < (a + b).len() implies lo <= (#[trigger] (a + b)[i]).link.ss <= 15 by {
        if i >= a.len() {
            assert((a + b)[i] == b[i - a.len()]);
        }
    }
}

proof fn lemma_strong_edges_strength(world: &World, pos_map: Map<PosKey, NodeIdx>, pos: BlockPos, ty: LinkType, distance: u8, start: NodeIdx, n: nat, lo: u8)
    requires
        lo <= distance <= 15,
    ensures
        strengths_within(strong_edges(world, pos_map, pos, ty, distance, start, n), lo),
    decreases n,
{
    if n > 0 {
        lemma_strong_edges_strength(world, pos_map, pos, ty, distance, start, (n - 1) as nat, lo);
        lemma_strengths_concat(
            strong_edges(world, pos_map, pos, ty, distance, start, (n - 1) as nat),
            strong_edge(world, pos_map, pos, all_faces()[n - 1], ty, distance, start),
            lo,
        );
    }
}

/// The distances a search discovers never fall below its start distance.
proof fn lemma_discover_faces_distances(world: &World, l: Seq<WireEntry>, pos: BlockPos, d: u8, n: nat, lo: u8)
    requires
        forall|i: int| 0 <= i < l.len() ==> (#[trigger] l[i]).1 >= lo,
        lo <= d <= 15,
    ensures
        forall|i: int| 0 <= i < discover_faces(world, l, pos, d, n).len() ==> (#[trigger] discover_faces(world, l, pos, d, n)[i]).1 >= lo,
    decreases n,
{
    if n > 0 {
        lemma_discover_faces_distances(world, l, pos, d, (n - 1) as nat, lo);
        let l0 = discover_faces(world, l, pos, d, (n - 1) as nat);
        let face = all_faces()[n - 1];
        let nb = pos.spec_offset(face);
        let next = (d + 1) as u8;
        let l1 = discover(world, l0, nb, next);
        assert forall|i: int| 0 <= i < l1.len() implies (#[trigger] l1[i]).1 >= lo by {
            if i < l0.len() {
                assert(l1[i] == l0[i]);
            }
        }
        let l2 = if face.spec_is_horizontal() && !world.block_at(pos.spec_offset(BlockFace::Top)).spec_is_solid()
            && !world.block_at(nb).spec_is_transparent() {
            discover(world, l1, nb.spec_offset(BlockFace::Top), next)
        } else {
            l1
        };
        assert forall|i: int| 0 <= i < l2.len() implies (#[trigger] l2[i]).1 >= lo by {
            if i < l1.len() {
                assert(l2[i] == l1[i]);
            }
        }
        let l3 = if face.spec_is_horizontal() && !world.block_at(nb).spec_is_solid() {
            discover(world, l2, nb.spec_offset(BlockFace::Bottom), next)
        } else {
            l2
        };
        assert forall|i: int| 0 <= i < l3.len() implies (#[trigger] l3[i]).1 >= lo by {
            if i < l2.len() {
                assert(l3[i] == l2[i]);
            }
        }
        assert(discover_faces(world, l, pos, d, n) == l3);
    }
}

proof fn lemma_state_distances(world: &World, root: BlockPos, d0: u8, k: nat)
    ensures
        forall|i: int| 0 <= i < wire_search_state(world, root, d0, k).0.len() ==> (#[trigger] wire_search_state(world, root, d0, k).0[i]).1 >= d0,
    decreases k,
{
    if k > 0 {
        lemma_state_distances(world, root, d0, (k - 1) as nat);
        let (l, i) = wire_search_state(world, root, d0, (k - 1) as nat);
        if i < l.len() && l[i as int].1 <= 15 {
            lemma_discover_faces_distances(world, l, l[i as int].0, l[i as int].1, 6, d0);
        }
    }
}

proof fn lemma_entry_edges_strength(world: &World, pos_map: Map<PosKey, NodeIdx>, start: NodeIdx, ty: LinkType, root: BlockPos, d0: u8, entry: WireEntry, n: nat, lo: u8)
    requires
        entry.1 >= lo,
    ensures
        strengths_within(entry_edges(world, pos_map, start, ty, root, d0, entry, n), lo),
    decreases dist_room(d0), height_room(root), 0nat, n,
{
    if n > 0 && entry.1 <= 15 {
        lemma_entry_edges_strength(world, pos_map, start, ty, root, d0, entry, (n - 1) as nat, lo);
        let face = all_faces()[n - 1];
        let p = entry.0.spec_offset(face);
        lemma_strong_edges_strength(world, pos_map, p, ty, entry.1, start, 6, lo);
        let head = entry_edges(world, pos_map, start, ty, root, d0, entry, (n - 1) as nat);
        let flat = flat_links(world, pos_map, world.block_at(p), face, p, ty, entry.1, start);
        lemma_strengths_concat(head, flat, lo);
        let nested = if face == BlockFace::Top && spec_is_wire(world.block_at(p)) && nests(root, d0, entry, p) {
            search_edges(world, pos_map, start, p, ty, entry.1)
        } else {
            Seq::empty()
        };
        if face == BlockFace::Top && spec_is_wire(world.block_at(p)) && nests(root, d0, entry, p) {
            lemma_search_strength(world, pos_map, start, p, ty, entry.1, lo);
        }
        lemma_strengths_concat(head + flat, nested, lo);
    }
}

proof fn lemma_entries_edges_strength(world: &World, pos_map: Map<PosKey, NodeIdx>, start: NodeIdx, ty: LinkType, root: BlockPos, d0: u8, entries: Seq<WireEntry>, lo: u8)
    requires
        forall|i: int| 0 <= i < entries.len() ==> (#[trigger] entries[i]).1 >= lo,
    ensures
        strengths_within(entries_edges(world, pos_map, start, ty, root, d0, entries), lo),
    decreases dist_room(d0), height_room(root), 1nat, entries.len(),
{
    if entries.len() > 0 {
        lemma_entries_edges_strength(world, pos_map, start, ty, root, d0, entries.drop_last(), lo);
        lemma_entry_edges_strength(world, pos_map, start, ty, root, d0, entries.last(), 6, lo);
        lemma_strengths_concat(
            entries_edges(world, pos_map, start, ty, root, d0, entries.drop_last()),
            entry_edges(world, pos_map, start, ty, root, d0, entries.last(), 6),
            lo,
        );
    }
}

proof fn lemma_search_strength(world: &World, pos_map: Map<PosKey, NodeIdx>, start: NodeIdx, root: BlockPos, ty: LinkType, d0: u8, lo: u8)
    requires
        d0 >= lo,
    ensures
        strengths_within(search_edges(world, pos_map, start, root, ty, d0), lo),
    decreases dist_room(d0), height_room(root), 2nat, 0nat,
{
    let k = choose|k: nat| search_finished(world, root, d0, k);
    lemma_state_distances(world, root, d0, k);
    lemma_entries_edges_strength(world, pos_map, start, ty, root, d0, wire_search_result(world, root, d0), lo);
}

/// Following a wire from distance `d0` only adds edges whose strength loss lies between
/// `d0` and 15; from beyond 15 it adds none.
pub proof fn lemma_search_edges_strength(world: &World, pos_map: Map<PosKey, NodeIdx>, start: NodeIdx, root: BlockPos, ty: LinkType, d0: u8)
    ensures
        strengths_within(search_edges(world, pos_map, start, root, ty, d0), d0),
        d0 > 15 ==> search_edges(world, pos_map, start, root, ty, d0).len() == 0,
{
    lemma_search_strength(world, pos_map, start, root, ty, d0, d0);
    let e = search_edges(world, pos_map, start, root, ty, d0);
    if d0 > 15 && e.len() > 0 {
        assert(d0 <= e[0].link.ss <= 15);
    }
}

proof fn lemma_solid_links_into(world: &World, pos_map: Map<PosKey, NodeIdx>, pos: BlockPos, ty: LinkType, distance: u8, start: NodeIdx, search_wire: bool, n: nat)
    ensures
        all_into(solid_links(world, pos_map, pos, ty, distance, start, search_wire, n), start, ty),
    decreases n,
{
    if n > 0 {
        lemma_solid_links_into(world, pos_map, pos, ty, distance, start, search_wire, (n - 1) as nat);
        let face = all_faces()[n - 1];
        let p = pos.spec_offset(face);
        lemma_strong_edges_into(world, pos_map, pos, ty, distance, start, 0);
        let head = solid_links(world, pos_map, pos, ty, distance, start, search_wire, (n - 1) as nat);
        let strong = strong_edge(world, pos_map, pos, face, ty, distance, start);
        lemma_all_into_concat(head, strong, start, ty);
        lemma_search_edges_into(world, pos_map, start, p, ty, distance);
        let tail = match world.block_at(p) {
            Block::RedstoneWire(wire) => if search_wire {
                wire_links(world, pos_map, p, face, wire, ty, distance, start, true)
            } else {
                Seq::empty()
            },
            _ => Seq::empty(),
        };
        lemma_all_into_concat(head + strong, tail, start, ty);
    }
}

/// Every edge the search for what powers a block adds goes into the searching node,
/// with the link type it searches with.
pub proof fn lemma_redstone_links_into(
    world: &World,
    pos_map: Map<PosKey, NodeIdx>,
    block: Block,
    side: BlockFace,
    pos: BlockPos,
    ty: LinkType,
    distance: u8,
    start: NodeIdx,
    search_wire: bool,
)
    ensures
        all_into(redstone_links(world, pos_map, block, side, pos, ty, distance, start, search_wire), start, ty),
{
    lemma_solid_links_into(world, pos_map, pos, ty, distance, start, search_wire, 6);
    lemma_search_edges_into(world, pos_map, start, pos, ty, distance);
}

proof fn lemma_reach_from(world: &World, pos_map: Map<PosKey, NodeIdx>, wire_node: NodeIdx, s: OutputSearch, q: BlockPos, d: u8)
    requires
        all_from(s.2, wire_node),
    ensures
        all_from(reach_wire(world, pos_map, wire_node, s, q, d).2, wire_node),
{
    let r = reach_wire(world, pos_map, wire_node, s, q, d);
    assert forall|i: int| 0 <= i < r.2.len() implies (#[trigger] r.2[i]).source == wire_node by {
        if i < s.2.len() {
            assert(r.2[i] == s.2[i]);
        }
    }
}

proof fn lemma_solid_components_from(world: &World, pos_map: Map<PosKey, NodeIdx>, wire_node: NodeIdx, nb: BlockPos, d: u8, n: nat)
    ensures
        all_from(solid_component_edges(world, pos_map, wire_node, nb, d, n), wire_node),
    decreases n,
{
    if n > 0 {
        lemma_solid_components_from(world, pos_map, wire_node, nb, d, (n - 1) as nat);
        lemma_all_from_concat(
            solid_component_edges(world, pos_map, wire_node, nb, d, (n - 1) as nat),
            solid_component_edge(world, pos_map, wire_node, nb, all_faces()[n - 1], d),
            wire_node,
        );
    }
}

proof fn lemma_output_face_from(world: &World, pos_map: Map<PosKey, NodeIdx>, wire_node: NodeIdx, s: OutputSearch, pos: BlockPos, d: u8, up_block: Block, face: BlockFace)
    requires
        all_from(s.2, wire_node),
    ensures
        all_from(output_face(world, pos_map, wire_node, s, pos, d, up_block, face).2, wire_node),
{
    let nb = pos.spec_offset(face);
    let next = (d + 1) as u8;
    lemma_reach_from(world, pos_map, wire_node, s, nb, next);
    let s1 = reach_wire(world, pos_map, wire_node, s, nb, next);
    lemma_all_from_concat(s1.2, component_edge(world, pos_map, wire_node, nb, face, d), wire_node);
    let s2 = add_edges(s1, component_edge(world, pos_map, wire_node, nb, face, d));
    lemma_solid_components_from(world, pos_map, wire_node, nb, d, 6);
    lemma_all_from_concat(s2.2, solid_component_edges(world, pos_map, wire_node, nb, d, 6), wire_node);
    let s3 = if world.block_at(nb).spec_is_solid() {
        add_edges(s2, solid_component_edges(world, pos_map, wire_node, nb, d, 6))
    } else {
        s2
    };
    lemma_reach_from(world, pos_map, wire_node, s3, nb.spec_offset(BlockFace::Top), next);
    let s4 = if !up_block.spec_is_solid() && !world.block_at(nb).spec_is_transparent() {
        reach_wire(world, pos_map, wire_node, s3, nb.spec_offset(BlockFace::Top), next)
    } else {
        s3
    };
    lemma_reach_from(world, pos_map, wire_node, s4, nb.spec_offset(BlockFace::Bottom), next);
}

proof fn lemma_output_faces_from(world: &World, pos_map: Map<PosKey, NodeIdx>, wire_node: NodeIdx, s: OutputSearch, pos: BlockPos, d: u8, n: nat)
    requires
        all_from(s.2, wire_node),
    ensures
        all_from(output_faces(world, pos_map, wire_node, s, pos, d, n).2, wire_node),
    decreases n,
{
    if n > 0 {
        lemma_output_faces_from(world, pos_map, wire_node, s, pos, d, (n - 1) as nat);
        lemma_output_face_from(
            world,
            pos_map,
            wire_node,
            output_faces(world, pos_map, wire_node, s, pos, d, (n - 1) as nat),
            pos,
            d,
            world.block_at(pos.spec_offset(BlockFace::Top)),
            all_faces()[n - 1],
        );
    }
}

proof fn lemma_output_state_from(world: &World, pos_map: Map<PosKey, NodeIdx>, wire_node: NodeIdx, root: BlockPos, k: nat)
    ensures
        all_from(output_state(world, pos_map, wire_node, root, Seq::empty(), k).2, wire_node),
    decreases k,
{
    if k > 0 {
        lemma_output_state_from(world, pos_map, wire_node, root, (k - 1) as nat);
        let s = output_state(world, pos_map, wire_node, root, Seq::empty(), (k - 1) as nat);
        if s.0.len() > 0 {
            let pos = s.0[0];
            lemma_output_faces_from(world, pos_map, wire_node, (s.0.drop_first(), s.1, s.2), pos, s.1[pos.spec_key()], 6);
        }
    }
}

/// A custom IO wire acts as a source: every edge its output search adds leaves its node.
pub proof fn lemma_wire_output_edges_from(world: &World, pos_map: Map<PosKey, NodeIdx>, wire_node: NodeIdx, root: BlockPos)
    ensures
        all_from(wire_output_edges(world, pos_map, wire_node, root), wire_node),
{
    lemma_output_state_from(world, pos_map, wire_node, root, choose|k: nat| output_finished(world, pos_map, wire_node, root, k));
}


/// Every edge of `edges` goes into or comes out of `id`.
pub open spec fn all_touch(edges: Seq<CompileEdge>, id: NodeIdx) -> bool {
    forall|i: int| 0 <= i < edges.len() ==> (#[trigger] edges[i]).target == id || edges[i].source == id
}

proof fn lemma_touch_concat(a: Seq<CompileEdge>, b: Seq<CompileEdge>, id: NodeIdx)
    requires
        all_touch(a, id),
        all_touch(b, id),
    ensures
        all_touch(a + b, id),
{
    assert forall|i: int| 0 <= i < (a + b).len() implies (#[trigger] (a + b)[i]).target == id || (a + b)[i].source == id by {
        if i >= a.len() {
            assert((a + b)[i] == b[i - a.len()]);
        }
    }
}

proof fn lemma_around_links_into(world: &World, pos_map: Map<PosKey, NodeIdx>, id: NodeIdx, pos: BlockPos, n: nat)
    ensures
        all_into(around_links(world, pos_map, id, pos, n), id, LinkType::Default),
    decreases n,
{
    if n > 0 {
        lemma_around_links_into(world, pos_map, id, pos, (n - 1) as nat);
        let face = all_faces()[n - 1];
        let p = pos.spec_offset(face);
        lemma_redstone_links_into(world, pos_map, world.block_at(p), face, p, LinkType::Default, 0, id, true);
        lemma_all_into_concat(
            around_links(world, pos_map, id, pos, (n - 1) as nat),
            redstone_links(world, pos_map, world.block_at(p), face, p, LinkType::Default, 0, id, true),
            id,
            LinkType::Default,
        );
    }
}

proof fn lemma_chain_around_into(world: &World, pos_map: Map<PosKey, NodeIdx>, id: NodeIdx, ps: Seq<BlockPos>)
    ensures
        all_into(chain_around_links(world, pos_map, id, ps), id, LinkType::Default),
    decreases ps.len(),
{
    if ps.len() > 0 {
        lemma_chain_around_into(world, pos_map, id, ps.drop_last());
        lemma_around_links_into(world, pos_map, id, ps.last(), 6);
        lemma_all_into_concat(
            chain_around_links(world, pos_map, id, ps.drop_last()),
            around_links(world, pos_map, id, ps.last(), 6),
            id,
            LinkType::Default,
        );
    }
}

proof fn lemma_into_touches(edges: Seq<CompileEdge>, id: NodeIdx, ty: LinkType)
    requires
        all_into(edges, id, ty),
    ensures
        all_touch(edges, id),
{
}

proof fn lemma_from_touches(edges: Seq<CompileEdge>, id: NodeIdx)
    requires
        all_from(edges, id),
    ensures
        all_touch(edges, id),
{
}

proof fn lemma_comparator_side_into(world: &World, pos_map: Map<PosKey, NodeIdx>, custom_io: Seq<BlockPos>, id: NodeIdx, pos: BlockPos, side: BlockDirection)
    ensures
        all_into(comparator_side_links(world, pos_map, custom_io, id, pos, side), id, LinkType::Side),
{
    lemma_search_edges_into(world, pos_map, id, pos.spec_offset(side.spec_block_face()), LinkType::Side, 0);
}

/// The search for a node's inputs adds only edges into that node, except for a wire
/// acting as custom IO, whose output edges come out of it.
pub proof fn lemma_node_links_touch_node(
    world: &World,
    pos_map: Map<PosKey, NodeIdx>,
    custom_io: Seq<BlockPos>,
    id: NodeIdx,
    pos: BlockPos,
    block: Block,
    is_io: bool,
)
    ensures
        all_touch(node_links(world, pos_map, custom_io, id, pos, block, is_io), id),
{
    match block {
        Block::RedstoneTorch { .. } => {
            let p = pos.spec_offset(BlockFace::Bottom);
            lemma_redstone_links_into(world, pos_map, world.block_at(p), BlockFace::Top, p, LinkType::Default, 0, id, true);
        },
        Block::RedstoneWallTorch { facing, .. } => {
            let f = facing.spec_opposite().spec_block_face();
            let p = pos.spec_offset(f);
            lemma_redstone_links_into(world, pos_map, world.block_at(p), f, p, LinkType::Default, 0, id, true);
        },
        Block::Comparator(comparator) => {
            let facing = comparator.facing;
            let a = comparator_side_links(world, pos_map, custom_io, id, pos, facing.spec_rotate());
            let b = comparator_side_links(world, pos_map, custom_io, id, pos, facing.spec_rotate_ccw());
            lemma_comparator_side_into(world, pos_map, custom_io, id, pos, facing.spec_rotate());
            lemma_comparator_side_into(world, pos_map, custom_io, id, pos, facing.spec_rotate_ccw());
            let ip = pos.spec_offset(facing.spec_block_face());
            lemma_redstone_links_into(world, pos_map, world.block_at(ip), facing.spec_block_face(), ip, LinkType::Default, 0, id, true);
            let c = if spec_has_override(world.block_at(ip)) {
                seq![edge_into(pos_map[ip.spec_key()], id, LinkType::Default, 0)]
            } else {
                diode_input_links(world, pos_map, id, pos, facing)
            };
            assert(all_into(c, id, LinkType::Default));
            lemma_into_touches(a, id, LinkType::Side);
            lemma_into_touches(b, id, LinkType::Side);
            lemma_into_touches(c, id, LinkType::Default);
            lemma_touch_concat(a, b, id);
            lemma_touch_concat(a + b, c, id);
        },
        Block::Repeater(repeater) => {
            let facing = repeater.facing;
            let ip = pos.spec_offset(facing.spec_block_face());
            lemma_redstone_links_into(world, pos_map, world.block_at(ip), facing.spec_block_face(), ip, LinkType::Default, 0, id, true);
            let a = diode_input_links(world, pos_map, id, pos, facing);
            let b = repeater_side_links(world, pos_map, id, pos, facing.spec_rotate());
            let c = repeater_side_links(world, pos_map, id, pos, facing.spec_rotate_ccw());
            lemma_into_touches(a, id, LinkType::Default);
            assert(all_touch(b, id));
            assert(all_touch(c, id));
            lemma_touch_concat(a, b, id);
            lemma_touch_concat(a + b, c, id);
        },
        Block::RedstoneWire(_) => {
            lemma_search_edges_into(world, pos_map, id, pos, LinkType::Default, 0);
            lemma_wire_output_edges_from(world, pos_map, id, pos);
            let a = search_edges(world, pos_map, id, pos, LinkType::Default, 0);
            let b = if custom_io.contains(pos) || is_io {
                wire_output_edges(world, pos_map, id, pos)
            } else {
                Seq::empty()
            };
            lemma_into_touches(a, id, LinkType::Default);
            lemma_from_touches(b, id);
            lemma_touch_concat(a, b, id);
        },
        Block::RedstoneLamp { .. } | Block::IronTrapdoor { .. } | Block::NoteBlock { .. } => {
            lemma_around_links_into(world, pos_map, id, pos, 6);
        },
        Block::PoweredRail(rail) => {
            lemma_around_links_into(world, pos_map, id, pos, 6);
            let chain = crate::rail::chain_positions(world, pos, rail.shape, RailKind::Powered);
            lemma_chain_around_into(world, pos_map, id, chain);
            lemma_all_into_concat(around_links(world, pos_map, id, pos, 6), chain_around_links(world, pos_map, id, chain), id, LinkType::Default);
        },
        Block::ActivatorRail(rail) => {
            lemma_around_links_into(world, pos_map, id, pos, 6);
            let chain = crate::rail::chain_positions(world, pos, rail.shape, RailKind::Activator);
            lemma_chain_around_into(world, pos_map, id, chain);
            lemma_all_into_concat(around_links(world, pos_map, id, pos, 6), chain_around_links(world, pos_map, id, chain), id, LinkType::Default);
        },
        _ => {},
    }
}

/// The search keeps its world, its position map and its custom IO list.
pub open spec fn same_search(a: &InputSearchState, b: &InputSearchState) -> bool {
    &&& a.world == b.world
    &&& a.pos_map@ == b.pos_map@
    &&& a.custom_io@ == b.custom_io@
}

/// The state of the search for edges.
pub struct InputSearchState<'a> {
    pub world: &'a World,
    pub pos_map: PosMap<NodeIdx>,
    pub custom_io: &'a [BlockPos],
    pub block_lookup_cache: BlockLookupCache<'a>,
}

impl<'a> InputSearchState<'a> {
    /// The search state fits `graph`.
    pub open spec fn wf(&self, graph: &CompileGraph) -> bool {
        &&& self.world.wf()
        &&& self.block_lookup_cache.wf()
        &&& self.block_lookup_cache.world() == self.world
        &&& map_bounded(self.pos_map@, graph.nodes().len())
        &&& graph.wf()
    }

    fn has_been_discovered(discovered: &Vec<WireEntry>, new_pos: BlockPos) -> (b: bool)
        ensures
            b == is_discovered(discovered@, new_pos),
    {
        let mut i: usize = 0;
        while i < discovered.len()
            invariant
                i <= discovered@.len(),
                forall|j: int| 0 <= j < i ==> (#[trigger] discovered@[j]).0 != new_pos,
            decreases discovered@.len() - i,
        {
            if discovered[i].0 == new_pos {
                return true;
            }
            i = i + 1;
        }
        false
    }

    /// Appends `p` at distance `d` when it holds a wire not yet discovered; tells whether
    /// it did.
    fn discover_wire(&mut self, discovered: &mut Vec<WireEntry>, p: BlockPos, d: u8) -> (pushed: bool)
        requires
            old(self).block_lookup_cache.wf(),
            old(self).block_lookup_cache.world() == old(self).world,
        ensures
            final(self).block_lookup_cache.wf(),
            final(self).block_lookup_cache.world() == final(self).world,
            final(self).world == old(self).world,
            final(self).pos_map@ == old(self).pos_map@,
            final(self).custom_io@ == old(self).custom_io@,
            final(discovered)@ == discover(old(self).world, old(discovered)@, p, d),
            pushed == (spec_is_wire(old(self).world.block_at(p)) && !is_discovered(old(discovered)@, p)),
    {
        if is_wire(self.block_lookup_cache.get_block(p)) && !Self::has_been_discovered(discovered, p) {
            discovered.push((p, d));
            true
        } else {
            false
        }
    }

    /// Follows the wire at `root_pos` and adds an edge into `start_node` from every
    /// component that powers the wire's line within its reach.
    #[verifier::rlimit(40)]
    fn search_wire(
        &mut self,
        graph: &mut CompileGraph,
        start_node: NodeIdx,
        root_pos: BlockPos,
        link_ty: LinkType,
        initial_distance: u8,
    )
        requires
            old(self).wf(old(graph)),
            start_node < old(graph).nodes().len(),
            root_pos.in_world(),
            search_lookups_ok(old(self).world, old(self).pos_map@, root_pos, initial_distance),
        ensures
            final(self).wf(final(graph)),
            same_search(final(self), old(self)),
            final(graph).nodes() == old(graph).nodes(),
            final(graph).edges() == old(graph).edges() + search_edges(
                old(self).world,
                old(self).pos_map@,
                start_node,
                root_pos,
                link_ty,
                initial_distance,
            ),
        decreases 0nat, dist_room(initial_distance), height_room(root_pos), 1nat,
    {
        let ghost world = self.world;
        let ghost pm = self.pos_map@;
        let ghost old_edges = graph.edges();
        let ghost root = root_pos;
        let ghost d0 = initial_distance;
        proof {
            world.lemma_positions();
        }
        let mut discovered: Vec<WireEntry> = Vec::new();
        discovered.push((root_pos, initial_distance));
        let ghost mut k: nat = 0;
        let ghost mut seen: Set<PosKey> = set![root_pos.spec_key()];
        assert(discovered@ =~= seq![(root_pos, initial_distance)]);
        assert forall|p: BlockPos| #[trigger] seen.contains(p.spec_key()) <==> is_discovered(discovered@, p) by {
            if is_discovered(discovered@, p) {
                let i = choose|i: int| 0 <= i < discovered@.len() && (#[trigger] discovered@[i]).0 == p;
                assert(i == 0);
            }
            if seen.contains(p.spec_key()) {
                assert(discovered@[0].0 == p);
            }
        }

        let mut idx: usize = 0;
        while idx < discovered.len()
            invariant
                self.wf(graph),
                self.world == world,
                self.pos_map@ == pm,
                same_search(self, old(self)),
                graph.nodes() == old(graph).nodes(),
                start_node < graph.nodes().len(),
                world.wf(),
                world.positions().no_duplicates(),
                forall|p: BlockPos| !world.positions().contains(p) ==> #[trigger] world.block_at(p) == Block::Air,
                root == root_pos,
                d0 == initial_distance,
                root.in_world(),
                search_lookups_ok(world, pm, root, d0),
                idx <= discovered@.len(),
                (discovered@, idx as nat) == wire_search_state(world, root, d0, k),
                graph.edges() == old_edges + entries_edges(world, pm, start_node, link_ty, root, d0, discovered@.subrange(0, idx as int)),
                old_edges == old(graph).edges(),
                discovered@.len() > 0,
                discovered@[0] == (root, d0),
                forall|i: int| 0 < i < discovered@.len() ==> spec_is_wire(world.block_at((#[trigger] discovered@[i]).0)) && discovered@[i].1 > d0,
                forall|p: BlockPos| #[trigger] seen.contains(p.spec_key()) <==> is_discovered(discovered@, p),
            decreases 2 * count_unvisited(world.positions(), seen) + discovered@.len() - idx,
        {
            let ghost measure = 2 * count_unvisited(world.positions(), seen) + discovered@.len() - idx;
            let ghost l0 = discovered@;
            let ghost e0 = graph.edges();
            let (pos, distance) = discovered[idx];
            assert(discovered@[idx as int] == (pos, distance));
            proof {
                if idx > 0 {
                    world.lemma_non_air_in_world(pos);
                }
                assert(entries_lookups_ok(world, pm, root, d0, wire_search_state(world, root, d0, k).0));
                lemma_entries_lookups_at(world, pm, root, d0, l0, idx as int);
            }
            let ghost first = idx == 0;
            idx = idx + 1;
            assert(discovered@.subrange(0, idx as int).drop_last() =~= l0.subrange(0, idx - 1));

            // We can stop looking once we've reached the max ss of a wire.
            // This also prevents overflowing the distance past 255.
            if distance > 15 {
                proof {
                    k = k + 1;
                    let sub = discovered@.subrange(0, idx as int);
                    assert(sub.last() == (pos, distance));
                    assert(entry_edges(world, pm, start_node, link_ty, root, d0, (pos, distance), 6) =~= Seq::empty());
                    assert(entries_edges(world, pm, start_node, link_ty, root, d0, sub) == entries_edges(world, pm, start_node, link_ty, root, d0, sub.drop_last())
                        + entry_edges(world, pm, start_node, link_ty, root, d0, sub.last(), 6));
                }
                assert(graph.edges() =~= old_edges + entries_edges(world, pm, start_node, link_ty, root, d0, discovered@.subrange(0, idx as int)));
                continue;
            }

            // The block above the wire. If it's solid, we can't connect up diagonally
            let up_pos = pos.offset(BlockFace::Top);
            let up_block = self.block_lookup_cache.get_block(up_pos);
            let faces = BlockFace::values();
            let next = distance + 1;

            let mut j: usize = 0;
            while j < 6
                invariant
                    self.wf(graph),
                    self.world == world,
                    self.pos_map@ == pm,
                    same_search(self, old(self)),
                    graph.nodes() == old(graph).nodes(),
                    start_node < graph.nodes().len(),
                    world.wf(),
                    world.positions().no_duplicates(),
                    forall|p: BlockPos| !world.positions().contains(p) ==> #[trigger] world.block_at(p) == Block::Air,
                    root == root_pos,
                    d0 == initial_distance,
                    root.in_world(),
                    faces@ == all_faces(),
                    j <= 6,
                    pos.in_world(),
                    distance <= 15,
                    next == distance + 1,
                    first ==> (pos, distance) == (root, d0),
                    !first ==> distance > d0,
                    distance >= d0,
                    entry_lookups_ok(world, pm, root, d0, (pos, distance), 6),
                    up_block == world.block_at(pos.spec_offset(BlockFace::Top)),
                    1 <= idx <= l0.len(),
                    l0[idx - 1] == (pos, distance),
                    discovered@ == discover_faces(world, l0, pos, distance, j as nat),
                    graph.edges() == e0 + entry_edges(world, pm, start_node, link_ty, root, d0, (pos, distance), j as nat),
                    discovered@.len() > 0,
                    discovered@[0] == (root, d0),
                    forall|i: int| 0 < i < discovered@.len() ==> spec_is_wire(world.block_at((#[trigger] discovered@[i]).0)) && discovered@[i].1 > d0,
                    forall|p: BlockPos| #[trigger] seen.contains(p.spec_key()) <==> is_discovered(discovered@, p),
                    discovered@.len() >= l0.len(),
                    discovered@.subrange(0, l0.len() as int) == l0,
                    2 * count_unvisited(world.positions(), seen) + discovered@.len() - idx < measure,
                decreases 6 - j,
            {
                let side = faces[j];
                let neighbor_pos = pos.offset(side);
                let neighbor = self.block_lookup_cache.get_block(neighbor_pos);
                let ghost nest = nests(root, d0, (pos, distance), neighbor_pos);
                proof {
                    lemma_entry_lookups_face(world, pm, root, d0, (pos, distance), 6, j as nat);
                    if spec_is_wire(neighbor) {
                        world.lemma_non_air_in_world(neighbor_pos);
                    }
                    if side == BlockFace::Top && spec_is_wire(neighbor) && first {
                        assert(neighbor_pos.y == root.y + 1);
                        assert(height_room(neighbor_pos) < height_room(root));
                    }
                    lemma_links_flat(world, pm, neighbor, side, neighbor_pos, link_ty, distance, start_node, nest);
                }
                let ghost e1 = graph.edges();
                self.get_redstone_links(graph, neighbor, side, neighbor_pos, link_ty, distance, start_node, false);
                assert(graph.edges() =~= e0 + entry_edges(world, pm, start_node, link_ty, root, d0, (pos, distance), (j + 1) as nat));

                let ghost d0l = discovered@;
                let pushed = self.discover_wire(&mut discovered, neighbor_pos, next);
                proof { seen = self.note_discovery(d0l, discovered@, seen, neighbor_pos, next, pushed, root, d0); }

                if side.is_horizontal() {
                    let ghost d1l = discovered@;
                    if !up_block.is_solid() && !neighbor.is_transparent() {
                        let neighbor_up_pos = neighbor_pos.offset(BlockFace::Top);
                        let pushed = self.discover_wire(&mut discovered, neighbor_up_pos, next);
                        proof { seen = self.note_discovery(d1l, discovered@, seen, neighbor_up_pos, next, pushed, root, d0); }
                    }
                    let ghost d2l = discovered@;
                    if !neighbor.is_solid() {
                        let neighbor_down_pos = neighbor_pos.offset(BlockFace::Bottom);
                        let pushed = self.discover_wire(&mut discovered, neighbor_down_pos, next);
                        proof { seen = self.note_discovery(d2l, discovered@, seen, neighbor_down_pos, next, pushed, root, d0); }
                    }
                }
                assert(discovered@ == discover_faces(world, l0, pos, distance, (j + 1) as nat));
                j = j + 1;
            }
            proof {
                k = k + 1;
            }
            assert(discovered@.subrange(0, idx - 1) =~= l0.subrange(0, idx - 1));
            assert(discovered@.subrange(0, idx as int).drop_last() =~= discovered@.subrange(0, idx - 1));
            assert(discovered@.subrange(0, idx as int).last() == (pos, distance));
        }
        proof {
            lemma_search_result(world, root_pos, initial_distance, k);
        }
        assert(discovered@.subrange(0, idx as int) =~= discovered@);
    }

    /// Keeps the ghost record of discovered positions and the termination measure in
    /// step with a discovery.
    proof fn note_discovery(
        &self,
        before: Seq<WireEntry>,
        after: Seq<WireEntry>,
        seen: Set<PosKey>,
        p: BlockPos,
        d: u8,
        pushed: bool,
        root: BlockPos,
        d0: u8,
    ) -> (new_seen: Set<PosKey>)
        requires
            self.world.wf(),
            after == discover(self.world, before, p, d),
            pushed == (spec_is_wire(self.world.block_at(p)) && !is_discovered(before, p)),
            forall|q: BlockPos| #[trigger] seen.contains(q.spec_key()) <==> is_discovered(before, q),
            before.len() > 0,
            before[0] == (root, d0),
            forall|i: int| 0 < i < before.len() ==> spec_is_wire(self.world.block_at((#[trigger] before[i]).0)) && before[i].1 > d0,
            d > d0,
        ensures
            forall|q: BlockPos| #[trigger] new_seen.contains(q.spec_key()) <==> is_discovered(after, q),
            after.len() > 0,
            after[0] == (root, d0),
            forall|i: int| 0 < i < after.len() ==> spec_is_wire(self.world.block_at((#[trigger] after[i]).0)) && after[i].1 > d0,
            after.len() == before.len() + if pushed { 1int } else { 0int },
            after.subrange(0, before.len() as int) == before,
            pushed ==> count_unvisited(self.world.positions(), new_seen) + 1 == count_unvisited(self.world.positions(), seen),
            !pushed ==> new_seen == seen,
    {
        if pushed {
            self.world.lemma_positions();
            assert(self.world.positions().contains(p));
            assert(!seen.contains(p.spec_key()));
            lemma_count_insert(self.world.positions(), seen, p);
            let new_seen = seen.insert(p.spec_key());
            assert forall|q: BlockPos| #[trigger] new_seen.contains(q.spec_key()) <==> is_discovered(after, q) by {
                if q == p {
                    assert(after[after.len() - 1].0 == p);
                } else {
                    if is_discovered(after, q) {
                        let i = choose|i: int| 0 <= i < after.len() && (#[trigger] after[i]).0 == q;
                        assert(before[i].0 == q);
                    }
                    if is_discovered(before, q) {
                        let i = choose|i: int| 0 <= i < before.len() && (#[trigger] before[i]).0 == q;
                        assert(after[i].0 == q);
                    }
                }
            }
            assert forall|i: int| 0 < i < after.len() implies spec_is_wire(self.world.block_at((#[trigger] after[i]).0)) && after[i].1 > d0 by {
                if i < before.len() {
                    assert(after[i] == before[i]);
                }
            }
            assert(after.subrange(0, before.len() as int) =~= before);
            new_seen
        } else {
            assert(after.subrange(0, before.len() as int) =~= before);
            seen
        }
    }



    /// Adds the edges into `id` from what powers each neighbor of `pos`.
    fn search_around(&mut self, graph: &mut CompileGraph, id: NodeIdx, pos: BlockPos)
        requires
            old(self).wf(old(graph)),
            id < old(graph).nodes().len(),
            pos.in_world(),
            around_lookups_ok(old(self).world, old(self).pos_map@, pos),
        ensures
            search_kept(final(self), old(self), final(graph), old(graph)),
            final(graph).edges() == old(graph).edges() + around_links(old(self).world, old(self).pos_map@, id, pos, 6),
    {
        let ghost world = self.world;
        let ghost pm = self.pos_map@;
        let ghost e0 = graph.edges();
        let faces = BlockFace::values();
        let mut j: usize = 0;
        while j < 6
            invariant
                search_kept(self, old(self), graph, old(graph)),
                world == old(self).world,
                pm == old(self).pos_map@,
                id < graph.nodes().len(),
                pos.in_world(),
                around_lookups_ok(world, pm, pos),
                faces@ == all_faces(),
                j <= 6,
                e0 == old(graph).edges(),
                graph.edges() == e0 + around_links(world, pm, id, pos, j as nat),
            decreases 6 - j,
        {
            let face = faces[j];
            let neighbor_pos = pos.offset(face);
            let neighbor_block = self.block_lookup_cache.get_block(neighbor_pos);
            assert(links_lookups_ok(world, pm, world.block_at(pos.spec_offset(face)), face, pos.spec_offset(face), 0, true));
            self.get_redstone_links(graph, neighbor_block, face, neighbor_pos, LinkType::Default, 0, id, true);
            assert(graph.edges() =~= e0 + around_links(world, pm, id, pos, (j + 1) as nat));
            j = j + 1;
        }
    }

    fn search_diode_inputs(&mut self, graph: &mut CompileGraph, id: NodeIdx, pos: BlockPos, facing: BlockDirection)
        requires
            old(self).wf(old(graph)),
            id < old(graph).nodes().len(),
            pos.in_world(),
            diode_input_lookups_ok(old(self).world, old(self).pos_map@, pos, facing),
        ensures
            search_kept(final(self), old(self), final(graph), old(graph)),
            final(graph).edges() == old(graph).edges() + diode_input_links(old(self).world, old(self).pos_map@, id, pos, facing),
    {
        let input_pos = pos.offset(facing.block_face());
        let input_block = self.block_lookup_cache.get_block(input_pos);
        self.get_redstone_links(graph, input_block, facing.block_face(), input_pos, LinkType::Default, 0, id, true)
    }

    fn search_repeater_side(&mut self, graph: &mut CompileGraph, id: NodeIdx, pos: BlockPos, side: BlockDirection)
        requires
            old(self).wf(old(graph)),
            id < old(graph).nodes().len(),
            pos.in_world(),
            repeater_side_lookups_ok(old(self).world, old(self).pos_map@, pos, side),
        ensures
            search_kept(final(self), old(self), final(graph), old(graph)),
            final(graph).edges() == old(graph).edges() + repeater_side_links(old(self).world, old(self).pos_map@, id, pos, side),
    {
        let ghost e0 = graph.edges();
        let side_pos = pos.offset(side.block_face());
        let side_block = self.block_lookup_cache.get_block(side_pos);
        if is_diode(side_block) && provides_weak_power(side_block, side.block_face()) {
            let from = pos_map_get(&self.pos_map, side_pos.key()).unwrap();
            graph.add_edge(from, id, CompileLink::side(0));
        }
        assert(graph.edges() =~= e0 + repeater_side_links(self.world, self.pos_map@, id, pos, side));
    }

    fn search_comparator_side(&mut self, graph: &mut CompileGraph, id: NodeIdx, pos: BlockPos, side: BlockDirection)
        requires
            old(self).wf(old(graph)),
            id < old(graph).nodes().len(),
            pos.in_world(),
            comparator_side_lookups_ok(old(self).world, old(self).pos_map@, old(self).custom_io@, pos, side),
        ensures
            search_kept(final(self), old(self), final(graph), old(graph)),
            final(graph).edges() == old(graph).edges() + comparator_side_links(
                old(self).world,
                old(self).pos_map@,
                old(self).custom_io@,
                id,
                pos,
                side,
            ),
    {
        let ghost e0 = graph.edges();
        let side_pos = pos.offset(side.block_face());
        let side_block = self.block_lookup_cache.get_block(side_pos);

        // Custom IO wires can have their power changed dynamically at runtime, so we must
        // create a connection even if the wire currently has power=0. This ensures
        // comparators can read the runtime power level from custom IO wires.
        let is_custom_io_wire = is_wire(side_block) && contains_pos(self.custom_io, side_pos);

        if (is_diode(side_block) && provides_weak_power(side_block, side.block_face()))
            || matches!(side_block, Block::RedstoneBlock)
            || is_custom_io_wire
        {
            // Treat custom IO wires like redstone blocks for comparator sides
            if let Some(side_node) = pos_map_get(&self.pos_map, side_pos.key()) {
                graph.add_edge(side_node, id, CompileLink::side(0));
            }
            assert(graph.edges() =~= e0 + comparator_side_links(self.world, self.pos_map@, self.custom_io@, id, pos, side));
        } else if is_wire(side_block) {
            proof {
                self.world.lemma_non_air_in_world(side_pos);
            }
            self.search_wire(graph, id, side_pos, LinkType::Side, 0)
        } else {
            assert(graph.edges() =~= e0 + comparator_side_links(self.world, self.pos_map@, self.custom_io@, id, pos, side));
        }
    }

    /// Fans power-source edges from every rail in this rail's chain (up to 8 same-kind,
    /// axis-connected rails in each direction) into `id`, so that "any input powered"
    /// at simulation time implements the chain-relay rule.
    fn search_rail_chain(&mut self, graph: &mut CompileGraph, id: NodeIdx, pos: BlockPos, shape: StraightRailShape, kind: RailKind)
        requires
            old(self).wf(old(graph)),
            id < old(graph).nodes().len(),
            pos.in_world(),
            chain_lookups_ok(old(self).world, old(self).pos_map@, crate::rail::chain_positions(old(self).world, pos, shape, kind)),
        ensures
            search_kept(final(self), old(self), final(graph), old(graph)),
            final(graph).edges() == old(graph).edges() + chain_around_links(
                old(self).world,
                old(self).pos_map@,
                id,
                crate::rail::chain_positions(old(self).world, pos, shape, kind),
            ),
    {
        let ghost world = self.world;
        let ghost pm = self.pos_map@;
        let ghost e0 = graph.edges();
        let (d1, d2) = shape_ends(shape);
        let mut chain_positions = walk_chain(self.world, pos, d1, kind, 8);
        let mut second = walk_chain(self.world, pos, d2, kind, 8);
        let ghost first = chain_positions@;
        let ghost second_part = second@;
        chain_positions.append(&mut second);
        proof {
            crate::rail::lemma_walk_chain_shape(world, pos, d1, kind, 8);
            crate::rail::lemma_walk_chain_shape(world, pos, d2, kind, 8);
            assert forall|i: int| 0 <= i < chain_positions@.len() implies (#[trigger] chain_positions@[i]).in_world() by {
                if i < first.len() {
                    assert(chain_positions@[i] == first[i]);
                    world.lemma_non_air_in_world(first[i]);
                } else {
                    assert(chain_positions@[i] == second_part[i - first.len()]);
                    world.lemma_non_air_in_world(second_part[i - first.len()]);
                }
            }
        }
        assert(chain_positions@ == crate::rail::chain_positions(world, pos, shape, kind));
        let mut i: usize = 0;
        while i < chain_positions.len()
            invariant
                search_kept(self, old(self), graph, old(graph)),
                world == old(self).world,
                pm == old(self).pos_map@,
                id < graph.nodes().len(),
                i <= chain_positions@.len(),
                forall|j: int| 0 <= j < chain_positions@.len() ==> (#[trigger] chain_positions@[j]).in_world(),
                chain_lookups_ok(world, pm, chain_positions@),
                e0 == old(graph).edges(),
                graph.edges() == e0 + chain_around_links(world, pm, id, chain_positions@.subrange(0, i as int)),
            decreases chain_positions@.len() - i,
        {
            let chain_pos = chain_positions[i];
            self.search_around(graph, id, chain_pos);
            assert(chain_positions@.subrange(0, i + 1).drop_last() =~= chain_positions@.subrange(0, i as int));
            i = i + 1;
        }
        assert(chain_positions@.subrange(0, i as int) =~= chain_positions@);
    }

    /// Adds the edges into the node `id` of the component `block` at `pos`.
    #[verifier::rlimit(40)]
    fn search_node(&mut self, graph: &mut CompileGraph, id: NodeIdx, node_block: (BlockPos, Block))
        requires
            old(self).wf(old(graph)),
            id < old(graph).nodes().len(),
            node_block.0.in_world(),
            node_lookups_ok(old(self).world, old(self).pos_map@, old(self).custom_io@, node_block.0, node_block.1),
        ensures
            search_kept(final(self), old(self), final(graph), old(graph)),
            final(graph).edges() == old(graph).edges() + node_links(
                old(self).world,
                old(self).pos_map@,
                old(self).custom_io@,
                id,
                node_block.0,
                node_block.1,
                old(graph).nodes()[id as int].is_input || old(graph).nodes()[id as int].is_output,
            ),
    {
        let (pos, block) = node_block;
        let ghost world = self.world;
        let ghost pm = self.pos_map@;
        let ghost e0 = graph.edges();
        match block {
            Block::RedstoneTorch { .. } => {
                let bottom_pos = pos.offset(BlockFace::Bottom);
                let bottom_block = self.block_lookup_cache.get_block(bottom_pos);
                self.get_redstone_links(graph, bottom_block, BlockFace::Top, bottom_pos, LinkType::Default, 0, id, true);
                assert(graph.edges() == e0 + redstone_links(world, pm, world.block_at(bottom_pos), BlockFace::Top, bottom_pos, LinkType::Default, 0, id, true));
            },
            Block::RedstoneWallTorch { facing, .. } => {
                let wall_pos = pos.offset(facing.opposite().block_face());
                let wall_block = self.block_lookup_cache.get_block(wall_pos);
                self.get_redstone_links(
                    graph,
                    wall_block,
                    facing.opposite().block_face(),
                    wall_pos,
                    LinkType::Default,
                    0,
                    id,
                    true,
                );
            },
            Block::Comparator(comparator) => {
                let facing = comparator.facing;

                self.search_comparator_side(graph, id, pos, facing.rotate());
                self.search_comparator_side(graph, id, pos, facing.rotate_ccw());
                let ghost e2 = graph.edges();

                let input_pos = pos.offset(facing.block_face());
                let input_block = self.block_lookup_cache.get_block(input_pos);
                if has_override(input_block) {
                    let from = pos_map_get(&self.pos_map, input_pos.key()).unwrap();
                    graph.add_edge(from, id, CompileLink::default(0));
                    assert(graph.edges() =~= e2 + seq![edge_into(pm[input_pos.spec_key()], id, LinkType::Default, 0)]);
                } else {
                    self.search_diode_inputs(graph, id, pos, facing);
                }
            },
            Block::Repeater(repeater) => {
                let facing = repeater.facing;

                self.search_diode_inputs(graph, id, pos, facing);
                self.search_repeater_side(graph, id, pos, facing.rotate());
                self.search_repeater_side(graph, id, pos, facing.rotate_ccw());
            },
            Block::RedstoneWire(_) => {
                // Custom IO wires are treated as normal wires: they take part in normal wire
                // propagation; once their strength is set at runtime they act as sources.
                let is_custom_io = contains_pos(self.custom_io, pos);
                self.search_wire(graph, id, pos, LinkType::Default, 0);

                // ALL wires connected to custom IO need output edges to propagate power:
                // not just the custom IO wires themselves, but also any wire marked as input
                // or output (which happens when they're connected to custom IO wires).
                let node = graph.node(id);
                let needs_output_edges = is_custom_io || node.is_input || node.is_output;

                if needs_output_edges {
                    self.create_wire_output_edges(graph, id, pos);
                }
            },
            Block::RedstoneLamp { .. } | Block::IronTrapdoor { .. } | Block::NoteBlock { .. } => {
                self.search_around(graph, id, pos);
            },
            Block::Observer { facing, .. } => {
                // The observer's only input is a trigger edge from the node it watches
                // (its "lens" face) — any propagation reaching this node means that node's
                // power/state changed, which is what schedules the pulse at simulation time.
                let watched_pos = pos.offset(facing);
                if let Some(watched_node) = pos_map_get(&self.pos_map, watched_pos.key()) {
                    graph.add_edge(watched_node, id, CompileLink::default(0));
                }
            },
            Block::PoweredRail(rail) => {
                self.search_around(graph, id, pos);
                self.search_rail_chain(graph, id, pos, rail.shape, RailKind::Powered);
            },
            Block::ActivatorRail(rail) => {
                self.search_around(graph, id, pos);
                self.search_rail_chain(graph, id, pos, rail.shape, RailKind::Activator);
            },
            _ => {},
        }
        let ghost is_io = graph.nodes()[id as int].is_input || graph.nodes()[id as int].is_output;
        assert(graph.edges() =~= e0 + node_links(world, pm, self.custom_io@, id, pos, block, is_io));
    }

    /// Adds the edges into every node of the graph, in index order.
    fn search(&mut self, graph: &mut CompileGraph)
        requires
            old(self).wf(old(graph)),
            nodes_in_world(old(graph).nodes()),
            all_lookups_ok(old(self).world, old(self).pos_map@, old(self).custom_io@, old(graph).nodes()),
        ensures
            search_kept(final(self), old(self), final(graph), old(graph)),
            final(graph).edges() == old(graph).edges() + all_links(
                old(self).world,
                old(self).pos_map@,
                old(self).custom_io@,
                old(graph).nodes(),
                old(graph).nodes().len(),
            ),
    {
        let ghost world = self.world;
        let ghost pm = self.pos_map@;
        let ghost e0 = graph.edges();
        let bound = graph.node_bound();
        let mut i: usize = 0;
        while i < bound
            invariant
                search_kept(self, old(self), graph, old(graph)),
                world == old(self).world,
                pm == old(self).pos_map@,
                bound == graph.nodes().len(),
                nodes_in_world(graph.nodes()),
                all_lookups_ok(world, pm, self.custom_io@, graph.nodes()),
                i <= bound,
                e0 == old(graph).edges(),
                graph.edges() == e0 + all_links(world, pm, self.custom_io@, graph.nodes(), i as nat),
            decreases bound - i,
        {
            let idx = i;
            if graph.contains_node(idx) {
                let node = graph.node(idx);
                if let Some(block) = node.block {
                    assert(graph.nodes()[idx as int].block == Some(block));
                    self.search_node(graph, idx, block);
                }
            }
            assert(graph.edges() =~= e0 + all_links(world, pm, self.custom_io@, graph.nodes(), (i + 1) as nat));
            i = i + 1;
        }
    }

    fn new(world: &'a World, graph: &CompileGraph, custom_io: &'a [BlockPos]) -> (state: InputSearchState<'a>)
        requires
            world.wf(),
        ensures
            state.world == world,
            state.custom_io@ == custom_io@,
            state.pos_map@ == positions_map(graph.nodes()),
            state.block_lookup_cache.wf(),
            state.block_lookup_cache.world() == world,
    {
        let mut pos_map: PosMap<NodeIdx> = pos_map_new();
        assert(pos_map@ =~= positions_map(graph.nodes().subrange(0, 0)));
        let bound = graph.node_bound();
        let mut id: usize = 0;
        while id < bound
            invariant
                bound == graph.nodes().len(),
                id <= bound,
                pos_map@ == positions_map(graph.nodes().subrange(0, id as int)),
            decreases bound - id,
        {
            let node = graph.node(id);
            let ghost before = pos_map@;
            if let Some((pos, _)) = node.block {
                pos_map_insert(&mut pos_map, pos.key(), id);
            }
            let ghost m1 = pos_map@;
            let mut j: usize = 0;
            while j < node.aliased_blocks.len()
                invariant
                    j <= node.aliased_blocks@.len(),
                    pos_map@ == aliased_into(m1, node.aliased_blocks@.subrange(0, j as int), id),
                decreases node.aliased_blocks@.len() - j,
            {
                let pos = node.aliased_blocks[j].0;
                pos_map_insert(&mut pos_map, pos.key(), id);
                assert(node.aliased_blocks@.subrange(0, j + 1).drop_last() =~= node.aliased_blocks@.subrange(0, j as int));
                j = j + 1;
            }
            assert(node.aliased_blocks@.subrange(0, j as int) =~= node.aliased_blocks@);
            assert(graph.nodes().subrange(0, id + 1).drop_last() =~= graph.nodes().subrange(0, id as int));
            id = id + 1;
        }
        assert(graph.nodes().subrange(0, id as int) =~= graph.nodes());

        InputSearchState {
            world,
            pos_map,
            custom_io,
            block_lookup_cache: BlockLookupCache::new(world),
        }
    }

    /// Reaches `q` at distance `d` in the search for what a custom IO wire powers.
    fn output_reach_wire(
        &self,
        graph: &mut CompileGraph,
        queue: &mut VecDeque<BlockPos>,
        discovered: &mut PosMap<u8>,
        wire_node: NodeIdx,
        q: BlockPos,
        d: u8,
    )
        requires
            self.wf(old(graph)),
            wire_node < old(graph).nodes().len(),
        ensures
            final(graph).wf(),
            final(graph).nodes() == old(graph).nodes(),
            (final(queue)@, final(discovered)@, final(graph).edges()) == reach_wire(
                self.world,
                self.pos_map@,
                wire_node,
                (old(queue)@, old(discovered)@, old(graph).edges()),
                q,
                d,
            ),
    {
        if is_wire(self.world.get_block(q)) {
            if let Some(neighbor_node) = pos_map_get(&self.pos_map, q.key()) {
                if !pos_map_contains_key(discovered, q.key()) {
                    graph.add_edge(wire_node, neighbor_node, CompileLink::new(LinkType::Default, d));
                    queue.push_back(q);
                    pos_map_insert(discovered, q.key(), d);
                }
            }
        }
    }

    /// Adds the edge from a custom IO wire to the component it powers at `nb`, through the
    /// wire's face `face`.
    fn output_component(&self, graph: &mut CompileGraph, wire_node: NodeIdx, nb: BlockPos, face: BlockFace, neighbor: Block, d: u8)
        requires
            self.wf(old(graph)),
            wire_node < old(graph).nodes().len(),
            neighbor == self.world.block_at(nb),
        ensures
            final(graph).wf(),
            final(graph).nodes() == old(graph).nodes(),
            final(graph).edges() == old(graph).edges() + component_edge(self.world, self.pos_map@, wire_node, nb, face, d),
    {
        let ghost e0 = graph.edges();
        // Add edges to components that can be powered by wires
        if let Some(neighbor_node) = pos_map_get(&self.pos_map, nb.key()) {
            // Components that receive power from adjacent wires
            match neighbor {
                Block::RedstoneLamp { .. } | Block::IronTrapdoor { .. } | Block::NoteBlock { .. } => {
                    graph.add_edge(wire_node, neighbor_node, CompileLink::new(LinkType::Default, d));
                },
                Block::RedstoneTorch { .. } if face == BlockFace::Top => {
                    // Torch on top of block above wire
                    graph.add_edge(wire_node, neighbor_node, CompileLink::new(LinkType::Default, d));
                },
                Block::Repeater(repeater) if repeater.facing.opposite().block_face() == face => {
                    // Repeater facing the wire
                    graph.add_edge(wire_node, neighbor_node, CompileLink::new(LinkType::Default, d));
                },
                Block::Comparator(comparator) if comparator.facing.opposite().block_face() == face => {
                    // Comparator facing the wire (rear/back input)
                    graph.add_edge(wire_node, neighbor_node, CompileLink::new(LinkType::Default, d));
                },
                Block::Comparator(comparator) => {
                    // Check if wire is on the comparator's side (left or right)
                    let comp_left = comparator.facing.rotate_ccw().block_face();
                    let comp_right = comparator.facing.rotate().block_face();
                    if face == comp_left || face == comp_right {
                        // Wire is on comparator's side - create SIDE edge
                        graph.add_edge(wire_node, neighbor_node, CompileLink::new(LinkType::Side, d));
                    }
                },
                _ => {},
            }
        }
        assert(graph.edges() =~= e0 + component_edge(self.world, self.pos_map@, wire_node, nb, face, d));
    }

    /// Adds the edges from a custom IO wire to the components the solid block `nb` it
    /// powers powers in turn.
    fn output_solid_components(&self, graph: &mut CompileGraph, wire_node: NodeIdx, nb: BlockPos, d: u8)
        requires
            self.wf(old(graph)),
            wire_node < old(graph).nodes().len(),
            nb.in_world(),
        ensures
            final(graph).wf(),
            final(graph).nodes() == old(graph).nodes(),
            final(graph).edges() == old(graph).edges() + solid_component_edges(self.world, self.pos_map@, wire_node, nb, d, 6),
    {
        let faces = BlockFace::values();
        let ghost e0 = graph.edges();
        let mut j: usize = 0;
        // Check all faces of the solid block for components that can be powered
        while j < 6
            invariant
                self.wf(graph),
                graph.nodes() == old(graph).nodes(),
                wire_node < graph.nodes().len(),
                nb.in_world(),
                faces@ == all_faces(),
                j <= 6,
                graph.edges() == e0 + solid_component_edges(self.world, self.pos_map@, wire_node, nb, d, j as nat),
            decreases 6 - j,
        {
            let block_side = faces[j];
            let component_pos = nb.offset(block_side);
            let ghost e1 = graph.edges();
            if let Some(component_node) = pos_map_get(&self.pos_map, component_pos.key()) {
                let component_block = self.world.get_block(component_pos);
                match component_block {
                    Block::RedstoneTorch { .. } if block_side == BlockFace::Top => {
                        // Torch on top of the solid block
                        graph.add_edge(wire_node, component_node, CompileLink::new(LinkType::Default, d));
                    },
                    Block::RedstoneWallTorch { facing, .. } if facing.block_face() == block_side => {
                        // Wall torch attached to this side of the solid block
                        graph.add_edge(wire_node, component_node, CompileLink::new(LinkType::Default, d));
                    },
                    Block::RedstoneLamp { .. } | Block::IronTrapdoor { .. } | Block::NoteBlock { .. } => {
                        graph.add_edge(wire_node, component_node, CompileLink::new(LinkType::Default, d));
                    },
                    _ => {},
                }
            }
            assert(graph.edges() =~= e0 + solid_component_edges(self.world, self.pos_map@, wire_node, nb, d, (j + 1) as nat));
            j = j + 1;
        }
    }

    /// Create output edges from a custom IO wire to all connected wires and components
    /// This allows custom IO wires to act as power sources when their strength is set
    fn create_wire_output_edges(&self, graph: &mut CompileGraph, wire_node: NodeIdx, wire_pos: BlockPos)
        requires
            self.wf(old(graph)),
            wire_node < old(graph).nodes().len(),
            wire_pos.in_world(),
        ensures
            final(graph).wf(),
            final(graph).nodes() == old(graph).nodes(),
            final(graph).edges() == old(graph).edges() + wire_output_edges(self.world, self.pos_map@, wire_node, wire_pos),
    {
        let ghost world = self.world;
        let ghost pm = self.pos_map@;
        let ghost base = graph.edges();
        proof {
            world.lemma_positions();
        }
        // Do a BFS to find all connected wires and components
        let mut queue: VecDeque<BlockPos> = VecDeque::new();
        let mut discovered: PosMap<u8> = pos_map_new();

        pos_map_insert(&mut discovered, wire_pos.key(), 0u8);
        queue.push_back(wire_pos);
        let ghost mut k: nat = 0;
        assert((queue@, discovered@, graph.edges()) == output_state(world, pm, wire_node, wire_pos, base, 0)) by {
            assert(queue@ =~= seq![wire_pos]);
            assert(discovered@ =~= Map::empty().insert(wire_pos.spec_key(), 0u8));
        }

        while queue.len() > 0
            invariant
                self.wf(graph),
                graph.nodes() == old(graph).nodes(),
                wire_node < graph.nodes().len(),
                base == old(graph).edges(),
                world == self.world,
                pm == self.pos_map@,
                world.positions().no_duplicates(),
                forall|p: BlockPos| !world.positions().contains(p) ==> #[trigger] world.block_at(p) == Block::Air,
                (queue@, discovered@, graph.edges()) == output_state(world, pm, wire_node, wire_pos, base, k),
                output_queue_ok(world, (queue@, discovered@, graph.edges()), wire_pos),
                wire_pos.in_world(),
            decreases 2 * count_unvisited(world.positions(), discovered@.dom()) + queue@.len(),
        {
            let ghost s0 = (queue@, discovered@, graph.edges());
            let ghost measure = 2 * count_unvisited(world.positions(), discovered@.dom()) + queue@.len();
            let pos = queue.pop_front().unwrap();
            assert(s0.0[0] == pos);
            assert(discovered@.contains_key(pos.spec_key()));
            let distance = pos_map_get(&discovered, pos.key()).unwrap();
            proof {
                if pos != wire_pos {
                    world.lemma_non_air_in_world(pos);
                }
            }

            // Stop at max wire distance
            if distance > 15 {
                proof {
                    k = k + 1;
                }
                assert(queue@ =~= s0.0.drop_first());
                continue;
            }

            let up_pos = pos.offset(BlockFace::Top);
            let up_block = self.world.get_block(up_pos);
            let faces = BlockFace::values();
            let next = distance + 1;
            let ghost rest = (s0.0.drop_first(), s0.1, s0.2);
            assert(queue@ =~= rest.0);

            let mut j: usize = 0;
            while j < 6
                invariant
                    self.wf(graph),
                    graph.nodes() == old(graph).nodes(),
                    wire_node < graph.nodes().len(),
                    world == self.world,
                    pm == self.pos_map@,
                    world.positions().no_duplicates(),
                    forall|p: BlockPos| !world.positions().contains(p) ==> #[trigger] world.block_at(p) == Block::Air,
                    faces@ == all_faces(),
                    j <= 6,
                    pos.in_world(),
                    distance <= 15,
                    next == distance + 1,
                    up_block == world.block_at(pos.spec_offset(BlockFace::Top)),
                    (queue@, discovered@, graph.edges()) == output_faces(world, pm, wire_node, rest, pos, distance, j as nat),
                    output_queue_ok(world, (queue@, discovered@, graph.edges()), wire_pos),
                    2 * count_unvisited(world.positions(), discovered@.dom()) + queue@.len() < measure,
                decreases 6 - j,
            {
                let side = faces[j];
                let neighbor_pos = pos.offset(side);
                let neighbor = self.world.get_block(neighbor_pos);
                let ghost sa = (queue@, discovered@, graph.edges());

                // Add edge to neighboring wire if it exists in the graph
                self.output_reach_wire(graph, &mut queue, &mut discovered, wire_node, neighbor_pos, next);
                proof { lemma_reach_progress(world, pm, wire_node, sa, neighbor_pos, next, wire_pos); }
                let ghost sb = (queue@, discovered@, graph.edges());

                self.output_component(graph, wire_node, neighbor_pos, side, neighbor, distance);

                // Wires also power solid blocks, which can then power components on top/around them
                if neighbor.is_solid() {
                    proof { world.lemma_non_air_in_world(neighbor_pos); }
                    self.output_solid_components(graph, wire_node, neighbor_pos, distance);
                }
                let ghost sc = (queue@, discovered@, graph.edges());

                // Handle diagonal wire connections
                if side.is_horizontal() {
                    if !up_block.is_solid() && !neighbor.is_transparent() {
                        let neighbor_up_pos = neighbor_pos.offset(BlockFace::Top);
                        self.output_reach_wire(graph, &mut queue, &mut discovered, wire_node, neighbor_up_pos, next);
                        proof { lemma_reach_progress(world, pm, wire_node, sc, neighbor_up_pos, next, wire_pos); }
                    }
                    let ghost sd = (queue@, discovered@, graph.edges());
                    if !neighbor.is_solid() {
                        let neighbor_down_pos = neighbor_pos.offset(BlockFace::Bottom);
                        self.output_reach_wire(graph, &mut queue, &mut discovered, wire_node, neighbor_down_pos, next);
                        proof { lemma_reach_progress(world, pm, wire_node, sd, neighbor_down_pos, next, wire_pos); }
                    }
                }
                assert((queue@, discovered@, graph.edges()) == output_faces(world, pm, wire_node, rest, pos, distance, (j + 1) as nat));
                j = j + 1;
            }
            proof {
                k = k + 1;
            }
        }
        proof {
            lemma_state_rebased(world, pm, wire_node, wire_pos, base, k);
            lemma_output_result(world, pm, wire_node, wire_pos, k);
        }
    }

    /// Adds an edge into `start_node` from every component powering the block `block` at
    /// `pos` through its `side` side (`side` is the side of `block` facing the powered
    /// component), following wires when `search_wire` is set.
    #[allow(clippy::too_many_arguments)]
    fn get_redstone_links(
        &mut self,
        graph: &mut CompileGraph,
        block: Block,
        side: BlockFace,
        pos: BlockPos,
        link_ty: LinkType,
        distance: u8,
        start_node: NodeIdx,
        search_wire: bool,
    )
        requires
            old(self).wf(old(graph)),
            start_node < old(graph).nodes().len(),
            block == old(self).world.block_at(pos),
            in_margin(pos, 2),
            links_lookups_ok(old(self).world, old(self).pos_map@, block, side, pos, distance, search_wire),
        ensures
            final(self).wf(final(graph)),
            same_search(final(self), old(self)),
            final(graph).nodes() == old(graph).nodes(),
            final(graph).edges() == old(graph).edges() + redstone_links(
                old(self).world,
                old(self).pos_map@,
                block,
                side,
                pos,
                link_ty,
                distance,
                start_node,
                search_wire,
            ),
        decreases
            (if search_wire { 1nat } else { 0nat }),
            (if !search_wire && spec_is_wire(block) && side == BlockFace::Top { dist_room(distance) } else { 0nat }),
            (if !search_wire && spec_is_wire(block) && side == BlockFace::Top { height_room(pos) } else { 0nat }),
            (if !search_wire && spec_is_wire(block) && side == BlockFace::Top { 2nat } else { 0nat }),
    {
        let ghost world = self.world;
        let ghost pm = self.pos_map@;
        let ghost old_edges = graph.edges();
        if block.is_solid() {
            let faces = BlockFace::values();
            let mut j: usize = 0;
            while j < 6
                invariant
                    self.wf(graph),
                    self.world == world,
                    self.pos_map@ == pm,
                    same_search(self, old(self)),
                    graph.nodes() == old(graph).nodes(),
                    start_node < graph.nodes().len(),
                    faces@ == all_faces(),
                    j <= 6,
                    in_margin(pos, 2),
                    solid_lookups_ok(world, pm, pos, distance, search_wire),
                    old_edges == old(graph).edges(),
                    graph.edges() == old_edges + solid_links(world, pm, pos, link_ty, distance, start_node, search_wire, j as nat),
                decreases 6 - j,
            {
                let side = faces[j];
                let p = pos.offset(side);
                let b = self.block_lookup_cache.get_block(p);
                let ghost e0 = graph.edges();
                if provides_strong_power(b, side) {
                    assert(spec_provides_strong_power(world.block_at(pos.spec_offset(side)), side));
                    let from = pos_map_get(&self.pos_map, p.key()).unwrap();
                    graph.add_edge(from, start_node, CompileLink::new(link_ty, distance));
                }
                assert(graph.edges() == e0 + strong_edge(world, pm, pos, side, link_ty, distance, start_node));
                let ghost e1 = graph.edges();
                if let Block::RedstoneWire(wire) = b {
                    proof {
                        world.lemma_non_air_in_world(p);
                        assert(search_wire ==> wire_lookups_ok(world, pm, p, side, wire, distance, true));
                    }
                    if search_wire {
                        match side {
                            BlockFace::Top => {
                                self.search_wire(graph, start_node, p, link_ty, distance);
                            },
                            BlockFace::Bottom => {},
                            _ => {
                                let direction = side.unwrap_direction();
                                if !matches!(wire_side(wire, direction.opposite()), RedstoneWireSide::Unconnected) {
                                    self.search_wire(graph, start_node, p, link_ty, distance);
                                }
                            },
                        }
                    }
                }
                assert(graph.edges() =~= old_edges + solid_links(world, pm, pos, link_ty, distance, start_node, search_wire, (j + 1) as nat));
                j = j + 1;
            }
        } else if provides_weak_power(block, side) {
            if let Some(from_node) = pos_map_get(&self.pos_map, pos.key()) {
                // Don't create self-loops
                if from_node != start_node {
                    graph.add_edge(from_node, start_node, CompileLink::new(link_ty, distance));
                }
            }
            assert(graph.edges() =~= old_edges + weak_edge(pm, pos, link_ty, distance, start_node));
        } else if let Block::RedstoneWire(wire) = block {
            proof {
                world.lemma_non_air_in_world(pos);
            }
            match side {
                BlockFace::Top => self.search_wire(graph, start_node, pos, link_ty, distance),
                BlockFace::Bottom => {},
                _ => {
                    let direction = side.unwrap_direction();
                    if search_wire && !matches!(wire_side(wire, direction.opposite()), RedstoneWireSide::Unconnected) {
                        self.search_wire(graph, start_node, pos, link_ty, distance);
                    }
                },
            }
            assert(graph.edges() =~= old_edges + wire_links(world, pm, pos, side, wire, link_ty, distance, start_node, search_wire));
        } else {
            assert(graph.edges() =~= old_edges + Seq::<CompileEdge>::empty());
        }
    }
}

} // verus!
