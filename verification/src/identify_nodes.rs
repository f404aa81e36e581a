//! # [`IdentifyNodes`]
//!
//! This pass populates the graph with nodes from the blocks of a world.
//! This pass is *mandatory*. Without it, the graph will never be populated.
//!
//! If `optimize` is set in [`CompilerOptions`], redstone wires will not be added to the
//! graph, except those that custom IO needs.
//!
//! There are no requirements for this pass.
use vstd::prelude::*;
use std::collections::VecDeque;
use crate::blocks::{is_dot, spec_is_diode, is_diode, spec_has_override, has_override, spec_get_override, get_override, spec_is_dot, Block};
use crate::compile_graph::{CompileGraph, CompileNode, CompilerOptions, NodeIdx, NodeState, NodeType};
use crate::fx::{pos_map_get, pos_map_insert, pos_map_new, pos_set_contains, pos_set_insert, pos_set_keys, pos_set_new, PosKey, PosMap, PosSet};
use crate::geometry::{all_faces, lemma_all_faces_complete, lemma_direction_turns, BlockDirection, BlockFace, BlockPos};
use crate::redstone::{get_far_input, get_noteblock_instrument, is_noteblock_unblocked, spec_get_far_input, spec_is_noteblock_unblocked, spec_noteblock_instrument};
use crate::world::{BlockEntity, World};
use crate::json::{json_as_object, json_as_str, json_from_str, json_map_get};

verus! {

/// The pass that adds one node per redstone component.
pub struct IdentifyNodes;

/// `p` lies in the box from `bounds.0` to `bounds.1`.
pub open spec fn in_bounds(p: BlockPos, bounds: (BlockPos, BlockPos)) -> bool {
    &&& bounds.0.x <= p.x <= bounds.1.x
    &&& bounds.0.y <= p.y <= bounds.1.y
    &&& bounds.0.z <= p.z <= bounds.1.z
}

pub open spec fn is_wire_at(world: &World, p: BlockPos) -> bool {
    world.block_at(p) is RedstoneWire
}

/// `p` and `q` share a face.
pub open spec fn adjacent(p: BlockPos, q: BlockPos) -> bool {
    let dx = q.x - p.x;
    let dy = q.y - p.y;
    let dz = q.z - p.z;
    ||| (dx == 1 || dx == -1) && dy == 0 && dz == 0
    ||| dx == 0 && (dy == 1 || dy == -1) && dz == 0
    ||| dx == 0 && dy == 0 && (dz == 1 || dz == -1)
}

/// The face of `p` that `q` lies behind, for adjacent positions.
pub proof fn adjacent_face(p: BlockPos, q: BlockPos) -> (f: BlockFace)
    requires
        adjacent(p, q),
        p.can_offset(),
    ensures
        q == p.spec_offset(f),
        all_faces().contains(f),
{
    let f = if q.x == p.x + 1 {
        BlockFace::East
    } else if q.x == p.x - 1 {
        BlockFace::West
    } else if q.y == p.y + 1 {
        BlockFace::Top
    } else if q.y == p.y - 1 {
        BlockFace::Bottom
    } else if q.z == p.z + 1 {
        BlockFace::South
    } else {
        BlockFace::North
    };
    lemma_all_faces_complete(f);
    f
}

/// One step of the custom IO wire search: from `p` to an adjacent in-bounds wire `q`.
pub open spec fn wire_step(world: &World, bounds: (BlockPos, BlockPos), p: BlockPos, q: BlockPos) -> bool {
    adjacent(p, q) && in_bounds(q, bounds) && is_wire_at(world, q)
}

/// A custom IO position that holds a wire.
pub open spec fn is_custom_io_wire(world: &World, custom_io: Seq<BlockPos>, p: BlockPos) -> bool {
    custom_io.contains(p) && is_wire_at(world, p)
}

/// `path` starts at a custom IO wire and goes on by wire steps.
pub open spec fn is_wire_path(
    world: &World,
    custom_io: Seq<BlockPos>,
    bounds: (BlockPos, BlockPos),
    path: Seq<BlockPos>,
) -> bool {
    &&& path.len() > 0
    &&& is_custom_io_wire(world, custom_io, path[0])
    &&& forall|i: int| 0 <= i < path.len() - 1 ==> #[trigger] wire_step(world, bounds, path[i], path[i + 1])
}

/// `p` is a custom IO wire, or a wire joined to one through adjacent wires within the bounds.
pub open spec fn connected_to_custom_io(
    world: &World,
    custom_io: Seq<BlockPos>,
    bounds: (BlockPos, BlockPos),
    p: BlockPos,
) -> bool {
    exists|path: Seq<BlockPos>| #[trigger] is_wire_path(world, custom_io, bounds, path) && path.last() == p
}

/// Every wire step out of `p` ends at a position of `s`.
pub open spec fn closed_at(world: &World, bounds: (BlockPos, BlockPos), s: Set<PosKey>, p: BlockPos) -> bool {
    forall|q: BlockPos| #[trigger] wire_step(world, bounds, p, q) ==> s.contains(q.spec_key())
}

proof fn lemma_step_keeps_connected(
    world: &World,
    custom_io: Seq<BlockPos>,
    bounds: (BlockPos, BlockPos),
    p: BlockPos,
    q: BlockPos,
)
    requires
        connected_to_custom_io(world, custom_io, bounds, p),
        wire_step(world, bounds, p, q),
    ensures
        connected_to_custom_io(world, custom_io, bounds, q),
{
    let path = choose|path: Seq<BlockPos>| #[trigger] is_wire_path(world, custom_io, bounds, path) && path.last() == p;
    let longer = path.push(q);
    assert forall|i: int| 0 <= i < longer.len() - 1 implies #[trigger] wire_step(world, bounds, longer[i], longer[i + 1]) by {
        if i < path.len() - 1 {
            assert(wire_step(world, bounds, path[i], path[i + 1]));
        }
    }
    assert(is_wire_path(world, custom_io, bounds, longer));
}

proof fn lemma_seed_connected(
    world: &World,
    custom_io: Seq<BlockPos>,
    bounds: (BlockPos, BlockPos),
    p: BlockPos,
)
    requires
        is_custom_io_wire(world, custom_io, p),
    ensures
        connected_to_custom_io(world, custom_io, bounds, p),
{
    let path = seq![p];
    assert(is_wire_path(world, custom_io, bounds, path));
}

proof fn lemma_closed_set_complete(
    world: &World,
    custom_io: Seq<BlockPos>,
    bounds: (BlockPos, BlockPos),
    s: Set<PosKey>,
    path: Seq<BlockPos>,
)
    requires
        forall|j: int| 0 <= j < custom_io.len() && is_wire_at(world, custom_io[j]) ==> s.contains(
            (#[trigger] custom_io[j]).spec_key(),
        ),
        forall|r: BlockPos| #[trigger] s.contains(r.spec_key()) ==> closed_at(world, bounds, s, r),
        is_wire_path(world, custom_io, bounds, path),
    ensures
        s.contains(path.last().spec_key()),
    decreases path.len(),
{
    if path.len() == 1 {
        let p = path[0];
        let j = choose|j: int| 0 <= j < custom_io.len() && custom_io[j] == p;
        assert(s.contains(custom_io[j].spec_key()));
    } else {
        let init = path.drop_last();
        assert forall|i: int| 0 <= i < init.len() - 1 implies #[trigger] wire_step(world, bounds, init[i], init[i + 1]) by {
            assert(wire_step(world, bounds, path[i], path[i + 1]));
        }
        lemma_closed_set_complete(world, custom_io, bounds, s, init);
        let q = init.last();
        let i = path.len() - 2;
        assert(wire_step(world, bounds, path[i], path[i + 1]));
        assert(path[i] == q && path[i + 1] == path.last());
        assert(closed_at(world, bounds, s, q));
    }
}

/// The number of positions of `ps` whose key `s` does not hold.
pub open spec fn count_unvisited(ps: Seq<BlockPos>, s: Set<PosKey>) -> nat
    decreases ps.len(),
{
    if ps.len() == 0 {
        0
    } else {
        count_unvisited(ps.drop_last(), s) + if s.contains(ps.last().spec_key()) {
            0nat
        } else {
            1nat
        }
    }
}

proof fn lemma_count_insert_absent(ps: Seq<BlockPos>, s: Set<PosKey>, q: BlockPos)
    requires
        !ps.contains(q),
    ensures
        count_unvisited(ps, s.insert(q.spec_key())) == count_unvisited(ps, s),
    decreases ps.len(),
{
    if ps.len() > 0 {
        assert(!ps.drop_last().contains(q)) by {
            if ps.drop_last().contains(q) {
                let i = choose|i: int| 0 <= i < ps.drop_last().len() && ps.drop_last()[i] == q;
                assert(ps[i] == q);
            }
        }
        lemma_count_insert_absent(ps.drop_last(), s, q);
        assert(ps.last() != q);
    }
}

/// Adding the key of a position of `ps` not yet held lowers the count by one.
pub(crate) proof fn lemma_count_insert(ps: Seq<BlockPos>, s: Set<PosKey>, q: BlockPos)
    requires
        ps.no_duplicates(),
        ps.contains(q),
        !s.contains(q.spec_key()),
    ensures
        count_unvisited(ps, s.insert(q.spec_key())) + 1 == count_unvisited(ps, s),
    decreases ps.len(),
{
    let init = ps.drop_last();
    if ps.last() == q {
        assert(!init.contains(q)) by {
            if init.contains(q) {
                let i = choose|i: int| 0 <= i < init.len() && init[i] == q;
                assert(ps[i] == ps[ps.len() - 1]);
            }
        }
        lemma_count_insert_absent(init, s, q);
    } else {
        let i = choose|i: int| 0 <= i < ps.len() && ps[i] == q;
        assert(init[i] == q);
        assert(init.no_duplicates()) by {
            assert forall|a: int, b: int| 0 <= a < init.len() && 0 <= b < init.len() && a != b implies init[a] != init[b] by {
                assert(init[a] == ps[a] && init[b] == ps[b]);
            }
        }
        lemma_count_insert(init, s, q);
        assert(ps.last().spec_key() != q.spec_key());
    }
}

/// Find all wires that are connected to custom IO wires.
/// This is needed when optimization is enabled to ensure custom IO wires can propagate power.
pub fn find_wires_connected_to_custom_io(
    world: &World,
    custom_io: &[BlockPos],
    bounds: (BlockPos, BlockPos),
) -> (connected: PosSet)
    requires
        world.wf(),
    ensures
        forall|p: BlockPos| #[trigger] connected@.contains(p.spec_key()) <==> connected_to_custom_io(
            world,
            custom_io@,
            bounds,
            p,
        ),
{
    let mut connected_wires = pos_set_new();
    let faces = BlockFace::values();
    let mut k: usize = 0;
    while k < custom_io.len()
        invariant
            world.wf(),
            k <= custom_io@.len(),
            faces@ == all_faces(),
            forall|p: BlockPos| #[trigger] connected_wires@.contains(p.spec_key()) ==> connected_to_custom_io(world, custom_io@, bounds, p) && is_wire_at(world, p),
            forall|p: BlockPos| #[trigger] connected_wires@.contains(p.spec_key()) ==> closed_at(world, bounds, connected_wires@, p),
            forall|j: int| 0 <= j < k && is_wire_at(world, custom_io@[j]) ==> connected_wires@.contains((#[trigger] custom_io@[j]).spec_key()),
        decreases custom_io@.len() - k,
    {
        let custom_io_pos = custom_io[k];
        // Only process if this custom IO position is actually a wire
        if matches!(world.get_block(custom_io_pos), Block::RedstoneWire(_)) {
            proof {
                assert(custom_io@[k as int] == custom_io_pos);
                lemma_seed_connected(world, custom_io@, bounds, custom_io_pos);
                world.lemma_non_air_in_world(custom_io_pos);
            }
            // BFS to find all connected wires
            let mut queue: VecDeque<BlockPos> = VecDeque::new();
            queue.push_back(custom_io_pos);
            let ghost before = connected_wires@;
            pos_set_insert(&mut connected_wires, custom_io_pos.key());
            proof {
                assert forall|r: BlockPos| #[trigger] connected_wires@.contains(r.spec_key()) implies r == custom_io_pos || closed_at(world, bounds, connected_wires@, r) by {
                    if r != custom_io_pos {
                        assert(before.contains(r.spec_key()));
                        assert(closed_at(world, bounds, before, r));
                    }
                }
                assert(queue@[0] == custom_io_pos);
            }
            while queue.len() > 0
                invariant
                    world.wf(),
                    k < custom_io@.len(),
                    faces@ == all_faces(),
                    connected_wires@.contains(custom_io@[k as int].spec_key()),
                    forall|i: int| 0 <= i < queue@.len() ==> connected_wires@.contains((#[trigger] queue@[i]).spec_key()),
                    forall|p: BlockPos| #[trigger] connected_wires@.contains(p.spec_key()) ==> connected_to_custom_io(world, custom_io@, bounds, p) && is_wire_at(world, p),
                    forall|p: BlockPos| #[trigger] connected_wires@.contains(p.spec_key()) ==> queue@.contains(p) || closed_at(world, bounds, connected_wires@, p),
                    forall|j: int| 0 <= j < k && is_wire_at(world, custom_io@[j]) ==> connected_wires@.contains((#[trigger] custom_io@[j]).spec_key()),
                decreases 2 * count_unvisited(world.positions(), connected_wires@) + queue@.len(),
            {
                let ghost q0 = queue@;
                let pos = queue.pop_front().unwrap();
                proof {
                    assert(connected_wires@.contains(q0[0].spec_key()));
                    world.lemma_non_air_in_world(pos);
                    assert forall|r: BlockPos| #[trigger] connected_wires@.contains(r.spec_key()) implies r == pos || queue@.contains(r) || closed_at(world, bounds, connected_wires@, r) by {
                        if q0.contains(r) && r != pos {
                            let i = choose|i: int| 0 <= i < q0.len() && q0[i] == r;
                            assert(queue@[i - 1] == r);
                        }
                    }
                }
                let ghost measure_before = 2 * count_unvisited(world.positions(), connected_wires@) + q0.len();
                // Check all 6 directions for adjacent wires
                let mut fi: usize = 0;
                while fi < 6
                    invariant
                        world.wf(),
                        k < custom_io@.len(),
                        fi <= 6,
                        faces@ == all_faces(),
                        pos.in_world(),
                        connected_wires@.contains(pos.spec_key()),
                        connected_wires@.contains(custom_io@[k as int].spec_key()),
                        forall|i: int| 0 <= i < queue@.len() ==> connected_wires@.contains((#[trigger] queue@[i]).spec_key()),
                        forall|p: BlockPos| #[trigger] connected_wires@.contains(p.spec_key()) ==> connected_to_custom_io(world, custom_io@, bounds, p) && is_wire_at(world, p),
                        forall|p: BlockPos| #[trigger] connected_wires@.contains(p.spec_key()) ==> p == pos || queue@.contains(p) || closed_at(world, bounds, connected_wires@, p),
                        forall|j: int| 0 <= j < k && is_wire_at(world, custom_io@[j]) ==> connected_wires@.contains((#[trigger] custom_io@[j]).spec_key()),
                        forall|j: int| 0 <= j < fi && #[trigger] wire_step(world, bounds, pos, pos.spec_offset(faces@[j])) ==> connected_wires@.contains(pos.spec_offset(faces@[j]).spec_key()),
                        2 * count_unvisited(world.positions(), connected_wires@) + queue@.len() < measure_before,
                    decreases 6 - fi,
                {
                    let face = faces[fi];
                    let neighbor_pos = pos.offset(face);
                    proof {
                        assert(adjacent(pos, neighbor_pos));
                    }
                    // Skip if out of bounds
                    if neighbor_pos.x < bounds.0.x || neighbor_pos.x > bounds.1.x
                        || neighbor_pos.y < bounds.0.y || neighbor_pos.y > bounds.1.y
                        || neighbor_pos.z < bounds.0.z || neighbor_pos.z > bounds.1.z
                    {
                    } else if pos_set_contains(&connected_wires, neighbor_pos.key()) {
                        // Already visited
                    } else if matches!(world.get_block(neighbor_pos), Block::RedstoneWire(_)) {
                        let ghost before = connected_wires@;
                        let ghost qbefore = queue@;
                        proof {
                            assert(wire_step(world, bounds, pos, neighbor_pos));
                            lemma_step_keeps_connected(world, custom_io@, bounds, pos, neighbor_pos);
                            world.lemma_non_air_in_world(neighbor_pos);
                            world.lemma_positions();
                            lemma_count_insert(world.positions(), before, neighbor_pos);
                        }
                        pos_set_insert(&mut connected_wires, neighbor_pos.key());
                        queue.push_back(neighbor_pos);
                        proof {
                            assert forall|r: BlockPos| #[trigger] connected_wires@.contains(r.spec_key()) implies r == pos || queue@.contains(r) || closed_at(world, bounds, connected_wires@, r) by {
                                if r == neighbor_pos {
                                    assert(queue@[queue@.len() - 1] == r);
                                } else {
                                    assert(before.contains(r.spec_key()));
                                    if qbefore.contains(r) {
                                        let i = choose|i: int| 0 <= i < qbefore.len() && qbefore[i] == r;
                                        assert(queue@[i] == r);
                                    } else if r != pos {
                                        assert(closed_at(world, bounds, before, r));
                                    }
                                }
                            }
                            assert forall|i: int| 0 <= i < queue@.len() implies connected_wires@.contains((#[trigger] queue@[i]).spec_key()) by {
                                if i < qbefore.len() {
                                    assert(queue@[i] == qbefore[i]);
                                }
                            }
                        }
                    }
                    fi = fi + 1;
                }
                proof {
                    assert forall|q: BlockPos| #[trigger] wire_step(world, bounds, pos, q) implies connected_wires@.contains(q.spec_key()) by {
                        let f = adjacent_face(pos, q);
                        let j = choose|j: int| 0 <= j < 6 && all_faces()[j] == f;
                        assert(faces@[j] == f);
                    }
                    assert(closed_at(world, bounds, connected_wires@, pos));
                }
            }
        }
        k = k + 1;
    }
    proof {
        assert forall|p: BlockPos| #[trigger] connected_wires@.contains(p.spec_key()) <==> connected_to_custom_io(world, custom_io@, bounds, p) by {
            if connected_to_custom_io(world, custom_io@, bounds, p) {
                let path = choose|path: Seq<BlockPos>| #[trigger] is_wire_path(world, custom_io@, bounds, path) && path.last() == p;
                lemma_closed_set_complete(world, custom_io@, bounds, connected_wires@, path);
            }
        }
    }
    connected_wires
}

/// The strength a comparator at `pos` outputs, as its block entity records it; zero
/// without one.
pub open spec fn comparator_entity_strength(world: &World, pos: BlockPos) -> u8 {
    match world.entity_at(pos) {
        Some(BlockEntity::Comparator { output_strength }) => output_strength,
        _ => 0,
    }
}

/// The node type and initial state of the component `block` at `pos`, if it is one.
pub open spec fn spec_identify_block(world: &World, block: Block, pos: BlockPos) -> Option<(NodeType, NodeState)> {
    if let Some(powered) = block.spec_pressure_plate_powered() {
        Some((NodeType::PressurePlate, NodeState::spec_simple(powered)))
    } else {
        match block {
            Block::Repeater(repeater) => Some((
                NodeType::Repeater {
                    delay: repeater.delay,
                    facing_diode: spec_is_diode(
                        world.block_at(pos.spec_offset(repeater.facing.spec_opposite().spec_block_face())),
                    ),
                },
                NodeState::spec_repeater(repeater.powered, repeater.locked),
            )),
            Block::Comparator(comparator) => Some((
                NodeType::Comparator {
                    mode: comparator.mode,
                    far_input: spec_get_far_input(world, pos, comparator.facing),
                    facing_diode: spec_is_diode(
                        world.block_at(pos.spec_offset(comparator.facing.spec_opposite().spec_block_face())),
                    ),
                },
                NodeState::spec_comparator(comparator.powered, comparator_entity_strength(world, pos)),
            )),
            Block::RedstoneTorch { lit } => Some((NodeType::Torch, NodeState::spec_simple(lit))),
            Block::RedstoneWallTorch { lit, .. } => Some((NodeType::Torch, NodeState::spec_simple(lit))),
            Block::RedstoneWire(wire) => Some((NodeType::Wire, NodeState::spec_ss(wire.power))),
            Block::StoneButton { powered, .. } => Some((NodeType::Button, NodeState::spec_simple(powered))),
            Block::RedstoneLamp { lit } => Some((NodeType::Lamp, NodeState::spec_simple(lit))),
            Block::Lever { powered, .. } => Some((NodeType::Lever, NodeState::spec_simple(powered))),
            Block::IronTrapdoor { powered } => Some((NodeType::Trapdoor, NodeState::spec_simple(powered))),
            Block::RedstoneBlock => Some((NodeType::Constant, NodeState::spec_ss(15))),
            Block::NoteBlock { note, powered } => if spec_is_noteblock_unblocked(world, pos) {
                Some((
                    NodeType::NoteBlock { instrument: spec_noteblock_instrument(world, pos), note },
                    NodeState::spec_simple(powered),
                ))
            } else {
                None
            },
            Block::Container { .. } => Some((NodeType::Constant, NodeState::spec_ss(spec_get_override(block)))),
            Block::Observer { facing, powered } => Some((NodeType::Observer { facing }, NodeState::spec_simple(powered))),
            Block::PoweredRail(rail) => Some((NodeType::PoweredRail, NodeState::spec_simple(rail.powered))),
            Block::ActivatorRail(rail) => Some((NodeType::ActivatorRail, NodeState::spec_simple(rail.powered))),
            _ => None,
        }
    }
}

/// The node type and the initial state of the component at `pos`, if `block` is one.
fn identify_block(block: Block, pos: BlockPos, world: &World) -> (r: Option<(NodeType, NodeState)>)
    requires
        world.wf(),
        pos.in_world(),
    ensures
        r == spec_identify_block(world, block, pos),
{
    if let Some(powered) = block.get_pressure_plate_powered() {
        return Some((NodeType::PressurePlate, NodeState::simple(powered)));
    }
    let (ty, state) = match block {
        Block::Repeater(repeater) => (
            NodeType::Repeater {
                delay: repeater.delay,
                facing_diode: is_diode(world.get_block(pos.offset(repeater.facing.opposite().block_face()))),
            },
            NodeState::repeater(repeater.powered, repeater.locked),
        ),
        Block::Comparator(comparator) => (
            NodeType::Comparator {
                mode: comparator.mode,
                far_input: get_far_input(world, pos, comparator.facing),
                facing_diode: is_diode(world.get_block(pos.offset(comparator.facing.opposite().block_face()))),
            },
            NodeState::comparator(
                comparator.powered,
                if let Some(BlockEntity::Comparator { output_strength }) = world.get_block_entity(pos) {
                    *output_strength
                } else {
                    0
                },
            ),
        ),
        Block::RedstoneTorch { lit } => (NodeType::Torch, NodeState::simple(lit)),
        Block::RedstoneWallTorch { lit, .. } => (NodeType::Torch, NodeState::simple(lit)),
        Block::RedstoneWire(wire) => (NodeType::Wire, NodeState::ss(wire.power)),
        Block::StoneButton { powered, .. } => (NodeType::Button, NodeState::simple(powered)),
        Block::RedstoneLamp { lit } => (NodeType::Lamp, NodeState::simple(lit)),
        Block::Lever { powered, .. } => (NodeType::Lever, NodeState::simple(powered)),
        Block::IronTrapdoor { powered } => (NodeType::Trapdoor, NodeState::simple(powered)),
        Block::RedstoneBlock => (NodeType::Constant, NodeState::ss(15)),
        Block::NoteBlock { note, powered } if is_noteblock_unblocked(world, pos) => {
            let instrument = get_noteblock_instrument(world, pos);
            (NodeType::NoteBlock { instrument, note }, NodeState::simple(powered))
        },
        block if has_override(block) => (NodeType::Constant, NodeState::ss(get_override(block))),
        Block::Observer { facing, powered } => (NodeType::Observer { facing }, NodeState::simple(powered)),
        Block::PoweredRail(rail) => (NodeType::PoweredRail, NodeState::simple(rail.powered)),
        Block::ActivatorRail(rail) => (NodeType::ActivatorRail, NodeState::simple(rail.powered)),
        _ => return None,
    };
    Some((ty, state))
}

/// What the pass records for a component: its type, initial state, and whether it is
/// an input and an output of the circuit.
pub type NodeInfo = (NodeType, NodeState, bool, bool);

/// The node the pass adds for the block at `pos`, if any. `connected` tells whether `pos`
/// is a wire joined to a custom IO wire (when that search runs).
pub open spec fn node_for_pos(
    world: &World,
    pos: BlockPos,
    ignore_wires: bool,
    wire_dot_out: bool,
    custom_io: Seq<BlockPos>,
    connected: bool,
) -> Option<NodeInfo> {
    let block = world.block_at(pos);
    if block.spec_is_sign() || block.spec_is_wall_sign() {
        None
    } else {
        match spec_identify_block(world, block, pos) {
            None => None,
            Some((ty, state)) => {
                let is_custom_io = custom_io.contains(pos);
                let is_connected_to_custom_io = ty == NodeType::Wire && connected;
                let is_input = ty.spec_is_normally_input() || is_custom_io || is_connected_to_custom_io;
                let is_output = ty.spec_is_normally_output() || (block matches Block::RedstoneWire(wire)
                    && wire_dot_out && spec_is_dot(wire)) || is_custom_io || is_connected_to_custom_io;
                if ignore_wires && ty == NodeType::Wire && !(is_input || is_output) {
                    None
                } else {
                    Some((ty, state, is_input, is_output))
                }
            },
        }
    }
}

/// `node` is the node added for `block` at `pos` with the recorded facts `info`.
pub open spec fn node_matches(node: CompileNode, pos: BlockPos, block: Block, info: NodeInfo) -> bool {
    &&& node.ty == info.0
    &&& node.state == info.1
    &&& node.is_input == info.2
    &&& node.is_output == info.3
    &&& node.block == Some((pos, block))
    &&& node.aliased_blocks@.len() == 0
    &&& node.name is None
}

fn contains_pos(positions: &[BlockPos], pos: BlockPos) -> (b: bool)
    ensures
        b == positions@.contains(pos),
{
    let mut i: usize = 0;
    while i < positions.len()
        invariant
            i <= positions@.len(),
            forall|j: int| 0 <= j < i ==> positions@[j] != pos,
        decreases positions@.len() - i,
    {
        if positions[i] == pos {
            assert(positions@[i as int] == pos);
            return true;
        }
        i = i + 1;
    }
    false
}

fn for_pos(
    graph: &mut CompileGraph,
    first_pass: &mut PosMap<NodeIdx>,
    second_pass: &mut PosSet,
    ignore_wires: bool,
    wire_dot_out: bool,
    custom_io: &[BlockPos],
    wires_connected_to_custom_io: &PosSet,
    world: &World,
    pos: BlockPos,
)
    requires
        old(graph).wf(),
        old(graph).nodes().len() < usize::MAX,
        world.wf(),
        pos.in_world(),
    ensures
        final(graph).wf(),
        final(graph).edges() == old(graph).edges(),
        ({
            let block = world.block_at(pos);
            let sign = block.spec_is_sign() || block.spec_is_wall_sign();
            &&& final(second_pass)@ == if sign { old(second_pass)@.insert(pos.spec_key()) } else { old(second_pass)@ }
            &&& match node_for_pos(world, pos, ignore_wires, wire_dot_out, custom_io@, wires_connected_to_custom_io@.contains(pos.spec_key())) {
                Some(info) => {
                    &&& final(graph).nodes().len() == old(graph).nodes().len() + 1
                    &&& final(graph).nodes().subrange(0, old(graph).nodes().len() as int) == old(graph).nodes()
                    &&& node_matches(final(graph).nodes().last(), pos, block, info)
                    &&& final(first_pass)@ == old(first_pass)@.insert(pos.spec_key(), old(graph).nodes().len() as usize)
                },
                None => {
                    &&& final(graph).nodes() == old(graph).nodes()
                    &&& final(first_pass)@ == old(first_pass)@
                },
            }
        }),
{
    let block = world.get_block(pos);

    if block.is_sign() || block.is_wall_sign() {
        pos_set_insert(second_pass, pos.key());
        return;
    }

    let Some((ty, state)) = identify_block(block, pos, world) else {
        return;
    };

    let is_custom_io = contains_pos(custom_io, pos);

    // Check if this wire is connected to a custom IO wire
    // These wires need to be included in the graph even with optimization enabled
    // so that custom IO wires can propagate power through them
    let is_connected_to_custom_io = ty == NodeType::Wire && pos_set_contains(wires_connected_to_custom_io, pos.key());

    // Custom IO: keep the component's own node type (Wire/Repeater/Comparator/etc) but mark as input/output
    // This allows ANY component to be monitored or controlled via custom IO
    let is_input = ty.is_normally_input() || is_custom_io || is_connected_to_custom_io;
    let is_output = ty.is_normally_output() || (match block {
        Block::RedstoneWire(wire) => wire_dot_out && is_dot(wire),
        _ => false,
    }) || is_custom_io || is_connected_to_custom_io;

    if ignore_wires && ty == NodeType::Wire && !(is_input || is_output) {
        return;
    }

    let ghost old_nodes = graph.nodes();
    let node_idx = graph.add_node(CompileNode {
        ty,
        block: Some((pos, block)),
        aliased_blocks: Vec::new(),
        name: None,
        state,
        is_input,
        is_output,
    });
    assert(graph.nodes().subrange(0, old_nodes.len() as int) =~= old_nodes);
    pos_map_insert(first_pass, pos.key(), node_idx);
}

/// `p` lies in the box spanned by the corners `a` and `b`.
pub open spec fn in_box(p: BlockPos, a: BlockPos, b: BlockPos) -> bool {
    &&& (a.x <= p.x <= b.x || b.x <= p.x <= a.x)
    &&& (a.y <= p.y <= b.y || b.y <= p.y <= a.y)
    &&& (a.z <= p.z <= b.z || b.z <= p.z <= a.z)
}

/// Whether the pass treats `p` as a wire joined to custom IO: only when wires are left
/// out and there is custom IO.
pub open spec fn joined_to_custom_io(
    world: &World,
    options: &CompilerOptions,
    bounds: (BlockPos, BlockPos),
    p: BlockPos,
) -> bool {
    options.optimize && options.custom_io@.len() > 0 && connected_to_custom_io(
        world,
        options.custom_io@,
        bounds,
        p,
    )
}

/// The nodes the pass adds, in order, for the positions `ps` taken in order: each
/// position in the bounds that holds a component the options keep.
pub open spec fn identified_nodes(
    world: &World,
    options: &CompilerOptions,
    bounds: (BlockPos, BlockPos),
    ps: Seq<BlockPos>,
) -> Seq<(BlockPos, Block, NodeInfo)>
    decreases ps.len(),
{
    if ps.len() == 0 {
        Seq::empty()
    } else {
        let prev = identified_nodes(world, options, bounds, ps.drop_last());
        let p = ps.last();
        if in_box(p, bounds.0, bounds.1) {
            match node_for_pos(
                world,
                p,
                options.optimize,
                options.wire_dot_out,
                options.custom_io@,
                joined_to_custom_io(world, options, bounds, p),
            ) {
                Some(info) => prev.push((p, world.block_at(p), info)),
                None => prev,
            }
        } else {
            prev
        }
    }
}

impl IdentifyNodes {
    /// Adds a node for every component in the bounds, in the order the world holds its
    /// blocks; the edges are left as they are.
    pub fn run_pass(
        &self,
        graph: &mut CompileGraph,
        options: &CompilerOptions,
        world: &World,
        bounds: (BlockPos, BlockPos),
    )
        requires
            old(graph).wf(),
            world.wf(),
            old(graph).nodes().len() + world.positions().len() < usize::MAX,
        ensures
            final(graph).wf(),
            final(graph).edges() == old(graph).edges(),
            ({
                let added = identified_nodes(world, options, bounds, world.positions());
                &&& final(graph).nodes().len() == old(graph).nodes().len() + added.len()
                &&& final(graph).nodes().subrange(0, old(graph).nodes().len() as int) == old(graph).nodes()
                &&& forall|i: int| 0 <= i < added.len() ==> node_matches(
                    #[trigger] final(graph).nodes()[old(graph).nodes().len() + i],
                    added[i].0,
                    added[i].1,
                    added[i].2,
                )
            }),
    {
        let ignore_wires = options.optimize;

        let mut first_pass: PosMap<NodeIdx> = pos_map_new();
        let mut second_pass = pos_set_new();

        let (first_pos, second_pos) = bounds;

        // Find all wires connected to custom IO wires
        let wires_connected_to_custom_io = if ignore_wires && options.custom_io.len() > 0 {
            find_wires_connected_to_custom_io(world, options.custom_io.as_slice(), (first_pos, second_pos))
        } else {
            pos_set_new()
        };
        assert forall|p: BlockPos| #[trigger] wires_connected_to_custom_io@.contains(p.spec_key())
            == joined_to_custom_io(world, options, bounds, p) by {}

        let custom_io = options.custom_io.as_slice();
        let positions = world.block_positions();
        proof {
            world.lemma_positions();
        }
        let ghost old_nodes = graph.nodes();
        let mut i: usize = 0;
        while i < positions.len()
            invariant
                world.wf(),
                graph.wf(),
                graph.edges() == old(graph).edges(),
                old_nodes == old(graph).nodes(),
                i <= positions@.len(),
                positions@ == world.positions(),
                custom_io@ == options.custom_io@,
                ignore_wires == options.optimize,
                old_nodes.len() + positions@.len() < usize::MAX,
                forall|j: int| 0 <= j < positions@.len() ==> (#[trigger] positions@[j]).in_world(),
                forall|p: BlockPos| #[trigger] wires_connected_to_custom_io@.contains(p.spec_key())
                    == joined_to_custom_io(world, options, bounds, p),
                ({
                    let added = identified_nodes(world, options, bounds, positions@.subrange(0, i as int));
                    &&& graph.nodes().len() == old_nodes.len() + added.len()
                    &&& added.len() <= i
                    &&& graph.nodes().subrange(0, old_nodes.len() as int) == old_nodes
                    &&& forall|k: int| 0 <= k < added.len() ==> node_matches(
                        #[trigger] graph.nodes()[old_nodes.len() + k],
                        added[k].0,
                        added[k].1,
                        added[k].2,
                    )
                }),
            decreases positions@.len() - i,
        {
            let pos = positions[i];
            let ghost prefix = positions@.subrange(0, i as int);
            let ghost next_prefix = positions@.subrange(0, i + 1);
            assert(next_prefix.drop_last() =~= prefix);
            assert(next_prefix.last() == pos);
            let ghost before_nodes = graph.nodes();
            let in_x = (bounds.0.x <= pos.x && pos.x <= bounds.1.x) || (bounds.1.x <= pos.x && pos.x <= bounds.0.x);
            let in_y = (bounds.0.y <= pos.y && pos.y <= bounds.1.y) || (bounds.1.y <= pos.y && pos.y <= bounds.0.y);
            let in_z = (bounds.0.z <= pos.z && pos.z <= bounds.1.z) || (bounds.1.z <= pos.z && pos.z <= bounds.0.z);
            let inside = in_x && in_y && in_z;
            if inside {
                for_pos(
                    graph,
                    &mut first_pass,
                    &mut second_pass,
                    ignore_wires,
                    options.wire_dot_out,
                    custom_io,
                    &wires_connected_to_custom_io,
                    world,
                    pos,
                );
            }
            proof {
                let added = identified_nodes(world, options, bounds, prefix);
                let added2 = identified_nodes(world, options, bounds, next_prefix);
                assert(wires_connected_to_custom_io@.contains(pos.spec_key()) == joined_to_custom_io(world, options, bounds, pos));
                assert(inside == in_box(pos, bounds.0, bounds.1));
                let info = node_for_pos(
                    world,
                    pos,
                    options.optimize,
                    options.wire_dot_out,
                    options.custom_io@,
                    joined_to_custom_io(world, options, bounds, pos),
                );
                assert(info == node_for_pos(world, pos, ignore_wires, options.wire_dot_out, custom_io@, wires_connected_to_custom_io@.contains(pos.spec_key())));
                if inside && info is Some {
                    assert(added2 == added.push((pos, world.block_at(pos), info.unwrap())));
                    assert forall|k: int| 0 <= k < added2.len() implies node_matches(
                        #[trigger] graph.nodes()[old_nodes.len() + k],
                        added2[k].0,
                        added2[k].1,
                        added2[k].2,
                    ) by {
                        if k < added.len() {
                            assert(graph.nodes().subrange(0, before_nodes.len() as int)[old_nodes.len() + k]
                                == before_nodes[old_nodes.len() + k]);
                        } else {
                            assert(graph.nodes()[old_nodes.len() + k] == graph.nodes().last());
                        }
                    }
                    assert(graph.nodes().subrange(0, old_nodes.len() as int) =~= before_nodes.subrange(0, old_nodes.len() as int));
                } else {
                    assert(added2 == added);
                    assert(graph.nodes() == before_nodes);
                }
            }
            i = i + 1;
        }
        assert(positions@.subrange(0, i as int) =~= positions@);

        let signs = pos_set_keys(&second_pass);
        let ghost identified = graph.nodes();
        let mut j: usize = 0;
        while j < signs.len()
            invariant
                world.wf(),
                graph.wf(),
                j <= signs@.len(),
                graph.nodes() == identified,
                graph.edges() == old(graph).edges(),
            decreases signs@.len() - j,
        {
            let (x, y, z) = signs[j];
            apply_annotations(graph, options, &first_pass, world, BlockPos { x, y, z });
            j = j + 1;
        }
    }

    /// A short description of the pass.
    pub fn status_message(&self) -> (s: &'static str)
        ensures
            s@ == "Identifying nodes"@,
    {
        "Identifying nodes"
    }

    /// The name under which the pass is known.
    pub fn driver_key(&self) -> (s: &'static str)
        ensures
            s@ == "identify-nodes"@,
    {
        "identify-nodes"
    }
}

/// Applies the annotations written on the sign at `pos` to the component it is attached
/// to. No annotation kinds exist, so the graph never changes.
fn apply_annotations(
    graph: &mut CompileGraph,
    options: &CompilerOptions,
    first_pass: &PosMap<NodeIdx>,
    world: &World,
    pos: BlockPos,
)
    requires
        old(graph).wf(),
        world.wf(),
    ensures
        final(graph).wf(),
        final(graph).nodes() == old(graph).nodes(),
        final(graph).edges() == old(graph).edges(),
{
    let block = world.get_block(pos);
    let annotations = parse_sign_annotations(world.get_block_entity(pos));
    if annotations.len() == 0 {
        return;
    }

    let targets: Vec<BlockPos> = match (block.get_sign_rotation(), block.get_wall_sign_facing()) {
        (Some(rotation), None) => {
            if let Some(facing) = BlockDirection::from_rotation(rotation) {
                let behind = pos.offset(facing.opposite().block_face());
                vec![behind]
            } else {
                return;
            }
        },
        (None, Some(facing)) => {
            let behind = pos.offset(facing.opposite().block_face());
            vec![behind, behind.offset(BlockFace::Top), behind.offset(BlockFace::Bottom)]
        },
        // The second pass only visits signs.
        _ => return,
    };

    let mut target: Option<NodeIdx> = None;
    let mut t: usize = 0;
    while t < targets.len() && target.is_none()
        decreases targets@.len() - t,
    {
        target = pos_map_get(first_pass, targets[t].key());
        t = t + 1;
    }
    if let Some(node_idx) = target {
        let mut annotations = annotations;
        while annotations.len() > 0
            decreases annotations@.len(),
        {
            let annotation = annotations.remove(0);
            let _ = annotation.apply(graph, node_idx, options);
        }
    }
}

/// The annotations written on a sign: each front row whose JSON text component reads
/// as an annotation.
fn parse_sign_annotations(entity: Option<&BlockEntity>) -> (annotations: Vec<NodeAnnotation>)
    ensures
        annotations@.len() == 0,
{
    let mut annotations: Vec<NodeAnnotation> = Vec::new();
    if let Some(BlockEntity::Sign { front_rows }) = entity {
        let mut i: usize = 0;
        while i < front_rows.len()
            invariant
                i <= front_rows@.len(),
                annotations@.len() == 0,
            decreases front_rows@.len() - i,
        {
            if let Ok(json) = json_from_str(front_rows[i].as_str()) {
                if let Some(object) = json_as_object(&json) {
                    if let Some(text) = json_map_get(object, "text") {
                        if let Some(text) = json_as_str(text) {
                            if let Some(annotation) = NodeAnnotation::parse(text) {
                                annotations.push(annotation);
                            }
                        }
                    }
                }
            }
            i = i + 1;
        }
    }
    annotations
}


/// Joining two lists of custom IO positions joins the wires connected to them: a wire is
/// connected to custom IO in `a + b` exactly when it is in `a` or in `b`.
pub proof fn lemma_custom_io_union(
    world: &World,
    a: Seq<BlockPos>,
    b: Seq<BlockPos>,
    bounds: (BlockPos, BlockPos),
    p: BlockPos,
)
    ensures
        connected_to_custom_io(world, a + b, bounds, p) <==> connected_to_custom_io(world, a, bounds, p)
            || connected_to_custom_io(world, b, bounds, p),
{
    let ab = a + b;
    if connected_to_custom_io(world, ab, bounds, p) {
        let path = choose|path: Seq<BlockPos>| #[trigger] is_wire_path(world, ab, bounds, path) && path.last() == p;
        let i = choose|i: int| 0 <= i < ab.len() && ab[i] == path[0];
        if i < a.len() {
            assert(a[i] == path[0]);
            assert(is_wire_path(world, a, bounds, path));
        } else {
            assert(b[i - a.len()] == path[0]);
            assert(is_wire_path(world, b, bounds, path));
        }
    }
    if connected_to_custom_io(world, a, bounds, p) {
        let path = choose|path: Seq<BlockPos>| #[trigger] is_wire_path(world, a, bounds, path) && path.last() == p;
        let i = choose|i: int| 0 <= i < a.len() && a[i] == path[0];
        assert(ab[i] == path[0]);
        assert(is_wire_path(world, ab, bounds, path));
    }
    if connected_to_custom_io(world, b, bounds, p) {
        let path = choose|path: Seq<BlockPos>| #[trigger] is_wire_path(world, b, bounds, path) && path.last() == p;
        let i = choose|i: int| 0 <= i < b.len() && b[i] == path[0];
        assert(ab[a.len() + i] == path[0]);
        assert(is_wire_path(world, ab, bounds, path));
    }
}

/// Only which positions are custom IO matters, not their order or repetition.
pub proof fn lemma_custom_io_as_set(
    world: &World,
    a: Seq<BlockPos>,
    b: Seq<BlockPos>,
    bounds: (BlockPos, BlockPos),
    p: BlockPos,
)
    requires
        a.to_set() == b.to_set(),
    ensures
        connected_to_custom_io(world, a, bounds, p) <==> connected_to_custom_io(world, b, bounds, p),
{
    assert forall|x: BlockPos| a.contains(x) <==> b.contains(x) by {
        assert(a.to_set().contains(x) <==> a.contains(x));
        assert(b.to_set().contains(x) <==> b.contains(x));
    }
    if connected_to_custom_io(world, a, bounds, p) {
        let path = choose|path: Seq<BlockPos>| #[trigger] is_wire_path(world, a, bounds, path) && path.last() == p;
        assert(is_wire_path(world, b, bounds, path));
    }
    if connected_to_custom_io(world, b, bounds, p) {
        let path = choose|path: Seq<BlockPos>| #[trigger] is_wire_path(world, b, bounds, path) && path.last() == p;
        assert(is_wire_path(world, a, bounds, path));
    }
}

/// A repeater or comparator node faces a diode exactly when the block on its output
/// side, opposite the input side it reads from (`pos.offset(facing)`), is a repeater or
/// a comparator; what lies on its input side plays no part.
pub proof fn lemma_facing_diode_reads_output(w1: &World, w2: &World, block: Block, pos: BlockPos)
    requires
        block is Repeater || block is Comparator,
    ensures
        ({
            let facing = match block {
                Block::Repeater(r) => r.facing,
                Block::Comparator(c) => c.facing,
                _ => BlockDirection::North,
            };
            let out = pos.spec_offset(facing.spec_block_face().spec_opposite());
            let faces_diode = |w: &World| w.block_at(out) is Repeater || w.block_at(out) is Comparator;
            &&& spec_identify_block(w1, block, pos) is Some
            &&& match (block, spec_identify_block(w1, block, pos).unwrap().0) {
                (Block::Repeater(r), NodeType::Repeater { delay, facing_diode }) => delay == r.delay && facing_diode
                    == faces_diode(w1),
                (Block::Comparator(c), NodeType::Comparator { mode, facing_diode, .. }) => mode == c.mode && facing_diode
                    == faces_diode(w1),
                _ => false,
            }
            &&& w1.block_at(out) == w2.block_at(out) ==> spec_identify_block(w1, block, pos).unwrap().0 is Repeater
                ==> spec_identify_block(w1, block, pos).unwrap().0 == spec_identify_block(w2, block, pos).unwrap().0
        }),
{
    match block {
        Block::Repeater(r) => {
            lemma_direction_turns(r.facing);
        },
        Block::Comparator(c) => {
            lemma_direction_turns(c.facing);
        },
        _ => {},
    }
}

/// Custom IO keeps a component's own node type and state, and makes it an input and an
/// output, whatever the options.
pub proof fn lemma_custom_io_kept(
    world: &World,
    pos: BlockPos,
    ignore_wires: bool,
    wire_dot_out: bool,
    custom_io: Seq<BlockPos>,
    connected: bool,
    ty: NodeType,
    state: NodeState,
)
    requires
        custom_io.contains(pos),
        spec_identify_block(world, world.block_at(pos), pos) == Some((ty, state)),
    ensures
        node_for_pos(world, pos, ignore_wires, wire_dot_out, custom_io, connected) == Some((ty, state, true, true)),
{
}

/// Leaving wires out drops exactly the wires that are neither inputs nor outputs: every
/// other node is the one the pass adds without that option.
pub proof fn lemma_optimize_drops_only_plain_wires(
    world: &World,
    pos: BlockPos,
    wire_dot_out: bool,
    custom_io: Seq<BlockPos>,
    connected: bool,
)
    ensures
        node_for_pos(world, pos, true, wire_dot_out, custom_io, connected) == match node_for_pos(
            world,
            pos,
            false,
            wire_dot_out,
            custom_io,
            connected,
        ) {
            Some((ty, state, is_input, is_output)) => if ty == NodeType::Wire && !is_input && !is_output {
                None
            } else {
                Some((ty, state, is_input, is_output))
            },
            None => None,
        },
{
}

/// Signs never become nodes, and neither does anything the pass does not identify as a
/// component.
pub proof fn lemma_only_components_become_nodes(
    world: &World,
    pos: BlockPos,
    ignore_wires: bool,
    wire_dot_out: bool,
    custom_io: Seq<BlockPos>,
    connected: bool,
)
    ensures
        (world.block_at(pos).spec_is_sign() || world.block_at(pos).spec_is_wall_sign()
            || spec_identify_block(world, world.block_at(pos), pos) is None) ==> node_for_pos(
            world,
            pos,
            ignore_wires,
            wire_dot_out,
            custom_io,
            connected,
        ) is None,
{
}

/// The number of kinds of annotation that are defined.
pub open spec fn annotation_kinds() -> int {
    0
}

/// An annotation written on a sign next to a component. No kinds of annotation are
/// defined yet, so no value of this type can be made.
pub struct NodeAnnotation {
    kind: u8,
}

impl NodeAnnotation {
    /// The number of the annotation's kind.
    pub closed spec fn kind_number(self) -> int {
        self.kind as int
    }

    /// The kind of an annotation is one of the defined kinds.
    #[verifier::type_invariant]
    closed spec fn defined_kind(self) -> bool {
        self.kind_number() < annotation_kinds()
    }

    /// Reads an annotation from the text of a sign row; annotations are written in
    /// square brackets. No kind of annotation is defined, so none is ever read.
    pub fn parse(s: &str) -> (r: Option<NodeAnnotation>)
        ensures
            r is None,
    {
        None
    }

    /// Applies the annotation to the node `node_idx`. No annotation exists to apply, so no
    /// call of this function can happen: a caller learns that its annotation has a
    /// defined kind, of which there are none.
    pub fn apply(
        self,
        graph: &mut CompileGraph,
        node_idx: NodeIdx,
        options: &CompilerOptions,
    ) -> (r: Result<(), String>)
        ensures
            0 <= self.kind_number() < annotation_kinds(),
            final(graph).nodes() == old(graph).nodes(),
            final(graph).edges() == old(graph).edges(),
    {
        proof {
            use_type_invariant(&self);
        }
        Ok(())
    }
}

} // verus!
