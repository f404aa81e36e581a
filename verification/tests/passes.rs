use redpiler::blocks::{
    Block, Comparator, ComparatorMode, Instrument, LeverFace, RedstoneWire, RedstoneWireSide,
    Repeater,
};
use redpiler::compile_graph::{CompileEdge, CompileGraph, CompileLink, CompilerOptions, LinkType, NodeState, NodeType};
use redpiler::geometry::{BlockDirection, BlockFace, BlockPos};
use redpiler::identify_nodes::{IdentifyNodes, NodeAnnotation};
use redpiler::input_search::InputSearch;
use redpiler::world::{BlockEntity, World};

fn pos(x: i32, y: i32, z: i32) -> BlockPos {
    BlockPos::new(x, y, z)
}

fn stone() -> Block {
    Block::Solid { instrument: Instrument::Basedrum }
}

fn wire(power: u8, east_west: bool) -> Block {
    let side = if east_west { RedstoneWireSide::Side } else { RedstoneWireSide::Unconnected };
    Block::RedstoneWire(RedstoneWire {
        north: RedstoneWireSide::Unconnected,
        south: RedstoneWireSide::Unconnected,
        east: side,
        west: side,
        power,
    })
}

fn lever() -> Block {
    Block::Lever { face: LeverFace::Floor, facing: BlockDirection::North, powered: false }
}

fn options(optimize: bool, custom_io: Vec<BlockPos>) -> CompilerOptions {
    CompilerOptions { optimize, wire_dot_out: false, custom_io }
}

fn bounds() -> (BlockPos, BlockPos) {
    (pos(-16, -16, -16), pos(16, 16, 16))
}

fn edges(graph: &CompileGraph) -> Vec<CompileEdge> {
    (0..graph.edge_count()).map(|i| graph.edge(i)).collect()
}

fn edge(source: usize, target: usize, ty: LinkType, ss: u8) -> CompileEdge {
    CompileEdge { source, target, link: CompileLink { ty, ss } }
}

/// lever - wire - wire - lamp, on a row of stone.
fn lever_line() -> World {
    let mut world = World::new();
    for x in 0..4 {
        world.set_block(pos(x, 0, 0), stone());
    }
    world.set_block(pos(0, 1, 0), lever());
    world.set_block(pos(1, 1, 0), wire(0, true));
    world.set_block(pos(2, 1, 0), wire(0, true));
    world.set_block(pos(3, 1, 0), Block::RedstoneLamp { lit: false });
    world
}

fn compile(world: &World, options: &CompilerOptions) -> CompileGraph {
    let mut graph = CompileGraph::new();
    IdentifyNodes.run_pass(&mut graph, options, world, bounds());
    InputSearch.run_pass(&mut graph, options, world);
    graph
}

#[test]
fn identify_nodes_of_a_lever_line() {
    let world = lever_line();
    let mut graph = CompileGraph::new();
    IdentifyNodes.run_pass(&mut graph, &options(false, vec![]), &world, bounds());
    assert_eq!(graph.node_bound(), 4);
    let lever_node = graph.node(0);
    assert_eq!(lever_node.ty, NodeType::Lever);
    assert!(lever_node.is_input && !lever_node.is_output);
    assert_eq!(lever_node.block, Some((pos(0, 1, 0), lever())));
    assert_eq!(graph.node(1).ty, NodeType::Wire);
    assert_eq!(graph.node(1).state, NodeState { powered: false, repeater_locked: false, output_strength: 0 });
    let lamp = graph.node(3);
    assert_eq!(lamp.ty, NodeType::Lamp);
    assert!(!lamp.is_input && lamp.is_output);
    assert_eq!(graph.edge_count(), 0);
}

#[test]
fn input_search_links_a_lever_line() {
    let world = lever_line();
    let graph = compile(&world, &options(false, vec![]));
    assert_eq!(
        edges(&graph),
        vec![
            edge(0, 1, LinkType::Default, 0),
            edge(0, 2, LinkType::Default, 1),
            edge(0, 3, LinkType::Default, 1),
        ]
    );
}

#[test]
fn optimize_leaves_plain_wires_out() {
    let world = lever_line();
    let graph = compile(&world, &options(true, vec![]));
    assert_eq!(graph.node_bound(), 2);
    assert_eq!(graph.node(0).ty, NodeType::Lever);
    assert_eq!(graph.node(1).ty, NodeType::Lamp);
    assert_eq!(edges(&graph), vec![edge(0, 1, LinkType::Default, 1)]);
}

#[test]
fn optimize_keeps_wires_joined_to_custom_io() {
    let world = lever_line();
    let graph = compile(&world, &options(true, vec![pos(2, 1, 0)]));
    // Both wires are joined to the custom IO wire, so both stay, as inputs and outputs.
    assert_eq!(graph.node_bound(), 4);
    assert!(graph.node(1).is_input && graph.node(1).is_output);
    assert!(graph.node(2).is_input && graph.node(2).is_output);
}

#[test]
fn custom_io_wire_feeds_adjacent_wire() {
    let mut world = World::new();
    world.set_block(pos(0, 0, 0), wire(0, true));
    world.set_block(pos(1, 0, 0), wire(0, true));
    let graph = compile(&world, &options(false, vec![pos(0, 0, 0)]));
    assert_eq!(graph.node_bound(), 2);
    assert!(graph.node(0).is_input && graph.node(0).is_output);
    assert!(!graph.node(1).is_input && !graph.node(1).is_output);
    // The custom IO wire powers its neighbor one step further along the line.
    assert_eq!(edges(&graph), vec![edge(0, 1, LinkType::Default, 1)]);
}

#[test]
fn custom_io_wire_powers_torch_through_block() {
    let mut world = World::new();
    world.set_block(pos(0, 0, 0), wire(0, false));
    world.set_block(pos(0, 1, 0), stone());
    world.set_block(pos(0, 2, 0), Block::RedstoneTorch { lit: true });
    let graph = compile(&world, &options(false, vec![pos(0, 0, 0)]));
    assert_eq!(graph.node_bound(), 2);
    assert_eq!(graph.node(1).ty, NodeType::Torch);
    assert_eq!(edges(&graph), vec![edge(0, 1, LinkType::Default, 0)]);
}

#[test]
fn comparator_reads_custom_io_wire_on_its_side() {
    let mut world = World::new();
    let comparator = Comparator { facing: BlockDirection::North, mode: ComparatorMode::Subtract, powered: false };
    world.set_block(pos(1, 0, 0), Block::Comparator(comparator));
    world.set_block(pos(0, 0, 0), wire(0, true));
    world.set_block(pos(2, 0, 0), wire(0, true));
    world.set_block(pos(1, 0, -1), Block::RedstoneBlock);
    let graph = compile(&world, &options(false, vec![pos(0, 0, 0)]));
    // Nodes: comparator, custom IO wire, plain wire, redstone block.
    assert_eq!(graph.node_bound(), 4);
    assert_eq!(
        graph.node(0).ty,
        NodeType::Comparator { mode: ComparatorMode::Subtract, far_input: None, facing_diode: false }
    );
    assert_eq!(
        edges(&graph),
        vec![
            // The custom IO wire on its west side, like a redstone block would be.
            edge(1, 0, LinkType::Side, 0),
            // The redstone block in front of it powers its input.
            edge(3, 0, LinkType::Default, 0),
            // The custom IO wire's own output edge to the comparator's side.
            edge(1, 0, LinkType::Side, 0),
        ]
    );
}

#[test]
fn repeater_sees_torch_through_block_and_locking_side() {
    let mut world = World::new();
    // Torch on a block in front of (north of) a repeater facing north.
    let repeater = Repeater { delay: 2, facing: BlockDirection::North, locked: false, powered: false };
    world.set_block(pos(0, 0, 0), Block::Repeater(repeater));
    world.set_block(pos(0, 0, -1), stone());
    world.set_block(pos(0, -1, -1), Block::RedstoneTorch { lit: true });
    // A repeater to the east, with its input further east and its output into this one,
    // can lock it.
    let locker = Repeater { delay: 1, facing: BlockDirection::East, locked: false, powered: true };
    world.set_block(pos(1, 0, 0), Block::Repeater(locker));
    let graph = compile(&world, &options(false, vec![]));
    assert_eq!(graph.node(0).ty, NodeType::Repeater { delay: 2, facing_diode: false });
    assert_eq!(graph.node(0).state, NodeState { powered: false, repeater_locked: false, output_strength: 0 });
    assert_eq!(graph.node(2).state, NodeState { powered: true, repeater_locked: false, output_strength: 15 });
    assert_eq!(
        edges(&graph),
        vec![
            // The torch beneath the block in front strongly powers it.
            edge(1, 0, LinkType::Default, 0),
            edge(2, 0, LinkType::Side, 0),
        ]
    );
}

#[test]
fn comparator_reads_container_override_and_far_input() {
    let mut world = World::new();
    let comparator = Comparator { facing: BlockDirection::North, mode: ComparatorMode::Compare, powered: true };
    world.set_block(pos(0, 0, 0), Block::Comparator(comparator));
    world.set_block(pos(0, 0, -1), stone());
    world.set_block(pos(0, 0, -2), Block::Container { override_strength: 7 });
    world.set_block_entity(pos(0, 0, 0), BlockEntity::Comparator { output_strength: 9 });
    let graph = compile(&world, &options(false, vec![]));
    assert_eq!(
        graph.node(0).ty,
        NodeType::Comparator { mode: ComparatorMode::Compare, far_input: Some(7), facing_diode: false }
    );
    assert_eq!(graph.node(0).state, NodeState { powered: true, repeater_locked: false, output_strength: 9 });
    assert_eq!(graph.node(1).ty, NodeType::Constant);
    assert_eq!(graph.node(1).state.output_strength, 7);
}

#[test]
fn note_block_needs_air_above() {
    let mut world = World::new();
    world.set_block(pos(0, 0, 0), Block::Solid { instrument: Instrument::Bass });
    world.set_block(pos(0, 1, 0), Block::NoteBlock { note: 3, powered: false });
    world.set_block(pos(5, 1, 0), Block::NoteBlock { note: 4, powered: false });
    world.set_block(pos(5, 2, 0), stone());
    let graph = compile(&world, &options(false, vec![]));
    assert_eq!(graph.node_bound(), 1);
    assert_eq!(graph.node(0).ty, NodeType::NoteBlock { instrument: Instrument::Bass, note: 3 });
}

#[test]
fn observer_watches_its_facing_side_and_powers_its_back() {
    let mut world = World::new();
    world.set_block(pos(0, 0, 0), Block::Observer { facing: BlockFace::East, powered: false });
    world.set_block(pos(1, 0, 0), Block::RedstoneLamp { lit: false });
    world.set_block(pos(-1, 0, 0), Block::RedstoneLamp { lit: false });
    let graph = compile(&world, &options(false, vec![]));
    assert_eq!(graph.node(0).ty, NodeType::Observer { facing: BlockFace::East });
    // The observer is triggered by the lamp it watches (east of it) and powers only the
    // lamp behind it (west of it), through its back face.
    assert_eq!(edges(&graph), vec![edge(1, 0, LinkType::Default, 0), edge(0, 2, LinkType::Default, 0)]);
}

#[test]
fn pressure_plate_and_blocks_outside_bounds() {
    let mut world = World::new();
    world.set_block(pos(0, 0, 0), Block::PressurePlate { powered: true });
    world.set_block(pos(100, 0, 0), Block::RedstoneLamp { lit: false });
    let graph = compile(&world, &options(false, vec![]));
    assert_eq!(graph.node_bound(), 1);
    assert_eq!(graph.node(0).ty, NodeType::PressurePlate);
    assert!(graph.node(0).is_input);
    assert_eq!(graph.node(0).state.output_strength, 15);
}

#[test]
fn wire_dot_out_marks_dots_as_outputs() {
    let mut world = World::new();
    world.set_block(pos(0, 0, 0), wire(5, false));
    let opts = CompilerOptions { optimize: true, wire_dot_out: true, custom_io: vec![] };
    let mut graph = CompileGraph::new();
    IdentifyNodes.run_pass(&mut graph, &opts, &world, bounds());
    assert_eq!(graph.node_bound(), 1);
    assert!(graph.node(0).is_output);
    assert_eq!(graph.node(0).state, NodeState { powered: true, repeater_locked: false, output_strength: 5 });
}

#[test]
fn signs_carry_no_annotations() {
    let mut world = World::new();
    world.set_block(pos(0, 0, 0), Block::RedstoneLamp { lit: false });
    world.set_block(pos(0, 0, 1), Block::WallSign { facing: BlockDirection::South });
    world.set_block_entity(
        pos(0, 0, 1),
        BlockEntity::Sign { front_rows: vec!["{\"text\":\"[probe]\"}".to_string(), "not json".to_string()] },
    );
    let graph = compile(&world, &options(false, vec![]));
    assert_eq!(graph.node_bound(), 1);
    assert!(NodeAnnotation::parse("[probe]").is_none());
    assert!(NodeAnnotation::parse("plain").is_none());
}

#[test]
fn pass_names() {
    assert_eq!(IdentifyNodes.status_message(), "Identifying nodes");
    assert_eq!(IdentifyNodes.driver_key(), "identify-nodes");
    assert_eq!(InputSearch.status_message(), "Searching for links");
    assert_eq!(InputSearch.driver_key(), "input-search");
}

#[test]
fn wire_on_top_of_wire_is_followed() {
    // lamp, then a wire with another wire on top of it, and a lever on the upper wire.
    let mut world = World::new();
    world.set_block(pos(0, 0, 0), Block::RedstoneLamp { lit: false });
    world.set_block(pos(1, 0, 0), wire(0, true));
    world.set_block(pos(1, 1, 0), wire(0, true));
    world.set_block(pos(1, 2, 0), lever());
    let graph = compile(&world, &options(false, vec![]));
    assert_eq!(graph.node_bound(), 4);
    let into_lamp: Vec<CompileEdge> = edges(&graph).into_iter().filter(|e| e.target == 0).collect();
    // The lamp follows the wire beside it, and through it the wire on top, to the lever.
    assert_eq!(into_lamp[0], edge(3, 0, LinkType::Default, 0));
    assert!(into_lamp.iter().all(|e| e.source == 3 && e.link.ty == LinkType::Default && e.link.ss <= 15));
    // The lower wire takes power from the lever through the upper wire too.
    assert!(edges(&graph).contains(&edge(3, 1, LinkType::Default, 0)));
}
