use redpiler::blocks::{Block, LeverFace, RedstoneWire, RedstoneWireSide, Repeater};
use redpiler::compile_graph::{CompileGraph, CompilerOptions};
use redpiler::geometry::{BlockDirection, BlockPos};
use redpiler::identify_nodes::IdentifyNodes;
use redpiler::world::World;

fn pos(x: i32, y: i32, z: i32) -> BlockPos {
    BlockPos::new(x, y, z)
}

fn lever() -> Block {
    Block::Lever { face: LeverFace::Floor, facing: BlockDirection::North, powered: false }
}

fn wire() -> Block {
    Block::RedstoneWire(RedstoneWire {
        north: RedstoneWireSide::Unconnected,
        south: RedstoneWireSide::Unconnected,
        east: RedstoneWireSide::Side,
        west: RedstoneWireSide::Side,
        power: 0,
    })
}

fn trapdoor() -> Block {
    Block::IronTrapdoor { powered: false }
}

fn identify(world: &World, optimize: bool) -> CompileGraph {
    let mut graph = CompileGraph::new();
    let options = CompilerOptions { optimize, wire_dot_out: false, custom_io: vec![] };
    IdentifyNodes.run_pass(&mut graph, &options, world, (pos(0, 0, 0), pos(15, 15, 15)));
    graph
}

#[test]
fn compile_graph_matches_simulated_node_count() {
    let mut world = World::new();
    world.set_block(pos(0, 1, 0), lever());
    world.set_block(pos(1, 1, 0), Block::Repeater(Repeater { delay: 1, facing: BlockDirection::West, locked: false, powered: false }));
    world.set_block(pos(2, 1, 0), trapdoor());
    // Lever, repeater, trapdoor: three distinct components, even when optimizing.
    let graph = identify(&world, true);
    assert_eq!(graph.node_bound(), 3, "expected 3 nodes, got {}", graph.node_bound());
}

#[test]
fn compile_graph_structural_keeps_wires_unfolded() {
    let mut world = World::new();
    world.set_block(pos(0, 1, 0), lever());
    world.set_block(pos(1, 1, 0), wire());
    world.set_block(pos(2, 1, 0), wire());
    world.set_block(pos(3, 1, 0), trapdoor());
    // Without optimizing, every component, each wire included, is its own node.
    let structural = identify(&world, false);
    assert_eq!(
        structural.node_bound(),
        4,
        "expected lever + 2 wires + trapdoor = 4 structural nodes, got {}",
        structural.node_bound()
    );
    // Optimizing leaves the plain wires out.
    let optimized = identify(&world, true);
    assert!(
        optimized.node_bound() < structural.node_bound(),
        "optimized graph ({}) should be smaller than the structural graph ({})",
        optimized.node_bound(),
        structural.node_bound()
    );
}
