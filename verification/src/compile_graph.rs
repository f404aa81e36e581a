//! The graph the compiler builds: one node per redstone component, one edge per way a
//! component's output reaches another's input.
use vstd::prelude::*;
use crate::blocks::{Block, ComparatorMode, Instrument};
use crate::geometry::{BlockFace, BlockPos};

verus! {

/// The options of a compilation that the frontend passes read.
pub struct CompilerOptions {
    /// Leave plain wires out of the graph.
    pub optimize: bool,
    /// Treat wire dots as outputs.
    pub wire_dot_out: bool,
    /// Positions of components that act as inputs and outputs whatever their kind.
    pub custom_io: Vec<BlockPos>,
}

/// The index of a node in a [`CompileGraph`].
pub type NodeIdx = usize;

#[derive(Clone, Copy, Debug, PartialEq, Eq, Structural)]
pub enum NodeType {
    Repeater { delay: u8, facing_diode: bool },
    Torch,
    Comparator { mode: ComparatorMode, far_input: Option<u8>, facing_diode: bool },
    Lamp,
    Button,
    Lever,
    PressurePlate,
    Trapdoor,
    Wire,
    Constant,
    NoteBlock { instrument: Instrument, note: u8 },
    Observer { facing: BlockFace },
    PoweredRail,
    ActivatorRail,
}

impl NodeType {
    pub open spec fn spec_is_normally_input(self) -> bool {
        self is Button || self is Lever || self is PressurePlate
    }

    /// Components a player drives: buttons, levers and pressure plates.
    #[verifier::when_used_as_spec(spec_is_normally_input)]
    pub fn is_normally_input(self) -> (b: bool)
        ensures
            b == self.spec_is_normally_input(),
    {
        matches!(self, NodeType::Button | NodeType::Lever | NodeType::PressurePlate)
    }

    pub open spec fn spec_is_normally_output(self) -> bool {
        self is Lamp || self is Trapdoor || self is NoteBlock
    }

    /// Components whose state is visible: lamps, trapdoors and note blocks.
    #[verifier::when_used_as_spec(spec_is_normally_output)]
    pub fn is_normally_output(self) -> (b: bool)
        ensures
            b == self.spec_is_normally_output(),
    {
        matches!(self, NodeType::Lamp | NodeType::Trapdoor | NodeType::NoteBlock { .. })
    }
}

/// The state a node starts the simulation with.
#[derive(Clone, Copy, Debug, PartialEq, Eq, Structural)]
pub struct NodeState {
    pub powered: bool,
    pub repeater_locked: bool,
    pub output_strength: u8,
}

impl NodeState {
    /// An on/off component: full strength when powered.
    pub open spec fn spec_simple(powered: bool) -> NodeState {
        NodeState { powered, repeater_locked: false, output_strength: if powered { 15 } else { 0 } }
    }

    #[verifier::when_used_as_spec(spec_simple)]
    pub fn simple(powered: bool) -> (s: NodeState)
        ensures
            s == NodeState::spec_simple(powered),
    {
        NodeState { powered, repeater_locked: false, output_strength: if powered { 15 } else { 0 } }
    }

    pub open spec fn spec_repeater(powered: bool, locked: bool) -> NodeState {
        NodeState { powered, repeater_locked: locked, output_strength: if powered { 15 } else { 0 } }
    }

    /// A repeater, which may be locked.
    #[verifier::when_used_as_spec(spec_repeater)]
    pub fn repeater(powered: bool, locked: bool) -> (s: NodeState)
        ensures
            s == NodeState::spec_repeater(powered, locked),
    {
        NodeState { powered, repeater_locked: locked, output_strength: if powered { 15 } else { 0 } }
    }

    pub open spec fn spec_comparator(powered: bool, strength: u8) -> NodeState {
        NodeState { powered, repeater_locked: false, output_strength: strength }
    }

    /// A comparator with the strength it outputs.
    #[verifier::when_used_as_spec(spec_comparator)]
    pub fn comparator(powered: bool, strength: u8) -> (s: NodeState)
        ensures
            s == NodeState::spec_comparator(powered, strength),
    {
        NodeState { powered, repeater_locked: false, output_strength: strength }
    }

    pub open spec fn spec_ss(ss: u8) -> NodeState {
        NodeState { powered: ss > 0, repeater_locked: false, output_strength: ss }
    }

    /// A component with a signal strength; powered when that is above zero.
    #[verifier::when_used_as_spec(spec_ss)]
    pub fn ss(ss: u8) -> (s: NodeState)
        ensures
            s == NodeState::spec_ss(ss),
    {
        NodeState { powered: ss > 0, repeater_locked: false, output_strength: ss }
    }
}

/// A node of the graph.
#[derive(Debug)]
pub struct CompileNode {
    pub ty: NodeType,
    /// The position of the component and its block.
    pub block: Option<(BlockPos, Block)>,
    /// Further positions that the node stands for.
    pub aliased_blocks: Vec<(BlockPos, Block)>,
    pub name: Option<String>,
    pub state: NodeState,
    pub is_input: bool,
    pub is_output: bool,
}

/// Whether a link feeds the main input of a component or its side.
#[derive(Clone, Copy, Debug, PartialEq, Eq, Structural)]
pub enum LinkType {
    Default,
    Side,
}

/// An edge: the link type and the signal-strength loss along it.
#[derive(Clone, Copy, Debug, PartialEq, Eq, Structural)]
pub struct CompileLink {
    pub ty: LinkType,
    pub ss: u8,
}

impl CompileLink {
    pub fn new(ty: LinkType, ss: u8) -> (l: CompileLink)
        ensures
            l == (CompileLink { ty, ss }),
    {
        CompileLink { ty, ss }
    }

    pub fn default(ss: u8) -> (l: CompileLink)
        ensures
            l == (CompileLink { ty: LinkType::Default, ss }),
    {
        CompileLink { ty: LinkType::Default, ss }
    }

    pub fn side(ss: u8) -> (l: CompileLink)
        ensures
            l == (CompileLink { ty: LinkType::Side, ss }),
    {
        CompileLink { ty: LinkType::Side, ss }
    }
}

/// An edge from `source` to `target`.
#[derive(Clone, Copy, Debug, PartialEq, Eq, Structural)]
pub struct CompileEdge {
    pub source: NodeIdx,
    pub target: NodeIdx,
    pub link: CompileLink,
}

/// The graph: nodes indexed from zero in the order they were added, edges in the order
/// they were added.
pub struct CompileGraph {
    nodes: Vec<CompileNode>,
    edges: Vec<CompileEdge>,
}

impl CompileGraph {
    pub closed spec fn nodes(&self) -> Seq<CompileNode> {
        self.nodes@
    }

    pub closed spec fn edges(&self) -> Seq<CompileEdge> {
        self.edges@
    }

    /// Every edge joins two nodes of the graph.
    pub open spec fn wf(&self) -> bool {
        forall|i: int|
            0 <= i < self.edges().len() ==> (#[trigger] self.edges()[i]).source < self.nodes().len()
                && self.edges()[i].target < self.nodes().len()
    }

    /// An empty graph.
    pub fn new() -> (g: CompileGraph)
        ensures
            g.wf(),
            g.nodes().len() == 0,
            g.edges().len() == 0,
    {
        CompileGraph { nodes: Vec::new(), edges: Vec::new() }
    }

    /// Adds a node; it gets the next index.
    pub fn add_node(&mut self, node: CompileNode) -> (idx: NodeIdx)
        requires
            old(self).wf(),
            old(self).nodes().len() < usize::MAX,
        ensures
            final(self).wf(),
            idx == old(self).nodes().len(),
            final(self).nodes() == old(self).nodes().push(node),
            final(self).edges() == old(self).edges(),
    {
        let idx = self.nodes.len();
        self.nodes.push(node);
        idx
    }

    /// Adds an edge between two nodes of the graph.
    pub fn add_edge(&mut self, source: NodeIdx, target: NodeIdx, link: CompileLink)
        requires
            old(self).wf(),
            source < old(self).nodes().len(),
            target < old(self).nodes().len(),
        ensures
            final(self).wf(),
            final(self).nodes() == old(self).nodes(),
            final(self).edges() == old(self).edges().push(CompileEdge { source, target, link }),
    {
        self.edges.push(CompileEdge { source, target, link });
    }

    /// One past the largest node index.
    pub fn node_bound(&self) -> (n: usize)
        ensures
            n == self.nodes().len(),
    {
        self.nodes.len()
    }

    /// Whether `idx` is the index of a node.
    pub fn contains_node(&self, idx: NodeIdx) -> (b: bool)
        ensures
            b == (idx < self.nodes().len()),
    {
        idx < self.nodes.len()
    }

    /// The node at `idx`.
    pub fn node(&self, idx: NodeIdx) -> (n: &CompileNode)
        requires
            idx < self.nodes().len(),
        ensures
            *n == self.nodes()[idx as int],
    {
        &self.nodes[idx]
    }

    /// The number of edges.
    pub fn edge_count(&self) -> (n: usize)
        ensures
            n == self.edges().len(),
    {
        self.edges.len()
    }

    /// The edge at `i`.
    pub fn edge(&self, i: usize) -> (e: CompileEdge)
        requires
            i < self.edges().len(),
        ensures
            e == self.edges()[i as int],
    {
        self.edges[i]
    }
}

} // verus!
