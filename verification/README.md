# redpiler

The frontend of a redstone circuit compiler, with its contracts proved by Verus.

Given a world of blocks and a bounding box, two passes build a compile graph:

- `IdentifyNodes` turns every redstone component in the box into a node (wires are
  left out when optimizing, except those joined to custom IO wires) and reads sign
  annotations.
- `InputSearch` adds the edges: for each node, which nodes power it, how strongly
  (signal-strength distance) and on which side (default or side input).

The rail rules that a rail chain follows (shape on placement, the powered-rail chain
walk of at most eight rails) and the tick queue that a backend runs the graph with
stand beside them.

## Layout

- `src/geometry.rs`: positions, faces, horizontal directions.
- `src/blocks.rs`, `src/world.rs`: the blocks the passes tell apart, and a world that
  maps positions to blocks and block entities (air where nothing was placed).
- `src/redstone.rs`: comparator far input and note-block rules.
- `src/compile_graph.rs`: nodes, links, edges and the graph the passes fill.
- `src/identify_nodes.rs`, `src/input_search.rs`: the two passes. Each pass's result
  is stated exactly over spec functions of the world: the nodes added, and the edges
  added for each node. The edge search asks that every node it looks up by position
  exists (what strongly powers a solid block it passes through, a diode beside a
  repeater, an override block in front of a comparator), and that node positions lie
  in the world range.
- `src/rail.rs`: rail shapes and rail chains.
- `src/tick_queue.rs`: scheduled ticks, ordered by time and priority.
- `src/fx.rs`, `src/json.rs`: the calls into `rustc-hash` and `serde_json`, each with
  the contract the rest of the library relies on.

Laws that relate several functions stand as public `proof fn`s in the module they are
about; the tests under `tests/` run the library on concrete worlds.
