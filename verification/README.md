# graph_editor

The model of a small graph editor, verified with Verus.

- `src/graph_def.rs`: a graph definition (node names and weighted edges) and
  the insertions that build its directed and its undirected graph.
- `src/graph_index.rs`: the check that a built graph names no node it does not
  hold, the translation of a graph given by names into one given by positions,
  and the number and mean weight of the edges joining two nodes.
- `src/layout.rs`: the tree layout of an acyclic graph on a grid.
- `src/app_state.rs`: the editor's page, dialogs and save decisions.
- `src/laws.rs`: properties that span these functions, proved.
- `app/`: the window around the library (egui/eframe), YAML reading and
  writing of definitions, file writes, the graph type that the editor draws,
  and the floating-point layouts.
