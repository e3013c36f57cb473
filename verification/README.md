# libcpg

A verified library for building and analysing **code property graphs**: one
node set shared by an abstract syntax tree, a control-flow graph, a data-flow
graph and a program dependence graph. The library is written in Verus; its
own logic carries contracts that the verifier proves.

Calls into other code stand behind trusted wrappers whose contracts are
believed, not proved: the tree-sitter parser and grammars (`parse.rs`,
`parser_registry.rs`), petgraph's dominator computation (`pdg.rs`), and one
std text function, case folding (`text.rs`). Each
wrapper's doc comment says what its contract claims of the code it calls.
What tree-sitter reports of a node is named over plain values: the language,
the parsed text and the child positions that lead to the node. `syntax_tree`
and `build` state that the tree they read is the parse, node by node and
child by child, and `syntax_tree` fails only on a node whose span does not
fit the text or on a parse too large to index; whether tree-sitter accepts a
grammar, and which spans it reports, are tree-sitter's to decide.

## Layout

- `src/graph.rs`, `src/overlay.rs`, `src/reach.rs` — the graph, its edge
  overlays, and reachability over adjacency lists.
- `src/syntax.rs`, `src/text.rs` — parse trees as plain values, and the text
  operations the builders use.
- `src/builder/` — parsing with tree-sitter (`parse.rs`, `parser_registry.rs`),
  mapping grammar kinds to node kinds (`node_mapper.rs`), the graph builder
  (`ts_builder.rs`), and the control-flow, data-flow and dependence passes
  (`cfg.rs`, `dfg.rs`, `pdg.rs`, with backward and forward slicing).
  `cfg_rules.rs` and `dfg_rules.rs` state, construct by construct, exactly
  which control-flow and data-flow edges the passes add and in which order.
- `src/scc.rs` — strongly-connected components of a function's control flow
  and of the call graph, with the condensation.
- `src/algorithms/` — algorithm families, signatures and complexity classes,
  and the detectors that recognise loops, recursion, complexity and algorithm
  families.
- `src/gnn.rs` — the discrete side of message passing (feature slots and
  message sources).
- `app/` — what needs I/O, serde, `std::error::Error` or floating point:
  building from a file, serde forms of the decomposition types, error values,
  and the numeric graph-neural-network embeddings.
- `tests/` — tests of the library, run against the compiled crate.

## Laws

Public proof functions named `law_*` state properties that span functions:
for example that a second control-flow, data-flow or dependence pass adds
no edge, that slices stay within reach of their criterion and grow with
their size bound, that the condensation of the components is acyclic, that a decomposition is
acyclic exactly when its graph has no cycle and counts each node once, that
each data-flow option switches one family of edges and no other, that
deeper loop nesting never gives a better complexity class, and that
better-than on complexity classes is a strict weak order.
