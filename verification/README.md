# apollo_federation

The parts of a GraphQL federation that decide things, verified with Verus: merging the schemas of
subgraphs into a supergraph, bringing operations into the form that is planned, finding the ways
through the query graph that an operation can take, and putting plans together.

## Layout

- `src/ast.rs`, `src/schema/`, `src/link/`: schemas as plain values, with the values and types of
  the GraphQL language, and their links to specifications.
- `src/compiler.rs`, `src/built_in.rs`, `src/number.rs`: what apollo-compiler reads, prints and
  validates, behind conversions from and to its types, the schemas that it reads, and numbers as they
  are written.
- `src/collections.rs`, `src/text.rs`, `src/error.rs`, `src/fallible.rs`: sets and maps that keep the
  order of insertion, texts, errors, and loops whose steps may fail.
- `src/merge/`: composition of a supergraph.
- `src/operation/`: operations, their selections, and everything that changes them: expanding
  fragments, merging, rebasing, aliases, `@defer`, conditions, variables.
- `src/query_graph/`: the query graph, paths through it, and how a path goes on with an element of an
  operation.
- `src/query_plan/`: the configuration of the planner, dependency graphs, plans, and the planner.
- `src/connectors/`: visitors of nested selections.
- `app/`: the command line program, with the conversion of supergraphs to apollo-compiler.

Every type that holds data has a mathematical counterpart, named like it with `View` at the end, and
contracts are stated over those. Functions that may fail return the same error as the function of
their contract does. What holds of several functions together is stated in public proof functions
whose names begin with `law_`.

Steps that are not part of this crate, such as looking for the best plan or resolving the conditions
of an edge, are methods of the traits `GraphPathSteps` and `PlanningSteps`. Each has a model, in
terms of which the rest is stated, and an implementation for the case of a single subgraph.
