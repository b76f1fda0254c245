# Semantic checks, verified

This crate holds the semantic checks of a small declarative language: the
checks that run over a parsed syntax tree and report what is wrong with a
program before it is lowered. Each check is an executable function whose
contract states, over a mathematical model of the syntax tree and of the
analyzer's state, exactly which diagnostics it adds and how it changes that
state. Verus proves each function against its contract.

## Layout

- `src/ast.rs`, `src/sem_type.rs`, `src/symbols.rs`, `src/error.rs`: the
  syntax tree, the semantic types with their views, the symbol table and the
  diagnostics, each with the view the contracts speak of.
- `src/analyzer.rs`: the analyzer's state and the operations that add a
  diagnostic.
- One module per group of checks: names and definitions (`duplicate_names`,
  `private_in_public`, `public_closure_field`, `type_validation`,
  `qualified_types`, `modules`), closures and their captures (`closures`,
  `free_vars`, `escape`, `closure_params`, `closure_expr`), calls (`call_shape`,
  `overload_choice`, `function_calls`, `method_lookup`, `method_calls`,
  `method_conventions`, `mut_args`, `exclusivity`, `generic_bounds`),
  instantiations and matches (`struct_checks`, `enum_args`, `control_flow`,
  `patterns`), `let` bindings and their annotations (`let_checks`), literals and keys (`literals`, `key_types`, `float_keys`,
  `equatable`), sequences (`sequence_placement`, `sequence_linear`), references
  and field chains (`references`), the scope discipline of blocks and the
  nesting limit of the expression walk (`block_scope`), and the rewrite of
  value paths (`value_paths`).
- `src/laws.rs`: properties that relate several checks or hold of every
  input, stated as proof functions.
- `tests/`: the checks run on concrete syntax trees.

## What the checks take as given

The checks never infer a type themselves. Where a check needs the type of an
expression, whether an expression is a mutable place, or whether one type
satisfies another, the caller passes that result as an argument, and the
contract states the diagnostics for every value of it.

## What the library does not hold

The walk over expressions is not part of the library: there is no function
that visits every node of an expression, block or `let` value and dispatches
to the checks above. The library holds the checks that such a walk runs at
each node, the scope discipline it follows around blocks and closure bodies
(`open_block_scope`/`close_block_scope`, `enter_closure_expr`/
`leave_closure_expr`, `enter_expr`/`leave_expr`), and the check of a
module-level `let` once its value has been walked (`validate_let_statement`).
A caller that walks expressions calls these in order and passes the results
of type inference for each node.
