#![verifier::loop_isolation(false)]
//! Semantic checks of a small declarative language, over its syntax tree.

pub mod analyzer;
pub mod arg_types;
pub mod block_scope;
pub mod ast;
pub mod call_shape;
pub mod closure_expr;
pub mod closure_params;
pub mod closures;
pub mod control_flow;
pub mod duplicate_names;
pub mod enum_args;
pub mod equatable;
pub mod error;
pub mod escape;
pub mod exclusivity;
pub mod expected;
pub mod expr_checks;
pub mod float_keys;
pub mod function_calls;
pub mod generic_bounds;
pub mod free_vars;
pub mod key_types;
pub mod laws;
pub mod let_checks;
pub mod literals;
pub mod method_calls;
pub mod method_conventions;
pub mod method_lookup;
pub mod module_functions;
pub mod modules;
pub mod mut_args;
pub mod outer_frames;
pub mod overload_choice;
pub mod patterns;
pub mod private_in_public;
pub mod public_closure_field;
pub mod qualified_types;
pub mod references;
pub mod report_laws;
pub mod sem_type;
pub mod sequence_linear;
pub mod sequence_placement;
pub mod struct_checks;
pub mod symbols;
pub mod text;
pub mod type_names;
pub mod type_validation;
pub mod value_paths;
