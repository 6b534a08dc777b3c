//! The toylang language: its syntax, its registry of definitions, its types.
pub mod answers;
pub mod ast;
pub mod callbacks_impl;
pub mod deps;
pub mod deps_laws;
pub mod emission_laws;
pub mod lexer;
pub mod lexer_laws;
pub mod meaning;
pub mod parser;
pub mod parser_laws;
pub mod program_laws;
pub mod registry;
pub mod roots;
pub mod session;
pub mod substitute;
pub mod substitute_laws;
pub mod type_resolve;
pub mod typed_ast;
pub mod typing_laws;
pub mod validate;
pub mod validate_laws;
pub mod wire_registry;
pub mod wire_syntax;
pub mod wire_types;
