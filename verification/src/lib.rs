//! Verified generation of the JavaScript ASTs that Relay emits for GraphQL
//! operations and fragments, and reachability of fragment definitions.
pub mod ast;
pub mod strings;
pub mod ir;
pub mod constants;
pub mod builder;
pub mod arguments;
pub mod paths;
pub mod selection_trees;
pub mod directives;
pub mod fields;
pub mod selections;
pub mod hashing;
pub mod definition_trees;
pub mod definitions;
pub mod codegen;
pub mod syntax;
pub mod dependencies;
pub mod laws;
pub mod node_laws;
