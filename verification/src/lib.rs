//! A type-resolution engine for a statically-typed, structurally-typed
//! scripting language.
//!
//! The engine walks an already-parsed syntax tree (modelled as plain data in
//! [`ast`]), resolves type annotations and simple expressions to canonical
//! [`type_info::TypeInfo`] values, and records them in a per-file,
//! node-indexed type cache together with a global symbol table for named
//! types.

pub mod analyzer;
pub mod ast;
pub mod engine;
pub mod resolve;
pub mod tables;
mod type_info;
pub mod visitor;

pub use type_info::TsKeywordType;
pub use type_info::TypeInfo;
pub use type_info::TypeInfoV;
pub use type_info::type_info_model;
pub use type_info::entries_model;
