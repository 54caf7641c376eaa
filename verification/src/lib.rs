//! Hierarchical scope resolution for a small language's compiler front end.
//!
//! The library walks a parsed compilation unit, assigns every declaration
//! (functions, parameters, type aliases) a `ScopedId` that encodes its
//! position in the lexical nesting tree, records name visibility in a
//! `NameScopeBuilder`, and accumulates duplicate-declaration diagnostics
//! without aborting on the first failure.

pub mod ast;
pub mod check;
pub mod ident;
pub mod identify;
pub mod item_namer;
pub mod laws;
pub mod resolution;
pub mod scoped_id;
pub mod span;
